use fast_tak::takparse::Move;
use fast_tak::{Game, GameResult};
use takzero::fixed::{Fixed, ONE};
use takzero::search::agent::{Agent, Policy};
use takzero::search::env::{Environment, Terminal};
use takzero::search::eval::Eval;
use takzero::search::node::Node;

/// A game of Tak on a board of three by three, without komi.
#[derive(Clone, Default)]
struct Tak(Game<3, 0>);

impl Environment for Tak {
    type Action = Move;

    fn populate_actions(&self, actions: &mut Vec<Move>) {
        self.0.possible_moves(actions);
    }

    fn step(&mut self, action: Move) {
        self.0.play(action).expect("Action should be valid.");
    }

    fn terminal(&self) -> Option<Terminal> {
        match self.0.result() {
            GameResult::Winner { color, .. } => {
                if color == self.0.to_move {
                    Some(Terminal::Win)
                } else {
                    Some(Terminal::Loss)
                }
            }
            GameResult::Draw { .. } => Some(Terminal::Draw),
            GameResult::Ongoing => None,
        }
    }

    fn steps(&self) -> u16 {
        self.0.ply
    }
}

/// An oracle without an opinion: every action is as likely as any other,
/// and every position is worth nothing.
struct Dummy;

struct Uniform;

impl<A> Policy<A> for Uniform {
    fn probability(&self, _: A) -> Fixed {
        ONE
    }
}

impl<E: Environment> Agent<E> for Dummy {
    type Policy = Uniform;
    type Context = ();

    fn policy_value(&self, _: &E) -> (Uniform, Fixed) {
        (Uniform, 0)
    }
}

#[test]
fn find_tinue_easy() {
    const MAX_VISITS: usize = 3_000;

    let game = Tak(Game::from_ptn_moves(&["a3", "c1", "c2", "c3", "b3", "c3-"]));
    let mut root: Node<Tak> = Node::default();
    let mut actions = Vec::new();

    (0..MAX_VISITS)
        .find(|_| {
            matches!(
                root.simulate(game.clone(), &mut actions, &Dummy),
                Eval::Win(_)
            )
        })
        .expect("This position is solvable with MAX_VISITS.");

    assert_eq!(
        root.children
            .iter()
            .find(|(_, node)| node.evaluation.is_loss())
            .unwrap()
            .0,
        "b1".parse().unwrap(),
    );
}

/// The same search one move earlier in the game. Among children that lag
/// equally the first is taken, and in that order the proof is complete with
/// the visit 300,033, much of the tree below the other moves searched
/// before it.
#[test]
fn find_tinue_deeper() {
    const MAX_VISITS: usize = 400_000;

    let game = Tak(Game::from_ptn_moves(&["a3", "a1", "b1", "c1"]));
    let mut root: Node<Tak> = Node::default();
    let mut actions = Vec::new();

    let solved = (0..MAX_VISITS)
        .find(|_| {
            matches!(
                root.simulate(game.clone(), &mut actions, &Dummy),
                Eval::Win(_)
            )
        })
        .expect("This position is solvable with MAX_VISITS.");

    assert_eq!(solved + 1, 300_033);
    assert_eq!(root.visit_count, 300_033);
    assert_eq!(root.evaluation, Eval::Win(3));
    assert_eq!(
        root.children
            .iter()
            .find(|(_, node)| node.evaluation.is_loss())
            .unwrap()
            .0,
        "c2".parse().unwrap(),
    );
}
