use rand::rngs::StdRng;
use rand::SeedableRng;
use takzero::fixed::{Fixed, ONE};
use takzero::search::agent::{Agent, Policy};
use takzero::search::env::{new_opening, play_chosen, Environment, Terminal};
use takzero::search::eval::Eval;
use takzero::search::node::Node;
use takzero::target::Replay;

/// A heap of stones of which each side in turn takes one or two; who finds
/// the heap empty has lost.
#[derive(Clone, Debug, PartialEq)]
struct Nim {
    stones: u8,
    taken: u16,
}

impl Nim {
    fn new(stones: u8) -> Self {
        Nim { stones, taken: 0 }
    }
}

impl Default for Nim {
    fn default() -> Self {
        Nim::new(10)
    }
}

impl Environment for Nim {
    type Action = u8;

    fn populate_actions(&self, actions: &mut Vec<u8>) {
        for take in 1..=2 {
            if take <= self.stones {
                actions.push(take);
            }
        }
    }

    fn step(&mut self, action: u8) {
        assert!(1 <= action && action <= 2 && action <= self.stones);
        self.stones -= action;
        self.taken += 1;
    }

    fn terminal(&self) -> Option<Terminal> {
        if self.stones == 0 {
            Some(Terminal::Loss)
        } else {
            None
        }
    }

    fn steps(&self) -> u16 {
        self.taken
    }
}

/// A game given by its tree: from position `p` the actions lead to the
/// positions `moves[p]`, and a position without actions ends the game with
/// `results[p]`.
#[derive(Clone, Default)]
struct Chart {
    position: usize,
    moves: Vec<Vec<usize>>,
    results: Vec<Option<Terminal>>,
    played: u16,
}

impl Environment for Chart {
    type Action = usize;

    fn populate_actions(&self, actions: &mut Vec<usize>) {
        actions.extend(self.moves[self.position].iter().copied());
    }

    fn step(&mut self, action: usize) {
        assert!(self.moves[self.position].contains(&action));
        self.position = action;
        self.played += 1;
    }

    fn terminal(&self) -> Option<Terminal> {
        self.results[self.position]
    }

    fn steps(&self) -> u16 {
        self.played
    }
}

/// The oracle that holds every action equally likely and every position
/// worth `self.0`.
struct Flat(Fixed);

struct Uniform;

impl<A> Policy<A> for Uniform {
    fn probability(&self, _: A) -> Fixed {
        ONE
    }
}

impl<E: Environment> Agent<E> for Flat {
    type Policy = Uniform;
    type Context = ();

    fn policy_value(&self, _: &E) -> (Uniform, Fixed) {
        (Uniform, self.0)
    }
}

/// The oracle that prefers to take two stones.
struct Greedy;

struct TakeTwo;

impl Policy<u8> for TakeTwo {
    fn probability(&self, action: u8) -> Fixed {
        if action == 2 {
            3 * (ONE / 4)
        } else {
            ONE / 4
        }
    }
}

impl Agent<Nim> for Greedy {
    type Policy = TakeTwo;
    type Context = ();

    fn policy_value(&self, env: &Nim) -> (TakeTwo, Fixed) {
        (TakeTwo, Fixed::from(env.stones) * (ONE / 16))
    }
}

fn search<E: Environment, A: Agent<E>>(root: &mut Node<E>, env: &E, agent: &A, visits: usize) {
    let mut actions = Vec::new();
    for _ in 0..visits {
        if root.evaluation.is_win() {
            break;
        }
        root.simulate(env.clone(), &mut actions, agent);
        assert!(actions.is_empty());
    }
}

/// Whether the tree is in order all the way down: counts, distances, and
/// proofs that agree with the children.
fn check<E: Environment>(node: &Node<E>) {
    if node.visit_count == 0 {
        assert!(node.children.is_empty());
    }
    if let Some(ply) = node.evaluation.ply() {
        assert!(ply <= node.visit_count);
    }
    let evals: Vec<Eval> = node.children.iter().map(|(_, child)| child.evaluation).collect();
    if !evals.is_empty() {
        match node.evaluation {
            Eval::Value(mean) => {
                assert!(-ONE <= mean && mean <= ONE);
                assert!(evals.iter().any(|eval| !eval.is_win()));
            }
            Eval::Win(ply) => assert!(evals.contains(&Eval::Loss(ply))),
            Eval::Loss(ply) => {
                assert!(evals.iter().all(|eval| eval.is_win()));
                assert_eq!(
                    ply,
                    1 + evals.iter().filter_map(|eval| eval.ply()).max().unwrap()
                );
            }
            Eval::Draw(ply) => {
                assert!(evals.iter().all(|eval| eval.is_win() || eval.is_draw()));
                let draws = evals.iter().filter(|eval| eval.is_draw());
                assert_eq!(ply, 1 + draws.filter_map(|eval| eval.ply()).max().unwrap());
            }
        }
    }
    for (_, child) in node.children.iter() {
        assert!(child.visit_count < node.visit_count);
        check(child);
    }
}

#[test]
fn first_visit_expands() {
    let mut root: Node<Nim> = Node::from_policy(ONE / 8);
    let mut actions = Vec::new();
    let eval = root.simulate(Nim::new(5), &mut actions, &Greedy);
    assert_eq!(eval, Eval::Value(5 * (ONE / 16)));
    assert_eq!(root.evaluation, eval);
    assert_eq!(root.visit_count, 1);
    assert_eq!(root.probability, ONE / 8);
    assert_eq!(root.variance, 0);
    assert_eq!(root.children.len(), 2);
    assert_eq!(root.children[0].0, 1);
    assert_eq!(root.children[1].0, 2);
    assert_eq!(root.children[0].1.probability, ONE / 4);
    assert_eq!(root.children[1].1.probability, 3 * (ONE / 4));
    for (_, child) in root.children.iter() {
        assert_eq!(child.evaluation, Eval::Value(0));
        assert_eq!(child.visit_count, 0);
        assert_eq!(child.variance, 0);
        assert!(child.children.is_empty());
    }
    assert!(actions.is_empty());
}

#[test]
fn first_visit_of_a_finished_game_proves_it() {
    let mut root: Node<Nim> = Node::default();
    let mut actions = Vec::new();
    assert_eq!(root.simulate(Nim::new(0), &mut actions, &Greedy), Eval::Loss(0));
    assert_eq!(root.evaluation, Eval::Loss(0));
    assert_eq!(root.visit_count, 1);
    assert!(root.children.is_empty());
}

#[test]
fn estimates_are_stored_as_they_are() {
    let mut actions = Vec::new();
    for estimate in [0, ONE / 3, -ONE, 3 * ONE, Fixed::MAX, Fixed::MIN] {
        let mut root: Node<Nim> = Node::default();
        assert_eq!(
            root.simulate(Nim::new(5), &mut actions, &Flat(estimate)),
            Eval::Value(estimate)
        );
        assert_eq!(root.evaluation, Eval::Value(estimate));
    }
}

#[test]
fn estimates_beyond_one_are_backed_up_as_they_are() {
    let mut root: Node<Nim> = Node::default();
    let mut actions = Vec::new();
    root.simulate(Nim::new(9), &mut actions, &Flat(3 * ONE));
    // (3 * 1 - 3) / 2
    assert_eq!(
        root.simulate(Nim::new(9), &mut actions, &Flat(3 * ONE)),
        Eval::Value(0)
    );
    assert_eq!(root.children[0].1.evaluation, Eval::Value(3 * ONE));
}

#[test]
fn buffer_is_left_as_it_was_where_nothing_gets_children() {
    // A finished game.
    let mut root: Node<Nim> = Node::default();
    let mut actions = vec![7, 8, 9];
    assert_eq!(root.simulate(Nim::new(0), &mut actions, &Flat(0)), Eval::Loss(0));
    assert_eq!(actions, vec![7, 8, 9]);
    // A proven node.
    assert_eq!(root.simulate(Nim::new(0), &mut actions, &Flat(0)), Eval::Loss(0));
    assert_eq!(actions, vec![7, 8, 9]);
    assert_eq!(root.visit_count, 2);
    assert!(root.children.is_empty());
}

#[test]
fn buffer_comes_back_empty_where_a_node_gets_children() {
    let mut root: Node<Nim> = Node::default();
    let mut actions = Vec::new();
    root.simulate(Nim::new(5), &mut actions, &Flat(0));
    assert!(actions.is_empty());
    assert_eq!(root.children.len(), 2);
    root.simulate(Nim::new(5), &mut actions, &Flat(0));
    assert!(actions.is_empty());
    assert_eq!(root.children[0].1.children.len(), 2);
}

#[test]
fn second_visit_descends_by_the_priors() {
    let mut root: Node<Nim> = Node::default();
    let mut actions = Vec::new();
    root.simulate(Nim::new(9), &mut actions, &Greedy);
    // 9/16 at the root; the child after taking two is worth 7/16 to the
    // opponent.
    let eval = root.simulate(Nim::new(9), &mut actions, &Greedy);
    assert_eq!(eval, Eval::Value(update(9 * (ONE / 16), 2, -7 * (ONE / 16))));
    assert_eq!(eval, Eval::Value(ONE / 16));
    assert_eq!(root.visit_count, 2);
    assert_eq!(root.children[0].1.visit_count, 0);
    assert_eq!(root.children[1].1.visit_count, 1);
    assert_eq!(root.children[1].1.evaluation, Eval::Value(7 * (ONE / 16)));
    // 1/4 - 0/4 against 3/4 - 1/4: two again; then 1/4 - 0/5 against
    // 3/4 - 2/5: two again; then 1/4 - 0/6 against 3/4 - 3/6: the first of
    // the two equals, one.
    root.simulate(Nim::new(9), &mut actions, &Greedy);
    root.simulate(Nim::new(9), &mut actions, &Greedy);
    assert_eq!(root.children[0].1.visit_count, 0);
    assert_eq!(root.children[1].1.visit_count, 3);
    root.simulate(Nim::new(9), &mut actions, &Greedy);
    assert_eq!(root.children[0].1.visit_count, 1);
    assert_eq!(root.children[1].1.visit_count, 3);
    check(&root);
}

fn update(mean: Fixed, n: u32, sample: Fixed) -> Fixed {
    takzero::fixed::update_mean(mean, n, sample)
}

#[test]
fn a_move_into_a_lost_position_wins() {
    let mut root: Node<Nim> = Node::default();
    let mut actions = Vec::new();
    assert_eq!(root.simulate(Nim::new(1), &mut actions, &Flat(0)), Eval::Value(0));
    assert_eq!(root.simulate(Nim::new(1), &mut actions, &Flat(0)), Eval::Win(0));
    assert_eq!(root.evaluation, Eval::Win(0));
    assert_eq!(root.children[0].1.evaluation, Eval::Loss(0));
    check(&root);
}

#[test]
fn three_stones_are_lost() {
    let mut root: Node<Nim> = Node::default();
    search(&mut root, &Nim::new(3), &Flat(0), 100);
    assert_eq!(root.evaluation, Eval::Loss(1));
    assert_eq!(root.children[0].1.evaluation, Eval::Win(0));
    assert_eq!(root.children[1].1.evaluation, Eval::Win(0));
    check(&root);
}

#[test]
fn four_stones_are_won_by_taking_one() {
    let mut root: Node<Nim> = Node::default();
    search(&mut root, &Nim::new(4), &Flat(0), 100);
    assert_eq!(root.evaluation, Eval::Win(1));
    assert_eq!(root.children[0].1.evaluation, Eval::Loss(1));
    check(&root);
}

#[test]
fn heaps_are_lost_where_three_divides_them() {
    for stones in 1..=12u8 {
        for agent in [Flat(0), Flat(ONE), Flat(-ONE / 3)] {
            let mut root: Node<Nim> = Node::default();
            search(&mut root, &Nim::new(stones), &agent, 100_000);
            assert_eq!(root.evaluation.is_loss(), stones % 3 == 0);
            assert_eq!(root.evaluation.is_win(), stones % 3 != 0);
            if let Eval::Win(ply) = root.evaluation {
                let winning = usize::from(stones % 3) - 1;
                assert_eq!(root.children[winning].1.evaluation, Eval::Loss(ply));
            }
            check(&root);
        }
    }
}

#[test]
fn proofs_do_not_change_under_further_visits() {
    let mut root: Node<Nim> = Node::default();
    search(&mut root, &Nim::new(6), &Greedy, 1000);
    let proven = root.evaluation;
    assert!(proven.is_loss());
    let visits = root.visit_count;
    let below: Vec<(Eval, u32)> = root
        .children
        .iter()
        .map(|(_, child)| (child.evaluation, child.visit_count))
        .collect();
    let mut actions = Vec::new();
    for more in 1..=10 {
        assert_eq!(root.simulate(Nim::new(6), &mut actions, &Greedy), proven);
        assert_eq!(root.evaluation, proven);
        assert!(root.is_known());
        assert_eq!(root.visit_count, visits + more);
    }
    let after: Vec<(Eval, u32)> = root
        .children
        .iter()
        .map(|(_, child)| (child.evaluation, child.visit_count))
        .collect();
    assert_eq!(below, after);
}

#[test]
fn known_nodes_stay_known_all_over_the_tree() {
    fn proofs<E: Environment>(node: &Node<E>, path: Vec<usize>, found: &mut Vec<(Vec<usize>, Eval)>) {
        if node.is_known() {
            found.push((path.clone(), node.evaluation));
        }
        for (index, (_, child)) in node.children.iter().enumerate() {
            let mut longer = path.clone();
            longer.push(index);
            proofs(child, longer, found);
        }
    }
    fn at<'a, E: Environment>(node: &'a Node<E>, path: &[usize]) -> &'a Node<E> {
        match path.split_first() {
            Some((first, rest)) => at(&node.children[*first].1, rest),
            None => node,
        }
    }
    let mut root: Node<Nim> = Node::default();
    let mut actions = Vec::new();
    let mut found: Vec<(Vec<usize>, Eval)> = Vec::new();
    for _ in 0..2000 {
        if root.evaluation.is_win() {
            break;
        }
        root.simulate(Nim::new(11), &mut actions, &Flat(0));
        for (path, eval) in found.iter() {
            assert_eq!(at(&root, path).evaluation, *eval);
        }
        found.clear();
        proofs(&root, Vec::new(), &mut found);
    }
    assert!(root.evaluation.is_win());
}

#[test]
fn won_children_are_never_visited_again() {
    let mut root: Node<Nim> = Node::default();
    let mut actions = Vec::new();
    let mut counts: Vec<(u32, bool)> = Vec::new();
    for _ in 0..500 {
        if root.is_known() {
            break;
        }
        root.simulate(Nim::new(9), &mut actions, &Flat(0));
        for (index, (_, child)) in root.children.iter().enumerate() {
            if let Some((visits, won)) = counts.get(index) {
                if *won {
                    assert_eq!(child.visit_count, *visits);
                }
            }
        }
        counts = root
            .children
            .iter()
            .map(|(_, child)| (child.visit_count, child.evaluation.is_win()))
            .collect();
    }
    assert_eq!(root.evaluation, Eval::Loss(3));
}

fn chart(moves: Vec<Vec<usize>>, results: Vec<Option<Terminal>>) -> Chart {
    Chart {
        position: 0,
        moves,
        results,
        played: 0,
    }
}

#[test]
fn a_draw_is_the_best_where_nothing_wins() {
    // From 0 to 1, which is won for the opponent, or to 2, which is drawn.
    let game = chart(
        vec![vec![1, 2], vec![], vec![]],
        vec![None, Some(Terminal::Win), Some(Terminal::Draw)],
    );
    let mut root: Node<Chart> = Node::default();
    search(&mut root, &game, &Flat(0), 100);
    assert_eq!(root.evaluation, Eval::Draw(1));
    assert_eq!(root.children[0].1.evaluation, Eval::Win(0));
    assert_eq!(root.children[1].1.evaluation, Eval::Draw(0));
    check(&root);
}

#[test]
fn a_draw_lies_beyond_the_farthest_drawn_child() {
    // 0 -> 1 (drawn at once), 2 (drawn two plies on), 3 (won for the
    // opponent three plies on).
    let game = chart(
        vec![
            vec![1, 2, 3],
            vec![],
            vec![4],
            vec![5],
            vec![6],
            vec![7],
            vec![],
            vec![8],
            vec![],
        ],
        vec![
            None,
            Some(Terminal::Draw),
            None,
            None,
            None,
            None,
            Some(Terminal::Draw),
            None,
            Some(Terminal::Loss),
        ],
    );
    let mut root: Node<Chart> = Node::default();
    search(&mut root, &game, &Flat(ONE / 2), 1000);
    assert_eq!(root.children[0].1.evaluation, Eval::Draw(0));
    assert_eq!(root.children[1].1.evaluation, Eval::Draw(2));
    assert_eq!(root.children[2].1.evaluation, Eval::Win(1));
    assert_eq!(root.evaluation, Eval::Draw(3));
    check(&root);
}

#[test]
fn a_loss_lies_beyond_the_farthest_child() {
    // 0 -> 1 (won for the opponent at once), 2 (won for the opponent in
    // three plies).
    let game = chart(
        vec![vec![1, 2], vec![], vec![3], vec![4], vec![5], vec![]],
        vec![None, Some(Terminal::Win), None, None, None, Some(Terminal::Loss)],
    );
    let mut root: Node<Chart> = Node::default();
    search(&mut root, &game, &Flat(0), 1000);
    assert_eq!(root.children[0].1.evaluation, Eval::Win(0));
    assert_eq!(root.children[1].1.evaluation, Eval::Win(1));
    assert_eq!(root.evaluation, Eval::Loss(2));
    check(&root);
}

#[test]
fn a_position_without_actions_keeps_its_estimate() {
    let game = chart(vec![vec![]], vec![None]);
    let mut root: Node<Chart> = Node::default();
    let mut actions = Vec::new();
    for visit in 1..=5 {
        let eval = root.simulate(game.clone(), &mut actions, &Flat(ONE / 2));
        assert_eq!(eval, Eval::Value(ONE / 2));
        assert_eq!(root.visit_count, visit);
        assert!(root.children.is_empty());
    }
}

#[test]
fn mean_of_a_constant_oracle_under_one_line() {
    // One line of play without an end, every position worth 1/2 to the side
    // to move: each node's mean is the mean of its own estimate and of what
    // came back from below.
    let game = chart(
        vec![vec![1], vec![2], vec![3], vec![4], vec![5], vec![]],
        vec![None, None, None, None, None, None],
    );
    let mut root: Node<Chart> = Node::default();
    let mut actions = Vec::new();
    let half = ONE / 2;
    assert_eq!(root.simulate(game.clone(), &mut actions, &Flat(half)), Eval::Value(half));
    // (1/2 - 1/2) / 2
    assert_eq!(root.simulate(game.clone(), &mut actions, &Flat(half)), Eval::Value(0));
    // The child: (1/2 - 1/2) / 2 = 0; the root: (0 * 2 - 0) / 3.
    assert_eq!(root.simulate(game.clone(), &mut actions, &Flat(half)), Eval::Value(0));
    assert_eq!(root.children[0].1.evaluation, Eval::Value(0));
    assert_eq!(root.children[0].1.children[0].1.evaluation, Eval::Value(half));
    check(&root);
}

#[test]
fn chosen_action_is_played() {
    let mut env = Nim::new(5);
    let mut actions = vec![1, 2];
    assert!(play_chosen(&mut env, &mut actions, Some(1)));
    assert_eq!(env, Nim { stones: 3, taken: 1 });
    assert!(actions.is_empty());
}

#[test]
fn nothing_is_played_without_a_choice() {
    let mut env = Nim::new(5);
    let mut actions = vec![1, 2];
    assert!(!play_chosen(&mut env, &mut actions, None));
    assert_eq!(env, Nim::new(5));
    assert!(actions.is_empty());
    let mut actions = vec![1, 2];
    assert!(!play_chosen(&mut env, &mut actions, Some(2)));
    assert_eq!(env, Nim::new(5));
    assert!(actions.is_empty());
}

#[test]
fn opening_is_two_plies_deep() {
    let mut rng = StdRng::seed_from_u64(123);
    let mut actions = Vec::new();
    let mut seen = [false; 3];
    for _ in 0..200 {
        let env: Nim = new_opening(&mut rng, &mut actions).expect("a heap of ten has actions");
        assert!(actions.is_empty());
        assert_eq!(env.steps(), 2);
        assert!(6 <= env.stones && env.stones <= 8);
        seen[usize::from(env.stones) - 6] = true;
    }
    assert_eq!(seen, [true; 3]);
}

#[test]
fn opening_depends_on_the_generator_alone() {
    let mut actions = Vec::new();
    let first: Vec<Option<Nim>> = {
        let mut rng = StdRng::seed_from_u64(7);
        (0..50).map(|_| new_opening(&mut rng, &mut actions)).collect()
    };
    let second: Vec<Option<Nim>> = {
        let mut rng = StdRng::seed_from_u64(7);
        (0..50).map(|_| new_opening(&mut rng, &mut actions)).collect()
    };
    assert_eq!(first, second);
}

#[test]
fn opening_fails_where_the_game_has_no_actions() {
    #[derive(Clone, Default)]
    struct Over;
    impl Environment for Over {
        type Action = u8;

        fn populate_actions(&self, _: &mut Vec<u8>) {}

        fn step(&mut self, _: u8) {
            unreachable!("there is nothing to play")
        }

        fn terminal(&self) -> Option<Terminal> {
            Some(Terminal::Draw)
        }

        fn steps(&self) -> u16 {
            0
        }
    }
    let mut rng = StdRng::seed_from_u64(1);
    let mut actions = Vec::new();
    assert!(new_opening::<Over>(&mut rng, &mut actions).is_none());
}

#[test]
fn opening_fails_where_the_second_ply_has_no_actions() {
    #[derive(Clone, Default)]
    struct Short(Nim);
    impl Environment for Short {
        type Action = u8;

        fn populate_actions(&self, actions: &mut Vec<u8>) {
            if self.0.taken == 0 {
                actions.push(1);
            }
        }

        fn step(&mut self, action: u8) {
            self.0.step(action);
        }

        fn terminal(&self) -> Option<Terminal> {
            None
        }

        fn steps(&self) -> u16 {
            self.0.taken
        }
    }
    let mut rng = StdRng::seed_from_u64(1);
    let mut actions = Vec::new();
    assert!(new_opening::<Short>(&mut rng, &mut actions).is_none());
    assert!(actions.is_empty());
}

#[test]
fn replay_collects_actions() {
    let mut replay = Replay::new(Nim::new(7));
    assert!(replay.is_empty());
    assert_eq!(replay.len(), 0);
    replay.push(2);
    replay.push(1);
    replay.push(2);
    assert!(!replay.is_empty());
    assert_eq!(replay.len(), 3);
    assert_eq!(replay.actions, vec![2, 1, 2]);
    assert_eq!(replay.env, Nim::new(7));
}

#[test]
fn replay_advances_by_its_first_actions() {
    let mut replay = Replay::new(Nim::new(7));
    for action in [2, 1, 2, 1] {
        replay.push(action);
    }
    replay.advance(0);
    assert_eq!(replay.len(), 4);
    assert_eq!(replay.env, Nim::new(7));
    replay.advance(3);
    assert_eq!(replay.len(), 1);
    assert_eq!(replay.actions, vec![1]);
    assert_eq!(replay.env, Nim { stones: 2, taken: 3 });
    replay.advance(1);
    assert!(replay.is_empty());
    assert_eq!(replay.env, Nim { stones: 1, taken: 4 });
}

#[test]
fn batch_is_judged_slot_by_slot() {
    let envs = vec![Nim::new(3), Nim::new(8), Nim::new(5), Nim::new(1)];
    let actions = vec![vec![1, 2], vec![1, 2], vec![1, 2], vec![1]];
    let mask = vec![true, false, true, true];
    let judged = Greedy.policy_value_uncertainty(&envs, &actions, &mask, &mut ());
    assert_eq!(judged.len(), 3);
    let values: Vec<Fixed> = judged.iter().map(|(_, value, _)| *value).collect();
    assert_eq!(values, vec![3 * (ONE / 16), 5 * (ONE / 16), ONE / 16]);
    for (policy, _, uncertainty) in judged.iter() {
        assert_eq!(*uncertainty, 0);
        assert_eq!(policy.probability(2), 3 * (ONE / 4));
    }
}

#[test]
fn batch_ends_with_its_shortest_part() {
    let envs = vec![Nim::new(3), Nim::new(8), Nim::new(5)];
    let actions = vec![vec![1, 2], vec![1, 2], vec![1, 2]];
    assert_eq!(
        Greedy.policy_value_uncertainty(&envs, &actions, &[true, true], &mut ()).len(),
        2
    );
    assert_eq!(
        Greedy.policy_value_uncertainty(&envs[..1], &actions, &[true, true, true], &mut ()).len(),
        1
    );
    assert_eq!(
        Greedy.policy_value_uncertainty(&envs, &actions[..0], &[true, true, true], &mut ()).len(),
        0
    );
    assert_eq!(
        Greedy.policy_value_uncertainty(&envs, &actions, &[false, false, false], &mut ()).len(),
        0
    );
}

/// A heap of stones that keeps a record of what it is asked.
#[derive(Clone, Default)]
struct Logged {
    nim: Nim,
    record: std::sync::Arc<std::sync::Mutex<Vec<String>>>,
}

impl Logged {
    fn note(&self, what: String) {
        self.record.lock().unwrap().push(what);
    }
}

impl Environment for Logged {
    type Action = u8;

    fn populate_actions(&self, actions: &mut Vec<u8>) {
        self.note(format!("actions of {}", self.nim.stones));
        self.nim.populate_actions(actions);
    }

    fn step(&mut self, action: u8) {
        self.note(format!("take {} of {}", action, self.nim.stones));
        self.nim.step(action);
    }

    fn terminal(&self) -> Option<Terminal> {
        self.note(format!("end of {}", self.nim.stones));
        self.nim.terminal()
    }

    fn steps(&self) -> u16 {
        self.nim.steps()
    }
}

#[test]
fn game_is_asked_along_the_way_down() {
    let game = Logged {
        nim: Nim::new(2),
        record: Default::default(),
    };
    let mut root: Node<Logged> = Node::default();
    let mut actions = Vec::new();
    let mut evals = Vec::new();
    for _ in 0..3 {
        evals.push(root.simulate(game.clone(), &mut actions, &Flat(0)));
    }
    // The root is expanded; the child after taking one is expanded and
    // worth nothing yet; taking two leaves nothing, and the opponent has
    // lost.
    assert_eq!(evals, vec![Eval::Value(0), Eval::Value(0), Eval::Win(0)]);
    let record = game.record.lock().unwrap().clone();
    assert_eq!(
        record,
        vec![
            "end of 2",
            "actions of 2",
            "take 1 of 2",
            "end of 1",
            "actions of 1",
            "take 2 of 2",
            "end of 0",
        ]
    );
}
