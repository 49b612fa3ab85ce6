//! What a game has to offer to be searched.

use vstd::prelude::*;
use vstd::std_specs::convert::FromSpecImpl;
use rand::rngs::StdRng;
use rand::seq::IteratorRandom;
use crate::fixed::ONE;

verus! {

/// How a finished game ended, seen by the side to move.
#[derive(Clone, Copy, Debug, PartialEq, Eq, Structural)]
pub enum Terminal {
    Win,
    Loss,
    Draw,
}

/// One of the two sides of a game.
#[derive(Clone, Copy, Debug, PartialEq, Eq, Structural)]
pub enum Side {
    White,
    Black,
}

/// How a game stands, whoever is to move.
#[derive(Clone, Copy, Debug, PartialEq, Eq, Structural)]
pub enum Standing {
    Winner(Side),
    Draw,
    Ongoing,
}

impl Standing {
    /// How the game ended for `to_move`, if it has ended.
    pub open spec fn seen_by(self, to_move: Side) -> Option<Terminal> {
        match self {
            Standing::Winner(side) => if side == to_move {
                Some(Terminal::Win)
            } else {
                Some(Terminal::Loss)
            },
            Standing::Draw => Some(Terminal::Draw),
            Standing::Ongoing => None,
        }
    }

    /// How the game ended for the side `to_move`: a win if it is the
    /// winner, a loss if the other side is, `None` while the game goes on.
    pub fn terminal(self, to_move: Side) -> (r: Option<Terminal>)
        ensures
            r == self.seen_by(to_move),
    {
        match self {
            Standing::Winner(side) => if side == to_move {
                Some(Terminal::Win)
            } else {
                Some(Terminal::Loss)
            },
            Standing::Draw => Some(Terminal::Draw),
            Standing::Ongoing => None,
        }
    }
}

/// A deterministic two-player game of perfect information.
///
/// A value of the implementing type is one position. A simulation
/// enumerates the actions of a position only after `terminal` has returned
/// `None` for it, and plays in it only actions that were enumerated for it.
pub trait Environment: Send + Sync + Clone + Default {
    /// One move of the game.
    type Action: Send + Sync + Copy + PartialEq;

    /// Appends the legal actions of this position to `actions`. Their order
    /// is the order of a node's children.
    fn populate_actions(&self, actions: &mut Vec<Self::Action>);

    /// Plays `action` in this position.
    fn step(&mut self, action: Self::Action);

    /// How the game ended, if this position ends it.
    fn terminal(&self) -> Option<Terminal>;

    /// The number of actions played since the start of the game.
    fn steps(&self) -> u16;
}

/// Whether `k` is one of the first `n` indices.
pub open spec fn within(k: int, n: int) -> bool {
    0 <= k < n
}

/// The standard generator of the `rand` crate, of which nothing is known
/// here but that it can be handed on.
#[verifier::external_type_specification]
#[verifier::external_body]
pub struct ExStdRng(StdRng);

/// Draws one of the indices below `len` with `IteratorRandom::choose` of the
/// `rand` crate, on the range from zero to `len`.
///
/// Assumed of `choose`: on an empty range it returns `None`, on any other
/// an element of the range.
#[verifier::external_body]
fn choose_index(rng: &mut StdRng, len: usize) -> (r: Option<usize>)
    ensures
        r is None <==> len == 0,
        r matches Some(index) ==> index < len,
{
    (0..len).choose(rng)
}

/// Plays in `env` the one of `actions` that `choice` points at, if it points
/// at one, and empties `actions`. Returns whether an action was played.
pub fn play_chosen<E: Environment>(
    env: &mut E,
    actions: &mut Vec<E::Action>,
    choice: Option<usize>,
) -> (played: bool)
    ensures
        played == (choice matches Some(index) && index < old(actions)@.len()),
        played ==> exists|stepped: &mut E|
            {
                &&& #[trigger] call_ensures(
                    E::step,
                    (stepped, old(actions)@[choice.unwrap() as int]),
                    (),
                )
                &&& mut_ref_current(stepped) == *old(env)
                &&& mut_ref_future(stepped) == *final(env)
            },
        !played ==> *final(env) == *old(env),
        final(actions)@.len() == 0,
{
    let played: bool = match choice {
        Some(index) => if index < actions.len() {
            env.step(actions[index]);
            true
        } else {
            false
        },
        None => false,
    };
    actions.clear();
    played
}

/// A position two plies into the game, each of the two actions drawn by
/// `rng` with equal chance from those that the game enumerates; `None`
/// where the game enumerates none. `actions` is a buffer, and comes back
/// empty.
pub fn new_opening<E: Environment>(rng: &mut StdRng, actions: &mut Vec<E::Action>) -> (r: Option<E>)
    ensures
        final(actions)@.len() == 0,
        exists|start: E, first: &mut Vec<E::Action>|
            {
                &&& call_ensures(E::default, (), start)
                &&& #[trigger] call_ensures(E::populate_actions, (&start, first), ())
                &&& mut_ref_current(first)@ == old(actions)@
                &&& if mut_ref_future(first)@.len() == 0 {
                    r is None
                } else {
                    exists|one: &mut E, second: &mut Vec<E::Action>, i: int|
                        {
                            &&& 0 <= i < mut_ref_future(first)@.len()
                            &&& #[trigger] call_ensures(
                                E::step,
                                (one, mut_ref_future(first)@[i]),
                                (),
                            )
                            &&& mut_ref_current(one) == start
                            &&& #[trigger] call_ensures(
                                E::populate_actions,
                                (&mut_ref_future(one), second),
                                (),
                            )
                            &&& mut_ref_current(second)@.len() == 0
                            &&& if mut_ref_future(second)@.len() == 0 {
                                r is None
                            } else {
                                exists|two: &mut E, j: int|
                                    {
                                        &&& 0 <= j < mut_ref_future(second)@.len()
                                        &&& #[trigger] call_ensures(
                                            E::step,
                                            (two, mut_ref_future(second)@[j]),
                                            (),
                                        )
                                        &&& mut_ref_current(two) == mut_ref_future(one)
                                        &&& r == Some(mut_ref_future(two))
                                    }
                            }
                        }
                }
            },
{
    let mut env = E::default();
    env.populate_actions(actions);
    let first = choose_index(rng, actions.len());
    if !play_chosen(&mut env, actions, first) {
        return None;
    }
    env.populate_actions(actions);
    let second = choose_index(rng, actions.len());
    if !play_chosen(&mut env, actions, second) {
        return None;
    }
    Some(env)
}

impl Terminal {
    /// The worth of the result to the side to move: one for a win, minus one
    /// for a loss, zero for a draw.
    pub open spec fn scalar(self) -> int {
        match self {
            Terminal::Win => ONE as int,
            Terminal::Loss => -(ONE as int),
            Terminal::Draw => 0,
        }
    }
}

impl From<Terminal> for i64 {
    fn from(value: Terminal) -> (r: Self) {
        match value {
            Terminal::Win => ONE,
            Terminal::Loss => -ONE,
            Terminal::Draw => 0,
        }
    }
}

impl FromSpecImpl<Terminal> for i64 {
    open spec fn obeys_from_spec() -> bool {
        true
    }

    open spec fn from_spec(value: Terminal) -> Self {
        value.scalar() as i64
    }
}

} // verus!
