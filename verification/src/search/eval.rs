//! The worth of a position: proven, or estimated.

use vstd::prelude::*;
use vstd::std_specs::cmp::PartialOrdSpecImpl;
use vstd::std_specs::convert::FromSpecImpl;
use core::cmp::Ordering;
use crate::fixed::{negation, negative, Fixed, ONE};
use crate::search::env::Terminal;

verus! {

/// The worth of a position to the side to move in it.
///
/// `Win`, `Loss` and `Draw` are proven results and carry their distance in
/// plies; `Value` is an estimate, on a scale from minus one for a loss to
/// one for a win, and is held as the oracle gave it.
#[derive(Clone, Copy, Debug, PartialEq, Eq, Structural)]
pub enum Eval {
    Value(Fixed),
    Win(u32),
    Loss(u32),
    Draw(u32),
}

impl Eval {
    /// Whether the result is proven.
    pub open spec fn known(self) -> bool {
        !(self is Value)
    }

    /// The same worth, seen by the other side.
    pub open spec fn negated(self) -> Eval {
        match self {
            Eval::Value(v) => Eval::Value(negation(v as int) as i64),
            Eval::Win(ply) => Eval::Loss(ply),
            Eval::Loss(ply) => Eval::Win(ply),
            Eval::Draw(ply) => Eval::Draw(ply),
        }
    }

    /// The distance of a proven result.
    pub open spec fn distance(self) -> Option<u32> {
        match self {
            Eval::Value(_) => None,
            Eval::Win(ply) | Eval::Loss(ply) | Eval::Draw(ply) => Some(ply),
        }
    }

    /// The worth as a number: one for a win, minus one for a loss, zero for
    /// a draw, and the estimate itself.
    pub open spec fn scalar(self) -> int {
        match self {
            Eval::Value(v) => v as int,
            Eval::Win(_) => ONE as int,
            Eval::Loss(_) => -(ONE as int),
            Eval::Draw(_) => 0,
        }
    }

    /// The result that a finished game proves, at distance zero.
    pub open spec fn of_terminal(terminal: Terminal) -> Eval {
        match terminal {
            Terminal::Win => Eval::Win(0),
            Terminal::Loss => Eval::Loss(0),
            Terminal::Draw => Eval::Draw(0),
        }
    }

    /// The result that is proven, if one is.
    pub open spec fn outcome(self) -> Option<Terminal> {
        match self {
            Eval::Value(_) => None,
            Eval::Win(_) => Some(Terminal::Win),
            Eval::Loss(_) => Some(Terminal::Loss),
            Eval::Draw(_) => Some(Terminal::Draw),
        }
    }

    /// How `self` compares with `other` in desirability, where the two can
    /// be told apart.
    ///
    /// A win is better than anything but a shorter win, a loss is worse than
    /// anything but a shorter loss, and estimates and draws compare by their
    /// worth as numbers. Two different results of one worth, neither a win
    /// nor a loss, are left unordered.
    pub open spec fn compared(self, other: Eval) -> Option<Ordering> {
        if self == other {
            Some(Ordering::Equal)
        } else {
            match (self, other) {
                (Eval::Win(a), Eval::Win(b)) => Some(
                    if a < b {
                        Ordering::Greater
                    } else {
                        Ordering::Less
                    },
                ),
                (Eval::Win(_), _) => Some(Ordering::Greater),
                (_, Eval::Win(_)) => Some(Ordering::Less),
                (Eval::Loss(a), Eval::Loss(b)) => Some(
                    if a > b {
                        Ordering::Greater
                    } else {
                        Ordering::Less
                    },
                ),
                (Eval::Loss(_), _) => Some(Ordering::Less),
                (_, Eval::Loss(_)) => Some(Ordering::Greater),
                _ => if self.scalar() < other.scalar() {
                    Some(Ordering::Less)
                } else if self.scalar() > other.scalar() {
                    Some(Ordering::Greater)
                } else {
                    None
                },
            }
        }
    }

    /// Flips the perspective.
    pub fn negate(&self) -> (r: Eval)
        ensures
            r == self.negated(),
    {
        match *self {
            Eval::Value(v) => Eval::Value(negative(v)),
            Eval::Win(ply) => Eval::Loss(ply),
            Eval::Loss(ply) => Eval::Win(ply),
            Eval::Draw(ply) => Eval::Draw(ply),
        }
    }

    /// The distance in plies of a proven result, `None` for an estimate.
    pub fn ply(&self) -> (r: Option<u32>)
        ensures
            r == self.distance(),
    {
        match *self {
            Eval::Value(_) => None,
            Eval::Win(ply) => Some(ply),
            Eval::Loss(ply) => Some(ply),
            Eval::Draw(ply) => Some(ply),
        }
    }

    pub fn is_win(&self) -> (r: bool)
        ensures
            r == (*self is Win),
    {
        match *self {
            Eval::Win(_) => true,
            _ => false,
        }
    }

    pub fn is_loss(&self) -> (r: bool)
        ensures
            r == (*self is Loss),
    {
        match *self {
            Eval::Loss(_) => true,
            _ => false,
        }
    }

    pub fn is_draw(&self) -> (r: bool)
        ensures
            r == (*self is Draw),
    {
        match *self {
            Eval::Draw(_) => true,
            _ => false,
        }
    }

    pub fn is_known(&self) -> (r: bool)
        ensures
            r == self.known(),
    {
        match *self {
            Eval::Value(_) => false,
            _ => true,
        }
    }

    /// Negating twice gives a proven result back, and negating exchanges
    /// wins and losses ply for ply while it leaves draws as they are. The
    /// same holds of every estimate but the least, which has no negative.
    pub proof fn lemma_negate_involution(self)
        ensures
            self.known() || self.scalar() > i64::MIN ==> self.negated().negated() == self,
            self.known() || self.scalar() > i64::MIN ==> self.negated().scalar() == -self.scalar(),
            self.negated().known() == self.known(),
            self.negated().distance() == self.distance(),
            self is Win <==> self.negated() is Loss,
            self is Loss <==> self.negated() is Win,
            self matches Eval::Win(ply) ==> self.negated() == Eval::Loss(ply),
            self matches Eval::Loss(ply) ==> self.negated() == Eval::Win(ply),
            self is Draw ==> self.negated() == self,
    {
    }

    /// A win is better than whatever is not a win, and the shorter of two
    /// wins is the better one; a loss is worse than whatever is not a loss,
    /// and the longer of two losses is the better one.
    pub proof fn lemma_order_of_proofs(self, other: Eval)
        ensures
            self is Win && !(other is Win) ==> self.compared(other) == Some(Ordering::Greater),
            self is Loss && !(other is Loss) ==> self.compared(other) == Some(Ordering::Less),
            self matches Eval::Win(a) && other matches Eval::Win(b) && a < b ==> self.compared(
                other,
            ) == Some(Ordering::Greater),
            self matches Eval::Loss(a) && other matches Eval::Loss(b) && a > b ==> self.compared(
                other,
            ) == Some(Ordering::Greater),
    {
    }

    /// The order of desirability is an order: what is better than something
    /// is not worse than it, only a result itself equals it, and what is
    /// better than something better is better.
    pub proof fn lemma_order_is_consistent(self, other: Eval, third: Eval)
        ensures
            self.compared(other) == Some(Ordering::Equal) <==> self == other,
            self.compared(other) == Some(Ordering::Greater) <==> other.compared(self) == Some(
                Ordering::Less,
            ),
            self.compared(other) == Some(Ordering::Greater) && other.compared(third) == Some(
                Ordering::Greater,
            ) ==> self.compared(third) == Some(Ordering::Greater),
    {
    }
}

impl Default for Eval {
    fn default() -> (r: Self)
        ensures
            r == Eval::Value(0),
    {
        Eval::Value(0)
    }
}

impl From<Terminal> for Eval {
    fn from(terminal: Terminal) -> (r: Self) {
        match terminal {
            Terminal::Win => Eval::Win(0),
            Terminal::Loss => Eval::Loss(0),
            Terminal::Draw => Eval::Draw(0),
        }
    }
}

impl FromSpecImpl<Terminal> for Eval {
    open spec fn obeys_from_spec() -> bool {
        true
    }

    open spec fn from_spec(terminal: Terminal) -> Self {
        Eval::of_terminal(terminal)
    }
}

impl From<Eval> for i64 {
    fn from(eval: Eval) -> (r: Self) {
        match eval {
            Eval::Value(v) => v,
            Eval::Win(_) => ONE,
            Eval::Loss(_) => -ONE,
            Eval::Draw(_) => 0,
        }
    }
}

impl FromSpecImpl<Eval> for i64 {
    open spec fn obeys_from_spec() -> bool {
        true
    }

    open spec fn from_spec(eval: Eval) -> Self {
        eval.scalar() as i64
    }
}

impl PartialOrd for Eval {
    fn partial_cmp(&self, other: &Self) -> (r: Option<Ordering>) {
        match (*self, *other) {
            (Eval::Win(a), Eval::Win(b)) => Some(
                if a == b {
                    Ordering::Equal
                } else if a < b {
                    Ordering::Greater
                } else {
                    Ordering::Less
                },
            ),
            (Eval::Win(_), _) => Some(Ordering::Greater),
            (_, Eval::Win(_)) => Some(Ordering::Less),
            (Eval::Loss(a), Eval::Loss(b)) => Some(
                if a == b {
                    Ordering::Equal
                } else if a > b {
                    Ordering::Greater
                } else {
                    Ordering::Less
                },
            ),
            (Eval::Loss(_), _) => Some(Ordering::Less),
            (_, Eval::Loss(_)) => Some(Ordering::Greater),
            (Eval::Draw(a), Eval::Draw(b)) => if a == b {
                Some(Ordering::Equal)
            } else {
                None
            },
            (Eval::Value(a), Eval::Value(b)) => Some(
                if a == b {
                    Ordering::Equal
                } else if a < b {
                    Ordering::Less
                } else {
                    Ordering::Greater
                },
            ),
            (Eval::Draw(_), Eval::Value(v)) => if 0 < v {
                Some(Ordering::Less)
            } else if 0 > v {
                Some(Ordering::Greater)
            } else {
                None
            },
            (Eval::Value(v), Eval::Draw(_)) => if v < 0 {
                Some(Ordering::Less)
            } else if v > 0 {
                Some(Ordering::Greater)
            } else {
                None
            },
        }
    }
}

impl PartialOrdSpecImpl for Eval {
    open spec fn obeys_partial_cmp_spec() -> bool {
        true
    }

    open spec fn partial_cmp_spec(&self, other: &Self) -> Option<Ordering> {
        self.compared(*other)
    }
}

} // verus!
