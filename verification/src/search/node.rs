//! The search tree.

use vstd::prelude::*;
use crate::fixed::Fixed;
use crate::search::env::Environment;
use crate::search::eval::Eval;

pub mod debug;
pub mod noise;
pub mod policy;

verus! {

/// One position of the search tree, with the subtree below it.
///
/// A node owns its children; each child is reached by one action, and the
/// children stand in the order in which the game enumerated their actions.
pub struct Node<E: Environment> {
    /// The worth of the position to the side to move in it.
    pub evaluation: Eval,
    /// How often a simulation has passed through this node.
    pub visit_count: u32,
    /// The prior probability of the action that leads here.
    pub probability: Fixed,
    /// How uncertain the oracle is of the worth of this position; not
    /// negative.
    pub variance: Fixed,
    /// The positions one action away, empty until the node is expanded.
    pub children: Vec<(E::Action, Node<E>)>,
}

/// The largest distance among the proven results of the first `upto` of
/// `children`, counting only drawn ones if `draws_only`; zero if there is
/// none.
pub open spec fn longest_among<E: Environment>(
    children: Seq<(E::Action, Node<E>)>,
    upto: int,
    draws_only: bool,
) -> int
    decreases upto,
{
    if upto <= 0 {
        0
    } else {
        let rest = longest_among::<E>(children, upto - 1, draws_only);
        let eval = children[upto - 1].1.evaluation;
        match eval.distance() {
            Some(ply) if !draws_only || eval is Draw => if ply > rest {
                ply as int
            } else {
                rest
            },
            _ => rest,
        }
    }
}

/// The farthest of the first `upto` results lies no farther than a bound on
/// all of them.
pub proof fn lemma_longest_bounds<E: Environment>(
    children: Seq<(E::Action, Node<E>)>,
    upto: int,
    draws_only: bool,
    bound: int,
)
    requires
        0 <= upto <= children.len(),
        0 <= bound,
        forall|i: int|
            0 <= i < upto ==> ((#[trigger] children[i]).1.evaluation.distance() matches Some(ply)
                ==> ply <= bound),
    ensures
        0 <= longest_among::<E>(children, upto, draws_only) <= bound,
    decreases upto,
{
    if upto > 0 {
        lemma_longest_bounds::<E>(children, upto - 1, draws_only, bound);
    }
}

/// The farthest result depends on the evaluations of the children alone.
pub proof fn lemma_longest_same<E: Environment>(
    children: Seq<(E::Action, Node<E>)>,
    others: Seq<(E::Action, Node<E>)>,
    upto: int,
    draws_only: bool,
)
    requires
        0 <= upto <= children.len(),
        upto <= others.len(),
        forall|i: int|
            0 <= i < upto ==> (#[trigger] children[i]).1.evaluation == others[i].1.evaluation,
    ensures
        longest_among::<E>(children, upto, draws_only) == longest_among::<E>(
            others,
            upto,
            draws_only,
        ),
    decreases upto,
{
    if upto > 0 {
        lemma_longest_same::<E>(children, others, upto - 1, draws_only);
    }
}

impl<E: Environment> Node<E> {
    /// A node that no simulation has touched: no visits, no children, the
    /// estimate zero, no uncertainty.
    pub open spec fn fresh(&self) -> bool {
        &&& self.evaluation == Eval::Value(0)
        &&& self.visit_count == 0
        &&& self.variance == 0
        &&& self.children@.len() == 0
    }

    /// The largest distance among the proven results of the children,
    /// counting only drawn ones if `draws_only`; zero if there is none.
    pub open spec fn longest(&self, draws_only: bool) -> int {
        longest_among::<E>(self.children@, self.children@.len() as int, draws_only)
    }

    /// Whether every child is a proven win for the side to move in it.
    pub open spec fn all_children_win(&self) -> bool {
        forall|i: int|
            0 <= i < self.children@.len() ==> (#[trigger] self.children@[i]).1.evaluation is Win
    }

    /// Whether no child is a proven loss for the side to move in it.
    pub open spec fn no_child_lost(&self) -> bool {
        forall|i: int|
            0 <= i < self.children@.len() ==> !((#[trigger] self.children@[i]).1.evaluation is Loss)
    }

    /// Whether every child is a proven win or a proven draw.
    pub open spec fn all_children_win_or_draw(&self) -> bool {
        forall|i: int|
            0 <= i < self.children@.len() ==> {
                let eval = (#[trigger] self.children@[i]).1.evaluation;
                eval is Win || eval is Draw
            }
    }

    /// Whether the evaluation of an expanded node agrees with those of its
    /// children.
    ///
    /// A proven win has a child that is lost at the same distance. A proven
    /// loss has only won children, and lies one ply beyond the farthest of
    /// them. A proven draw has only won and drawn children, at least one of
    /// them drawn, and lies one ply beyond the farthest drawn one. A node
    /// with an estimate has no lost child, and still has a child with an
    /// estimate: whatever the children prove is proven of the node at once.
    pub open spec fn settled(&self) -> bool {
        self.children@.len() > 0 ==> match self.evaluation {
            Eval::Value(_) => {
                &&& self.no_child_lost()
                &&& exists|i: int|
                    0 <= i < self.children@.len() && (
                    #[trigger] self.children@[i]).1.evaluation is Value
            },
            Eval::Win(ply) => exists|i: int|
                0 <= i < self.children@.len() && (#[trigger] self.children@[i]).1.evaluation
                    == Eval::Loss(ply),
            Eval::Loss(ply) => {
                &&& self.all_children_win()
                &&& ply == 1 + self.longest(false)
            },
            Eval::Draw(ply) => {
                &&& self.all_children_win_or_draw()
                &&& exists|i: int|
                    0 <= i < self.children@.len() && (
                    #[trigger] self.children@[i]).1.evaluation is Draw
                &&& ply == 1 + self.longest(true)
            },
        }
    }

    /// Whether a node is settled depends on its evaluation and on those of
    /// its children alone.
    pub proof fn lemma_same_evaluations(&self, other: &Node<E>)
        requires
            self.evaluation == other.evaluation,
            self.children@.len() == other.children@.len(),
            forall|i: int|
                0 <= i < self.children@.len() ==> (#[trigger] self.children@[i]).1.evaluation
                    == other.children@[i].1.evaluation,
        ensures
            self.settled() == other.settled(),
    {
        let count = self.children@.len() as int;
        lemma_longest_same::<E>(self.children@, other.children@, count, false);
        lemma_longest_same::<E>(self.children@, other.children@, count, true);
        assert forall|i: int| 0 <= i < count implies (#[trigger] other.children@[i]).1.evaluation
            == self.children@[i].1.evaluation by {}
    }

    /// Whether every child is well formed and has fewer visits than this
    /// node.
    pub open spec fn children_wf(&self) -> bool
        decreases self, 0int,
    {
        forall|i: int|
            0 <= i < self.children@.len() ==> {
                &&& (#[trigger] self.children@[i]).1.visit_count < self.visit_count
                &&& self.children@[i].1.wf()
            }
    }

    /// Whether the node is in order, what its evaluation proves left aside:
    /// the variance is not negative, an unvisited node has no children, and
    /// the children are well formed.
    pub open spec fn shaped(&self) -> bool
        decreases self, 1int,
    {
        &&& self.variance >= 0
        &&& (self.visit_count == 0 ==> self.children@.len() == 0)
        &&& self.children_wf()
    }

    /// The invariant of the tree, which every operation of the search keeps.
    pub open spec fn wf(&self) -> bool
        decreases self, 2int,
    {
        &&& self.shaped()
        &&& self.settled()
        &&& (self.evaluation.distance() matches Some(ply) ==> ply <= self.visit_count)
    }

    /// A node for the action of prior probability `policy`.
    pub fn from_policy(policy: Fixed) -> (r: Self)
        ensures
            r.fresh(),
            r.probability == policy,
            r.wf(),
    {
        Node {
            evaluation: Eval::Value(0),
            visit_count: 0,
            probability: policy,
            variance: 0,
            children: Vec::new(),
        }
    }

    /// Whether the next simulation through this node has to expand it
    /// instead of descending.
    #[inline]
    pub fn needs_initialization(&self) -> (r: bool)
        ensures
            r == (self.visit_count <= 1),
    {
        self.visit_count <= 1
    }

    /// Whether the result of this position is proven.
    pub fn is_known(&self) -> (r: bool)
        ensures
            r == self.evaluation.known(),
    {
        self.evaluation.is_known()
    }
}

impl<E: Environment> Default for Node<E> {
    fn default() -> (r: Self)
        ensures
            r.fresh(),
            r.probability == 0,
            r.wf(),
    {
        Node {
            evaluation: Eval::Value(0),
            visit_count: 0,
            probability: 0,
            variance: 0,
            children: Vec::new(),
        }
    }
}

} // verus!
