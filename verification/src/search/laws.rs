//! What holds of a tree however long it is searched.

use vstd::prelude::*;
use crate::fixed::{running_mean, Fixed};
use crate::search::env::{Environment, Terminal};
use crate::search::eval::Eval;
use crate::search::mcts::Trace;
use crate::search::node::Node;

verus! {

impl<E: Environment> Node<E> {
    /// What the tree below this node proves of it by backward reasoning from
    /// its leaves, which stand for themselves: a node with a lost child is
    /// won, a node with only won children is lost, a node with only won and
    /// drawn children is drawn, and of any other node nothing is proven.
    pub open spec fn proves(&self) -> Option<Terminal>
        decreases self,
    {
        if self.children@.len() == 0 {
            self.evaluation.outcome()
        } else if exists|i: int|
            0 <= i < self.children@.len() && (#[trigger] self.children@[i]).1.proves() == Some(
                Terminal::Loss,
            ) {
            Some(Terminal::Win)
        } else if forall|i: int|
            0 <= i < self.children@.len() ==> (#[trigger] self.children@[i]).1.proves() == Some(
                Terminal::Win,
            ) {
            Some(Terminal::Loss)
        } else if forall|i: int|
            0 <= i < self.children@.len() ==> (#[trigger] self.children@[i]).1.proves() is Some {
            Some(Terminal::Draw)
        } else {
            None
        }
    }

    /// The search is sound and prompt: all over a well-formed tree, a node
    /// is proven won, lost or drawn exactly if the tree below it proves that
    /// result.
    pub proof fn lemma_evaluation_is_what_the_tree_proves(&self)
        requires
            self.wf(),
        ensures
            self.proves() == self.evaluation.outcome(),
        decreases self,
    {
        assert forall|i: int| 0 <= i < self.children@.len() implies (
        #[trigger] self.children@[i]).1.proves() == self.children@[i].1.evaluation.outcome() by {
            self.children@[i].1.lemma_evaluation_is_what_the_tree_proves();
        }
    }

    /// Whether `after` still holds every proof of this tree: each node of
    /// this tree that is proven has the same evaluation in `after`, and each
    /// node with children still has as many.
    pub open spec fn keeps_proofs(&self, after: &Node<E>) -> bool
        decreases self,
    {
        &&& self.evaluation.known() ==> after.evaluation == self.evaluation
        &&& self.children@.len() > 0 ==> after.children@.len() == self.children@.len()
        &&& forall|i: int|
            0 <= i < self.children@.len() ==> (#[trigger] self.children@[i]).1.keeps_proofs(
                &after.children@[i].1,
            )
    }

    /// Whether `steps` simulations, one after the other, can lead from this
    /// node to `after`.
    pub open spec fn advances_in(&self, after: &Node<E>, steps: nat) -> bool
        decreases steps,
    {
        if steps == 0 {
            *self == *after
        } else {
            exists|between: Node<E>, trace: Trace<E>| #[trigger]
                self.advances_to(&between, trace) && between.advances_in(
                    after,
                    (steps - 1) as nat,
                )
        }
    }

    /// A tree holds its own proofs.
    pub proof fn lemma_keeps_proofs_reflexive(&self)
        ensures
            self.keeps_proofs(self),
        decreases self,
    {
        assert forall|i: int| 0 <= i < self.children@.len() implies (
        #[trigger] self.children@[i]).1.keeps_proofs(&self.children@[i].1) by {
            self.children@[i].1.lemma_keeps_proofs_reflexive();
        }
    }

    /// What holds the proofs of a tree that holds the proofs of this one
    /// holds the proofs of this one.
    pub proof fn lemma_keeps_proofs_transitive(&self, between: &Node<E>, after: &Node<E>)
        requires
            self.keeps_proofs(between),
            between.keeps_proofs(after),
        ensures
            self.keeps_proofs(after),
        decreases self,
    {
        assert forall|i: int| 0 <= i < self.children@.len() implies (
        #[trigger] self.children@[i]).1.keeps_proofs(&after.children@[i].1) by {
            self.children@[i].1.lemma_keeps_proofs_transitive(
                &between.children@[i].1,
                &after.children@[i].1,
            );
        }
    }

    /// One simulation retracts no proof: whatever node of the tree was
    /// proven before it is proven after it, with the same evaluation.
    pub proof fn lemma_simulation_keeps_proofs(&self, after: &Node<E>, trace: Trace<E>)
        requires
            self.advances_to(after, trace),
        ensures
            self.keeps_proofs(after),
            self.evaluation.known() ==> after.evaluation.known(),
        decreases self,
    {
        if self.evaluation.known() {
            self.lemma_keeps_proofs_reflexive();
        } else if self.children@.len() > 0 {
            let chosen = choose|i: int|
                {
                    &&& 0 <= i < self.children@.len()
                    &&& #[trigger] self.visited().lags_most(self.priors(), i)
                    &&& trace.path.len() > 0
                    &&& trace.path[0] == self.children@[i].0
                    &&& after.children@.len() == self.children@.len()
                    &&& forall|j: int|
                        0 <= j < self.children@.len() && j != i ==> #[trigger] after.children@[j]
                            == self.children@[j]
                    &&& after.children@[i].0 == self.children@[i].0
                    &&& self.children@[i].1.advances_to(&after.children@[i].1, trace.rest())
                    &&& after.evaluation == self.visited().with_children(
                        after.children,
                    ).propagated(after.children@[i].1.evaluation)
                };
            assert forall|i: int| 0 <= i < self.children@.len() implies (
            #[trigger] self.children@[i]).1.keeps_proofs(&after.children@[i].1) by {
                if i == chosen {
                    self.children@[i].1.lemma_simulation_keeps_proofs(
                        &after.children@[i].1,
                        trace.rest(),
                    );
                } else {
                    self.children@[i].1.lemma_keeps_proofs_reflexive();
                }
            }
        }
    }

    /// Where the child that a simulation passes through comes back with an
    /// estimate, the node holds the running mean of its own estimate and of
    /// the child's, negated: `(mean * (n - 1) - child) / n`, where `n` counts
    /// the visits of the node, the new one included.
    pub proof fn lemma_estimate_is_backed_up(&self, after: &Node<E>, trace: Trace<E>)
        requires
            self.advances_to(after, trace),
            !self.evaluation.known(),
            self.children@.len() > 0,
        ensures
            exists|i: int|
                {
                    &&& 0 <= i < self.children@.len()
                    &&& #[trigger] self.visited().lags_most(self.priors(), i)
                    &&& self.children@[i].1.advances_to(&after.children@[i].1, trace.rest())
                    &&& after.children@[i].1.evaluation is Value ==> after.evaluation
                        == Eval::Value(
                        running_mean(
                            self.evaluation.scalar(),
                            self.visit_count + 1,
                            after.children@[i].1.evaluation.negated().scalar(),
                        ) as i64,
                    )
                },
    {
    }

    /// No number of simulations retracts a proof: once a node of the tree is
    /// proven, it stays proven, and its evaluation never changes again.
    pub proof fn lemma_proofs_are_final(&self, after: &Node<E>, steps: nat)
        requires
            self.advances_in(after, steps),
        ensures
            self.keeps_proofs(after),
            self.evaluation.known() ==> after.evaluation == self.evaluation,
        decreases steps,
    {
        if steps == 0 {
            self.lemma_keeps_proofs_reflexive();
        } else {
            let (between, trace) = choose|between: Node<E>, trace: Trace<E>| #[trigger]
                self.advances_to(&between, trace) && between.advances_in(
                    after,
                    (steps - 1) as nat,
                );
            self.lemma_simulation_keeps_proofs(&between, trace);
            between.lemma_proofs_are_final(after, (steps - 1) as nat);
            self.lemma_keeps_proofs_transitive(&between, after);
        }
    }

    /// Selection never descends into a child that is a proven win for the
    /// side to move in it while another child is left: the choice is not
    /// such a child, and there is a choice as soon as one child is not.
    pub proof fn lemma_selection_avoids_wins(&self, targets: Seq<Fixed>, other: int)
        requires
            self.eligible(other),
        ensures
            exists|i: int| self.lags_most(targets, i),
            forall|i: int|
                self.lags_most(targets, i) ==> !(self.children@[i].1.evaluation is Win),
    {
        self.lemma_some_child_lags_most(targets, self.children@.len() as int, other);
    }

    /// Among the first `upto` children, if one is eligible, one is the first
    /// of the eligible ones that lag the most.
    proof fn lemma_some_child_lags_most(&self, targets: Seq<Fixed>, upto: int, other: int)
        requires
            0 <= other < upto <= self.children@.len(),
            self.eligible(other),
        ensures
            exists|i: int|
                {
                    &&& 0 <= i < upto
                    &&& self.eligible(i)
                    &&& forall|j: int| #[trigger]
                        self.eligible(j) && j < upto ==> self.lag_behind(targets, j)
                            <= self.lag_behind(targets, i)
                    &&& forall|j: int| #[trigger]
                        self.eligible(j) && j < i ==> self.lag_behind(targets, j)
                            < self.lag_behind(targets, i)
                },
            upto == self.children@.len() ==> exists|i: int| self.lags_most(targets, i),
        decreases upto,
    {
        let last = upto - 1;
        let earlier = exists|j: int| 0 <= j < last && self.eligible(j);
        if earlier {
            let j = choose|j: int| 0 <= j < last && self.eligible(j);
            self.lemma_some_child_lags_most(targets, last, j);
            let best = choose|i: int|
                {
                    &&& 0 <= i < last
                    &&& self.eligible(i)
                    &&& forall|j: int| #[trigger]
                        self.eligible(j) && j < last ==> self.lag_behind(targets, j)
                            <= self.lag_behind(targets, i)
                    &&& forall|j: int| #[trigger]
                        self.eligible(j) && j < i ==> self.lag_behind(targets, j)
                            < self.lag_behind(targets, i)
                };
            let winner = if self.eligible(last) && self.lag_behind(targets, last)
                > self.lag_behind(targets, best) {
                last
            } else {
                best
            };
            assert(forall|j: int| #[trigger]
                self.eligible(j) && j < upto ==> self.lag_behind(targets, j) <= self.lag_behind(
                    targets,
                    winner,
                ));
            if upto == self.children@.len() {
                assert(self.lags_most(targets, winner));
            }
        } else if upto == self.children@.len() {
            assert(self.lags_most(targets, last));
        }
    }
}

} // verus!
