//! How a child is chosen.

use vstd::prelude::*;
use crate::fixed::{lag, lag_of, Fixed};
use crate::search::env::Environment;
use crate::search::eval::Eval;
use crate::search::node::Node;

verus! {

impl<E: Environment> Node<E> {
    /// The prior probabilities of the children, in their order.
    pub open spec fn priors(&self) -> Seq<Fixed> {
        Seq::new(self.children@.len(), |i: int| self.children@[i].1.probability)
    }

    /// Whether child `i` may be descended into: it exists and is not a proven
    /// win for the side to move in it, that is, the action that leads to it
    /// does not hand the opponent a win.
    pub open spec fn eligible(&self, i: int) -> bool {
        0 <= i < self.children@.len() && !(self.children@[i].1.evaluation is Win)
    }

    /// How far child `i` lags behind the share `targets[i]` of the visits.
    pub open spec fn lag_behind(&self, targets: Seq<Fixed>, i: int) -> int {
        lag(targets[i] as int, self.children@[i].1.visit_count as int, self.visit_count as int)
    }

    /// Whether `i` is the first of the eligible children that lag behind
    /// `targets` the most.
    pub open spec fn lags_most(&self, targets: Seq<Fixed>, i: int) -> bool {
        &&& self.eligible(i)
        &&& forall|j: int| #[trigger]
            self.eligible(j) ==> self.lag_behind(targets, j) <= self.lag_behind(targets, i)
        &&& forall|j: int| #[trigger]
            self.eligible(j) && j < i ==> self.lag_behind(targets, j) < self.lag_behind(targets, i)
    }

    /// Whether `i` is the last of the children with the largest score.
    pub open spec fn scores_most(&self, scores: Seq<Fixed>, i: int) -> bool {
        &&& 0 <= i < self.children@.len()
        &&& forall|j: int| 0 <= j < self.children@.len() ==> #[trigger] scores[j] <= scores[i]
        &&& forall|j: int| i < j < self.children@.len() ==> #[trigger] scores[j] < scores[i]
    }

    /// The value that stands for child `i` when the policy is improved: the
    /// node's own worth while the child has not been visited, afterwards the
    /// child's worth seen from this node.
    pub open spec fn completed(&self, i: int) -> int {
        let child = self.children@[i].1;
        if child.visit_count == 0 {
            self.evaluation.scalar()
        } else {
            child.evaluation.negated().scalar()
        }
    }

    /// At most one child is chosen.
    pub proof fn lemma_lags_most_unique(&self, targets: Seq<Fixed>, i: int, j: int)
        requires
            self.lags_most(targets, i),
            self.lags_most(targets, j),
        ensures
            i == j,
    {
    }

    /// The first of the eligible children that lag behind `targets` the most,
    /// where `targets` are the priors if none are given.
    fn most_lagging(&self, targets: Option<&Vec<Fixed>>) -> (r: Option<usize>)
        requires
            targets matches Some(t) ==> t@.len() == self.children@.len(),
        ensures
            ({
                let shares = match targets {
                    Some(t) => t@,
                    None => self.priors(),
                };
                match r {
                    Some(i) => self.lags_most(shares, i as int),
                    None => forall|j: int| !self.eligible(j),
                }
            }),
    {
        let ghost shares = match targets {
            Some(t) => t@,
            None => self.priors(),
        };
        let mut best: Option<usize> = None;
        let mut best_lag: i128 = 0;
        let mut i: usize = 0;
        while i < self.children.len()
            invariant
                i <= self.children@.len(),
                shares.len() == self.children@.len(),
                shares == match targets {
                    Some(t) => t@,
                    None => self.priors(),
                },
                match best {
                    Some(b) => {
                        &&& b < i
                        &&& self.eligible(b as int)
                        &&& best_lag == self.lag_behind(shares, b as int)
                        &&& forall|j: int| #[trigger]
                            self.eligible(j) && j < i ==> self.lag_behind(shares, j) <= best_lag
                        &&& forall|j: int| #[trigger]
                            self.eligible(j) && j < b ==> self.lag_behind(shares, j) < best_lag
                    },
                    None => forall|j: int| #[trigger] self.eligible(j) ==> j >= i,
                },
            decreases self.children@.len() - i,
        {
            let child = &self.children[i].1;
            if !child.evaluation.is_win() {
                let target: Fixed = match targets {
                    Some(t) => t[i],
                    None => child.probability,
                };
                let here: i128 = lag_of(target, child.visit_count, self.visit_count);
                let better: bool = match best {
                    Some(_) => here > best_lag,
                    None => true,
                };
                if better {
                    best = Some(i);
                    best_lag = here;
                }
            }
            i = i + 1;
        }
        best
    }

    /// The child to descend into: among the children that are not proven
    /// wins for the side to move in them, the first that maximizes
    /// `probability - visit_count / (self.visit_count + 1)`. `None` if every
    /// child is such a win, or there is no child.
    pub fn select_with_policy(&self) -> (r: Option<usize>)
        ensures
            match r {
                Some(i) => self.lags_most(self.priors(), i as int),
                None => forall|j: int| !self.eligible(j),
            },
    {
        self.most_lagging(None)
    }

    /// The child to descend into under the improved policy `improved`, which
    /// holds one probability for each child: among the children that are not
    /// proven wins for the side to move in them, the first that maximizes
    /// `improved[i] - visit_count / (self.visit_count + 1)`.
    pub fn select_with_improved_policy(&self, improved: &Vec<Fixed>) -> (r: usize)
        requires
            improved@.len() == self.children@.len(),
            exists|j: int| self.eligible(j),
        ensures
            self.lags_most(improved@, r as int),
    {
        match self.most_lagging(Some(improved)) {
            Some(i) => i,
            None => 0,
        }
    }

    /// The child with the largest of `scores`, which holds one score for each
    /// child; of several such the last. Proven wins for the opponent are not
    /// left out.
    pub fn select_with_puct(&self, scores: &Vec<Fixed>) -> (r: usize)
        requires
            scores@.len() == self.children@.len(),
            self.children@.len() > 0,
        ensures
            self.scores_most(scores@, r as int),
    {
        let mut best: usize = 0;
        let mut i: usize = 1;
        while i < scores.len()
            invariant
                scores@.len() == self.children@.len(),
                1 <= i <= scores@.len(),
                best < i,
                forall|j: int| 0 <= j < i ==> #[trigger] scores@[j] <= scores@[best as int],
                forall|j: int| best < j < i ==> #[trigger] scores@[j] < scores@[best as int],
            decreases scores@.len() - i,
        {
            if scores[i] >= scores[best] {
                best = i;
            }
            i = i + 1;
        }
        best
    }

    /// The largest visit count among the children, zero if there is none.
    pub fn most_visited_count(&self) -> (r: u32)
        ensures
            forall|i: int|
                0 <= i < self.children@.len() ==> (#[trigger] self.children@[i]).1.visit_count <= r,
            self.children@.len() == 0 ==> r == 0,
            self.children@.len() > 0 ==> exists|i: int|
                0 <= i < self.children@.len() && (#[trigger] self.children@[i]).1.visit_count == r,
    {
        let mut most: u32 = 0;
        let mut i: usize = 0;
        while i < self.children.len()
            invariant
                i <= self.children@.len(),
                forall|j: int| 0 <= j < i ==> (#[trigger] self.children@[j]).1.visit_count <= most,
                i == 0 ==> most == 0,
                i > 0 ==> exists|j: int|
                    0 <= j < i && (#[trigger] self.children@[j]).1.visit_count == most,
            decreases self.children@.len() - i,
        {
            let count: u32 = self.children[i].1.visit_count;
            if i == 0 || count > most {
                most = count;
            }
            i = i + 1;
        }
        most
    }

    /// For each child the value that stands for it when the policy is
    /// improved: the node's own worth while the child has not been visited,
    /// afterwards the child's worth seen from this node.
    pub fn completed_values(&self) -> (r: Vec<Fixed>)
        ensures
            r@.len() == self.children@.len(),
            forall|i: int| 0 <= i < r@.len() ==> #[trigger] r@[i] == self.completed(i),
    {
        let own: Fixed = Fixed::from(self.evaluation);
        let mut values: Vec<Fixed> = Vec::new();
        let mut i: usize = 0;
        while i < self.children.len()
            invariant
                i <= self.children@.len(),
                own == self.evaluation.scalar(),
                values@.len() == i,
                forall|j: int| 0 <= j < i ==> #[trigger] values@[j] == self.completed(j),
            decreases self.children@.len() - i,
        {
            let child = &self.children[i].1;
            let value: Fixed = if child.visit_count == 0 {
                own
            } else {
                Fixed::from(child.evaluation.negate())
            };
            values.push(value);
            i = i + 1;
        }
        values
    }
}

} // verus!
