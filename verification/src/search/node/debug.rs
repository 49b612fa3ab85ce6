//! What a node knows of each of its actions, for display.

use vstd::prelude::*;
use crate::fixed::Fixed;
use crate::search::env::Environment;
use crate::search::eval::Eval;
use crate::search::node::Node;

verus! {

/// What the search knows of one action.
pub struct ActionInfo<A> {
    pub action: A,
    pub visit_count: u32,
    pub probability: Fixed,
    pub improved_policy: Fixed,
    pub variance: Fixed,
    pub eval: Eval,
}

impl<E: Environment> Node<E> {
    /// What the node knows of child `i`, given the improved probability of
    /// the action that leads to it.
    pub open spec fn info(&self, i: int, improved_policy: Fixed) -> ActionInfo<E::Action> {
        let (action, child) = self.children@[i];
        ActionInfo {
            action,
            visit_count: child.visit_count,
            probability: child.probability,
            improved_policy,
            variance: child.variance,
            eval: child.evaluation,
        }
    }

    /// For each child what the node knows of it, together with its entry of
    /// the improved policy `improved`, in the order of the children; as many
    /// entries as there are both children and improved probabilities.
    pub fn action_info(&self, improved: &Vec<Fixed>) -> (r: Vec<ActionInfo<E::Action>>)
        ensures
            r@.len() == if improved@.len() < self.children@.len() {
                improved@.len()
            } else {
                self.children@.len()
            },
            forall|i: int| 0 <= i < r@.len() ==> #[trigger] r@[i] == self.info(i, improved@[i]),
    {
        let mut infos: Vec<ActionInfo<E::Action>> = Vec::new();
        let mut i: usize = 0;
        while i < self.children.len() && i < improved.len()
            invariant
                i <= self.children@.len(),
                i <= improved@.len(),
                infos@.len() == i,
                forall|j: int| 0 <= j < i ==> #[trigger] infos@[j] == self.info(j, improved@[j]),
            decreases self.children@.len() - i,
        {
            let child = &self.children[i].1;
            infos.push(
                ActionInfo {
                    action: self.children[i].0,
                    visit_count: child.visit_count,
                    probability: child.probability,
                    improved_policy: improved[i],
                    variance: child.variance,
                    eval: child.evaluation,
                },
            );
            i = i + 1;
        }
        infos
    }
}

} // verus!
