//! Noise on the priors of a root.

use vstd::prelude::*;
use crate::fixed::{lemma_mixed_between, mix, mixed, Fixed, ONE};
use crate::search::env::Environment;
use crate::search::node::Node;

verus! {

impl<E: Environment> Node<E> {
    /// This node with the prior probability `probability`.
    pub open spec fn with_probability(&self, probability: Fixed) -> Node<E> {
        Node {
            evaluation: self.evaluation,
            visit_count: self.visit_count,
            probability,
            variance: self.variance,
            children: self.children,
        }
    }

    /// The well-formedness of a node does not depend on its prior.
    pub proof fn lemma_prior_is_free(&self, probability: Fixed)
        ensures
            self.with_probability(probability).wf() == self.wf(),
    {
    }

    /// Mixes `noise`, a sample of a Dirichlet distribution with one entry
    /// for each child, into the priors of the children:
    /// `probability * (1 - ratio) + noise * ratio`. Nothing else changes; a
    /// child for which `noise` has no entry keeps its prior.
    ///
    /// Where the prior and the noise are positive, so is the mixture.
    pub fn apply_dirichlet(&mut self, noise: &Vec<Fixed>, ratio: Fixed)
        requires
            old(self).visit_count > 0,
            0 <= ratio <= ONE,
        ensures
            final(self).evaluation == old(self).evaluation,
            final(self).visit_count == old(self).visit_count,
            final(self).probability == old(self).probability,
            final(self).variance == old(self).variance,
            final(self).children@.len() == old(self).children@.len(),
            forall|i: int|
                0 <= i < old(self).children@.len() ==> {
                    let before = (#[trigger] old(self).children@[i]);
                    let after = final(self).children@[i];
                    &&& after.0 == before.0
                    &&& after.1 == before.1.with_probability(
                        if i < noise@.len() {
                            mixed(before.1.probability as int, noise@[i] as int, ratio as int) as i64
                        } else {
                            before.1.probability
                        },
                    )
                    &&& before.1.probability > 0 && i < noise@.len() && noise@[i] > 0
                        ==> after.1.probability > 0
                },
            old(self).wf() ==> final(self).wf(),
    {
        let mut i: usize = 0;
        while i < self.children.len() && i < noise.len()
            invariant
                0 <= ratio <= ONE,
                self.evaluation == old(self).evaluation,
                self.visit_count == old(self).visit_count,
                self.probability == old(self).probability,
                self.variance == old(self).variance,
                self.children@.len() == old(self).children@.len(),
                i <= self.children@.len(),
                i <= noise@.len(),
                forall|j: int|
                    i <= j < self.children@.len() ==> #[trigger] self.children@[j] == old(
                        self,
                    ).children@[j],
                forall|j: int|
                    0 <= j < i ==> {
                        let before = (#[trigger] old(self).children@[j]);
                        let after = self.children@[j];
                        &&& after.0 == before.0
                        &&& after.1 == before.1.with_probability(
                            mixed(before.1.probability as int, noise@[j] as int, ratio as int) as i64,
                        )
                        &&& before.1.probability > 0 && noise@[j] > 0 ==> after.1.probability > 0
                    },
            decreases self.children@.len() - i,
        {
            proof {
                lemma_mixed_between(
                    self.children@[i as int].1.probability as int,
                    noise@[i as int] as int,
                    ratio as int,
                );
            }
            let child = &mut self.children[i].1;
            child.probability = mix(child.probability, noise[i], ratio);
            i = i + 1;
        }
        proof {
            if old(self).wf() {
                assert forall|j: int| 0 <= j < self.children@.len() implies {
                    &&& (#[trigger] self.children@[j]).1.visit_count < self.visit_count
                    &&& self.children@[j].1.wf()
                    &&& self.children@[j].1.evaluation == old(self).children@[j].1.evaluation
                } by {
                    let before = old(self).children@[j];
                    before.1.lemma_prior_is_free(self.children@[j].1.probability);
                }
                assert(self.settled()) by {
                    self.lemma_same_evaluations(old(self));
                }
            }
        }
    }
}

} // verus!
