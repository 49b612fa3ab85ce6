//! What an oracle has to offer to guide the search.

use vstd::prelude::*;
use crate::fixed::Fixed;
use crate::search::env::Environment;

verus! {

/// Prior probabilities over the actions of one position.
pub trait Policy<A> {
    /// The prior probability of `action`.
    fn probability(&self, action: A) -> Fixed;
}

/// How many of the first `upto` slots of `mask` are active.
pub open spec fn active_slots(mask: Seq<bool>, upto: int) -> int
    decreases upto,
{
    if upto <= 0 {
        0
    } else {
        active_slots(mask, upto - 1) + if mask[upto - 1] {
            1int
        } else {
            0int
        }
    }
}

/// The number of slots that a batch of `envs` positions, `actions` lists of
/// actions and `mask` marks has: that of the shortest of the three.
pub open spec fn slots(envs: int, actions: int, mask: int) -> int {
    if envs <= actions && envs <= mask {
        envs
    } else if actions <= mask {
        actions
    } else {
        mask
    }
}

/// Whether `entry` is a judgement, certain of its estimate, of that one of
/// the first `upto` slots that is the active slot number `k`, where
/// `judges(env, (policy, value))` says that `policy` and `value` are a
/// judgement of `env`.
pub open spec fn judged_alone<E, P>(
    judges: spec_fn(E, (P, Fixed)) -> bool,
    env_batch: Seq<E>,
    mask: Seq<bool>,
    upto: int,
    k: int,
    entry: (P, Fixed, Fixed),
) -> bool {
    &&& entry.2 == 0
    &&& exists|slot: int|
        {
            &&& 0 <= slot < upto
            &&& mask[slot]
            &&& #[trigger] active_slots(mask, slot) == k
            &&& judges(env_batch[slot], (entry.0, entry.1))
        }
}

/// An oracle that judges positions.
pub trait Agent<E: Environment> {
    /// The form in which the oracle gives its priors.
    type Policy: Policy<E::Action>;

    /// What the oracle carries from one batch to the next.
    type Context;

    /// The priors over the actions of `env`, and an estimate of the worth of
    /// `env` to the side to move, on a scale from minus one to one.
    fn policy_value(&self, env: &E) -> (Self::Policy, Fixed);

    /// For each active slot of a batch its priors, the estimate of its worth
    /// and how uncertain that estimate is, in the order of the slots. Slot
    /// `i` holds the position `env_batch[i]` with the actions
    /// `actions_batch[i]`, and is active where `mask[i]` is set; inactive
    /// slots have no entry in the result.
    ///
    /// An oracle that has no batches of its own judges the positions one by
    /// one and is certain of each estimate.
    fn policy_value_uncertainty(
        &self,
        env_batch: &[E],
        actions_batch: &[Vec<E::Action>],
        mask: &[bool],
        context: &mut Self::Context,
    ) -> (r: Vec<(Self::Policy, Fixed, Fixed)>)
        ensures
            r@.len() == active_slots(
                mask@,
                slots(env_batch@.len() as int, actions_batch@.len() as int, mask@.len() as int),
            ),
        default_ensures
            forall|k: int|
                0 <= k < r@.len() ==> judged_alone(
                    |env: E, judgement: (Self::Policy, Fixed)|
                        call_ensures(Self::policy_value, (self, &env), judgement),
                    env_batch@,
                    mask@,
                    slots(env_batch@.len() as int, actions_batch@.len() as int, mask@.len() as int),
                    k,
                    #[trigger] r@[k],
                ),
    {
        let mut judged: Vec<(Self::Policy, Fixed, Fixed)> = Vec::new();
        let mut slot: usize = 0;
        while slot < env_batch.len() && slot < actions_batch.len() && slot < mask.len()
            invariant
                slot <= slots(
                    env_batch@.len() as int,
                    actions_batch@.len() as int,
                    mask@.len() as int,
                ),
                judged@.len() == active_slots(mask@, slot as int),
                forall|k: int|
                    0 <= k < judged@.len() ==> judged_alone(
                        |env: E, judgement: (Self::Policy, Fixed)|
                            call_ensures(Self::policy_value, (self, &env), judgement),
                        env_batch@,
                        mask@,
                        slot as int,
                        k,
                        #[trigger] judged@[k],
                    ),
            decreases env_batch@.len() - slot,
        {
            if mask[slot] {
                let (policy, value) = self.policy_value(&env_batch[slot]);
                judged.push((policy, value, 0));
            }
            let ghost judges = |env: E, judgement: (Self::Policy, Fixed)|
                call_ensures(Self::policy_value, (self, &env), judgement);
            assert forall|k: int| 0 <= k < judged@.len() implies judged_alone(
                judges,
                env_batch@,
                mask@,
                slot + 1,
                k,
                #[trigger] judged@[k],
            ) by {}
            slot = slot + 1;
        }
        judged
    }
}

} // verus!
