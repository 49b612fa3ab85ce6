//! What a finished search hands to training: policy targets and replays.

use vstd::prelude::*;
use std::collections::VecDeque;
use crate::fixed::{share, visit_share, Fixed};
use crate::search::env::{within, Environment};
use crate::search::node::Node;

verus! {

/// For each child of `node` its action and its share of the visits of
/// `node`, `visit_count / node.visit_count`, in the order of the children.
/// No child has more visits than `node`, which has been visited if it has
/// children.
pub fn policy_target_from_proportional_visits<E: Environment>(node: &Node<E>) -> (r: Vec<
    (E::Action, Fixed),
>)
    requires
        forall|i: int|
            0 <= i < node.children@.len() ==> 0 < node.visit_count && (
            #[trigger] node.children@[i]).1.visit_count <= node.visit_count,
    ensures
        r@.len() == node.children@.len(),
        forall|i: int|
            0 <= i < r@.len() ==> {
                &&& (#[trigger] r@[i]).0 == node.children@[i].0
                &&& r@[i].1 == share(
                    node.children@[i].1.visit_count as int,
                    node.visit_count as int,
                )
            },
{
    let mut target: Vec<(E::Action, Fixed)> = Vec::new();
    let mut i: usize = 0;
    while i < node.children.len()
        invariant
            forall|j: int|
                0 <= j < node.children@.len() ==> 0 < node.visit_count && (
                #[trigger] node.children@[j]).1.visit_count <= node.visit_count,
            i <= node.children@.len(),
            target@.len() == i,
            forall|j: int|
                0 <= j < i ==> {
                    &&& (#[trigger] target@[j]).0 == node.children@[j].0
                    &&& target@[j].1 == share(
                        node.children@[j].1.visit_count as int,
                        node.visit_count as int,
                    )
                },
        decreases node.children@.len() - i,
    {
        let action: E::Action = node.children[i].0;
        let visits: u32 = node.children[i].1.visit_count;
        target.push((action, visit_share(visits, node.visit_count)));
        i = i + 1;
    }
    target
}

/// A game as it was played: a position, and the actions that followed it.
pub struct Replay<E: Environment> {
    /// The position from which the actions are to be played.
    pub env: E,
    /// The actions that are still to be played, the next one first.
    pub actions: VecDeque<E::Action>,
}

impl<E: Environment> Replay<E> {
    /// Starts a replay at the position `env`.
    pub fn new(env: E) -> (r: Self)
        ensures
            r.env == env,
            r.actions@.len() == 0,
    {
        Replay { env, actions: VecDeque::new() }
    }

    /// Adds `action` at the end of the replay.
    pub fn push(&mut self, action: E::Action)
        ensures
            final(self).env == old(self).env,
            final(self).actions@ == old(self).actions@.push(action),
    {
        self.actions.push_back(action);
    }

    /// The number of actions that are still to be played.
    pub fn len(&self) -> (r: usize)
        ensures
            r == self.actions@.len(),
    {
        self.actions.len()
    }

    /// Whether no action is left to be played.
    pub fn is_empty(&self) -> (r: bool)
        ensures
            r == (self.actions@.len() == 0),
    {
        self.actions.len() == 0
    }

    /// Plays the next `steps` actions of the replay in its position, and
    /// takes them off the replay.
    ///
    /// The position passes through `steps + 1` positions, from the one it
    /// was to the one it is, each reached from the one before by the game's
    /// own step with the next action of the replay.
    pub fn advance(&mut self, steps: usize)
        requires
            steps <= old(self).actions@.len(),
        ensures
            final(self).actions@ == old(self).actions@.skip(steps as int),
            exists|envs: Seq<E>|
                {
                    &&& #[trigger] envs.len() == steps + 1
                    &&& envs[0] == old(self).env
                    &&& envs[steps as int] == final(self).env
                    &&& forall|k: int| #[trigger]
                        within(k, steps as int) ==> exists|stepped: &mut E|
                            #![trigger call_ensures(E::step, (stepped, old(self).actions@[k]), ())]
                            {
                                &&& call_ensures(E::step, (stepped, old(self).actions@[k]), ())
                                &&& mut_ref_current(stepped) == envs[k]
                                &&& mut_ref_future(stepped) == envs[k + 1]
                            }
                },
    {
        let ghost mut envs: Seq<E> = seq![self.env];
        let mut done: usize = 0;
        while done < steps
            invariant
                done <= steps <= old(self).actions@.len(),
                self.actions@ == old(self).actions@.skip(done as int),
                envs.len() == done + 1,
                envs[0] == old(self).env,
                envs[done as int] == self.env,
                forall|k: int| #[trigger]
                    within(k, done as int) ==> exists|stepped: &mut E|
                        #![trigger call_ensures(E::step, (stepped, old(self).actions@[k]), ())]
                        {
                            &&& call_ensures(E::step, (stepped, old(self).actions@[k]), ())
                            &&& mut_ref_current(stepped) == envs[k]
                            &&& mut_ref_future(stepped) == envs[k + 1]
                        },
            decreases steps - done,
        {
            let ghost before = envs;
            match self.actions.pop_front() {
                Some(action) => {
                    self.env.step(action);
                },
                None => {},
            }
            proof {
                envs = before.push(self.env);
                assert forall|k: int| #[trigger]
                    within(k, done + 1) implies exists|stepped: &mut E|
                    #![trigger call_ensures(E::step, (stepped, old(self).actions@[k]), ())]
                    {
                        &&& call_ensures(E::step, (stepped, old(self).actions@[k]), ())
                        &&& mut_ref_current(stepped) == envs[k]
                        &&& mut_ref_future(stepped) == envs[k + 1]
                    } by {
                    if k < done {
                        assert(within(k, done as int));
                    }
                }
            }
            done = done + 1;
        }
    }
}

} // verus!
