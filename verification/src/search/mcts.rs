//! Simulation: one more visit to the tree, and what it proves.

use vstd::prelude::*;
use crate::fixed::{running_mean, update_mean, Fixed};
use crate::search::agent::{Agent, Policy};
use crate::search::env::{within, Environment, Terminal};
use crate::search::eval::Eval;
use crate::search::node::{lemma_longest_bounds, longest_among, Node};

verus! {

/// What the game and the oracle answered in the course of one simulation.
///
/// A simulation passes through one node after the other, from the root
/// down, until it comes to a node that it does not descend from: one that
/// is proven or has no children. If that node has never been visited, the
/// simulation expands it.
pub struct Trace<E: Environment> {
    /// The positions of the nodes on the way, that of the root first.
    pub envs: Seq<E>,
    /// The actions played on the way, each between a position and the next.
    pub path: Seq<E::Action>,
    /// Whether the last node on the way was expanded.
    pub expanded: bool,
    /// How the game said that the last position ended.
    pub outcome: Option<Terminal>,
    /// The estimate that the oracle gave of the last position.
    pub value: Fixed,
    /// The actions that the game enumerated in the last position.
    pub actions: Seq<E::Action>,
    /// The priors that the oracle gave to those actions, in their order.
    pub priors: Seq<Fixed>,
}

impl<E: Environment> Trace<E> {
    /// What was answered from the second node on.
    pub open spec fn rest(self) -> Trace<E> {
        Trace {
            envs: self.envs.skip(1),
            path: self.path.skip(1),
            expanded: self.expanded,
            outcome: self.outcome,
            value: self.value,
            actions: self.actions,
            priors: self.priors,
        }
    }

    /// What was answered from the node above on, whose position was `env`
    /// and whose action `action` led to the first node of this trace.
    pub open spec fn after(self, env: E, action: E::Action) -> Trace<E> {
        Trace {
            envs: seq![env] + self.envs,
            path: seq![action] + self.path,
            expanded: self.expanded,
            outcome: self.outcome,
            value: self.value,
            actions: self.actions,
            priors: self.priors,
        }
    }

    /// The position of the last node on the way.
    pub open spec fn last(self) -> E {
        self.envs.last()
    }

    /// Going on from the node above and leaving it out again is the same.
    pub proof fn lemma_rest_of_after(self, env: E, action: E::Action)
        requires
            self.envs.len() > 0,
        ensures
            self.after(env, action).rest() == self,
            self.after(env, action).last() == self.last(),
    {
        assert(self.after(env, action).envs.skip(1) =~= self.envs);
        assert(self.after(env, action).path.skip(1) =~= self.path);
    }
}

impl<E: Environment> Node<E> {
    /// What a node with an estimate makes of the evaluation `child_eval` that
    /// one of its children has just returned.
    ///
    /// A lost child proves a win at the same distance. A won child, when all
    /// children are won, proves a loss one ply beyond the farthest child. A
    /// won or drawn child, when all children are won or drawn, proves a draw
    /// one ply beyond the farthest drawn child. Otherwise the worth of the
    /// child, seen from this node, is one more sample of the mean.
    pub open spec fn propagated(&self, child_eval: Eval) -> Eval {
        if child_eval is Loss {
            child_eval.negated()
        } else if child_eval is Win && self.all_children_win() {
            Eval::Loss((1 + self.longest(false)) as u32)
        } else if (child_eval is Win || child_eval is Draw) && self.all_children_win_or_draw() {
            Eval::Draw((1 + self.longest(true)) as u32)
        } else {
            Eval::Value(
                running_mean(
                    self.evaluation.scalar(),
                    self.visit_count as int,
                    child_eval.negated().scalar(),
                ) as i64,
            )
        }
    }

    /// This node with one more visit counted.
    pub open spec fn visited(&self) -> Node<E> {
        Node {
            evaluation: self.evaluation,
            visit_count: (self.visit_count + 1) as u32,
            probability: self.probability,
            variance: self.variance,
            children: self.children,
        }
    }

    /// This node with `children` in place of its own.
    pub open spec fn with_children(&self, children: Vec<(E::Action, Node<E>)>) -> Node<E> {
        Node {
            evaluation: self.evaluation,
            visit_count: self.visit_count,
            probability: self.probability,
            variance: self.variance,
            children,
        }
    }

    /// Whether expanding this node, as `trace` says what the game and the
    /// oracle answered, leads to `after`.
    ///
    /// A finished game proves the node at distance zero. Otherwise the node
    /// gets the estimate of the oracle, and for each enumerated action, in
    /// their order, an untouched child with the prior of that action.
    pub open spec fn expands_to(&self, after: &Node<E>, trace: Trace<E>) -> bool {
        match trace.outcome {
            Some(terminal) => {
                &&& after.evaluation == Eval::of_terminal(terminal)
                &&& after.children == self.children
            },
            None => {
                &&& after.evaluation == Eval::Value(trace.value)
                &&& trace.priors.len() == trace.actions.len()
                &&& after.children@.len() == trace.actions.len()
                &&& forall|i: int|
                    0 <= i < trace.actions.len() ==> {
                        &&& (#[trigger] after.children@[i]).0 == trace.actions[i]
                        &&& after.children@[i].1.fresh()
                        &&& after.children@[i].1.probability == trace.priors[i]
                    }
            },
        }
    }

    /// Whether one simulation, in which the game and the oracle answer as
    /// `trace` says, leads from this node to `after`.
    ///
    /// The visit is counted. A proven node is left as it is. A node without
    /// visits is expanded. A visited node that was left without children
    /// keeps its estimate. A node with children lets the simulation pass
    /// through the one child that the priors select, by the action of that
    /// child, leaves the other children as they are, and takes in what that
    /// child returned.
    pub open spec fn advances_to(&self, after: &Node<E>, trace: Trace<E>) -> bool
        decreases self,
    {
        &&& after.visit_count == self.visit_count + 1
        &&& after.probability == self.probability
        &&& after.variance == self.variance
        &&& if self.evaluation.known() {
            &&& trace.path.len() == 0
            &&& !trace.expanded
            &&& after.evaluation == self.evaluation
            &&& after.children == self.children
        } else if self.children@.len() == 0 {
            &&& trace.path.len() == 0
            &&& trace.expanded == (self.visit_count == 0)
            &&& if self.visit_count == 0 {
                self.expands_to(after, trace)
            } else {
                after.evaluation == self.evaluation && after.children == self.children
            }
        } else {
            exists|i: int|
                {
                    &&& 0 <= i < self.children@.len()
                    &&& #[trigger] self.visited().lags_most(self.priors(), i)
                    &&& trace.path.len() > 0
                    &&& trace.path[0] == self.children@[i].0
                    &&& after.children@.len() == self.children@.len()
                    &&& forall|j: int|
                        0 <= j < self.children@.len() && j != i ==> #[trigger] after.children@[j]
                            == self.children@[j]
                    &&& after.children@[i].0 == self.children@[i].0
                    &&& self.children@[i].1.advances_to(&after.children@[i].1, trace.rest())
                    &&& after.evaluation == self.visited().with_children(
                        after.children,
                    ).propagated(after.children@[i].1.evaluation)
                }
        }
    }

    /// Folds `value` into the mean that the node holds as its estimate.
    fn update_mean_value(&mut self, value: Fixed)
        requires
            old(self).evaluation is Value,
            old(self).visit_count >= 1,
        ensures
            final(self).evaluation == Eval::Value(
                running_mean(
                    old(self).evaluation.scalar(),
                    old(self).visit_count as int,
                    value as int,
                ) as i64,
            ),
            final(self).visit_count == old(self).visit_count,
            final(self).probability == old(self).probability,
            final(self).variance == old(self).variance,
            final(self).children == old(self).children,
    {
        let mean: Fixed = Fixed::from(self.evaluation);
        self.evaluation = Eval::Value(update_mean(mean, self.visit_count, value));
    }

    /// What there is to know of the children for a proof: whether all are
    /// won, whether all are won or drawn, and the largest distance among all
    /// proven ones and among the drawn ones.
    fn survey(&self) -> (r: (bool, bool, u32, u32))
        ensures
            r.0 == self.all_children_win(),
            r.1 == self.all_children_win_or_draw(),
            r.2 == self.longest(false),
            r.3 == self.longest(true),
    {
        let mut all_win: bool = true;
        let mut all_win_or_draw: bool = true;
        let mut farthest: u32 = 0;
        let mut farthest_draw: u32 = 0;
        let mut i: usize = 0;
        while i < self.children.len()
            invariant
                i <= self.children@.len(),
                all_win == (forall|j: int|
                    0 <= j < i ==> (#[trigger] self.children@[j]).1.evaluation is Win),
                all_win_or_draw == (forall|j: int|
                    0 <= j < i ==> {
                        let eval = (#[trigger] self.children@[j]).1.evaluation;
                        eval is Win || eval is Draw
                    }),
                farthest == longest_among::<E>(self.children@, i as int, false),
                farthest_draw == longest_among::<E>(self.children@, i as int, true),
            decreases self.children@.len() - i,
        {
            let eval: Eval = self.children[i].1.evaluation;
            match eval {
                Eval::Win(ply) => {
                    if ply > farthest {
                        farthest = ply;
                    }
                },
                Eval::Draw(ply) => {
                    all_win = false;
                    if ply > farthest {
                        farthest = ply;
                    }
                    if ply > farthest_draw {
                        farthest_draw = ply;
                    }
                },
                Eval::Loss(ply) => {
                    all_win = false;
                    all_win_or_draw = false;
                    if ply > farthest {
                        farthest = ply;
                    }
                },
                Eval::Value(_) => {
                    all_win = false;
                    all_win_or_draw = false;
                },
            }
            i = i + 1;
        }
        (all_win, all_win_or_draw, farthest, farthest_draw)
    }

    /// Takes in the evaluation `child_eval` that a child has just returned:
    /// folds its worth into the mean, and proves this node where the children
    /// now allow it. Returns the evaluation of this node.
    ///
    /// The node holds an estimate and has been visited, `child_eval` is the
    /// evaluation of one of its children, and no child is proven at the
    /// largest distance that can be counted. Where the node was in order and
    /// none of its children was lost, unless the one that returned is, the
    /// tree is well formed afterwards.
    pub fn propagate_child_eval(&mut self, child_eval: Eval) -> (r: Eval)
        requires
            old(self).evaluation is Value,
            old(self).visit_count >= 1,
            exists|i: int|
                0 <= i < old(self).children@.len() && (
                #[trigger] old(self).children@[i]).1.evaluation == child_eval,
            forall|i: int|
                0 <= i < old(self).children@.len() ==> ((
                #[trigger] old(self).children@[i]).1.evaluation.distance() matches Some(ply)
                    ==> ply < u32::MAX),
        ensures
            r == old(self).propagated(child_eval),
            final(self).evaluation == r,
            final(self).visit_count == old(self).visit_count,
            final(self).probability == old(self).probability,
            final(self).variance == old(self).variance,
            final(self).children == old(self).children,
            old(self).shaped() && (child_eval is Loss || old(self).no_child_lost())
                ==> final(self).wf(),
    {
        let ghost from = choose|i: int|
            0 <= i < self.children@.len() && (#[trigger] self.children@[i]).1.evaluation
                == child_eval;
        proof {
            let count = self.children@.len() as int;
            lemma_longest_bounds::<E>(self.children@, count, false, u32::MAX - 1);
            lemma_longest_bounds::<E>(self.children@, count, true, u32::MAX - 1);
            if self.shaped() {
                assert(self.children@[from].1.wf());
                assert forall|i: int| 0 <= i < count implies ((
                #[trigger] self.children@[i]).1.evaluation.distance() matches Some(ply) ==> ply
                    <= self.visit_count - 1) by {
                    assert(self.children@[i].1.wf());
                }
                lemma_longest_bounds::<E>(self.children@, count, false, self.visit_count - 1);
                lemma_longest_bounds::<E>(self.children@, count, true, self.visit_count - 1);
            }
        }
        self.update_mean_value(Fixed::from(child_eval.negate()));
        let (all_win, all_win_or_draw, farthest, farthest_draw) = self.survey();
        match child_eval {
            Eval::Loss(ply) => {
                self.evaluation = Eval::Win(ply);
            },
            Eval::Win(_) => {
                if all_win {
                    self.evaluation = Eval::Loss(1 + farthest);
                } else if all_win_or_draw {
                    self.evaluation = Eval::Draw(1 + farthest_draw);
                }
            },
            Eval::Draw(_) => {
                if all_win_or_draw {
                    self.evaluation = Eval::Draw(1 + farthest_draw);
                }
            },
            Eval::Value(_) => {},
        }
        proof {
            assert(self.children@ == old(self).children@);
            assert(self.children@[from].1.evaluation == child_eval);
        }
        self.evaluation
    }

    /// Proves this node, which has no children, by the result `terminal` of
    /// the finished game. Returns the evaluation of this node.
    pub fn conclude(&mut self, terminal: Terminal) -> (r: Eval)
        requires
            old(self).shaped(),
            old(self).children@.len() == 0,
        ensures
            r == Eval::of_terminal(terminal),
            final(self).evaluation == r,
            final(self).visit_count == old(self).visit_count,
            final(self).probability == old(self).probability,
            final(self).variance == old(self).variance,
            final(self).children == old(self).children,
            final(self).wf(),
    {
        self.evaluation = Eval::from(terminal);
        self.evaluation
    }

    /// Expands this node, which has been visited and has no children: gives
    /// it one untouched child for each of `actions`, in their order and with
    /// the prior that `policy` has for the action, and the estimate `value`.
    /// Empties `actions`. Returns the evaluation of this node.
    pub fn expand<P: Policy<E::Action>>(
        &mut self,
        policy: &P,
        actions: &mut Vec<E::Action>,
        value: Fixed,
    ) -> (r: Eval)
        requires
            old(self).shaped(),
            old(self).visit_count >= 1,
            old(self).children@.len() == 0,
        ensures
            r == Eval::Value(value),
            final(self).evaluation == r,
            final(self).visit_count == old(self).visit_count,
            final(self).probability == old(self).probability,
            final(self).variance == old(self).variance,
            final(self).children@.len() == old(actions)@.len(),
            forall|i: int|
                0 <= i < old(actions)@.len() ==> {
                    &&& (#[trigger] final(self).children@[i]).0 == old(actions)@[i]
                    &&& final(self).children@[i].1.fresh()
                    &&& call_ensures(
                        P::probability,
                        (policy, old(actions)@[i]),
                        final(self).children@[i].1.probability,
                    )
                },
            final(actions)@.len() == 0,
            final(self).wf(),
    {
        let mut children: Vec<(E::Action, Node<E>)> = Vec::new();
        let mut i: usize = 0;
        while i < actions.len()
            invariant
                i <= actions@.len(),
                actions@ == old(actions)@,
                children@.len() == i,
                forall|j: int|
                    0 <= j < i ==> {
                        &&& (#[trigger] children@[j]).0 == actions@[j]
                        &&& children@[j].1.fresh()
                        &&& children@[j].1.wf()
                        &&& call_ensures(
                            P::probability,
                            (policy, actions@[j]),
                            children@[j].1.probability,
                        )
                    },
            decreases actions@.len() - i,
        {
            let action: E::Action = actions[i];
            let child: Node<E> = Node::from_policy(policy.probability(action));
            children.push((action, child));
            i = i + 1;
        }
        actions.clear();
        self.children = children;
        self.evaluation = Eval::Value(value);
        proof {
            if self.children@.len() > 0 {
                assert(self.children@[0].1.evaluation is Value);
            }
        }
        self.evaluation
    }

    /// Runs one simulation from this node, whose position is `env`, and
    /// keeps account of what the game and the oracle answer.
    fn visit<A: Agent<E>>(
        &mut self,
        env: E,
        actions: &mut Vec<E::Action>,
        agent: &A,
    ) -> (r: (Eval, Ghost<Trace<E>>))
        requires
            old(self).wf(),
            old(self).visit_count < u32::MAX,
            !(old(self).evaluation is Win),
        ensures
            r.0 == final(self).evaluation,
            final(self).wf(),
            old(actions)@.len() == 0 ==> final(actions)@.len() == 0,
            old(self).advances_to(final(self), r.1@),
            r.1@.envs.len() == r.1@.path.len() + 1,
            r.1@.envs[0] == env,
            forall|k: int| #[trigger]
                within(k, r.1@.path.len() as int) ==> exists|stepped: &mut E|
                    #![trigger call_ensures(E::step, (stepped, r.1@.path[k]), ())]
                    {
                        &&& call_ensures(E::step, (stepped, r.1@.path[k]), ())
                        &&& mut_ref_current(stepped) == r.1@.envs[k]
                        &&& mut_ref_future(stepped) == r.1@.envs[k + 1]
                    },
            r.1@.expanded ==> call_ensures(E::terminal, (&r.1@.last(),), r.1@.outcome),
            r.1@.expanded && r.1@.outcome is None ==> exists|policy: A::Policy|
                #![trigger call_ensures(A::policy_value, (agent, &r.1@.last()), (policy, r.1@.value))]
                {
                    &&& call_ensures(A::policy_value, (agent, &r.1@.last()), (policy, r.1@.value))
                    &&& forall|i: int|
                        0 <= i < r.1@.actions.len() ==> call_ensures(
                            <A::Policy as Policy<E::Action>>::probability,
                            (&policy, #[trigger] r.1@.actions[i]),
                            r.1@.priors[i],
                        )
                },
            r.1@.expanded && r.1@.outcome is None ==> exists|buffer: &mut Vec<E::Action>|
                #![trigger call_ensures(E::populate_actions, (&r.1@.last(), buffer), ())]
                {
                    &&& call_ensures(E::populate_actions, (&r.1@.last(), buffer), ())
                    &&& mut_ref_current(buffer)@ == old(actions)@
                    &&& mut_ref_future(buffer)@ == r.1@.actions
                },
            if r.1@.expanded && r.1@.outcome is None {
                final(actions)@.len() == 0
            } else {
                final(actions)@ == old(actions)@
            },
        decreases *old(self),
    {
        let mut env = env;
        let ghost here = env;
        let ghost still = Trace::<E> {
            envs: seq![here],
            path: Seq::empty(),
            expanded: false,
            outcome: None,
            value: 0,
            actions: Seq::empty(),
            priors: Seq::empty(),
        };
        self.visit_count = self.visit_count + 1;
        if self.is_known() {
            return (self.evaluation, Ghost(still));
        }
        if self.needs_initialization() {
            if let Some(terminal) = env.terminal() {
                let ghost trace = Trace::<E> {
                    expanded: true,
                    outcome: Some(terminal),
                    ..still
                };
                return (self.conclude(terminal), Ghost(trace));
            }
            let (policy, value) = agent.policy_value(&env);
            env.populate_actions(actions);
            let ghost enumerated = actions@;
            let eval: Eval = self.expand(&policy, actions, value);
            let ghost trace = Trace::<E> {
                expanded: true,
                outcome: None,
                value,
                actions: enumerated,
                priors: self.priors(),
                ..still
            };
            proof {
                assert(trace.last() == here);
                assert(call_ensures(A::policy_value, (agent, &here), (policy, value)));
                assert forall|i: int| 0 <= i < trace.actions.len() implies call_ensures(
                    <A::Policy as Policy<E::Action>>::probability,
                    (&policy, #[trigger] trace.actions[i]),
                    trace.priors[i],
                ) by {
                    assert(self.children@[i].0 == enumerated[i]);
                    assert(trace.priors[i] == self.children@[i].1.probability);
                }
            }
            return (eval, Ghost(trace));
        }
        match self.select_with_policy() {
            None => {
                proof {
                    if self.children@.len() > 0 {
                        let other = choose|i: int|
                            0 <= i < self.children@.len() && (
                            #[trigger] self.children@[i]).1.evaluation is Value;
                        assert(self.eligible(other));
                    }
                }
                (self.evaluation, Ghost(still))
            },
            Some(index) => {
                let action: E::Action = self.children[index].0;
                env.step(action);
                let child = &mut self.children[index].1;
                let (child_eval, Ghost(below)) = child.visit(env, actions, agent);
                proof {
                    assert(self.children@[index as int].1.evaluation == child_eval);
                    assert forall|i: int| 0 <= i < self.children@.len() implies {
                        &&& (#[trigger] self.children@[i]).1.wf()
                        &&& self.children@[i].1.visit_count < self.visit_count
                    } by {
                        if i != index {
                            assert(self.children@[i] == old(self).children@[i]);
                        }
                    }
                }
                let eval: Eval = self.propagate_child_eval(child_eval);
                let ghost trace = below.after(here, action);
                proof {
                    below.lemma_rest_of_after(here, action);
                    assert(old(self).visited().lags_most(old(self).priors(), index as int));
                    assert forall|k: int| #[trigger]
                        within(k, trace.path.len() as int) implies exists|stepped: &mut E|
                        #![trigger call_ensures(E::step, (stepped, trace.path[k]), ())]
                        {
                            &&& call_ensures(E::step, (stepped, trace.path[k]), ())
                            &&& mut_ref_current(stepped) == trace.envs[k]
                            &&& mut_ref_future(stepped) == trace.envs[k + 1]
                        } by {
                        if k > 0 {
                            assert(within(k - 1, below.path.len() as int));
                            assert(trace.path[k] == below.path[k - 1]);
                            assert(trace.envs[k] == below.envs[k - 1]);
                            assert(trace.envs[k + 1] == below.envs[k - 1 + 1]);
                        } else {
                            assert(trace.path[0] == action);
                            assert(trace.envs[0] == here);
                            assert(trace.envs[1] == below.envs[0]);
                        }
                    }
                }
                (eval, Ghost(trace))
            },
        }
    }

    /// Runs one simulation from this node, whose position is `env`: counts
    /// the visit, then returns what is proven, or expands the node with the
    /// help of `agent`, or descends into the child that the priors select and
    /// takes in what comes back. `actions` is a buffer for the expansion:
    /// it comes back empty where a node was given children, and as it was
    /// otherwise. Returns the evaluation of this node.
    ///
    /// A node that is proven won is not simulated: the action that leads to
    /// it is never chosen. No proof is retracted: whatever node of the tree
    /// was proven before the call has the same evaluation after it.
    ///
    /// What the game and the oracle are asked, and what is made of their
    /// answers, is stated with a trace of the simulation. Each position on
    /// the way down comes from the one before by the game's own step with
    /// the action of the selected child, starting from `env`. Where a node
    /// is expanded, it is the game that said whether the last position of
    /// the way ends the game; and where the game goes on, it is the oracle
    /// that gave estimate and priors of that position, and the game that
    /// enumerated its actions into `actions`.
    pub fn simulate<A: Agent<E>>(
        &mut self,
        env: E,
        actions: &mut Vec<E::Action>,
        agent: &A,
    ) -> (r: Eval)
        requires
            old(self).wf(),
            old(self).visit_count < u32::MAX,
            !(old(self).evaluation is Win),
        ensures
            r == final(self).evaluation,
            final(self).wf(),
            old(self).evaluation.known() ==> final(self).evaluation == old(self).evaluation,
            old(self).keeps_proofs(final(self)),
            old(actions)@.len() == 0 ==> final(actions)@.len() == 0,
            exists|trace: Trace<E>|
                {
                    &&& #[trigger] old(self).advances_to(final(self), trace)
                    &&& trace.envs.len() == trace.path.len() + 1
                    &&& trace.envs[0] == env
                    &&& forall|k: int| #[trigger]
                        within(k, trace.path.len() as int) ==> exists|stepped: &mut E|
                            #![trigger call_ensures(E::step, (stepped, trace.path[k]), ())]
                            {
                                &&& call_ensures(E::step, (stepped, trace.path[k]), ())
                                &&& mut_ref_current(stepped) == trace.envs[k]
                                &&& mut_ref_future(stepped) == trace.envs[k + 1]
                            }
                    &&& trace.expanded ==> call_ensures(
                        E::terminal,
                        (&trace.last(),),
                        trace.outcome,
                    )
                    &&& trace.expanded && trace.outcome is None ==> exists|policy: A::Policy|
                        #![trigger call_ensures(A::policy_value, (agent, &trace.last()), (policy, trace.value))]
                        {
                            &&& call_ensures(
                                A::policy_value,
                                (agent, &trace.last()),
                                (policy, trace.value),
                            )
                            &&& forall|i: int|
                                0 <= i < trace.actions.len() ==> call_ensures(
                                    <A::Policy as Policy<E::Action>>::probability,
                                    (&policy, #[trigger] trace.actions[i]),
                                    trace.priors[i],
                                )
                        }
                    &&& trace.expanded && trace.outcome is None ==> exists|
                        buffer: &mut Vec<E::Action>,
                    |
                        #![trigger call_ensures(E::populate_actions, (&trace.last(), buffer), ())]
                        {
                            &&& call_ensures(E::populate_actions, (&trace.last(), buffer), ())
                            &&& mut_ref_current(buffer)@ == old(actions)@
                            &&& mut_ref_future(buffer)@ == trace.actions
                        }
                    &&& if trace.expanded && trace.outcome is None {
                        final(actions)@.len() == 0
                    } else {
                        final(actions)@ == old(actions)@
                    }
                },
    {
        let (eval, Ghost(trace)) = self.visit(env, actions, agent);
        proof {
            old(self).lemma_simulation_keeps_proofs(self, trace);
        }
        eval
    }
}

} // verus!
