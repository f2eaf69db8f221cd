use vstd::prelude::*;
use crate::trit::Trit;
use crate::rule::CollabRule;
use crate::collaborator::Collaborator;
use crate::progression::{Phase, TaskProgression};
use crate::sync::WorkSync;
use crate::consensus::{ConsensusMix, weighted_total};
use crate::harmony::{CognitiveHarmony, conflict_pairs, agreement_pairs, row_count, rows_count};

verus! {

/// The rule registered for the `i`-th collaborator, `Free` where none is.
pub open spec fn rule_at(rules: Seq<CollabRule>, i: int) -> CollabRule {
    if 0 <= i < rules.len() {
        rules[i]
    } else {
        CollabRule::Free
    }
}

/// What a collaborator outputs in a tick: its next queued decision while any
/// remains; once its queue is played out it falls back on its tendency, through
/// its rule, in answer to `prev`, the output just before its own.
pub open spec fn agent_output(c: Collaborator, rule: CollabRule, prev: Trit) -> Trit {
    if c.spec_remaining() == 0 {
        rule.spec_apply(prev, c.tendency)
    } else {
        c.next_played()
    }
}

/// The abstract state of a work session.
pub struct SessionState {
    pub collaborators: Seq<Collaborator>,
    pub phases: Seq<Phase>,
    pub current: usize,
    pub sync: WorkSync,
    pub rules: Seq<CollabRule>,
    pub weights: Seq<i8>,
    pub harmony: CognitiveHarmony,
    pub output: Seq<Trit>,
    pub ticks: u64,
}

impl SessionState {
    /// The previous collective decision, `Abstain` before the first tick.
    pub open spec fn last_result(self) -> Trit {
        if self.output.len() > 0 {
            self.output.last()
        } else {
            Trit::Abstain
        }
    }

    /// The outputs of the first `i` collaborators in the next tick, in turn:
    /// each answers the output of the collaborator before it, and the first
    /// answers the previous collective decision.
    pub open spec fn outputs_upto(self, i: nat) -> Seq<Trit>
        decreases i,
    {
        if i == 0 {
            Seq::empty()
        } else {
            let before = self.outputs_upto((i - 1) as nat);
            let prev = if i == 1 {
                self.last_result()
            } else {
                before.last()
            };
            before.push(
                agent_output(self.collaborators[i - 1], rule_at(self.rules, i - 1), prev),
            )
        }
    }

    /// The outputs of all collaborators in the next tick.
    pub open spec fn tick_outputs(self) -> Seq<Trit> {
        self.outputs_upto(self.collaborators.len())
    }

    /// The consensus of the next tick.
    pub open spec fn tick_result(self) -> Trit {
        Trit::of_sign(weighted_total(self.weights, self.tick_outputs()))
    }

    /// The inputs on which a tick runs without overflow, division by zero or
    /// an index out of bounds.
    pub open spec fn tick_ok(self) -> bool {
        &&& self.sync.tick_ok()
        &&& self.sync.ends_turn() ==> self.current < self.phases.len()
        &&& self.harmony.record_ok(self.tick_outputs())
        &&& self.ticks < u64::MAX
    }

    /// The session after one tick.
    pub open spec fn ticked(self) -> SessionState {
        SessionState {
            collaborators: Seq::new(
                self.collaborators.len(),
                |i: int| self.collaborators[i].after_next(),
            ),
            current: if self.sync.ends_turn() {
                ((self.current + 1) % (self.phases.len() as int)) as usize
            } else {
                self.current
            },
            sync: self.sync.ticked(),
            harmony: self.harmony.recorded(self.tick_outputs()),
            output: self.output.push(self.tick_result()),
            ticks: (self.ticks + 1) as u64,
            ..self
        }
    }

    /// Whether `n` consecutive ticks all run without failure.
    pub open spec fn run_ok(self, n: nat) -> bool
        decreases n,
    {
        n == 0 || (self.tick_ok() && self.ticked().run_ok((n - 1) as nat))
    }

    /// The session after `n` ticks.
    pub open spec fn run_state(self, n: nat) -> SessionState
        decreases n,
    {
        if n == 0 {
            self
        } else {
            self.ticked().run_state((n - 1) as nat)
        }
    }

    /// The consensus results of `n` ticks, in order.
    pub open spec fn run_results(self, n: nat) -> Seq<Trit>
        decreases n,
    {
        if n == 0 {
            Seq::empty()
        } else {
            seq![self.tick_result()].add(self.ticked().run_results((n - 1) as nat))
        }
    }
}

/// The work session: the arena where agents collaborate.
#[derive(Debug, Clone)]
pub struct WorkSession {
    pub collaborators: Vec<Collaborator>,
    pub progression: TaskProgression,
    pub sync: WorkSync,
    pub rules: Vec<CollabRule>,
    pub mixer: ConsensusMix,
    pub harmony: CognitiveHarmony,
    pub output: Vec<Trit>,
    pub ticks: u64,
}

impl View for WorkSession {
    type V = SessionState;

    open spec fn view(&self) -> SessionState {
        SessionState {
            collaborators: self.collaborators@,
            phases: self.progression.phases@,
            current: self.progression.current,
            sync: self.sync,
            rules: self.rules@,
            weights: self.mixer.weights@,
            harmony: self.harmony,
            output: self.output@,
            ticks: self.ticks,
        }
    }
}

impl WorkSession {
    pub fn new(progression: TaskProgression, sync: WorkSync, mixer: ConsensusMix) -> (r: Self)
        ensures
            r@ == (SessionState {
                collaborators: Seq::empty(),
                phases: progression.phases@,
                current: progression.current,
                sync: sync,
                rules: Seq::empty(),
                weights: mixer.weights@,
                harmony: CognitiveHarmony::zeroed(),
                output: Seq::empty(),
                ticks: 0,
            }),
    {
        WorkSession {
            collaborators: Vec::new(),
            progression,
            sync,
            rules: Vec::new(),
            mixer,
            harmony: CognitiveHarmony::new(),
            output: Vec::new(),
            ticks: 0,
        }
    }

    /// Registers an agent with its rule.
    pub fn add_collaborator(&mut self, c: Collaborator, rule: CollabRule)
        ensures
            final(self)@ == (SessionState {
                collaborators: old(self)@.collaborators.push(c),
                rules: old(self)@.rules.push(rule),
                ..old(self)@
            }),
    {
        self.collaborators.push(c);
        self.rules.push(rule);
    }

    /// The output of the `i`-th collaborator in this tick, answering `prev`;
    /// plays its queue if needed.
    fn agent_step(&mut self, i: usize, prev: Trit) -> (r: Trit)
        requires
            i < old(self).collaborators@.len(),
        ensures
            r == agent_output(old(self).collaborators@[i as int], rule_at(old(self).rules@, i as int), prev),
            final(self)@ == (SessionState {
                collaborators: old(self)@.collaborators.update(
                    i as int,
                    old(self).collaborators@[i as int].after_next(),
                ),
                ..old(self)@
            }),
    {
        if self.collaborators[i].remaining() == 0 {
            let rule = if i < self.rules.len() {
                self.rules[i]
            } else {
                CollabRule::Free
            };
            proof {
                assert(old(self).collaborators@[i as int].after_next() == old(self).collaborators@[i as int]);
                assert(old(self)@.collaborators.update(i as int, old(self).collaborators@[i as int])
                    =~= old(self)@.collaborators);
            }
            rule.apply(prev, self.collaborators[i].tendency)
        } else {
            self.collaborators[i].next_action()
        }
    }

    /// Advances one tick and returns the consensus: the timer ticks, the phase
    /// advances on a new turn, every collaborator outputs, the outputs are
    /// recorded and mixed, and the result is appended to the history.
    pub fn tick(&mut self) -> (r: Trit)
        requires
            old(self)@.tick_ok(),
        ensures
            r == old(self)@.tick_result(),
            final(self)@ == old(self)@.ticked(),
    {
        let ghost s0 = self@;
        let new_turn = self.sync.tick();
        if new_turn {
            self.progression.advance();
        }
        let ghost s1 = self@;
        let n: usize = self.collaborators.len();
        let mut outputs: Vec<Trit> = Vec::new();
        let mut i: usize = 0;
        proof {
            assert(s1.collaborators =~= Seq::new(
                n as nat,
                |k: int|
                    if k < 0 {
                        s0.collaborators[k].after_next()
                    } else {
                        s0.collaborators[k]
                    },
            ));
        }
        while i < n
            invariant
                n == s0.collaborators.len(),
                s1.rules == s0.rules,
                s1.output == s0.output,
                i <= n,
                self@ == (SessionState {
                    collaborators: Seq::new(
                        n as nat,
                        |k: int|
                            if k < i {
                                s0.collaborators[k].after_next()
                            } else {
                                s0.collaborators[k]
                            },
                    ),
                    ..s1
                }),
                outputs@ == s0.outputs_upto(i as nat),
                outputs@.len() == i,
            decreases n - i,
        {
            let ghost before = self@;
            assert(before.collaborators[i as int] == s0.collaborators[i as int]);
            let prev = if i == 0 {
                let m = self.output.len();
                if m > 0 {
                    self.output[m - 1]
                } else {
                    Trit::Abstain
                }
            } else {
                outputs[i - 1]
            };
            let ghost spec_prev = if i == 0 {
                s0.last_result()
            } else {
                s0.outputs_upto(i as nat).last()
            };
            assert(s1.output == s0.output);
            assert(prev == spec_prev);
            let out = self.agent_step(i, prev);
            assert(out == agent_output(s0.collaborators[i as int], rule_at(s0.rules, i as int), spec_prev));
            assert(s0.outputs_upto(i as nat + 1) == s0.outputs_upto(i as nat).push(out));
            outputs.push(out);
            proof {
                assert(outputs@ =~= s0.outputs_upto(i as nat + 1));
                assert(self@.collaborators =~= Seq::new(
                    n as nat,
                    |k: int|
                        if k < i + 1 {
                            s0.collaborators[k].after_next()
                        } else {
                            s0.collaborators[k]
                        },
                ));
            }
            i = i + 1;
        }
        self.harmony.record(outputs.as_slice());
        let result = self.mixer.weighted_vote(outputs.as_slice());
        self.output.push(result);
        self.ticks = self.ticks + 1;
        proof {
            assert(self@.collaborators =~= s0.ticked().collaborators);
            assert(self@.output =~= s0.ticked().output);
        }
        result
    }

    /// Runs `ticks` ticks and returns their results in order.
    pub fn run(&mut self, ticks: u32) -> (r: Vec<Trit>)
        requires
            old(self)@.run_ok(ticks as nat),
        ensures
            r@ == old(self)@.run_results(ticks as nat),
            final(self)@ == old(self)@.run_state(ticks as nat),
    {
        let ghost s0 = self@;
        let mut results: Vec<Trit> = Vec::new();
        let mut k: u32 = 0;
        while k < ticks
            invariant
                k <= ticks,
                self@.run_ok((ticks - k) as nat),
                self@.run_state((ticks - k) as nat) == s0.run_state(ticks as nat),
                results@.add(self@.run_results((ticks - k) as nat)) == s0.run_results(ticks as nat),
            decreases ticks - k,
        {
            let ghost before = self@;
            let t = self.tick();
            results.push(t);
            proof {
                assert(before.run_results((ticks - k) as nat) == seq![t].add(
                    self@.run_results((ticks - k - 1) as nat),
                ));
                assert(results@.add(self@.run_results((ticks - k - 1) as nat)) =~= results@.drop_last().add(
                    before.run_results((ticks - k) as nat),
                ));
            }
            k = k + 1;
        }
        proof {
            assert(results@ =~= results@.add(self@.run_results(0)));
        }
        results
    }

    /// Number of registered agents.
    pub fn collaborator_count(&self) -> (r: usize)
        ensures
            r == self.collaborators@.len(),
    {
        self.collaborators.len()
    }
}

/// Over `n` ticks the session appends exactly their `n` results to its
/// history, in order; counts `n` more ticks and `n` more recorded outputs;
/// keeps its collaborators, phases, rules and weights; and its timer ticks
/// `n` times.
pub proof fn lemma_run_extends_history(s: SessionState, n: nat)
    requires
        s.run_ok(n),
    ensures
        s.run_results(n).len() == n,
        s.run_state(n).output == s.output + s.run_results(n),
        s.run_state(n).ticks == s.ticks + n,
        s.run_state(n).harmony.total_outputs == s.harmony.total_outputs + n,
        s.run_state(n).collaborators.len() == s.collaborators.len(),
        s.run_state(n).phases == s.phases,
        s.run_state(n).rules == s.rules,
        s.run_state(n).weights == s.weights,
        s.run_state(n).sync == s.sync.ticked_n(n),
    decreases n,
{
    if n == 0 {
        assert(s.output + s.run_results(0) =~= s.output);
    } else {
        let t = s.ticked();
        lemma_run_extends_history(t, (n - 1) as nat);
        assert(s.run_results(n) == seq![s.tick_result()].add(t.run_results((n - 1) as nat)));
        assert(s.output + s.run_results(n) =~= t.output + t.run_results((n - 1) as nat));
    }
}

/// A duo of a Free agent leaning to approve, whose queue holds only approvals
/// from its cursor on, followed by a Contrary agent leaning to reject, whose
/// queue holds only rejections from its cursor on.
pub open spec fn approver_then_contrary_critic(s: SessionState) -> bool {
    let b = s.collaborators[0];
    let c = s.collaborators[1];
    &&& s.collaborators.len() == 2
    &&& rule_at(s.rules, 0) == CollabRule::Free
    &&& rule_at(s.rules, 1) == CollabRule::Contrary
    &&& b.tendency == 1
    &&& c.tendency == -1
    &&& forall|k: int| b.position <= k < b.actions@.len() ==> b.actions@[k] == Trit::Approve
    &&& forall|k: int| c.position <= k < c.actions@.len() ==> c.actions@[k] == Trit::Reject
}

proof fn lemma_duo_tick(s: SessionState)
    requires
        approver_then_contrary_critic(s),
    ensures
        s.tick_outputs() == seq![Trit::Approve, Trit::Reject],
        approver_then_contrary_critic(s.ticked()),
{
    reveal_with_fuel(SessionState::outputs_upto, 3);
    let b = s.collaborators[0];
    let c = s.collaborators[1];
    assert(agent_output(b, CollabRule::Free, s.last_result()) == Trit::Approve);
    let first = s.outputs_upto(1);
    assert(first == seq![Trit::Approve]);
    assert(agent_output(c, CollabRule::Contrary, Trit::Approve) == Trit::Reject);
    assert(s.tick_outputs() =~= seq![Trit::Approve, Trit::Reject]);
    let t = s.ticked();
    assert(t.collaborators[0] == b.after_next());
    assert(t.collaborators[1] == c.after_next());
    assert(b.actions.len() == b.actions@.len());
    assert(c.actions.len() == c.actions@.len());
    assert(t.collaborators.len() == 2);
    assert(t.rules == s.rules);
    assert(b.has_pending() ==> t.collaborators[0].position == b.position + 1);
    assert(c.has_pending() ==> t.collaborators[1].position == c.position + 1);
}

proof fn lemma_opposed_pair_counts()
    ensures
        conflict_pairs(seq![Trit::Approve, Trit::Reject]) == 1,
        agreement_pairs(seq![Trit::Approve, Trit::Reject]) == 0,
{
    let p = seq![Trit::Approve, Trit::Reject];
    assert(row_count(p, 1, 2, true) == 0);
    assert(row_count(p, 1, 2, false) == 0);
    assert(row_count(p, 0, 1, true) == 0);
    assert(row_count(p, 0, 1, false) == 0);
    assert(row_count(p, 0, 2, true) == 1);
    assert(row_count(p, 0, 2, false) == 0);
    assert(rows_count(p, 0, true) == 0);
    assert(rows_count(p, 0, false) == 0);
    assert(rows_count(p, 1, true) == 1);
    assert(rows_count(p, 1, false) == 0);
}

/// An approver followed by a Contrary critic conflict on every tick: the
/// critic rejects while its queue lasts, and once it is played out its rule
/// answers the approver's approval with a rejection. So each of `n` ticks adds
/// exactly one conflict and no agreement.
pub proof fn lemma_contrary_critic_keeps_conflicting(s: SessionState, n: nat)
    requires
        approver_then_contrary_critic(s),
        s.run_ok(n),
    ensures
        s.run_state(n).harmony.conflict_count == s.harmony.conflict_count + n,
        s.run_state(n).harmony.agreement_count == s.harmony.agreement_count,
    decreases n,
{
    if n > 0 {
        lemma_duo_tick(s);
        lemma_opposed_pair_counts();
        lemma_contrary_critic_keeps_conflicting(s.ticked(), (n - 1) as nat);
    }
}

/// A fresh duo of a Builder with two queued approvals under `Free` and a
/// Critic with one queued rejection under `Contrary`: the explicit rejection
/// is one conflict, and the Contrary rule keeps adding conflicts afterwards,
/// so after `n >= 2` ticks there are `n` conflicts, more than one.
pub proof fn lemma_duo_conflict_rises(s: SessionState, n: nat)
    requires
        s.collaborators.len() == 2,
        s.rules == seq![CollabRule::Free, CollabRule::Contrary],
        s.collaborators[0].tendency == 1,
        s.collaborators[0].actions@ == seq![Trit::Approve, Trit::Approve],
        s.collaborators[0].position == 0,
        s.collaborators[1].tendency == -1,
        s.collaborators[1].actions@ == seq![Trit::Reject],
        s.collaborators[1].position == 0,
        s.harmony == CognitiveHarmony::zeroed(),
        2 <= n,
        s.run_ok(n),
    ensures
        s.run_state(n).harmony.conflict_count == n,
        s.run_state(n).harmony.conflict_count > 1,
{
    assert(approver_then_contrary_critic(s));
    lemma_contrary_critic_keeps_conflicting(s, n);
}

} // verus!
