use agent_jam::{
    CognitiveHarmony, CollabRule, Collaborator, ConsensusMix, Phase, Role, TaskProgression, Trit,
    WorkSession, WorkSync,
};

#[test]
fn from_i8_rejects_everything_outside_unit_range() {
    for v in i8::MIN..=i8::MAX {
        let r = Trit::from_i8(v);
        if (-1..=1).contains(&v) {
            assert_eq!(r.unwrap().to_i8(), v);
        } else {
            assert!(r.is_none());
        }
    }
    assert_eq!(Trit::from_i8(-1), Some(Trit::Reject));
    assert_eq!(Trit::from_i8(0), Some(Trit::Abstain));
    assert_eq!(Trit::from_i8(1), Some(Trit::Approve));
}

#[test]
fn sum_of_empty_abstains() {
    assert_eq!(Trit::sum(&[]), Trit::Abstain);
    assert_eq!(Trit::sum(&[Trit::Abstain, Trit::Reject, Trit::Abstain]), Trit::Reject);
}

#[test]
fn role_tendency_table() {
    assert_eq!(Role::Integrator.default_tendency(), 0);
    assert_eq!(Role::Explorer.default_tendency(), 1);
    let c = Collaborator::new(7, Role::Explorer);
    assert_eq!(c.id, 7);
    assert_eq!(c.tendency, 1);
    assert_eq!(c.position, 0);
    assert!(c.actions.is_empty());
}

#[test]
fn with_tendency_clamps() {
    assert_eq!(Collaborator::new(0, Role::Researcher).with_tendency(100).tendency, 1);
    assert_eq!(Collaborator::new(0, Role::Researcher).with_tendency(-100).tendency, -1);
    assert_eq!(Collaborator::new(0, Role::Builder).with_tendency(0).tendency, 0);
}

#[test]
fn queue_replays_after_reset() {
    let mut c = Collaborator::new(0, Role::Builder);
    c.add_action(Trit::Reject);
    c.add_action(Trit::Approve);
    assert_eq!(c.next_action(), Trit::Reject);
    assert_eq!(c.remaining(), 1);
    c.reset();
    assert_eq!(c.next_action(), Trit::Reject);
    assert_eq!(c.next_action(), Trit::Approve);
    assert_eq!(c.next_action(), Trit::Abstain);
    assert_eq!(c.position, 2);
}

#[test]
fn remaining_saturates_past_the_queue() {
    let mut c = Collaborator::new(0, Role::Builder);
    c.add_action(Trit::Approve);
    c.position = 5;
    assert_eq!(c.remaining(), 0);
    assert_eq!(c.next_action(), Trit::Abstain);
    assert_eq!(c.position, 5);
}

#[test]
fn phase_cycle_and_tension_table() {
    assert_eq!(
        Phase::cycle(),
        vec![Phase::Research, Phase::Design, Phase::Build, Phase::Test, Phase::Refine, Phase::Ship]
    );
    assert_eq!(Phase::Design.tension(), 1);
    assert_eq!(Phase::Build.tension(), 0);
    assert_eq!(Phase::Ship.tension(), 1);
}

#[test]
fn progression_full_cycle_returns() {
    let mut tp = TaskProgression::new(vec![Phase::Test, Phase::Ship, Phase::Design]);
    tp.advance();
    let start = tp.current;
    let mut seen = Vec::new();
    for _ in 0..tp.len() {
        seen.push(tp.advance());
    }
    assert_eq!(tp.current, start);
    assert_eq!(seen, vec![Phase::Ship, Phase::Design, Phase::Test]);
    assert_eq!(tp.current_phase(), Some(Phase::Ship));
    tp.reset();
    assert_eq!(tp.current_phase(), Some(Phase::Test));
    assert_eq!(tp.len(), 3);
    assert!(!tp.is_empty());
}

#[test]
fn empty_progression_has_no_phase() {
    let tp = TaskProgression::new(Vec::new());
    assert!(tp.is_empty());
    assert_eq!(tp.len(), 0);
    assert_eq!(tp.current_phase(), None);
}

#[test]
fn rule_apply_table() {
    assert_eq!(CollabRule::Parallel.apply(Trit::Approve, -5), Trit::Abstain);
    assert_eq!(CollabRule::Parallel.apply(Trit::Reject, -1), Trit::Reject);
    assert_eq!(CollabRule::Parallel.apply(Trit::Abstain, 0), Trit::Abstain);
    assert_eq!(CollabRule::Contrary.apply(Trit::Approve, 1), Trit::Abstain);
    assert_eq!(CollabRule::Contrary.apply(Trit::Abstain, 1), Trit::Approve);
    assert_eq!(CollabRule::Contrary.apply(Trit::Approve, -1), Trit::Reject);
    assert_eq!(CollabRule::Contrary.apply(Trit::Reject, 0), Trit::Approve);
    assert_eq!(CollabRule::Contrary.apply(Trit::Reject, -3), Trit::Abstain);
    assert_eq!(CollabRule::Free.apply(Trit::Reject, 1), Trit::Approve);
    assert_eq!(CollabRule::Free.apply(Trit::Reject, -1), Trit::Reject);
    assert_eq!(CollabRule::Free.apply(Trit::Approve, 5), Trit::Abstain);
    assert_eq!(CollabRule::Resolve.apply(Trit::Reject, 1), Trit::Abstain);
    assert_eq!(CollabRule::Resolve.apply(Trit::Abstain, -1), Trit::Abstain);
}

#[test]
fn rule_check_table() {
    assert!(!CollabRule::Parallel.check(Trit::Approve, Trit::Abstain));
    assert!(CollabRule::Parallel.check(Trit::Approve, Trit::Approve));
    assert!(CollabRule::Parallel.check(Trit::Abstain, Trit::Reject));
    assert!(CollabRule::Contrary.check(Trit::Approve, Trit::Reject));
    assert!(!CollabRule::Contrary.check(Trit::Reject, Trit::Reject));
    assert!(!CollabRule::Resolve.check(Trit::Abstain, Trit::Approve));
    assert!(CollabRule::Resolve.check(Trit::Reject, Trit::Approve));
}

#[test]
fn rules_accept_their_own_output_where_the_law_holds() {
    let rules = [CollabRule::Parallel, CollabRule::Contrary, CollabRule::Free, CollabRule::Resolve];
    let prevs = [Trit::Reject, Trit::Abstain, Trit::Approve];
    for rule in rules {
        for prev in prevs {
            for t in -3i8..=3 {
                let p = prev.to_i8();
                let s = t.signum();
                let excluded = match rule {
                    CollabRule::Parallel => p != 0 && s == -p,
                    _ => false,
                };
                let ok = rule.check(prev, rule.apply(prev, t));
                if !excluded {
                    assert!(ok);
                } else {
                    assert!(!ok);
                }
            }
        }
    }
}

#[test]
fn sprint_returns_to_start() {
    let mut s = WorkSync::new(3, 2);
    assert_eq!(s.sprint_ticks(), 6);
    let mut boundaries = Vec::new();
    for _ in 0..s.sprint_ticks() {
        boundaries.push(s.tick());
    }
    assert_eq!(boundaries, vec![false, true, false, true, false, true]);
    assert!(s.is_sprint_start());
    s.tick();
    assert!(!s.is_sprint_start());
    s.reset();
    assert!(s.is_sprint_start());
    assert_eq!(s.turn(), 0);
}

#[test]
fn zero_ticks_per_turn_turns_every_tick() {
    let mut s = WorkSync::new(2, 0);
    assert!(s.tick());
    assert_eq!(s.turn(), 1);
    assert!(s.tick());
    assert_eq!(s.turn(), 0);
    assert_eq!(s.tick_counter, 0);
}

#[test]
fn uniform_vote_matches_sum() {
    let votes = [Trit::Approve, Trit::Reject, Trit::Reject, Trit::Abstain, Trit::Approve, Trit::Reject];
    let m = ConsensusMix::uniform(4);
    assert_eq!(m.weights, vec![1, 1, 1, 1]);
    assert_eq!(m.weighted_vote(&votes), Trit::sum(&votes));
    assert_eq!(m.weighted_vote(&votes), Trit::Reject);
}

#[test]
fn missing_weights_count_one() {
    let m = ConsensusMix::new(vec![-3]);
    assert_eq!(m.weighted_vote(&[Trit::Approve]), Trit::Reject);
    assert_eq!(m.weighted_vote(&[Trit::Approve, Trit::Approve, Trit::Approve, Trit::Approve]), Trit::Abstain);
    assert_eq!(m.weighted_vote(&[Trit::Reject, Trit::Approve]), Trit::Approve);
    assert_eq!(ConsensusMix::new(vec![-128, 127]).weighted_vote(&[Trit::Reject, Trit::Reject]), Trit::Approve);
}

#[test]
fn consensus_edge_cases() {
    let m = ConsensusMix::uniform(0);
    assert!(m.unanimous(&[]));
    assert!(m.unanimous(&[Trit::Abstain, Trit::Reject, Trit::Abstain, Trit::Reject]));
    assert!(!m.unanimous(&[Trit::Reject, Trit::Abstain, Trit::Approve]));
    assert_eq!(m.majority(&[Trit::Reject, Trit::Abstain, Trit::Reject, Trit::Approve]), Trit::Reject);
    assert_eq!(m.majority(&[]), Trit::Abstain);
    assert_eq!(m.veto(&[]), Trit::Approve);
    assert_eq!(m.veto(&[Trit::Approve, Trit::Abstain]), Trit::Abstain);
}

#[test]
fn record_counts_pairs() {
    let mut h = CognitiveHarmony::new();
    h.record(&[Trit::Approve, Trit::Approve, Trit::Reject, Trit::Abstain, Trit::Approve]);
    assert_eq!(h.agreement_count, 3);
    assert_eq!(h.conflict_count, 3);
    assert_eq!(h.novel_outputs, 1);
    assert_eq!(h.total_outputs, 1);
    h.record(&[Trit::Reject, Trit::Abstain]);
    assert_eq!(h.agreement_count, 3);
    assert_eq!(h.conflict_count, 3);
    assert_eq!(h.novel_outputs, 1);
    assert_eq!(h.total_outputs, 2);
    h.resolve_conflict();
    assert_eq!(h.conflicts_resolved, 1);
    assert_eq!(h.harmony_score(), 0);
}

#[test]
fn harmony_score_signed() {
    let mut h = CognitiveHarmony::default();
    h.record(&[Trit::Approve, Trit::Reject]);
    assert_eq!(h.harmony_score(), -1);
    h.record(&[Trit::Reject, Trit::Reject, Trit::Reject]);
    assert_eq!(h.harmony_score(), 2);
}

#[test]
fn session_history_is_complete() {
    let mut ws = WorkSession::new(TaskProgression::standard(), WorkSync::new(2, 2), ConsensusMix::new(vec![3, 1, 1]));
    let mut builder = Collaborator::new(1, Role::Builder);
    builder.add_action(Trit::Reject);
    ws.add_collaborator(Collaborator::new(0, Role::Integrator), CollabRule::Parallel);
    ws.add_collaborator(builder, CollabRule::Free);
    ws.add_collaborator(Collaborator::new(2, Role::Critic), CollabRule::Contrary);
    assert_eq!(ws.collaborator_count(), 3);
    let first = ws.tick();
    // Integrator: Parallel from the previous (no) decision with tendency 0 -> Abstain
    // (weight 3); Builder plays its queued Reject; Critic: Contrary against the
    // Builder's Reject with tendency -1 -> Abstain. The sum is -1.
    assert_eq!(first, Trit::Reject);
    assert_eq!(ws.harmony.conflict_count, 0);
    let rest = ws.run(5);
    assert_eq!(rest.len(), 5);
    assert_eq!(ws.ticks, 6);
    assert_eq!(ws.output.len(), 6);
    assert_eq!(ws.output[0], first);
    assert_eq!(&ws.output[1..], &rest[..]);
    assert_eq!(ws.harmony.total_outputs, 6);
    // Six ticks at two ticks per turn: three turns, so the phase advanced three times.
    assert_eq!(ws.progression.current, 3);
    assert_eq!(ws.sync.turn(), 1);
    // After its queue, the Builder repeats Free on its tendency's decision.
    assert_eq!(ws.collaborators[1].position, 1);
}

#[test]
fn session_tick_mixes_outputs() {
    let mut ws = WorkSession::new(TaskProgression::standard(), WorkSync::new(4, 4), ConsensusMix::uniform(2));
    let mut c1 = Collaborator::new(0, Role::Builder);
    c1.add_action(Trit::Reject);
    ws.add_collaborator(c1, CollabRule::Free);
    ws.add_collaborator(Collaborator::new(1, Role::Critic), CollabRule::Free);
    assert_eq!(ws.tick(), Trit::Reject);
    assert_eq!(ws.harmony.agreement_count, 1);
    // Builder's queue is played out: Free on tendency 1 -> Approve; Critic -> Reject.
    assert_eq!(ws.tick(), Trit::Abstain);
    assert_eq!(ws.harmony.conflict_count, 1);
    assert_eq!(ws.harmony.novel_outputs, 1);
}

#[test]
fn duo_conflict_keeps_rising() {
    let mut session = WorkSession::new(TaskProgression::standard(), WorkSync::new(4, 4), ConsensusMix::uniform(2));
    let mut builder = Collaborator::new(0, Role::Builder);
    builder.add_action(Trit::Approve);
    builder.add_action(Trit::Approve);
    let mut critic = Collaborator::new(1, Role::Critic);
    critic.add_action(Trit::Reject);
    session.add_collaborator(builder, CollabRule::Free);
    session.add_collaborator(critic, CollabRule::Contrary);
    let results = session.run(16);
    assert_eq!(results.len(), 16);
    assert_eq!(session.harmony.conflict_count, 16);
    assert_eq!(session.harmony.agreement_count, 0);
    assert!(session.harmony.conflict_count > 1);
    assert!(results.iter().all(|&r| r == Trit::Abstain));
}

#[test]
fn sync_counts_turn_boundaries() {
    let mut s = WorkSync::new(3, 4);
    let mut ended = 0u32;
    for k in 1..=30u32 {
        if s.tick() {
            ended += 1;
        }
        assert_eq!(ended, k / 4);
        assert_eq!(s.tick_counter, k % 4);
        assert_eq!(s.turn(), (k / 4) % 3);
        assert_eq!(s.is_sprint_start(), k % 12 == 0);
    }
}
