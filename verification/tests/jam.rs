use agent_jam::{
    CognitiveHarmony, CollabRule, Collaborator, ConsensusMix, Phase, Role, TaskProgression, Trit,
    WorkSession, WorkSync,
};

#[test]
fn trit_roundtrip() {
    for v in [-1i8, 0, 1] {
        assert_eq!(Trit::from_i8(v).unwrap().to_i8(), v);
    }
    assert!(Trit::from_i8(2).is_none());
}

#[test]
fn trit_sum() {
    assert_eq!(Trit::sum(&[Trit::Approve, Trit::Approve, Trit::Reject]), Trit::Approve);
    assert_eq!(Trit::sum(&[Trit::Reject, Trit::Reject]), Trit::Reject);
    assert_eq!(Trit::sum(&[Trit::Approve, Trit::Reject]), Trit::Abstain);
}

#[test]
fn collaborator_queue() {
    let mut c = Collaborator::new(0, Role::Builder);
    c.add_action(Trit::Approve);
    c.add_action(Trit::Reject);
    c.add_action(Trit::Abstain);
    assert_eq!(c.next_action(), Trit::Approve);
    assert_eq!(c.next_action(), Trit::Reject);
    assert_eq!(c.next_action(), Trit::Abstain);
    assert_eq!(c.next_action(), Trit::Abstain);
}

#[test]
fn collaborator_reset() {
    let mut c = Collaborator::new(1, Role::Critic);
    c.add_action(Trit::Reject);
    c.next_action();
    assert_eq!(c.remaining(), 0);
    c.reset();
    assert_eq!(c.remaining(), 1);
}

#[test]
fn role_tendencies() {
    assert_eq!(Role::Builder.default_tendency(), 1);
    assert_eq!(Role::Critic.default_tendency(), -1);
    assert_eq!(Role::Researcher.default_tendency(), 0);
}

#[test]
fn task_progression_cycles() {
    let mut tp = TaskProgression::standard();
    assert_eq!(tp.advance(), Phase::Research);
    assert_eq!(tp.advance(), Phase::Design);
    assert_eq!(tp.advance(), Phase::Build);
    for _ in 0..3 {
        tp.advance();
    }
    assert_eq!(tp.advance(), Phase::Research);
}

#[test]
fn task_progression_tension() {
    assert_eq!(Phase::Research.tension(), 0);
    assert_eq!(Phase::Test.tension(), 1);
    assert_eq!(Phase::Refine.tension(), -1);
}

#[test]
fn collab_rule_free() {
    assert!(CollabRule::Free.check(Trit::Reject, Trit::Approve));
}

#[test]
fn collab_rule_resolve() {
    assert_eq!(CollabRule::Resolve.apply(Trit::Approve, 0), Trit::Abstain);
    assert!(CollabRule::Resolve.check(Trit::Approve, Trit::Abstain));
}

#[test]
fn collab_rule_parallel() {
    assert_eq!(CollabRule::Parallel.apply(Trit::Approve, 1), Trit::Approve);
}

#[test]
fn work_sync_timing() {
    let mut s = WorkSync::new(4, 4);
    assert!(s.is_sprint_start());
    assert!(!s.tick());
    assert!(!s.tick());
    assert!(!s.tick());
    assert!(s.tick());
    assert_eq!(s.turn(), 1);
}

#[test]
fn consensus_majority() {
    let m = ConsensusMix::uniform(3);
    assert_eq!(m.majority(&[Trit::Approve, Trit::Approve, Trit::Reject]), Trit::Approve);
    assert_eq!(m.majority(&[Trit::Abstain, Trit::Abstain]), Trit::Abstain);
}

#[test]
fn consensus_unanimous() {
    let m = ConsensusMix::uniform(3);
    assert!(m.unanimous(&[Trit::Approve, Trit::Approve]));
    assert!(!m.unanimous(&[Trit::Approve, Trit::Reject]));
}

#[test]
fn consensus_veto() {
    let m = ConsensusMix::uniform(3);
    assert_eq!(m.veto(&[Trit::Approve, Trit::Reject, Trit::Approve]), Trit::Reject);
    assert_eq!(m.veto(&[Trit::Approve, Trit::Approve]), Trit::Approve);
}

#[test]
fn consensus_weighted() {
    let m = ConsensusMix::new(vec![2, 1]);
    assert_eq!(m.weighted_vote(&[Trit::Approve, Trit::Reject]), Trit::Approve);
}

#[test]
fn work_session_basic() {
    let p = TaskProgression::standard();
    let s = WorkSync::new(4, 4);
    let m = ConsensusMix::uniform(2);
    let mut ws = WorkSession::new(p, s, m);
    let mut c1 = Collaborator::new(0, Role::Builder);
    c1.add_action(Trit::Approve);
    c1.add_action(Trit::Approve);
    let mut c2 = Collaborator::new(1, Role::Builder);
    c2.add_action(Trit::Approve);
    c2.add_action(Trit::Approve);
    ws.add_collaborator(c1, CollabRule::Free);
    ws.add_collaborator(c2, CollabRule::Free);
    let results = ws.run(8);
    assert_eq!(results.len(), 8);
    assert!(ws.harmony.agreement_count > 0);
}

#[test]
fn work_session_conflict() {
    let p = TaskProgression::standard();
    let s = WorkSync::new(4, 4);
    let m = ConsensusMix::uniform(2);
    let mut ws = WorkSession::new(p, s, m);
    let c1 = Collaborator::new(0, Role::Builder);
    let c2 = Collaborator::new(1, Role::Critic);
    ws.add_collaborator(c1, CollabRule::Free);
    ws.add_collaborator(c2, CollabRule::Contrary);
    ws.run(4);
    assert!(ws.harmony.conflict_count > 0 || ws.harmony.agreement_count > 0);
}
