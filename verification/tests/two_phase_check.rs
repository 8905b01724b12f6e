use stateright::checker::{Checker, RunStatus, Strategy};
use stateright::model::Model;
use stateright::two_phase::{
    two_phase_sys, TmStatus, TwoPhaseAction, TwoPhaseState, RM_ABORTED, RM_COMMITTED, RM_PREPARED,
};

fn initial() -> TwoPhaseState {
    TwoPhaseState {
        rm: 0,
        tm: TmStatus::Init,
        tm_prepared: 0,
        msg_prepared: 0,
        msg_commit: false,
        msg_abort: false,
    }
}

#[test]
fn three_rms_bfs_explores_exactly_288_states() {
    let sys = two_phase_sys(3);
    let mut checker = Checker::new(sys, Strategy::Bfs);
    let status = checker.run(1_000_000);
    assert_eq!(status, RunStatus::Exhausted);
    assert_eq!(checker.generated_count(), 288);
}

#[test]
fn three_rms_consistency_holds_and_agreements_are_witnessed() {
    let sys = two_phase_sys(3);
    let mut checker = Checker::new(sys, Strategy::Bfs);
    let status = checker.run(1_000_000);
    assert_eq!(status, RunStatus::Exhausted);
    assert!(checker.always_ok(0));
    assert!(checker.counterexample(0).is_none());
    assert!(checker.sometimes_ok(1));
    assert!(checker.sometimes_ok(2));
}

#[test]
fn five_rms_dfs_explores_exactly_8832_states() {
    let sys = two_phase_sys(5);
    let mut checker = Checker::new(sys, Strategy::Dfs);
    let status = checker.run(10_000_000);
    assert_eq!(status, RunStatus::Exhausted);
    assert_eq!(checker.generated_count(), 8832);
    assert!(checker.always_ok(0));
    assert!(checker.sometimes_ok(1));
    assert!(checker.sometimes_ok(2));
}

#[test]
fn repeated_runs_generate_identical_state_counts() {
    let mut counts = Vec::new();
    for _ in 0..2 {
        let mut c = Checker::new(two_phase_sys(3), Strategy::Bfs);
        c.run(1_000_000);
        counts.push(c.generated_count());
    }
    for _ in 0..2 {
        let mut c = Checker::new(two_phase_sys(3), Strategy::Dfs);
        c.run(1_000_000);
        counts.push(c.generated_count());
    }
    assert_eq!(counts, vec![288, 288, 288, 288]);
}

#[test]
fn passing_always_property_survives_exhaustive_recheck() {
    let sys = two_phase_sys(3);
    let mut checker = Checker::new(sys, Strategy::Bfs);
    checker.run(1_000_000);
    assert!(checker.always_ok(0));
    for i in 0..checker.generated_count() {
        let s = checker.discovered_state(i);
        assert!(checker.model_ref().eval_property(0, s));
    }
}

#[test]
fn prepare_transition_updates_status_and_message_set() {
    let sys = two_phase_sys(3);
    let s0 = initial();
    let s1 = sys
        .next_state(&s0, &TwoPhaseAction::RmPrepare(1))
        .expect("prepare must apply to a working manager");
    assert_eq!(s1.rm, RM_PREPARED << 4);
    assert_eq!(s1.msg_prepared, 1 << 1);
    assert_eq!(s1.tm, TmStatus::Init);
    // preparing the same manager again no longer applies
    assert!(sys.next_state(&s1, &TwoPhaseAction::RmPrepare(1)).is_none());
}

#[test]
fn commit_requires_all_prepared() {
    let sys = two_phase_sys(2);
    let s0 = initial();
    assert!(sys.next_state(&s0, &TwoPhaseAction::TmCommit).is_none());
    let s1 = sys.next_state(&s0, &TwoPhaseAction::RmPrepare(0)).unwrap();
    let s2 = sys.next_state(&s1, &TwoPhaseAction::RmPrepare(1)).unwrap();
    let s3 = sys
        .next_state(&s2, &TwoPhaseAction::TmRcvPrepared(0))
        .unwrap();
    let s4 = sys
        .next_state(&s3, &TwoPhaseAction::TmRcvPrepared(1))
        .unwrap();
    assert!(sys.next_state(&s3, &TwoPhaseAction::TmCommit).is_none());
    let s5 = sys.next_state(&s4, &TwoPhaseAction::TmCommit).unwrap();
    assert_eq!(s5.tm, TmStatus::Committed);
    assert!(s5.msg_commit);
    // both managers can now commit
    let s6 = sys.next_state(&s5, &TwoPhaseAction::RmRcvCommit(0)).unwrap();
    let s7 = sys.next_state(&s6, &TwoPhaseAction::RmRcvCommit(1)).unwrap();
    assert_eq!(s7.rm, RM_COMMITTED | (RM_COMMITTED << 4));
    assert!(sys.eval_property(2, &s7));
}

#[test]
fn consistency_property_rejects_mixed_outcomes() {
    let sys = two_phase_sys(2);
    let mixed = TwoPhaseState {
        rm: RM_ABORTED | (RM_COMMITTED << 4),
        tm: TmStatus::Init,
        tm_prepared: 0,
        msg_prepared: 0,
        msg_commit: false,
        msg_abort: false,
    };
    assert!(!sys.eval_property(0, &mixed));
    assert!(!sys.eval_property(1, &mixed));
    assert!(!sys.eval_property(2, &mixed));
}

#[test]
fn initial_state_enables_each_managers_choices_and_tm_abort() {
    let sys = two_phase_sys(3);
    let acts = sys.actions(&initial());
    // per manager: prepare or spontaneously abort; plus the manager-wide abort
    assert_eq!(
        acts,
        vec![
            TwoPhaseAction::RmPrepare(0),
            TwoPhaseAction::RmChooseAbort(0),
            TwoPhaseAction::RmPrepare(1),
            TwoPhaseAction::RmChooseAbort(1),
            TwoPhaseAction::RmPrepare(2),
            TwoPhaseAction::RmChooseAbort(2),
            TwoPhaseAction::TmAbort,
        ]
    );
}
