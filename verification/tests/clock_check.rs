use stateright::checker::{replay, Checker, RunStatus, Strategy};
use stateright::actor::LossyNetwork;
use stateright::clock::{ClockAction, ClockModel, ClockState, InFlight};
use stateright::model::Model;

#[test]
fn bounded_check_violates_the_clock_cap() {
    let model = ClockModel { limit: 3, lossy_network: LossyNetwork::No };
    let mut checker = Checker::new(model, Strategy::Bfs);
    let status = checker.run(100);
    assert_eq!(status, RunStatus::BoundReached);
    assert!(!checker.always_ok(0));
}

#[test]
fn clock_counterexample_reaches_three_and_two_by_deliveries() {
    let model = ClockModel { limit: 3, lossy_network: LossyNetwork::No };
    let mut checker = Checker::new(model, Strategy::Bfs);
    checker.run(100);
    let path = checker
        .counterexample(0)
        .expect("a violated property must yield a counterexample");
    assert_eq!(
        path.first,
        ClockState {
            clock0: 0,
            clock1: 0,
            in_flight: InFlight::Msg { src: 1, timestamp: 1 },
        }
    );
    // timestamps 1, 2 and 3 are delivered in turn; the reply carrying 4 is
    // still in flight when actor 0 reaches the cap
    assert_eq!(path.steps.len(), 3);
    for (a, _) in &path.steps {
        assert_eq!(*a, ClockAction::Deliver);
    }
    let end = path.steps.last().unwrap().1;
    assert_eq!(
        end,
        ClockState {
            clock0: 3,
            clock1: 2,
            in_flight: InFlight::Msg { src: 0, timestamp: 4 },
        }
    );
}

#[test]
fn replaying_the_counterexample_reproduces_the_violating_state() {
    let model = ClockModel { limit: 3, lossy_network: LossyNetwork::No };
    let mut checker = Checker::new(model, Strategy::Bfs);
    checker.run(100);
    let path = checker.counterexample(0).unwrap();
    let actions: Vec<ClockAction> = path.steps.iter().map(|(a, _)| *a).collect();
    let end = replay(checker.model_ref(), &path.first, &actions)
        .expect("every recorded action must re-apply");
    assert_eq!(end, path.steps.last().unwrap().1);
    assert!(!checker.model_ref().eval_property(0, &end));
}

#[test]
fn delivery_advances_the_receiver_and_sends_the_successor() {
    let model = ClockModel { limit: 3, lossy_network: LossyNetwork::No };
    let s0 = ClockState {
        clock0: 0,
        clock1: 0,
        in_flight: InFlight::Msg { src: 1, timestamp: 1 },
    };
    let s1 = model.next_state(&s0, &ClockAction::Deliver).unwrap();
    assert_eq!(
        s1,
        ClockState {
            clock0: 1,
            clock1: 0,
            in_flight: InFlight::Msg { src: 0, timestamp: 2 },
        }
    );
}

#[test]
fn stale_timestamps_are_ignored() {
    let model = ClockModel { limit: 3, lossy_network: LossyNetwork::No };
    let stale = ClockState {
        clock0: 5,
        clock1: 0,
        in_flight: InFlight::Msg { src: 1, timestamp: 2 },
    };
    assert!(model.next_state(&stale, &ClockAction::Deliver).is_none());
    let idle = ClockState {
        clock0: 1,
        clock1: 1,
        in_flight: InFlight::Idle,
    };
    assert!(model.actions(&idle).is_empty());
}

#[test]
fn bounded_clock_runs_are_repeatable() {
    let mut counts = Vec::new();
    for _ in 0..2 {
        let mut c = Checker::new(ClockModel { limit: 3, lossy_network: LossyNetwork::No }, Strategy::Bfs);
        c.run(100);
        counts.push(c.generated_count());
    }
    assert_eq!(counts[0], counts[1]);
}

#[test]
fn message_loss_is_its_own_action_on_lossy_networks_only() {
    let s0 = ClockState {
        clock0: 0,
        clock1: 0,
        in_flight: InFlight::Msg { src: 1, timestamp: 1 },
    };
    let lossy = ClockModel { limit: 3, lossy_network: LossyNetwork::Yes };
    assert_eq!(lossy.actions(&s0), vec![ClockAction::Deliver, ClockAction::Lose]);
    let lost = lossy.next_state(&s0, &ClockAction::Lose).unwrap();
    assert_eq!(
        lost,
        ClockState { clock0: 0, clock1: 0, in_flight: InFlight::Idle }
    );
    let lossless = ClockModel { limit: 3, lossy_network: LossyNetwork::No };
    assert_eq!(lossless.actions(&s0), vec![ClockAction::Deliver]);
    assert!(lossless.next_state(&s0, &ClockAction::Lose).is_none());
}
