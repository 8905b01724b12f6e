use stateright::actor::{
    Actor, ActorInput, ActorOutput, ActorOutputVec, ActorResult, Envelope,
};
use stateright::clock::ClockActor;
use stateright::registry::FingerprintRegistry;
use stateright::wire::{deserialize_timestamp, serialize_timestamp, DecodeError};

#[test]
fn send_and_broadcast_queue_outputs_in_order() {
    let mut outs: ActorOutputVec<usize, u32> = ActorOutputVec(Vec::new());
    outs.send(2, 7);
    outs.broadcast(&[0, 1], &9);
    assert_eq!(
        outs.0,
        vec![
            ActorOutput::Send { dst: 2, msg: 7 },
            ActorOutput::Send { dst: 0, msg: 9 },
            ActorOutput::Send { dst: 1, msg: 9 },
        ]
    );
}

#[test]
fn actor_result_helpers_package_state_and_outputs() {
    let started: ActorResult<usize, u32, u32> = ActorResult::start(0, |outs| outs);
    assert_eq!(started.state, 0);
    assert!(started.outputs.0.is_empty());

    let advanced: Option<ActorResult<usize, u32, u32>> =
        ActorResult::advance(3, |state, mut outs| {
            outs.send(1, state + 1);
            (state + 1, outs)
        });
    let advanced = advanced.unwrap();
    assert_eq!(advanced.state, 4);
    assert_eq!(advanced.outputs.0, vec![ActorOutput::Send { dst: 1, msg: 4 }]);
}

#[test]
fn clock_actor_adopts_larger_timestamps_and_replies() {
    let a = ClockActor;
    let started = a.start();
    assert_eq!(started.state, 0);
    assert!(started.outputs.0.is_empty());

    let res = a
        .advance(&1, &ActorInput::Deliver { src: 1, msg: 5 })
        .unwrap();
    assert_eq!(res.state, 5);
    assert_eq!(res.outputs.0, vec![ActorOutput::Send { dst: 1, msg: 6 }]);

    assert!(a.advance(&5, &ActorInput::Deliver { src: 1, msg: 5 }).is_none());
}

#[test]
fn envelopes_carry_source_and_destination() {
    let e = Envelope { src: 1usize, dst: 0usize, msg: 42u32 };
    assert_eq!(e.src, 1);
    assert_eq!(e.dst, 0);
    assert_eq!(e.msg, 42);
}

#[test]
fn registry_claims_each_fingerprint_exactly_once() {
    let mut reg = FingerprintRegistry::new();
    assert!(reg.try_claim(17));
    assert!(reg.try_claim(99));
    assert!(!reg.try_claim(17));
    assert!(!reg.try_claim(99));
    assert!(reg.contains(17));
    assert!(!reg.contains(3));
    assert_eq!(reg.len(), 2);
}

#[test]
fn timestamps_round_trip_through_the_wire() {
    for msg in [0u32, 1, 3, 4_294_967_295] {
        let bytes = serialize_timestamp(msg);
        assert_eq!(deserialize_timestamp(&bytes), Ok(msg));
    }
    assert_eq!(serialize_timestamp(7), b"7".to_vec());
}

#[test]
fn malformed_wire_bytes_are_reported_not_dropped() {
    let garbage = b"not a timestamp".to_vec();
    assert_eq!(deserialize_timestamp(&garbage), Err(DecodeError::Malformed));
    let negative = b"-3".to_vec();
    assert_eq!(deserialize_timestamp(&negative), Err(DecodeError::Malformed));
}
