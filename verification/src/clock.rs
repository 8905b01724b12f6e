//! Two clock actors exchange ever-increasing timestamps: on receiving a
//! timestamp larger than its own state, an actor adopts it and replies with
//! the next one. [`ClockModel`] presents the two-actor system with its single
//! in-flight message as a checkable model; the bounded check violates any cap
//! on the actor states, with a counterexample path of message deliveries.

use vstd::prelude::*;
use crate::actor::Actor;
use crate::actor::ActorInput;
use crate::actor::ActorOutput;
use crate::actor::ActorResult;
use crate::actor::ActorOutputVec;
use crate::actor::LossyNetwork;
use crate::model::Model;
use crate::model::PropertyKind;
use crate::model::spec_mix;
use crate::model::mix_fp;

verus! {

/// An actor whose state is the largest timestamp seen: a larger incoming
/// timestamp is adopted and answered with its successor; anything else is
/// ignored.
pub struct ClockActor;

impl Actor for ClockActor {
    type Msg = u32;

    type State = u32;

    open spec fn spec_start(&self) -> (u32, Seq<ActorOutput<usize, u32>>) {
        (0u32, Seq::empty())
    }

    open spec fn spec_advance(&self, s: u32, input: ActorInput<usize, u32>) -> Option<
        (u32, Seq<ActorOutput<usize, u32>>),
    > {
        match input {
            ActorInput::Deliver { src, msg } => {
                if msg > s {
                    Some(
                        (
                            msg,
                            seq![
                                ActorOutput::Send {
                                    dst: src,
                                    msg: vstd::wrapping::u32_specs::wrapping_add(msg, 1),
                                },
                            ],
                        ),
                    )
                } else {
                    None
                }
            },
        }
    }

    fn start(&self) -> (r: ActorResult<usize, u32, u32>) {
        let r = ActorResult { state: 0, outputs: ActorOutputVec(Vec::new()) };
        r
    }

    fn advance(&self, state: &u32, input: &ActorInput<usize, u32>) -> (r: Option<
        ActorResult<usize, u32, u32>,
    >) {
        match input {
            ActorInput::Deliver { src, msg } => {
                if *msg > *state {
                    let mut outs: ActorOutputVec<usize, u32> = ActorOutputVec(Vec::new());
                    outs.send(*src, msg.wrapping_add(1));
                    proof {
                        assert(outs.0@ =~= seq![
                            ActorOutput::Send {
                                dst: *src,
                                msg: vstd::wrapping::u32_specs::wrapping_add(*msg, 1),
                            },
                        ]);
                    }
                    Some(ActorResult { state: *msg, outputs: outs })
                } else {
                    None
                }
            },
        }
    }

}

/// The message in flight between the two clocks, if any. The system starts
/// with one message and each delivery produces at most one reply, so at most
/// one message is ever in flight.
#[derive(Clone, Copy, Debug, PartialEq, Eq, Hash, Structural)]
pub enum InFlight {
    Idle,
    Msg { src: usize, timestamp: u32 },
}

/// A snapshot of the two-clock system: both actor states and the in-flight
/// message.
#[derive(Clone, Copy, Debug, PartialEq, Eq, Hash, Structural)]
pub struct ClockState {
    pub clock0: u32,
    pub clock1: u32,
    pub in_flight: InFlight,
}

/// One step: deliver the in-flight message to its destination, or (on a
/// lossy network) silently lose it.
#[derive(Clone, Copy, Debug, PartialEq, Eq, Structural)]
pub enum ClockAction {
    Deliver,
    Lose,
}

/// Two [`ClockActor`]s, seeded with one message carrying timestamp 1 to
/// actor 0; the network is lossy or lossless as configured. The single
/// `Always` property bounds both actor states by `limit`.
pub struct ClockModel {
    pub limit: u32,
    pub lossy_network: LossyNetwork,
}

impl ClockModel {
    /// The state actor `i` holds in snapshot `s`.
    pub open spec fn clock_of(s: ClockState, i: int) -> u32 {
        if i == 0 {
            s.clock0
        } else {
            s.clock1
        }
    }

    /// The snapshot after delivering the in-flight message, if its receiver
    /// accepts it.
    pub open spec fn deliver(self, s: ClockState) -> Option<ClockState> {
        match s.in_flight {
            InFlight::Idle => None,
            InFlight::Msg { src, timestamp } => {
                let dst: int = 1 - src as int;
                match ClockActor.spec_advance(
                    Self::clock_of(s, dst),
                    ActorInput::Deliver { src, msg: timestamp },
                ) {
                    None => None,
                    Some(res) => {
                        let outs = res.1;
                        let flight = if outs.len() > 0 {
                            match outs[0] {
                                ActorOutput::Send { dst: _d, msg } => InFlight::Msg {
                                    src: (1 - src as int) as usize,
                                    timestamp: msg,
                                },
                            }
                        } else {
                            InFlight::Idle
                        };
                        Some(
                            ClockState {
                                clock0: if dst == 0 {
                                    res.0
                                } else {
                                    s.clock0
                                },
                                clock1: if dst == 1 {
                                    res.0
                                } else {
                                    s.clock1
                                },
                                in_flight: flight,
                            },
                        )
                    },
                }
            },
        }
    }
}

impl Model for ClockModel {
    type State = ClockState;

    type Action = ClockAction;

    open spec fn state_wf(&self, s: ClockState) -> bool {
        match s.in_flight {
            InFlight::Idle => true,
            InFlight::Msg { src, timestamp } => src <= 1,
        }
    }

    open spec fn spec_init(&self) -> Seq<ClockState> {
        seq![
            ClockState {
                clock0: ClockActor.spec_start().0,
                clock1: ClockActor.spec_start().0,
                in_flight: InFlight::Msg { src: 1, timestamp: 1 },
            },
        ]
    }

    open spec fn spec_actions(&self, s: ClockState) -> Seq<ClockAction> {
        match s.in_flight {
            InFlight::Idle => Seq::empty(),
            InFlight::Msg { src, timestamp } => if self.lossy_network == LossyNetwork::Yes {
                seq![ClockAction::Deliver, ClockAction::Lose]
            } else {
                seq![ClockAction::Deliver]
            },
        }
    }

    open spec fn spec_next(&self, s: ClockState, a: ClockAction) -> Option<ClockState> {
        match a {
            ClockAction::Deliver => self.deliver(s),
            ClockAction::Lose => if self.lossy_network == LossyNetwork::Yes && s.in_flight
                is Msg {
                Some(ClockState { clock0: s.clock0, clock1: s.clock1, in_flight: InFlight::Idle })
            } else {
                None
            },
        }
    }

    open spec fn spec_fingerprint(&self, s: ClockState) -> u64 {
        let flight: u64 = match s.in_flight {
            InFlight::Idle => 0,
            InFlight::Msg { src, timestamp } => spec_mix(src as u64, timestamp as u64),
        };
        spec_mix(spec_mix(s.clock0 as u64, s.clock1 as u64), flight)
    }

    open spec fn spec_property_count(&self) -> usize {
        1
    }

    open spec fn spec_property_kind(&self, p: int) -> PropertyKind {
        PropertyKind::Always
    }

    open spec fn spec_property_holds(&self, p: int, s: ClockState) -> bool {
        s.clock0 < self.limit && s.clock1 < self.limit
    }

    proof fn lemma_init_wf(&self) {
    }

    proof fn lemma_next_wf(&self, s: ClockState, a: ClockAction) {
    }

    fn init_states(&self) -> (r: Vec<ClockState>) {
        let started = ClockActor.start();
        let mut r: Vec<ClockState> = Vec::new();
        r.push(
            ClockState {
                clock0: started.state,
                clock1: started.state,
                in_flight: InFlight::Msg { src: 1, timestamp: 1 },
            },
        );
        proof {
            assert(r@ =~= self.spec_init());
        }
        r
    }

    fn actions(&self, s: &ClockState) -> (r: Vec<ClockAction>) {
        let mut r: Vec<ClockAction> = Vec::new();
        match s.in_flight {
            InFlight::Idle => {},
            InFlight::Msg { .. } => {
                r.push(ClockAction::Deliver);
                if self.lossy_network == LossyNetwork::Yes {
                    r.push(ClockAction::Lose);
                }
            },
        }
        proof {
            assert(r@ =~= self.spec_actions(*s));
        }
        r
    }

    fn next_state(&self, s: &ClockState, a: &ClockAction) -> (r: Option<ClockState>) {
        if let ClockAction::Lose = a {
            return if self.lossy_network == LossyNetwork::Yes && !matches!(s.in_flight, InFlight::Idle) {
                Some(ClockState { clock0: s.clock0, clock1: s.clock1, in_flight: InFlight::Idle })
            } else {
                None
            };
        }
        match s.in_flight {
            InFlight::Idle => None,
            InFlight::Msg { src, timestamp } => {
                let dst: usize = 1 - src;
                let target: u32 = if dst == 0 {
                    s.clock0
                } else {
                    s.clock1
                };
                let input = ActorInput::Deliver { src, msg: timestamp };
                match ClockActor.advance(&target, &input) {
                    None => None,
                    Some(res) => {
                        let flight = if res.outputs.0.len() > 0 {
                            match res.outputs.0[0] {
                                ActorOutput::Send { dst: _d, msg } => InFlight::Msg {
                                    src: dst,
                                    timestamp: msg,
                                },
                            }
                        } else {
                            InFlight::Idle
                        };
                        let t = ClockState {
                            clock0: if dst == 0 {
                                res.state
                            } else {
                                s.clock0
                            },
                            clock1: if dst == 1 {
                                res.state
                            } else {
                                s.clock1
                            },
                            in_flight: flight,
                        };
                        Some(t)
                    },
                }
            },
        }
    }

    fn fingerprint(&self, s: &ClockState) -> (r: u64) {
        let flight: u64 = match s.in_flight {
            InFlight::Idle => 0,
            InFlight::Msg { src, timestamp } => mix_fp(src as u64, timestamp as u64),
        };
        mix_fp(mix_fp(s.clock0 as u64, s.clock1 as u64), flight)
    }

    fn clone_state(&self, s: &ClockState) -> (r: ClockState) {
        *s
    }

    fn clone_action(&self, a: &ClockAction) -> (r: ClockAction) {
        *a
    }

    fn property_count(&self) -> (r: usize) {
        1
    }

    fn property_kind(&self, p: usize) -> (r: PropertyKind) {
        PropertyKind::Always
    }

    fn eval_property(&self, p: usize, s: &ClockState) -> (r: bool) {
        s.clock0 < self.limit && s.clock1 < self.limit
    }
}

} // verus!
