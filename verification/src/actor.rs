//! An actor abstraction: an actor starts with an initial state, then reacts
//! to delivered messages by updating its state and emitting messages of its
//! own. The [`clock`](crate::clock) module shows such a system of actors,
//! together with its in-flight message, presented as a checkable model.

use vstd::prelude::*;

verus! {

/// Inputs to which an actor can respond.
#[derive(Clone, Copy, Debug, PartialEq, Eq, Structural)]
pub enum ActorInput<Id, Msg> {
    Deliver { src: Id, msg: Msg },
}

/// Outputs with which an actor can respond.
#[derive(Clone, Copy, Debug, PartialEq, Eq, Structural)]
pub enum ActorOutput<Id, Msg> {
    Send { dst: Id, msg: Msg },
}

/// A wrapper type for collected outputs, with convenience methods.
#[derive(Clone, Debug)]
pub struct ActorOutputVec<Id, Msg>(pub Vec<ActorOutput<Id, Msg>>);

impl<Id: Copy, Msg: Copy> ActorOutputVec<Id, Msg> {
    /// Queues one message for `dst`.
    pub fn send(&mut self, dst: Id, msg: Msg)
        ensures
            final(self).0@ == old(self).0@.push(ActorOutput::Send { dst, msg }),
    {
        let ActorOutputVec(outputs) = self;
        outputs.push(ActorOutput::Send { dst, msg })
    }

    /// Queues the same message for every destination, in order.
    pub fn broadcast(&mut self, dsts: &[Id], msg: &Msg)
        ensures
            final(self).0@ == old(self).0@ + dsts@.map_values(
                |d: Id| ActorOutput::Send { dst: d, msg: *msg },
            ),
    {
        let ghost mapped = dsts@.map_values(|d: Id| ActorOutput::Send { dst: d, msg: *msg });
        let mut i: usize = 0;
        proof {
            assert(self.0@ + mapped.take(0) =~= self.0@);
        }
        while i < dsts.len()
            invariant
                i <= dsts.len(),
                mapped == dsts@.map_values(|d: Id| ActorOutput::Send { dst: d, msg: *msg }),
                self.0@ == old(self).0@ + mapped.take(i as int),
            decreases dsts.len() - i,
        {
            self.send(dsts[i], *msg);
            proof {
                assert(mapped.take(i as int).push(mapped[i as int]) =~= mapped.take(i as int + 1));
                assert((old(self).0@ + mapped.take(i as int)).push(mapped[i as int]) =~= old(
                    self,
                ).0@ + mapped.take(i as int + 1));
            }
            i = i + 1;
        }
        proof {
            assert(mapped.take(dsts@.len() as int) =~= mapped);
        }
    }
}

/// Whether the network may silently lose a message. Loss is modeled as a
/// nondeterministic action of its own, so exploration stays exhaustive:
/// every possible combination of deliveries and losses is checked.
#[derive(Clone, Copy, Debug, PartialEq, Eq, Structural)]
pub enum LossyNetwork {
    Yes,
    No,
}

/// An immutable message in flight, with explicit source and destination.
#[derive(Clone, Copy, Debug, PartialEq, Eq, Structural)]
pub struct Envelope<Id, Msg> {
    pub src: Id,
    pub dst: Id,
    pub msg: Msg,
}

/// Packages up the state and outputs of one actor step.
#[derive(Clone, Debug)]
pub struct ActorResult<Id, Msg, State> {
    pub state: State,
    pub outputs: ActorOutputVec<Id, Msg>,
}

impl<Id, Msg, State> ActorResult<Id, Msg, State> {
    /// Helper for creating a starting result: the mutation receives an empty
    /// output collection and returns the outputs to emit.
    pub fn start<F: FnOnce(ActorOutputVec<Id, Msg>) -> ActorOutputVec<Id, Msg>>(
        state: State,
        mutation: F,
    ) -> (r: Self)
        requires
            forall|v: ActorOutputVec<Id, Msg>|
                v.0@ == Seq::<ActorOutput<Id, Msg>>::empty() ==> call_requires(mutation, (v,)),
        ensures
            r.state == state,
            exists|v: ActorOutputVec<Id, Msg>|
                v.0@ == Seq::<ActorOutput<Id, Msg>>::empty() && call_ensures(
                    mutation,
                    (v,),
                    r.outputs,
                ),
    {
        let empty = ActorOutputVec(Vec::new());
        proof {
            assert(empty.0@ == Seq::<ActorOutput<Id, Msg>>::empty());
            assert(call_requires(mutation, (empty,)));
        }
        let ghost e0 = empty;
        let outputs = mutation(empty);
        proof {
            assert(e0.0@ == Seq::<ActorOutput<Id, Msg>>::empty() && call_ensures(
                mutation,
                (e0,),
                outputs,
            ));
        }
        ActorResult { state, outputs }
    }

    /// Helper for creating a subsequent result: the mutation receives the
    /// current state and an empty output collection and returns both updated.
    pub fn advance<F: FnOnce(State, ActorOutputVec<Id, Msg>) -> (State, ActorOutputVec<Id, Msg>)>(
        state: State,
        mutation: F,
    ) -> (r: Option<Self>)
        requires
            forall|v: ActorOutputVec<Id, Msg>|
                v.0@ == Seq::<ActorOutput<Id, Msg>>::empty() ==> call_requires(
                    mutation,
                    (state, v),
                ),
        ensures
            r is Some,
            exists|v: ActorOutputVec<Id, Msg>|
                v.0@ == Seq::<ActorOutput<Id, Msg>>::empty() && call_ensures(
                    mutation,
                    (state, v),
                    (r->Some_0.state, r->Some_0.outputs),
                ),
    {
        let empty = ActorOutputVec(Vec::new());
        proof {
            assert(empty.0@ == Seq::<ActorOutput<Id, Msg>>::empty());
            assert(call_requires(mutation, (state, empty)));
        }
        let ghost e0 = empty;
        let ghost s0 = state;
        let (state, outputs) = mutation(state, empty);
        proof {
            assert(e0.0@ == Seq::<ActorOutput<Id, Msg>>::empty() && call_ensures(
                mutation,
                (s0, e0),
                (state, outputs),
            ));
        }
        Some(ActorResult { state, outputs })
    }
}

/// An actor initializes internal state, optionally emitting outputs; then it
/// waits for delivered messages, responding by updating its internal state
/// and optionally emitting outputs.
///
/// Actor identifiers are the indices the checked system assigns its actors.
/// Each executable method is pinned to a specification-level function, so a
/// model built over actors can speak about their behavior.
pub trait Actor: Sized {
    /// The type of messages sent and received by this actor.
    type Msg;

    /// The type of state maintained by this actor.
    type State;

    /// The initial state and the outputs emitted on start.
    spec fn spec_start(&self) -> (Self::State, Seq<ActorOutput<usize, Self::Msg>>);

    /// The updated state and outputs on an input, or `None` if the actor
    /// ignores it.
    spec fn spec_advance(&self, s: Self::State, input: ActorInput<usize, Self::Msg>) -> Option<
        (Self::State, Seq<ActorOutput<usize, Self::Msg>>),
    >;

    /// Indicates the initial state and outputs for the actor.
    fn start(&self) -> (r: ActorResult<usize, Self::Msg, Self::State>)
        ensures
            r.state == self.spec_start().0,
            r.outputs.0@ == self.spec_start().1,
    ;

    /// Indicates the updated state and outputs for the actor when it
    /// receives an input, or `None` if the input is ignored.
    fn advance(&self, state: &Self::State, input: &ActorInput<usize, Self::Msg>) -> (r: Option<
        ActorResult<usize, Self::Msg, Self::State>,
    >)
        ensures
            match r {
                None => self.spec_advance(*state, *input) is None,
                Some(res) => self.spec_advance(*state, *input) == Some(
                    (res.state, res.outputs.0@),
                ),
            },
    ;

}

} // verus!
