//! A model checker for nondeterministic state machines.
//!
//! A user describes a system as a [`model::Model`]: a set of initial states,
//! the actions enabled in each state, a transition function, and a list of
//! properties. The [`checker`] module explores the reachable state space
//! (breadth-first or depth-first, deduplicating states by fingerprint),
//! evaluates the properties, and reconstructs a counterexample path for any
//! safety violation. The [`actor`] module presents a system of message-passing
//! actors as such a model.

pub mod actor;
pub mod clock;
pub mod checker;
pub mod model;
pub mod registry;
pub mod two_phase;
pub mod wire;
