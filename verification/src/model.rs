//! The contract a user implements to describe a state machine, and the
//! specification-level notions of transition paths and reachability that the
//! checker's contracts are stated over.

use vstd::prelude::*;

verus! {

/// The two kinds of property a model can declare.
///
/// An `Always` property (safety) must hold in every reachable state; a
/// `Sometimes` property (reachability witness) must hold in at least one
/// reachable state.
#[derive(Clone, Copy, Debug, PartialEq, Eq, Structural)]
pub enum PropertyKind {
    Always,
    Sometimes,
}

/// A state machine: initial states, enabled actions, a transition function,
/// a fingerprint for deduplication, and a list of indexed properties.
///
/// Every executable method is pinned to a specification-level function, so
/// that the checker's own contracts can speak about the machine it explores.
pub trait Model: Sized {
    type State;
    type Action;

    /// Which states are well formed; the checker only ever holds such states.
    spec fn state_wf(&self, s: Self::State) -> bool;

    /// The sequence of initial states.
    spec fn spec_init(&self) -> Seq<Self::State>;

    /// The actions enabled in state `s`.
    spec fn spec_actions(&self, s: Self::State) -> Seq<Self::Action>;

    /// The transition function: `None` means the action does not apply in `s`
    /// (a missing edge, not an error).
    spec fn spec_next(&self, s: Self::State, a: Self::Action) -> Option<Self::State>;

    /// The deduplication key of a state.
    spec fn spec_fingerprint(&self, s: Self::State) -> u64;

    /// How many properties the model declares.
    spec fn spec_property_count(&self) -> usize;

    /// The kind of property `i`.
    spec fn spec_property_kind(&self, i: int) -> PropertyKind;

    /// Whether property `i`'s predicate holds of state `s`.
    spec fn spec_property_holds(&self, i: int, s: Self::State) -> bool;

    proof fn lemma_init_wf(&self)
        ensures
            forall|i: int|
                0 <= i < self.spec_init().len() ==> self.state_wf(#[trigger] self.spec_init()[i]),
    ;

    proof fn lemma_next_wf(&self, s: Self::State, a: Self::Action)
        requires
            self.state_wf(s),
            self.spec_next(s, a) is Some,
        ensures
            self.state_wf(self.spec_next(s, a)->Some_0),
    ;

    fn init_states(&self) -> (r: Vec<Self::State>)
        ensures
            r@ == self.spec_init(),
    ;

    fn actions(&self, s: &Self::State) -> (r: Vec<Self::Action>)
        requires
            self.state_wf(*s),
        ensures
            r@ == self.spec_actions(*s),
    ;

    fn next_state(&self, s: &Self::State, a: &Self::Action) -> (r: Option<Self::State>)
        requires
            self.state_wf(*s),
        ensures
            r == self.spec_next(*s, *a),
    ;

    fn fingerprint(&self, s: &Self::State) -> (r: u64)
        requires
            self.state_wf(*s),
        ensures
            r == self.spec_fingerprint(*s),
    ;

    /// An owned copy of a state, equal to the original.
    fn clone_state(&self, s: &Self::State) -> (r: Self::State)
        requires
            self.state_wf(*s),
        ensures
            r == *s,
    ;

    /// An owned copy of an action, equal to the original.
    fn clone_action(&self, a: &Self::Action) -> (r: Self::Action)
        ensures
            r == *a,
    ;

    fn property_count(&self) -> (r: usize)
        ensures
            r == self.spec_property_count(),
    ;

    fn property_kind(&self, i: usize) -> (r: PropertyKind)
        requires
            i < self.spec_property_count(),
        ensures
            r == self.spec_property_kind(i as int),
    ;

    fn eval_property(&self, i: usize, s: &Self::State) -> (r: bool)
        requires
            i < self.spec_property_count(),
            self.state_wf(*s),
        ensures
            r == self.spec_property_holds(i as int, *s),
    ;
}

/// `steps` is a legal run of `m` out of `s0`: each action yields exactly the
/// state recorded next to it.
pub open spec fn path_ok<M: Model>(m: M, s0: M::State, steps: Seq<(M::Action, M::State)>) -> bool
    decreases steps.len(),
{
    if steps.len() == 0 {
        true
    } else {
        &&& m.spec_actions(s0).contains(steps[0].0)
        &&& m.spec_next(s0, steps[0].0) == Some(steps[0].1)
        &&& path_ok(m, steps[0].1, steps.drop_first())
    }
}

/// The state a run ends in: `s0` itself if the run is empty.
pub open spec fn path_end<M: Model>(m: M, s0: M::State, steps: Seq<(M::Action, M::State)>) -> M::State {
    if steps.len() == 0 {
        s0
    } else {
        steps.last().1
    }
}

/// `t` can be reached from some initial state of `m` by a legal run.
pub open spec fn reachable<M: Model>(m: M, t: M::State) -> bool {
    exists|s0: M::State, steps: Seq<(M::Action, M::State)>|
        #[trigger] path_ok(m, s0, steps) && m.spec_init().contains(s0) && path_end(m, s0, steps) == t
}

/// The fingerprint function tells all well-formed states apart.
pub open spec fn fingerprint_injective<M: Model>(m: M) -> bool {
    forall|s1: M::State, s2: M::State|
        m.state_wf(s1) && m.state_wf(s2) && #[trigger] m.spec_fingerprint(s1)
            == #[trigger] m.spec_fingerprint(s2) ==> s1 == s2
}

/// Every initial state is reachable (by the empty run).
pub proof fn lemma_init_reachable<M: Model>(m: M, s0: M::State)
    requires
        m.spec_init().contains(s0),
    ensures
        reachable(m, s0),
{
    let steps = Seq::<(M::Action, M::State)>::empty();
    assert(path_ok(m, s0, steps));
    assert(path_end(m, s0, steps) == s0);
}

/// Extending a legal run by one legal transition keeps it legal.
pub proof fn lemma_path_snoc<M: Model>(
    m: M,
    s0: M::State,
    steps: Seq<(M::Action, M::State)>,
    a: M::Action,
    t: M::State,
)
    requires
        path_ok(m, s0, steps),
        m.spec_actions(path_end(m, s0, steps)).contains(a),
        m.spec_next(path_end(m, s0, steps), a) == Some(t),
    ensures
        path_ok(m, s0, steps.push((a, t))),
        path_end(m, s0, steps.push((a, t))) == t,
    decreases steps.len(),
{
    if steps.len() == 0 {
        assert(steps.push((a, t)).drop_first() =~= Seq::<(M::Action, M::State)>::empty());
        assert(path_ok(m, t, steps.push((a, t)).drop_first()));
    } else {
        lemma_path_snoc(m, steps[0].1, steps.drop_first(), a, t);
        assert(steps.push((a, t)).drop_first() =~= steps.drop_first().push((a, t)));
        assert(path_end(m, steps[0].1, steps.drop_first()) == path_end(m, s0, steps));
    }
}

/// A state one legal transition away from a reachable state is reachable.
pub proof fn lemma_step_reachable<M: Model>(m: M, s: M::State, a: M::Action, t: M::State)
    requires
        reachable(m, s),
        m.spec_actions(s).contains(a),
        m.spec_next(s, a) == Some(t),
    ensures
        reachable(m, t),
{
    let (s0, steps) = choose|s0: M::State, steps: Seq<(M::Action, M::State)>|
        #[trigger] path_ok(m, s0, steps) && m.spec_init().contains(s0) && path_end(m, s0, steps) == s;
    lemma_path_snoc(m, s0, steps, a, t);
}

/// One step of a fingerprint accumulator: multiply by a large odd constant
/// and add the next value, wrapping.
pub open spec fn spec_mix(h: u64, v: u64) -> u64 {
    vstd::wrapping::u64_specs::wrapping_add(
        vstd::wrapping::u64_specs::wrapping_mul(h, 1099511628211),
        v,
    )
}

/// Executable fingerprint accumulator step.
pub fn mix_fp(h: u64, v: u64) -> (r: u64)
    ensures
        r == spec_mix(h, v),
{
    h.wrapping_mul(1099511628211).wrapping_add(v)
}

} // verus!
