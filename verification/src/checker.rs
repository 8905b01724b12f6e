//! The state-space exploration engine: breadth-first or depth-first traversal
//! of the graph a [`Model`](crate::model::Model) defines, with deduplication by
//! fingerprint, incremental property evaluation, and counterexample
//! reconstruction.

use vstd::prelude::*;
use vstd::pervasive::VecAdditionalExecFns;
use std::collections::HashMap;
use crate::model::Model;
use crate::model::PropertyKind;
use crate::model::path_ok;
use crate::model::path_end;
use crate::model::reachable;
use crate::model::fingerprint_injective;
use crate::model::lemma_init_reachable;
use crate::model::lemma_step_reachable;

verus! {

broadcast use vstd::std_specs::hash::group_hash_axioms;

/// The two traversal orders. They explore the same graph and discover the same
/// states; they differ in the order, and so in the shape of counterexamples
/// (breadth-first yields shortest ones).
#[derive(Clone, Copy, Debug, PartialEq, Eq, Structural)]
pub enum Strategy {
    Bfs,
    Dfs,
}

/// How a call to [`Checker::run`] ended.
#[derive(Clone, Copy, Debug, PartialEq, Eq, Structural)]
pub enum RunStatus {
    /// The frontier emptied: the reachable state space was fully enumerated.
    Exhausted,
    /// The state bound was hit first: results are valid for the explored part
    /// of the space, but unwitnessed `Sometimes` properties are inconclusive.
    BoundReached,
}

/// A concrete run of the model: a start state and the alternating actions and
/// states that follow it.
pub struct Path<M: Model> {
    pub first: M::State,
    pub steps: Vec<(M::Action, M::State)>,
}

impl<M: Model> Path<M> {
    /// The state the path ends in.
    pub open spec fn end(self, m: M) -> M::State {
        path_end(m, self.first, self.steps@)
    }

    /// The path starts at an initial state and every step is a legal
    /// transition of `m`.
    pub open spec fn valid(self, m: M) -> bool {
        &&& m.spec_init().contains(self.first)
        &&& path_ok(m, self.first, self.steps@)
    }
}

/// The state reached by applying `acts` in order from `s0`, or `None` if some
/// action does not apply where it is attempted.
pub open spec fn spec_replay<M: Model>(m: M, s0: M::State, acts: Seq<M::Action>) -> Option<M::State>
    decreases acts.len(),
{
    if acts.len() == 0 {
        Some(s0)
    } else {
        match m.spec_next(s0, acts[0]) {
            None => None,
            Some(t) => spec_replay(m, t, acts.drop_first()),
        }
    }
}

/// Re-applies `acts` from `s0` through the model's transition function and
/// returns the state reached, or `None` if an action did not apply.
pub fn replay<M: Model>(m: &M, s0: &M::State, acts: &Vec<M::Action>) -> (r: Option<M::State>)
    requires
        m.state_wf(*s0),
    ensures
        r == spec_replay(*m, *s0, acts@),
{
    let mut cur: M::State = m.clone_state(s0);
    let mut i: usize = 0;
    proof {
        assert(acts@.skip(0) =~= acts@);
    }
    while i < acts.len()
        invariant
            i <= acts.len(),
            m.state_wf(cur),
            spec_replay(*m, *s0, acts@) == spec_replay(*m, cur, acts@.skip(i as int)),
        decreases acts.len() - i,
    {
        proof {
            assert(acts@.skip(i as int).len() > 0);
            assert(acts@.skip(i as int)[0] == acts@[i as int]);
            assert(acts@.skip(i as int).drop_first() =~= acts@.skip(i as int + 1));
        }
        match m.next_state(&cur, &acts[i]) {
            None => {
                return None;
            },
            Some(t) => {
                proof {
                    m.lemma_next_wf(cur, acts@[i as int]);
                }
                cur = t;
                i = i + 1;
            },
        }
    }
    proof {
        assert(acts@.skip(i as int) =~= Seq::<M::Action>::empty());
    }
    Some(cur)
}

/// Counterexample validity: replaying the actions of a legal path from its
/// start state through the transition function reproduces exactly the state
/// the path ends in.
pub proof fn lemma_replay_reproduces_end<M: Model>(
    m: M,
    s0: M::State,
    steps: Seq<(M::Action, M::State)>,
)
    requires
        path_ok(m, s0, steps),
    ensures
        spec_replay(m, s0, steps.map_values(|st: (M::Action, M::State)| st.0)) == Some(
            path_end(m, s0, steps),
        ),
    decreases steps.len(),
{
    let acts = steps.map_values(|st: (M::Action, M::State)| st.0);
    if steps.len() == 0 {
    } else {
        assert(acts[0] == steps[0].0);
        lemma_replay_reproduces_end(m, steps[0].1, steps.drop_first());
        assert(acts.drop_first() =~= steps.drop_first().map_values(
            |st: (M::Action, M::State)| st.0,
        ));
        assert(path_end(m, steps[0].1, steps.drop_first()) == path_end(m, s0, steps));
    }
}

/// Every enabled successor of `s` has its fingerprint registered in `visited`.
pub open spec fn succ_registered<M: Model>(m: M, visited: Map<u64, usize>, s: M::State) -> bool {
    forall|a: M::Action|
        m.spec_actions(s).contains(a) && (#[trigger] m.spec_next(s, a)) is Some
            ==> visited.contains_key(m.spec_fingerprint(m.spec_next(s, a)->Some_0))
}

/// Some job entry at or after `next_job` points at discovered state `i`.
pub open spec fn pending_covers(jobs: Seq<usize>, next_job: int, i: int) -> bool {
    exists|k: int| next_job <= k < jobs.len() && ((#[trigger] jobs[k]) as int) == i
}

/// The recorded back-reference of discovered state `i` is legal: either the
/// state is initial, or an earlier-discovered state reaches it by the
/// recorded action.
pub open spec fn link_ok<M: Model>(
    m: M,
    sts: Seq<M::State>,
    lnk: Option<(usize, M::Action)>,
    i: int,
) -> bool {
    match lnk {
        None => m.spec_init().contains(sts[i]),
        Some(l) => {
            &&& (l.0 as int) < i
            &&& m.spec_actions(sts[l.0 as int]).contains(l.1)
            &&& m.spec_next(sts[l.0 as int], l.1) == Some(sts[i])
        },
    }
}

/// The per-property bookkeeping is sound with respect to the discovered
/// states `sts`.
pub open spec fn prop_entry_inv<M: Model>(
    m: M,
    af: Option<usize>,
    sh: Option<usize>,
    sts: Seq<M::State>,
    p: int,
) -> bool {
    &&& match af {
        Some(idx) => {
            &&& (idx as int) < sts.len()
            &&& m.spec_property_kind(p) == PropertyKind::Always
            &&& !m.spec_property_holds(p, sts[idx as int])
        },
        None => m.spec_property_kind(p) == PropertyKind::Always ==> forall|i: int|
            0 <= i < sts.len() ==> m.spec_property_holds(p, #[trigger] sts[i]),
    }
    &&& match sh {
        Some(idx) => {
            &&& (idx as int) < sts.len()
            &&& m.spec_property_kind(p) == PropertyKind::Sometimes
            &&& m.spec_property_holds(p, sts[idx as int])
        },
        None => m.spec_property_kind(p) == PropertyKind::Sometimes ==> forall|i: int|
            0 <= i < sts.len() ==> !m.spec_property_holds(p, #[trigger] sts[i]),
    }
}

/// Explores the reachable states of a model, deduplicating by fingerprint,
/// evaluating each property against every discovered state, and keeping the
/// back-references needed to rebuild a counterexample path.
pub struct Checker<M: Model> {
    model: M,
    strategy: Strategy,
    /// Fingerprint registry: maps each discovered fingerprint to the index of
    /// its state in `states`. Insertion here is the single point of truth for
    /// owning a state.
    visited: HashMap<u64, usize>,
    /// Every discovered state, in discovery order.
    states: Vec<M::State>,
    /// For each discovered state, the predecessor index and action that first
    /// produced it; `None` for an initial state.
    links: Vec<Option<(usize, M::Action)>>,
    /// Indices of discovered states awaiting expansion.
    jobs: Vec<usize>,
    /// Cursor into `jobs` (breadth-first consumes from the front; depth-first
    /// pops from the back and leaves the cursor at zero).
    next_job: usize,
    /// For each `Always` property, the index of a violating state, if found.
    always_fail: Vec<Option<usize>>,
    /// For each `Sometimes` property, the index of a witnessing state, if
    /// found.
    sometimes_hit: Vec<Option<usize>>,
    /// The fingerprints whose states have been fully expanded.
    expanded: Ghost<Set<u64>>,
}

impl<M: Model> Checker<M> {
    /// The model under check.
    pub closed spec fn spec_model(self) -> M {
        self.model
    }

    /// The traversal order in use.
    pub closed spec fn spec_strategy(self) -> Strategy {
        self.strategy
    }

    /// Every state discovered so far, in discovery order.
    pub closed spec fn discovered(self) -> Seq<M::State> {
        self.states@
    }

    /// Whether fingerprint `fp` has entered the registry.
    pub closed spec fn seen(self, fp: u64) -> bool {
        self.visited@.contains_key(fp)
    }

    /// How many discovered states still await expansion.
    pub closed spec fn num_pending(self) -> int {
        self.jobs@.len() - self.next_job
    }

    /// The recorded violation entry for an `Always` property: the index of a
    /// violating discovered state, if a violation was found.
    pub closed spec fn spec_always_fail(self, p: int) -> Option<usize> {
        self.always_fail@[p]
    }

    /// The recorded witness entry for a `Sometimes` property.
    pub closed spec fn spec_sometimes_hit(self, p: int) -> Option<usize> {
        self.sometimes_hit@[p]
    }

    /// Every initial state's fingerprint has entered the registry.
    pub closed spec fn seeded(self) -> bool {
        forall|k: int|
            0 <= k < self.model.spec_init().len() ==> self.visited@.contains_key(
                self.model.spec_fingerprint(#[trigger] self.model.spec_init()[k]),
            )
    }

    /// Every discovered state has been fully expanded: the explored part of
    /// the graph is closed under the transition function.
    pub closed spec fn fully_explored(self) -> bool {
        forall|i: int|
            0 <= i < self.states@.len() ==> succ_registered(
                self.model,
                self.visited@,
                #[trigger] self.states@[i],
            )
    }

    /// The checker's internal invariant, with `extra` the fingerprints of
    /// states currently being expanded (empty between steps).
    pub closed spec fn inv_with(self, extra: Set<u64>) -> bool {
        &&& self.links@.len() == self.states@.len()
        &&& self.always_fail@.len() == self.model.spec_property_count()
        &&& self.sometimes_hit@.len() == self.model.spec_property_count()
        &&& self.next_job <= self.jobs@.len()
        // discovered states are well formed and reachable
        &&& forall|i: int|
            0 <= i < self.states@.len() ==> self.model.state_wf(#[trigger] self.states@[i])
        &&& forall|i: int|
            0 <= i < self.states@.len() ==> reachable(self.model, #[trigger] self.states@[i])
        // fingerprints are pairwise distinct: each state was discovered once
        &&& forall|i: int, j: int|
            0 <= i < j < self.states@.len() ==> #[trigger] self.model.spec_fingerprint(
                self.states@[i],
            ) != #[trigger] self.model.spec_fingerprint(self.states@[j])
        // the registry maps each discovered fingerprint to its state's index
        &&& forall|i: int|
            0 <= i < self.states@.len() ==> self.visited@.contains_key(
                #[trigger] self.model.spec_fingerprint(self.states@[i]),
            ) && self.visited@[self.model.spec_fingerprint(self.states@[i])] as int == i
        &&& forall|fp: u64|
            #[trigger] self.visited@.contains_key(fp) ==> {
                &&& (self.visited@[fp] as int) < self.states@.len()
                &&& self.model.spec_fingerprint(self.states@[self.visited@[fp] as int]) == fp
            }
        // back-references record legal transitions from earlier states
        &&& forall|i: int|
            0 <= i < self.states@.len() ==> link_ok(
                self.model,
                self.states@,
                #[trigger] self.links@[i],
                i,
            )
        // pending jobs point at discovered states, without duplicates
        &&& forall|k: int|
            self.next_job <= k < self.jobs@.len() ==> ((#[trigger] self.jobs@[k]) as int)
                < self.states@.len()
        &&& forall|k1: int, k2: int|
            self.next_job <= k1 < k2 < self.jobs@.len() ==> self.jobs@[k1] != self.jobs@[k2]
        // every discovered state is expanded, pending, or being expanded now
        &&& forall|i: int|
            0 <= i < self.states@.len() ==> self.expanded@.contains(
                #[trigger] self.model.spec_fingerprint(self.states@[i]),
            ) || pending_covers(self.jobs@, self.next_job as int, i) || extra.contains(
                self.model.spec_fingerprint(self.states@[i]),
            )
        // the three groups are disjoint
        &&& forall|k: int|
            self.next_job <= k < self.jobs@.len() ==> !self.expanded@.contains(
                self.model.spec_fingerprint(self.states@[(#[trigger] self.jobs@[k]) as int]),
            ) && !extra.contains(
                self.model.spec_fingerprint(self.states@[self.jobs@[k] as int]),
            )
        &&& forall|fp: u64|
            #[trigger] self.expanded@.contains(fp) ==> self.visited@.contains_key(fp)
                && !extra.contains(fp)
        // expanded states have every successor registered
        &&& forall|i: int|
            0 <= i < self.states@.len() && self.expanded@.contains(
                self.model.spec_fingerprint(#[trigger] self.states@[i]),
            ) ==> succ_registered(self.model, self.visited@, self.states@[i])
        // property bookkeeping is sound
        &&& forall|p: int|
            0 <= p < self.model.spec_property_count() ==> prop_entry_inv(
                self.model,
                #[trigger] self.always_fail@[p],
                self.sometimes_hit@[p],
                self.states@,
                p,
            )
    }

    /// The checker's invariant between steps.
    pub closed spec fn inv(self) -> bool {
        self.inv_with(Set::<u64>::empty())
    }
}


impl<M: Model> Checker<M> {
    /// Seeds a checker with the model's initial states (deduplicated) and
    /// evaluates every property against them.
    pub fn new(model: M, strategy: Strategy) -> (r: Self)
        ensures
            r.inv(),
            r.seeded(),
            r.spec_model() == model,
            r.spec_strategy() == strategy,
    {
        let pc = model.property_count();
        let mut always_fail: Vec<Option<usize>> = Vec::new();
        let mut sometimes_hit: Vec<Option<usize>> = Vec::new();
        let mut p: usize = 0;
        while p < pc
            invariant
                p <= pc,
                always_fail@.len() == p,
                sometimes_hit@.len() == p,
                forall|q: int| 0 <= q < p ==> always_fail@[q] is None && sometimes_hit@[q] is None,
            decreases pc - p,
        {
            always_fail.push(None);
            sometimes_hit.push(None);
            p = p + 1;
        }
        let mut c = Checker {
            model,
            strategy,
            visited: HashMap::new(),
            states: Vec::new(),
            links: Vec::new(),
            jobs: Vec::new(),
            next_job: 0,
            always_fail,
            sometimes_hit,
            expanded: Ghost(Set::<u64>::empty()),
        };
        assert(c.inv());
        let inits = c.model.init_states();
        let mut k: usize = 0;
        while k < inits.len()
            invariant
                k <= inits.len(),
                c.inv(),
                c.model == model,
                c.strategy == strategy,
                inits@ == model.spec_init(),
                forall|q: int|
                    0 <= q < k ==> c.visited@.contains_key(
                        model.spec_fingerprint(#[trigger] model.spec_init()[q]),
                    ),
            decreases inits.len() - k,
        {
            proof {
                c.model.lemma_init_wf();
                assert(model.state_wf(model.spec_init()[k as int]));
            }
            let fpk = c.model.fingerprint(&inits[k]);
            if !c.visited.contains_key(&fpk) {
                let s = c.model.clone_state(&inits[k]);
                proof {
                    assert(model.spec_init()[k as int] == s);
                    assert(model.spec_init().contains(s));
                    lemma_init_reachable(model, s);
                }
                c.discover(s, None, Ghost(Set::<u64>::empty()));
            }
            k = k + 1;
        }
        c
    }

    /// Registers a newly discovered state: enters its fingerprint in the
    /// registry, records its back-reference, evaluates every property against
    /// it, and queues it for expansion.
    fn discover(
        &mut self,
        t: M::State,
        link: Option<(usize, M::Action)>,
        Ghost(extra): Ghost<Set<u64>>,
    )
        requires
            old(self).inv_with(extra),
            old(self).model.state_wf(t),
            reachable(old(self).model, t),
            !old(self).visited@.contains_key(old(self).model.spec_fingerprint(t)),
            !extra.contains(old(self).model.spec_fingerprint(t)),
            match link {
                None => old(self).model.spec_init().contains(t),
                Some(l) => {
                    &&& (l.0 as int) < old(self).states@.len()
                    &&& old(self).model.spec_actions(old(self).states@[l.0 as int]).contains(l.1)
                    &&& old(self).model.spec_next(old(self).states@[l.0 as int], l.1) == Some(t)
                },
            },
        ensures
            final(self).inv_with(extra),
            final(self).model == old(self).model,
            final(self).strategy == old(self).strategy,
            final(self).states@ == old(self).states@.push(t),
            final(self).expanded@ == old(self).expanded@,
            final(self).next_job == old(self).next_job,
            final(self).jobs@ == old(self).jobs@.push(old(self).states@.len() as usize),
            final(self).visited@ == old(self).visited@.insert(
                old(self).model.spec_fingerprint(t),
                old(self).states@.len() as usize,
            ),
    {
        let ghost pre = *self;
        let ghost m = pre.model;
        let ghost new_states = pre.states@.push(t);
        let fpt = self.model.fingerprint(&t);
        let idx = self.states.len();
        self.visited.insert(fpt, idx);
        let pc = self.model.property_count();
        let mut p: usize = 0;
        while p < pc
            invariant
                p <= pc,
                pre == *old(self),
                pre.inv_with(extra),
                pc == m.spec_property_count(),
                idx == pre.states@.len(),
                fpt == m.spec_fingerprint(t),
                !pre.visited@.contains_key(fpt),
                !extra.contains(fpt),
                self.model == pre.model,
                m == pre.model,
                self.strategy == pre.strategy,
                self.states@ == pre.states@,
                new_states == pre.states@.push(t),
                self.links@ == pre.links@,
                self.jobs@ == pre.jobs@,
                self.next_job == pre.next_job,
                self.expanded@ == pre.expanded@,
                self.visited@ == pre.visited@.insert(fpt, idx),
                m.state_wf(t),
                self.always_fail@.len() == pc,
                self.sometimes_hit@.len() == pc,
                forall|q: int|
                    0 <= q < p ==> prop_entry_inv(
                        m,
                        #[trigger] self.always_fail@[q],
                        self.sometimes_hit@[q],
                        new_states,
                        q,
                    ),
                forall|q: int|
                    p <= q < pc ==> self.always_fail@[q] == pre.always_fail@[q]
                        && self.sometimes_hit@[q] == pre.sometimes_hit@[q],
            decreases pc - p,
        {
            let kind = self.model.property_kind(p);
            let holds_now = self.model.eval_property(p, &t);
            proof {
                assert(prop_entry_inv(
                    m,
                    pre.always_fail@[p as int],
                    pre.sometimes_hit@[p as int],
                    pre.states@,
                    p as int,
                ));
            }
            match kind {
                PropertyKind::Always => {
                    if !holds_now && self.always_fail[p].is_none() {
                        self.always_fail.set(p, Some(idx));
                    }
                },
                PropertyKind::Sometimes => {
                    if holds_now && self.sometimes_hit[p].is_none() {
                        self.sometimes_hit.set(p, Some(idx));
                    }
                },
            }
            proof {
                assert(new_states[idx as int] == t);
                assert(prop_entry_inv(
                    m,
                    self.always_fail@[p as int],
                    self.sometimes_hit@[p as int],
                    new_states,
                    p as int,
                ));
            }
            p = p + 1;
        }
        self.states.push(t);
        self.links.push(link);
        self.jobs.push(idx);
        proof {
            assert(self.states@ == new_states);
            assert(self.states@[idx as int] == t);
            // partition: the new state's own job entry covers it
            assert forall|i: int|
                0 <= i < self.states@.len() implies self.expanded@.contains(
                #[trigger] m.spec_fingerprint(self.states@[i]),
            ) || pending_covers(self.jobs@, self.next_job as int, i) || extra.contains(
                m.spec_fingerprint(self.states@[i]),
            ) by {
                if i < idx as int {
                    assert(self.states@[i] == pre.states@[i]);
                    if pending_covers(pre.jobs@, pre.next_job as int, i) {
                        let k = choose|k: int|
                            pre.next_job <= k < pre.jobs@.len() && ((#[trigger] pre.jobs@[k]) as int)
                                == i;
                        assert((self.jobs@[k] as int) == i);
                    }
                } else {
                    assert((self.jobs@[self.jobs@.len() - 1] as int) == i);
                }
            }
            // distinctness: the new fingerprint was not yet registered
            assert forall|i: int, j: int|
                0 <= i < j < self.states@.len() implies #[trigger] m.spec_fingerprint(
                self.states@[i],
            ) != #[trigger] m.spec_fingerprint(self.states@[j]) by {
                if j == idx as int {
                    assert(pre.visited@.contains_key(m.spec_fingerprint(pre.states@[i])));
                }
            }
            // registry: old entries keep their index, the new one maps to idx
            assert forall|i: int|
                0 <= i < self.states@.len() implies self.visited@.contains_key(
                #[trigger] m.spec_fingerprint(self.states@[i]),
            ) && self.visited@[m.spec_fingerprint(self.states@[i])] as int == i by {
                if i < idx as int {
                    assert(pre.visited@.contains_key(m.spec_fingerprint(pre.states@[i])));
                    assert(m.spec_fingerprint(pre.states@[i]) != fpt);
                }
            }
            assert forall|fp: u64| #[trigger] self.visited@.contains_key(fp) implies {
                &&& (self.visited@[fp] as int) < self.states@.len()
                &&& m.spec_fingerprint(self.states@[self.visited@[fp] as int]) == fp
            } by {
                if fp != fpt {
                    assert(pre.visited@.contains_key(fp));
                    let ii = self.visited@[fp] as int;
                    assert(pre.states@[ii] == self.states@[ii]);
                }
            }
            // back-references: old ones reference unchanged prefix entries
            assert forall|i: int|
                0 <= i < self.states@.len() implies link_ok(
                m,
                self.states@,
                #[trigger] self.links@[i],
                i,
            ) by {
                if i < idx as int {
                    assert(link_ok(m, pre.states@, pre.links@[i], i));
                    assert(self.links@[i] == pre.links@[i]);
                    if self.links@[i] is Some {
                        let l = self.links@[i]->Some_0;
                        assert(self.states@[l.0 as int] == pre.states@[l.0 as int]);
                        assert(self.states@[i] == pre.states@[i]);
                    } else {
                        assert(self.states@[i] == pre.states@[i]);
                    }
                }
            }
            // pending disjointness: the new entry's fingerprint is fresh
            assert forall|k: int|
                self.next_job <= k < self.jobs@.len() implies !self.expanded@.contains(
                m.spec_fingerprint(self.states@[(#[trigger] self.jobs@[k]) as int]),
            ) && !extra.contains(m.spec_fingerprint(self.states@[self.jobs@[k] as int])) by {
                if k < self.jobs@.len() - 1 {
                    assert(self.jobs@[k] == pre.jobs@[k]);
                    assert((pre.jobs@[k] as int) < pre.states@.len());
                    assert(self.states@[pre.jobs@[k] as int] == pre.states@[pre.jobs@[k] as int]);
                    assert(!pre.expanded@.contains(
                        m.spec_fingerprint(pre.states@[pre.jobs@[k] as int]),
                    ));
                } else {
                    assert((self.jobs@[k] as int) == idx as int);
                    if pre.expanded@.contains(fpt) {
                        assert(pre.visited@.contains_key(fpt));
                    }
                }
            }
            // closure carries over: the registry only grew
            assert forall|i: int|
                0 <= i < self.states@.len() && self.expanded@.contains(
                    m.spec_fingerprint(#[trigger] self.states@[i]),
                ) implies succ_registered(m, self.visited@, self.states@[i]) by {
                if i == idx as int {
                    assert(pre.visited@.contains_key(fpt));
                    assert(false);
                } else {
                    assert(self.states@[i] == pre.states@[i]);
                    assert(succ_registered(m, pre.visited@, pre.states@[i]));
                    assert forall|a: M::Action|
                        m.spec_actions(self.states@[i]).contains(a) && (#[trigger] m.spec_next(
                            self.states@[i],
                            a,
                        )) is Some implies self.visited@.contains_key(
                        m.spec_fingerprint(m.spec_next(self.states@[i], a)->Some_0),
                    ) by {
                        assert(pre.visited@.contains_key(
                            m.spec_fingerprint(m.spec_next(pre.states@[i], a)->Some_0),
                        ));
                    }
                }
            }
            assert(self.inv_with(extra));
        }
    }
}

impl<M: Model> Checker<M> {
    /// Expands one discovered state: applies every enabled action and
    /// registers each previously unseen successor.
    fn expand(&mut self, s: &M::State, j: usize)
        requires
            old(self).inv_with(Set::<u64>::empty().insert(old(self).model.spec_fingerprint(*s))),
            (j as int) < old(self).states@.len(),
            old(self).states@[j as int] == *s,
        ensures
            final(self).inv_with(
                Set::<u64>::empty().insert(old(self).model.spec_fingerprint(*s)),
            ),
            final(self).model == old(self).model,
            final(self).strategy == old(self).strategy,
            final(self).next_job == old(self).next_job,
            final(self).expanded@ == old(self).expanded@,
            old(self).states@.is_prefix_of(final(self).states@),
            final(self).jobs@.len() + old(self).states@.len() == final(self).states@.len() + old(
                self,
            ).jobs@.len(),
            forall|fp: u64|
                old(self).visited@.contains_key(fp) ==> final(self).visited@.contains_key(fp),
            succ_registered(old(self).model, final(self).visited@, *s),
    {
        let ghost m = old(self).model;
        let ghost extra = Set::<u64>::empty().insert(m.spec_fingerprint(*s));
        proof {
            assert(m.state_wf(*s));
        }
        let mut acts = self.model.actions(s);
        let ghost all_acts = acts@;
        while acts.len() > 0
            invariant
                self.inv_with(extra),
                self.model == m,
                self.strategy == old(self).strategy,
                self.next_job == old(self).next_job,
                self.expanded@ == old(self).expanded@,
                old(self).states@.is_prefix_of(self.states@),
                self.jobs@.len() + old(self).states@.len() == self.states@.len() + old(
                    self,
                ).jobs@.len(),
                (j as int) < self.states@.len(),
                self.states@[j as int] == *s,
                m.state_wf(*s),
                acts@.len() <= all_acts.len(),
                acts@ == all_acts.subrange(0, acts@.len() as int),
                all_acts == m.spec_actions(*s),
                extra == Set::<u64>::empty().insert(m.spec_fingerprint(*s)),
                forall|fp: u64|
                    old(self).visited@.contains_key(fp) ==> self.visited@.contains_key(fp),
                forall|k: int|
                    acts@.len() <= k < all_acts.len() && (#[trigger] m.spec_next(
                        *s,
                        all_acts[k],
                    )) is Some ==> self.visited@.contains_key(
                        m.spec_fingerprint(m.spec_next(*s, all_acts[k])->Some_0),
                    ),
            decreases acts@.len(),
        {
            let a = match acts.pop() {
                Some(a) => a,
                None => {
                    proof {
                        assert(false);
                    }
                    return ;
                },
            };
            proof {
                assert(a == all_acts[acts@.len() as int]);
                assert(m.spec_actions(*s).contains(a));
                assert(acts@ =~= all_acts.subrange(0, acts@.len() as int));
            }
            match self.model.next_state(s, &a) {
                None => {},
                Some(t) => {
                    proof {
                        m.lemma_next_wf(*s, a);
                    }
                    let fpt = self.model.fingerprint(&t);
                    if !self.visited.contains_key(&fpt) {
                        proof {
                            lemma_step_reachable(m, *s, a, t);
                            assert(self.visited@.contains_key(
                                m.spec_fingerprint(self.states@[j as int]),
                            ));
                            assert(!extra.contains(m.spec_fingerprint(t)));
                        }
                        self.discover(t, Some((j, a)), Ghost(extra));
                        proof {
                            assert(self.visited@.contains_key(
                                m.spec_fingerprint(m.spec_next(*s, a)->Some_0),
                            ));
                            assert(old(self).states@ =~= self.states@.subrange(
                                0,
                                old(self).states@.len() as int,
                            ));
                        }
                    } else {
                        proof {
                            assert(self.visited@.contains_key(
                                m.spec_fingerprint(m.spec_next(*s, a)->Some_0),
                            ));
                        }
                    }
                },
            }
        }
        proof {
            assert forall|a: M::Action|
                m.spec_actions(*s).contains(a) && (#[trigger] m.spec_next(*s, a)) is Some
                implies self.visited@.contains_key(
                m.spec_fingerprint(m.spec_next(*s, a)->Some_0),
            ) by {
                assert(all_acts.contains(a));
                let k = choose|k: int| 0 <= k < all_acts.len() && all_acts[k] == a;
                assert((m.spec_next(*s, all_acts[k])) is Some);
            }
        }
    }

    /// Explores until the frontier empties or at least `bound` states have
    /// been discovered, expanding each discovered state at most once.
    pub fn run(&mut self, bound: usize) -> (r: RunStatus)
        requires
            old(self).inv(),
        ensures
            final(self).inv(),
            final(self).spec_model() == old(self).spec_model(),
            final(self).spec_strategy() == old(self).spec_strategy(),
            old(self).discovered().is_prefix_of(final(self).discovered()),
            forall|fp: u64| old(self).seen(fp) ==> final(self).seen(fp),
            old(self).seeded() ==> final(self).seeded(),
            r == RunStatus::Exhausted ==> final(self).fully_explored()
                && final(self).num_pending() == 0,
            r == RunStatus::BoundReached ==> final(self).discovered().len() >= bound,
    {
        let ghost m = old(self).model;
        loop
            invariant
                self.inv(),
                self.model == m,
                m == old(self).model,
                self.strategy == old(self).strategy,
                old(self).states@.is_prefix_of(self.states@),
                forall|fp: u64|
                    old(self).visited@.contains_key(fp) ==> self.visited@.contains_key(fp),
            decreases
                    (if self.states@.len() >= bound {
                        0int
                    } else {
                        bound - self.states@.len()
                    }),
                    self.jobs@.len() - self.next_job,
        {
            if self.next_job >= self.jobs.len() {
                proof {
                    assert forall|i: int|
                        0 <= i < self.states@.len() implies succ_registered(
                        self.model,
                        self.visited@,
                        #[trigger] self.states@[i],
                    ) by {
                        assert(self.expanded@.contains(m.spec_fingerprint(self.states@[i]))
                            || pending_covers(self.jobs@, self.next_job as int, i)
                            || Set::<u64>::empty().contains(
                            m.spec_fingerprint(self.states@[i]),
                        ));
                        if pending_covers(self.jobs@, self.next_job as int, i) {
                            let k = choose|k: int|
                                self.next_job <= k < self.jobs@.len() && ((
                                #[trigger] self.jobs@[k]) as int) == i;
                            assert(false);
                        }
                    }
                }
                return RunStatus::Exhausted;
            }
            if self.states.len() >= bound {
                return RunStatus::BoundReached;
            }
            let ghost pre = *self;
            let j: usize = match self.strategy {
                Strategy::Bfs => {
                    let j = self.jobs[self.next_job];
                    self.next_job = self.next_job + 1;
                    j
                },
                Strategy::Dfs => {
                    match self.jobs.pop() {
                        Some(j) => j,
                        None => {
                            return RunStatus::Exhausted;
                        },
                    }
                },
            };
            let ghost fpj = m.spec_fingerprint(pre.states@[j as int]);
            proof {
                let extra = Set::<u64>::empty().insert(fpj);
                if pre.strategy == Strategy::Bfs {
                    assert(pre.jobs@[pre.next_job as int] == j);
                } else {
                    assert(pre.jobs@[pre.jobs@.len() - 1] == j);
                    assert(self.jobs@ =~= pre.jobs@.subrange(0, pre.jobs@.len() - 1));
                }
                assert((j as int) < self.states@.len());
                assert forall|i: int|
                    0 <= i < self.states@.len() implies self.expanded@.contains(
                    #[trigger] m.spec_fingerprint(self.states@[i]),
                ) || pending_covers(self.jobs@, self.next_job as int, i) || extra.contains(
                    m.spec_fingerprint(self.states@[i]),
                ) by {
                    if pending_covers(pre.jobs@, pre.next_job as int, i) {
                        let k = choose|k: int|
                            pre.next_job <= k < pre.jobs@.len() && ((#[trigger] pre.jobs@[k]) as int)
                                == i;
                        if (pre.jobs@[k] as int) == j as int {
                            assert(extra.contains(m.spec_fingerprint(self.states@[i])));
                        } else {
                            if pre.strategy == Strategy::Bfs {
                                assert(k != pre.next_job as int);
                                assert((self.jobs@[k] as int) == i);
                            } else {
                                assert(k != pre.jobs@.len() - 1);
                                assert((self.jobs@[k] as int) == i);
                            }
                            assert(pending_covers(self.jobs@, self.next_job as int, i));
                        }
                    }
                }
                assert forall|k: int|
                    self.next_job <= k < self.jobs@.len() implies !self.expanded@.contains(
                    m.spec_fingerprint(self.states@[(#[trigger] self.jobs@[k]) as int]),
                ) && !extra.contains(
                    m.spec_fingerprint(self.states@[self.jobs@[k] as int]),
                ) by {
                    assert(self.jobs@[k] == pre.jobs@[k]);
                    let i = pre.jobs@[k] as int;
                    assert(!pre.expanded@.contains(m.spec_fingerprint(pre.states@[i])));
                    assert(pre.jobs@[k] != j);
                    if i < j as int {
                        assert(m.spec_fingerprint(pre.states@[i]) != m.spec_fingerprint(
                            pre.states@[j as int],
                        ));
                    } else {
                        assert(m.spec_fingerprint(pre.states@[j as int]) != m.spec_fingerprint(
                            pre.states@[i],
                        ));
                    }
                }
                assert(self.inv_with(extra));
            }
            let s = self.model.clone_state(&self.states[j]);
            self.expand(&s, j);
            let ghost post = *self;
            self.expanded = Ghost(self.expanded@.insert(fpj));
            proof {
                let extra = Set::<u64>::empty().insert(fpj);
                assert(post.inv_with(extra));
                assert(self.states@[j as int] == s);
                // partition: what was "being expanded" is now in `expanded`
                assert forall|i: int|
                    0 <= i < self.states@.len() implies self.expanded@.contains(
                    #[trigger] m.spec_fingerprint(self.states@[i]),
                ) || pending_covers(self.jobs@, self.next_job as int, i)
                    || Set::<u64>::empty().contains(m.spec_fingerprint(self.states@[i])) by {
                    assert(post.expanded@.contains(m.spec_fingerprint(post.states@[i]))
                        || pending_covers(post.jobs@, post.next_job as int, i) || extra.contains(
                        m.spec_fingerprint(post.states@[i]),
                    ));
                }
                // the freshly expanded state is closed; the rest carries over
                assert forall|i: int|
                    0 <= i < self.states@.len() && self.expanded@.contains(
                        m.spec_fingerprint(#[trigger] self.states@[i]),
                    ) implies succ_registered(m, self.visited@, self.states@[i]) by {
                    if m.spec_fingerprint(self.states@[i]) == fpj {
                        if i < j as int {
                            assert(m.spec_fingerprint(post.states@[i]) != m.spec_fingerprint(
                                post.states@[j as int],
                            ));
                            assert(false);
                        } else if i > j as int {
                            assert(m.spec_fingerprint(post.states@[j as int])
                                != m.spec_fingerprint(post.states@[i]));
                            assert(false);
                        }
                        assert(self.states@[i] == s);
                        assert(succ_registered(m, post.visited@, s));
                    } else {
                        assert(post.expanded@.contains(m.spec_fingerprint(post.states@[i])));
                        assert(succ_registered(m, post.visited@, post.states@[i]));
                    }
                }
                assert forall|k: int|
                    self.next_job <= k < self.jobs@.len() implies !self.expanded@.contains(
                    m.spec_fingerprint(self.states@[(#[trigger] self.jobs@[k]) as int]),
                ) && !Set::<u64>::empty().contains(
                    m.spec_fingerprint(self.states@[self.jobs@[k] as int]),
                ) by {
                    assert(!post.expanded@.contains(
                        m.spec_fingerprint(post.states@[(post.jobs@[k]) as int]),
                    ) && !extra.contains(
                        m.spec_fingerprint(post.states@[post.jobs@[k] as int]),
                    ));
                }
                assert forall|fp: u64| #[trigger] self.expanded@.contains(fp)
                    implies self.visited@.contains_key(fp) && !Set::<u64>::empty().contains(
                    fp,
                ) by {
                    if fp == fpj {
                        assert(post.visited@.contains_key(
                            m.spec_fingerprint(post.states@[j as int]),
                        ));
                    } else {
                        assert(post.expanded@.contains(fp));
                    }
                }
                assert(self.inv());
            }
        }
    }
}


impl<M: Model> Checker<M> {
    /// How many distinct states have been discovered.
    pub fn generated_count(&self) -> (r: usize)
        ensures
            r == self.discovered().len(),
    {
        self.states.len()
    }

    /// The `i`th discovered state, in discovery order.
    pub fn discovered_state(&self, i: usize) -> (r: &M::State)
        requires
            (i as int) < self.discovered().len(),
        ensures
            *r == self.discovered()[i as int],
    {
        &self.states[i]
    }

    /// The model under check.
    pub fn model_ref(&self) -> (r: &M)
        ensures
            *r == self.spec_model(),
    {
        &self.model
    }

    /// Always-soundness: an `Always` property reported passing holds in every
    /// discovered state.
    pub fn always_ok(&self, p: usize) -> (r: bool)
        requires
            self.inv(),
            (p as int) < self.spec_model().spec_property_count(),
            self.spec_model().spec_property_kind(p as int) == PropertyKind::Always,
        ensures
            r == (self.spec_always_fail(p as int) is None),
            r ==> forall|i: int|
                0 <= i < self.discovered().len() ==> self.spec_model().spec_property_holds(
                    p as int,
                    #[trigger] self.discovered()[i],
                ),
    {
        self.always_fail[p].is_none()
    }

    /// Whether a `Sometimes` property has been witnessed; if not, no
    /// discovered state satisfies it (so on an exhausted run it is refuted).
    pub fn sometimes_ok(&self, p: usize) -> (r: bool)
        requires
            self.inv(),
            (p as int) < self.spec_model().spec_property_count(),
            self.spec_model().spec_property_kind(p as int) == PropertyKind::Sometimes,
        ensures
            r == (self.spec_sometimes_hit(p as int) is Some),
            r ==> exists|i: int|
                0 <= i < self.discovered().len() && self.spec_model().spec_property_holds(
                    p as int,
                    #[trigger] self.discovered()[i],
                ),
            !r ==> forall|i: int|
                0 <= i < self.discovered().len() ==> !self.spec_model().spec_property_holds(
                    p as int,
                    #[trigger] self.discovered()[i],
                ),
    {
        let r = self.sometimes_hit[p].is_some();
        proof {
            assert(prop_entry_inv(
                self.model,
                self.always_fail@[p as int],
                self.sometimes_hit@[p as int],
                self.states@,
                p as int,
            ));
            if self.sometimes_hit@[p as int] is Some {
                let idx = self.sometimes_hit@[p as int]->Some_0;
                assert(0 <= (idx as int) && (idx as int) < self.discovered().len());
                assert(self.spec_model().spec_property_holds(
                    p as int,
                    self.discovered()[idx as int],
                ));
            }
        }
        r
    }

    /// Rebuilds the counterexample path for a violated `Always` property by
    /// walking the recorded back-references to an initial state, then
    /// re-validates every transition through the transition function before
    /// reporting it.
    pub fn counterexample(&self, p: usize) -> (r: Option<Path<M>>)
        requires
            self.inv(),
            (p as int) < self.spec_model().spec_property_count(),
            self.spec_model().spec_property_kind(p as int) == PropertyKind::Always,
        ensures
            match r {
                Some(path) => {
                    &&& self.spec_always_fail(p as int) is Some
                    &&& path.valid(self.spec_model())
                    &&& !self.spec_model().spec_property_holds(
                        p as int,
                        path.end(self.spec_model()),
                    )
                },
                None => self.spec_always_fail(p as int) is None,
            },
    {
        let ghost m = self.model;
        let idx: usize = match &self.always_fail[p] {
            Some(i) => *i,
            None => {
                return None;
            },
        };
        let mut rev: Vec<(M::Action, M::State)> = Vec::new();
        let mut cur: usize = idx;
        proof {
            assert(rev@.reverse() =~= Seq::<(M::Action, M::State)>::empty());
        }
        loop
            invariant
                self.inv(),
                m == self.model,
                (cur as int) < self.states@.len(),
                (idx as int) < self.states@.len(),
                path_ok(m, self.states@[cur as int], rev@.reverse()),
                path_end(m, self.states@[cur as int], rev@.reverse()) == self.states@[idx as int],
            ensures
                self.inv(),
                m == self.model,
                (cur as int) < self.states@.len(),
                (idx as int) < self.states@.len(),
                self.links@[cur as int] is None,
                path_ok(m, self.states@[cur as int], rev@.reverse()),
                path_end(m, self.states@[cur as int], rev@.reverse()) == self.states@[idx as int],
            decreases cur,
        {
            let link = &self.links[cur];
            match link {
                None => {
                    break ;
                },
                Some(l) => {
                    let jj: usize = l.0;
                    let a = self.model.clone_action(&l.1);
                    let sc = self.model.clone_state(&self.states[cur]);
                    let ghost old_rev = rev@;
                    rev.push((a, sc));
                    proof {
                        assert(link_ok(m, self.states@, self.links@[cur as int], cur as int));
                        assert(rev@.reverse() =~= seq![(a, sc)] + old_rev.reverse());
                        assert((seq![(a, sc)] + old_rev.reverse()).drop_first()
                            =~= old_rev.reverse());
                        assert(path_ok(m, self.states@[jj as int], rev@.reverse()));
                        if old_rev.len() == 0 {
                            assert(path_end(m, self.states@[jj as int], rev@.reverse())
                                == self.states@[idx as int]);
                        } else {
                            assert(rev@.reverse().last() == old_rev.reverse().last());
                        }
                    }
                    cur = jj;
                },
            }
        }
        proof {
            assert(link_ok(m, self.states@, self.links@[cur as int], cur as int));
            assert(m.spec_init().contains(self.states@[cur as int]));
        }
        let first = self.model.clone_state(&self.states[cur]);
        let ghost whole = rev@;
        let mut steps: Vec<(M::Action, M::State)> = Vec::new();
        let mut acts: Vec<M::Action> = Vec::new();
        proof {
            assert(rev@ =~= whole.subrange(0, rev@.len() as int));
            assert(steps@ =~= whole.subrange(rev@.len() as int, whole.len() as int).reverse());
        }
        while rev.len() > 0
            invariant
                m == self.model,
                rev@.len() <= whole.len(),
                rev@ == whole.subrange(0, rev@.len() as int),
                steps@ == whole.subrange(rev@.len() as int, whole.len() as int).reverse(),
                acts@ == steps@.map_values(|st: (M::Action, M::State)| st.0),
            decreases rev@.len(),
        {
            let ghost pre_rev = rev@;
            let ghost pre_steps = steps@;
            let st = match rev.pop() {
                Some(st) => st,
                None => {
                    proof {
                        assert(false);
                    }
                    return None;
                },
            };
            let a2 = self.model.clone_action(&st.0);
            steps.push(st);
            acts.push(a2);
            proof {
                let ln = rev@.len() as int;
                let wn = whole.len() as int;
                assert(st == pre_rev[ln]);
                assert(pre_rev[ln] == whole[ln]);
                assert forall|ii: int| 0 <= ii < ln implies rev@[ii] == whole[ii] by {
                    assert(pre_rev[ii] == whole[ii]);
                }
                assert(rev@ =~= whole.subrange(0, ln));
                assert forall|ii: int| 0 <= ii < steps@.len() implies steps@[ii]
                    == whole.subrange(ln, wn).reverse()[ii] by {
                    if ii < pre_steps.len() {
                        assert(pre_steps[ii] == whole.subrange(ln + 1, wn).reverse()[ii]);
                        assert(whole.subrange(ln + 1, wn).reverse()[ii] == whole[wn - 1 - ii]);
                        assert(whole.subrange(ln, wn).reverse()[ii] == whole[wn - 1 - ii]);
                    } else {
                        assert(steps@[ii] == whole[ln]);
                        assert(whole.subrange(ln, wn).reverse()[ii] == whole[ln]);
                    }
                }
                assert(steps@ =~= whole.subrange(ln, wn).reverse());
                assert(acts@ =~= steps@.map_values(|st: (M::Action, M::State)| st.0));
            }
        }
        proof {
            assert(steps@ =~= whole.reverse());
            assert(path_ok(m, first, steps@));
            assert(path_end(m, first, steps@) == self.states@[idx as int]);
            lemma_replay_reproduces_end(m, first, steps@);
            assert(acts@ == steps@.map_values(|st: (M::Action, M::State)| st.0));
        }
        // defensive re-validation: replay the actions through the transition
        // function and re-check the property before reporting
        let replayed = replay(&self.model, &first, &acts);
        match replayed {
            None => None,
            Some(e) => {
                proof {
                    assert(e == self.states@[idx as int]);
                    assert(prop_entry_inv(
                        m,
                        self.always_fail@[p as int],
                        self.sometimes_hit@[p as int],
                        self.states@,
                        p as int,
                    ));
                }
                if self.model.eval_property(p, &e) {
                    None
                } else {
                    Some(Path { first, steps })
                }
            },
        }
    }

    /// Soundness of exploration: every discovered state is reachable.
    pub proof fn lemma_discovered_reachable(self)
        requires
            self.inv(),
        ensures
            forall|i: int|
                0 <= i < self.discovered().len() ==> reachable(
                    self.spec_model(),
                    #[trigger] self.discovered()[i],
                ),
    {
    }

    /// After a fully explored run of a model whose fingerprints are
    /// collision-free, every state on a legal run out of a discovered state
    /// is itself discovered.
    proof fn lemma_path_stays_discovered(self, s0: M::State, steps: Seq<(M::Action, M::State)>)
        requires
            self.inv(),
            self.fully_explored(),
            fingerprint_injective(self.spec_model()),
            self.discovered().contains(s0),
            path_ok(self.spec_model(), s0, steps),
        ensures
            self.discovered().contains(path_end(self.spec_model(), s0, steps)),
        decreases steps.len(),
    {
        let m = self.spec_model();
        if steps.len() > 0 {
            let i = choose|i: int|
                0 <= i < self.discovered().len() && self.discovered()[i] == s0;
            let a = steps[0].0;
            let t1 = steps[0].1;
            assert(succ_registered(m, self.visited@, self.states@[i]));
            assert(m.spec_next(self.states@[i], a) is Some);
            assert(self.visited@.contains_key(m.spec_fingerprint(t1)));
            let i2 = self.visited@[m.spec_fingerprint(t1)] as int;
            assert(m.spec_fingerprint(self.states@[i2]) == m.spec_fingerprint(t1));
            m.lemma_next_wf(s0, a);
            assert(m.state_wf(self.states@[i2]));
            assert(self.states@[i2] == t1);
            assert(self.discovered().contains(t1));
            self.lemma_path_stays_discovered(t1, steps.drop_first());
            assert(path_end(m, t1, steps.drop_first()) == path_end(m, s0, steps));
        }
    }

    /// Completeness of exhaustive exploration: once the frontier has emptied,
    /// a seeded checker over a model with collision-free fingerprints has
    /// discovered every reachable state.
    pub proof fn lemma_reachable_discovered(self, t: M::State)
        requires
            self.inv(),
            self.seeded(),
            self.fully_explored(),
            fingerprint_injective(self.spec_model()),
            reachable(self.spec_model(), t),
        ensures
            self.discovered().contains(t),
    {
        let m = self.spec_model();
        let (s0, steps) = choose|s0: M::State, steps: Seq<(M::Action, M::State)>|
            #[trigger] path_ok(m, s0, steps) && m.spec_init().contains(s0) && path_end(
                m,
                s0,
                steps,
            ) == t;
        let k = choose|k: int| 0 <= k < m.spec_init().len() && m.spec_init()[k] == s0;
        m.lemma_init_wf();
        assert(m.state_wf(s0));
        assert(self.visited@.contains_key(m.spec_fingerprint(s0)));
        let i0 = self.visited@[m.spec_fingerprint(s0)] as int;
        assert(m.spec_fingerprint(self.states@[i0]) == m.spec_fingerprint(s0));
        assert(self.states@[i0] == s0);
        assert(self.discovered().contains(s0));
        self.lemma_path_stays_discovered(s0, steps);
    }

    /// Determinism of exhaustive exploration: two fully explored runs over
    /// the same model (with collision-free fingerprints) discover exactly the
    /// same set of states, and so report the same generated-state count,
    /// whatever traversal order either used.
    pub proof fn lemma_exhaustive_deterministic(self, other: Checker<M>)
        requires
            self.inv(),
            other.inv(),
            self.spec_model() == other.spec_model(),
            self.seeded(),
            other.seeded(),
            self.fully_explored(),
            other.fully_explored(),
            fingerprint_injective(self.spec_model()),
        ensures
            self.discovered().to_set() == other.discovered().to_set(),
            self.discovered().len() == other.discovered().len(),
    {
        let m = self.spec_model();
        assert forall|t: M::State| self.discovered().to_set().contains(t)
            implies other.discovered().to_set().contains(t) by {
            assert(self.discovered().contains(t));
            let i = choose|i: int|
                0 <= i < self.discovered().len() && self.discovered()[i] == t;
            assert(reachable(m, self.states@[i]));
            other.lemma_reachable_discovered(t);
        }
        assert forall|t: M::State| other.discovered().to_set().contains(t)
            implies self.discovered().to_set().contains(t) by {
            assert(other.discovered().contains(t));
            let i = choose|i: int|
                0 <= i < other.discovered().len() && other.discovered()[i] == t;
            assert(reachable(m, other.discovered()[i]));
            self.lemma_reachable_discovered(t);
        }
        assert(self.discovered().to_set() =~= other.discovered().to_set());
        assert(self.discovered().no_duplicates()) by {
            assert forall|i: int, j: int|
                0 <= i < self.discovered().len() && 0 <= j < self.discovered().len() && i != j
                implies self.discovered()[i] != self.discovered()[j] by {
                if i < j {
                    assert(m.spec_fingerprint(self.states@[i]) != m.spec_fingerprint(
                        self.states@[j],
                    ));
                } else {
                    assert(m.spec_fingerprint(self.states@[j]) != m.spec_fingerprint(
                        self.states@[i],
                    ));
                }
            }
        }
        assert(other.discovered().no_duplicates()) by {
            assert forall|i: int, j: int|
                0 <= i < other.discovered().len() && 0 <= j < other.discovered().len() && i != j
                implies other.discovered()[i] != other.discovered()[j] by {
                if i < j {
                    assert(m.spec_fingerprint(other.discovered()[i]) != m.spec_fingerprint(
                        other.discovered()[j],
                    ));
                } else {
                    assert(m.spec_fingerprint(other.discovered()[j]) != m.spec_fingerprint(
                        other.discovered()[i],
                    ));
                }
            }
        }
        self.discovered().unique_seq_to_set();
        other.discovered().unique_seq_to_set();
    }
}

} // verus!
