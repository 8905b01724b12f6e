//! The shared fingerprint registry: the concurrent checker's single point of
//! truth for state ownership. A worker that claims a previously absent
//! fingerprint becomes the sole owner of that state and must expand it; a
//! worker whose claim finds the fingerprint already present must discard the
//! duplicate. The at-most-once law below is what makes partitioned expansion
//! sound.

use vstd::prelude::*;
use std::collections::HashMap;

verus! {

broadcast use vstd::std_specs::hash::group_hash_axioms;

/// A registry of claimed fingerprints with test-and-set insertion.
pub struct FingerprintRegistry {
    claimed: HashMap<u64, ()>,
}

impl FingerprintRegistry {
    /// The set of fingerprints claimed so far.
    pub closed spec fn claimed_set(self) -> Set<u64> {
        self.claimed@.dom()
    }

    pub fn new() -> (r: Self)
        ensures
            r.claimed_set() == Set::<u64>::empty(),
    {
        let r = FingerprintRegistry { claimed: HashMap::new() };
        proof {
            assert(r.claimed@.dom() =~= Set::<u64>::empty());
        }
        r
    }

    /// Atomic test-and-set: claims `fp` and reports whether this call was the
    /// first to do so. The first claimant wins ownership; every later claim
    /// of the same fingerprint reports `false`.
    pub fn try_claim(&mut self, fp: u64) -> (won: bool)
        ensures
            won == !old(self).claimed_set().contains(fp),
            final(self).claimed_set() == old(self).claimed_set().insert(fp),
    {
        let won = !self.claimed.contains_key(&fp);
        self.claimed.insert(fp, ());
        proof {
            assert(self.claimed@.dom() =~= old(self).claimed@.dom().insert(fp));
        }
        won
    }

    /// Whether `fp` has been claimed.
    pub fn contains(&self, fp: u64) -> (r: bool)
        ensures
            r == self.claimed_set().contains(fp),
    {
        self.claimed.contains_key(&fp)
    }

    /// How many fingerprints have been claimed.
    pub fn len(&self) -> (r: usize)
        ensures
            r == self.claimed_set().len(),
    {
        self.claimed.len()
    }
}

/// The result of each claim in `fps`, performed in order against a registry
/// that starts with `start` claimed.
pub open spec fn claim_results(start: Set<u64>, fps: Seq<u64>) -> Seq<bool>
    decreases fps.len(),
{
    if fps.len() == 0 {
        Seq::empty()
    } else {
        seq![!start.contains(fps[0])] + claim_results(start.insert(fps[0]), fps.drop_first())
    }
}

/// Each claim produces exactly one result.
pub proof fn lemma_claim_results_len(start: Set<u64>, fps: Seq<u64>)
    ensures
        claim_results(start, fps).len() == fps.len(),
    decreases fps.len(),
{
    if fps.len() > 0 {
        lemma_claim_results_len(start.insert(fps[0]), fps.drop_first());
    }
}

/// At-most-once expansion: in any sequence of claims against one registry,
/// no fingerprint is won twice — of two claims of the same fingerprint, at
/// most the earlier one reports ownership. Since a worker expands a state
/// only after winning its fingerprint, each state is expanded at most once,
/// however the claims interleave.
pub proof fn lemma_claim_at_most_once(start: Set<u64>, fps: Seq<u64>, i: int, j: int)
    requires
        0 <= i < j < fps.len(),
        fps[i] == fps[j],
    ensures
        !claim_results(start, fps)[j],
    decreases fps.len(),
{
    assert(fps.drop_first()[j - 1] == fps[j]);
    if i == 0 {
        lemma_claimed_stays_claimed(start.insert(fps[0]), fps.drop_first(), fps[0], j - 1);
    } else {
        assert(fps.drop_first()[i - 1] == fps[i]);
        lemma_claim_at_most_once(start.insert(fps[0]), fps.drop_first(), i - 1, j - 1);
    }
    let head = seq![!start.contains(fps[0])];
    let tail = claim_results(start.insert(fps[0]), fps.drop_first());
    lemma_claim_results_len(start.insert(fps[0]), fps.drop_first());
    assert(claim_results(start, fps) == head + tail);
    assert((head + tail)[j] == tail[j - 1]);
}

/// Once a fingerprint is in the registry, every later claim of it loses.
proof fn lemma_claimed_stays_claimed(start: Set<u64>, fps: Seq<u64>, fp: u64, j: int)
    requires
        0 <= j < fps.len(),
        fps[j] == fp,
        start.contains(fp),
    ensures
        !claim_results(start, fps)[j],
    decreases fps.len(),
{
    let head = seq![!start.contains(fps[0])];
    let tail = claim_results(start.insert(fps[0]), fps.drop_first());
    lemma_claim_results_len(start.insert(fps[0]), fps.drop_first());
    assert(claim_results(start, fps) == head + tail);
    if j > 0 {
        assert(fps.drop_first()[j - 1] == fps[j]);
        lemma_claimed_stays_claimed(start.insert(fps[0]), fps.drop_first(), fp, j - 1);
        assert((head + tail)[j] == tail[j - 1]);
    } else {
        assert((head + tail)[0] == !start.contains(fps[0]));
    }
}

} // verus!
