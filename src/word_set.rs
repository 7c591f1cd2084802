use revm_interpreter::primitives::{HashMap, HashSet};
use vstd::prelude::*;
use vstd::std_specs::hash::{spec_hash_keys_iter, spec_hash_map_iter};
use vstd::std_specs::iter::IteratorSpec;

use crate::primitives::Word256;

verus! {

broadcast use vstd::std_specs::hash::group_hash_axioms;

/// A set of 256-bit words, bucketed by their top half so that both levels
/// hash plain integers.
#[derive(Debug, PartialEq, Eq)]
pub struct WordSet {
    buckets: HashMap<u128, HashSet<u128>>,
}

impl WordSet {
    /// No bucket is empty, so the set is empty exactly when there are no buckets.
    #[verifier::type_invariant]
    closed spec fn no_empty_bucket(&self) -> bool {
        forall|hi: u128| #[trigger]
            self.buckets@.contains_key(hi) ==> self.buckets@[hi]@ != Set::<u128>::empty()
    }
}

impl View for WordSet {
    type V = Set<Word256>;

    closed spec fn view(&self) -> Set<Word256> {
        Set::new(
            |w: Word256|
                self.buckets@.contains_key(w.hi) && self.buckets@[w.hi]@.contains(w.lo),
        )
    }
}

impl WordSet {
    pub fn new() -> (r: WordSet)
        ensures
            r@ == Set::<Word256>::empty(),
    {
        let r = WordSet { buckets: HashMap::new() };
        assert(r@ =~= Set::<Word256>::empty());
        r
    }

    pub fn contains(&self, w: &Word256) -> (r: bool)
        ensures
            r == self@.contains(*w),
    {
        match self.buckets.get(&w.hi) {
            Some(lows) => lows.contains(&w.lo),
            None => false,
        }
    }

    pub fn is_empty(&self) -> (r: bool)
        ensures
            r == (self@ == Set::<Word256>::empty()),
    {
        proof {
            use_type_invariant(self);
        }
        let r = self.buckets.is_empty();
        proof {
            if !r {
                assert(self.buckets@.dom() != Set::<u128>::empty());
                let hi = choose|hi: u128| self.buckets@.contains_key(hi);
                let lows = self.buckets@[hi]@;
                assert(exists|lo: u128| lows.contains(lo)) by {
                    if !(exists|lo: u128| lows.contains(lo)) {
                        assert(lows =~= Set::<u128>::empty());
                    }
                }
                let lo = choose|lo: u128| lows.contains(lo);
                assert(self@.contains(Word256 { hi, lo }));
            } else {
                assert(self@ =~= Set::<Word256>::empty());
            }
        }
        r
    }

    /// Adds `w`; a word already present leaves the set as it was.
    pub fn insert(&mut self, w: Word256)
        ensures
            final(self)@ == old(self)@.insert(w),
    {
        let mut taken = WordSet::new();
        core::mem::swap(self, &mut taken);
        proof {
            use_type_invariant(&taken);
        }
        let WordSet { mut buckets } = taken;
        let mut lows = match buckets.remove(&w.hi) {
            Some(lows) => lows,
            None => HashSet::new(),
        };
        lows.insert(w.lo);
        assert(lows@.contains(w.lo));
        buckets.insert(w.hi, lows);
        *self = WordSet { buckets };
        assert(self@ =~= old(self)@.insert(w));
    }

    /// The words of the set, each once, in no particular order.
    pub fn to_vec(&self) -> (r: Vec<Word256>)
        ensures
            forall|w: Word256| r@.contains(w) <==> self@.contains(w),
            r@.no_duplicates(),
    {
        let mut r: Vec<Word256> = Vec::new();
        let ghost entries = spec_hash_map_iter(&self.buckets).remaining();
        let ghost mut done: int = 0;
        let ghost mut seen: Set<u128> = Set::empty();
        for entry in it: self.buckets.iter()
            invariant
                it.seq() == entries,
                done == it.index(),
                entries.no_duplicates(),
                forall|i: int, lo: u128|
                    0 <= i < done && (*entries[i].1)@.contains(lo) ==> r@.contains(
                        Word256 { hi: *entries[i].0, lo },
                    ),
                forall|w: Word256| r@.contains(w) ==> self@.contains(w),
                r@.no_duplicates(),
                forall|k: int| 0 <= k < r.len() ==> seen.contains(#[trigger] r@[k].hi),
                forall|h: u128|
                    seen.contains(h) ==> exists|i: int| 0 <= i < done && *entries[i].0 == h,
        {
            let (hi, lows) = entry;
            proof {
                assert(self.buckets@.contains_key(*hi) && self.buckets@[*hi] == *lows);
                assert(entries[done] == (hi, lows));
                assert forall|i: int| 0 <= i < done implies *entries[i].0 != *hi by {
                    if *entries[i].0 == *hi {
                        assert(self.buckets@[*entries[i].0] == *entries[i].1);
                        assert(entries[i] == entries[done]);
                    }
                }
                assert(!seen.contains(*hi));
            }
            let ghost before = r@;
            let ghost los = spec_hash_keys_iter(lows).remaining();
            let ghost mut taken: int = 0;
            for lo in lit: lows.iter()
                invariant
                    lit.seq() == los,
                    taken == lit.index(),
                    los.no_duplicates(),
                    self.buckets@.contains_key(*hi) && self.buckets@[*hi] == *lows,
                    forall|w: Word256| r@.contains(w) ==> self@.contains(w),
                    r@.no_duplicates(),
                    r.len() == before.len() + taken,
                    forall|k: int| 0 <= k < before.len() ==> r@[k] == before[k],
                    forall|k: int| 0 <= k < before.len() ==> before[k].hi != *hi,
                    forall|j: int|
                        0 <= j < taken ==> r@[before.len() + j] == (Word256 { hi: *hi, lo: *los[j] }),
            {
                let w = Word256 { hi: *hi, lo: *lo };
                proof {
                    assert(*lo == *los[taken]);
                    assert forall|k: int| 0 <= k < r.len() implies r@[k] != w by {
                        if k >= before.len() {
                            let j = k - before.len();
                            assert(r@[before.len() + j] == (Word256 { hi: *hi, lo: *los[j] }));
                            assert(los[j] != los[taken]);
                        } else {
                            assert(r@[k] == before[k]);
                        }
                    }
                }
                r.push(w);
                proof {
                    taken = taken + 1;
                }
            }
            proof {
                assert(taken == los.len());
                assert forall|k: int| 0 <= k < before.len() implies r@[k] == before[k] by {}
                assert forall|lo: u128| lows@.contains(lo) implies r@.contains(
                    Word256 { hi: *hi, lo },
                ) by {
                    assert(los.unref().to_set().contains(lo));
                    let j = choose|j: int| 0 <= j < los.len() && *los[j] == lo;
                    assert(r@[before.len() + j] == (Word256 { hi: *hi, lo }));
                }
                assert forall|i: int, lo: u128|
                    0 <= i < done && (*entries[i].1)@.contains(lo) implies r@.contains(
                        Word256 { hi: *entries[i].0, lo },
                    ) by {
                    let w = Word256 { hi: *entries[i].0, lo };
                    let k = choose|k: int| 0 <= k < before.len() && before[k] == w;
                    assert(r@[k] == w);
                }
                seen = seen.insert(*hi);
                assert forall|k: int| 0 <= k < r.len() implies seen.contains(#[trigger] r@[k].hi) by {
                    if k < before.len() {
                        assert(before[k] == r@[k]);
                    } else {
                        let j = k - before.len();
                        assert(r@[before.len() + j] == (Word256 { hi: *hi, lo: *los[j] }));
                    }
                }
                assert forall|h: u128| seen.contains(h) implies exists|i: int|
                    0 <= i < done + 1 && *entries[i].0 == h by {
                    if h == *hi {
                        assert(*entries[done].0 == h);
                    }
                }
                done = done + 1;
            }
        }
        proof {
            assert forall|w: Word256| self@.contains(w) implies r@.contains(w) by {
                let lows = self.buckets@[w.hi];
                assert(done == entries.len());
                assert(entries.contains((&w.hi, &lows)));
                let i = choose|i: int| 0 <= i < entries.len() && entries[i] == (&w.hi, &lows);
                assert((*entries[i].1)@.contains(w.lo));
                assert(*entries[i].0 == w.hi);
                assert(r@.contains(Word256 { hi: *entries[i].0, lo: w.lo }));
            }
        }
        r
    }
}

} // verus!
