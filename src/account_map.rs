use revm_interpreter::primitives::HashMap;
use vstd::prelude::*;
use vstd::std_specs::hash::spec_hash_map_iter;
use vstd::std_specs::iter::IteratorSpec;

use crate::primitives::{Address, U256};
use crate::word_set::WordSet;

verus! {

broadcast use vstd::std_specs::hash::group_hash_axioms;

/// The accounts touched so far, each with the storage slots touched under it.
///
/// Addresses are bucketed by their top 32 bits, and each bucket maps the low
/// 128 bits to the account's slots, so that both levels hash plain integers.
#[derive(Debug, PartialEq, Eq)]
pub struct AccountMap {
    by_hi: HashMap<u32, HashMap<u128, WordSet>>,
}

/// `m` once `a` is marked as touched: an account already there keeps its
/// slots, a new one starts with none.
pub open spec fn with_account(m: Map<Address, Set<U256>>, a: Address) -> Map<Address, Set<U256>> {
    if m.contains_key(a) {
        m
    } else {
        m.insert(a, Set::empty())
    }
}

/// `m` once `slot` is marked as touched under the account `a`.
pub open spec fn with_slot(m: Map<Address, Set<U256>>, a: Address, slot: U256) -> Map<
    Address,
    Set<U256>,
> {
    m.insert(a, m[a].insert(slot))
}

/// Whether `a` is the account of some entry of `entries`.
pub open spec fn lists_account(entries: Seq<(Address, Vec<U256>)>, a: Address) -> bool {
    exists|j: int| 0 <= j < entries.len() && entries[j].0 == a
}

impl AccountMap {
    /// No bucket is empty, so the map is empty exactly when there are no buckets.
    #[verifier::type_invariant]
    closed spec fn no_empty_bucket(&self) -> bool {
        forall|hi: u32| #[trigger]
            self.by_hi@.contains_key(hi) ==> self.by_hi@[hi]@.dom() != Set::<u128>::empty()
    }
}

impl View for AccountMap {
    type V = Map<Address, Set<U256>>;

    closed spec fn view(&self) -> Map<Address, Set<U256>> {
        Map::new(
            |a: Address| self.by_hi@.contains_key(a.hi) && self.by_hi@[a.hi]@.contains_key(a.lo),
            |a: Address| self.by_hi@[a.hi]@[a.lo]@,
        )
    }
}

impl AccountMap {
    pub fn new() -> (r: AccountMap)
        ensures
            r@ == Map::<Address, Set<U256>>::empty(),
    {
        let r = AccountMap { by_hi: HashMap::new() };
        assert(r@ =~= Map::<Address, Set<U256>>::empty());
        r
    }

    pub fn contains(&self, a: &Address) -> (r: bool)
        ensures
            r == self@.contains_key(*a),
    {
        match self.by_hi.get(&a.hi) {
            Some(lows) => lows.contains_key(&a.lo),
            None => false,
        }
    }

    /// Whether `slot` was touched under `a`; false where `a` was not touched.
    pub fn contains_slot(&self, a: &Address, slot: &U256) -> (r: bool)
        ensures
            r == (self@.contains_key(*a) && self@[*a].contains(*slot)),
    {
        match self.by_hi.get(&a.hi) {
            Some(lows) => match lows.get(&a.lo) {
                Some(slots) => slots.contains(slot),
                None => false,
            },
            None => false,
        }
    }

    pub fn is_empty(&self) -> (r: bool)
        ensures
            r == (self@ == Map::<Address, Set<U256>>::empty()),
    {
        proof {
            use_type_invariant(self);
        }
        let r = self.by_hi.is_empty();
        proof {
            if !r {
                assert(self.by_hi@.dom() != Set::<u32>::empty());
                let hi = choose|hi: u32| self.by_hi@.contains_key(hi);
                let lows = self.by_hi@[hi]@.dom();
                assert(exists|lo: u128| lows.contains(lo)) by {
                    if !(exists|lo: u128| lows.contains(lo)) {
                        assert(lows =~= Set::<u128>::empty());
                    }
                }
                let lo = choose|lo: u128| lows.contains(lo);
                assert(self@.contains_key(Address { hi, lo }));
            } else {
                assert(self@ =~= Map::<Address, Set<U256>>::empty());
            }
        }
        r
    }

    /// Marks `a` as touched; an account already there keeps its slots.
    pub fn insert_account(&mut self, a: Address)
        ensures
            final(self)@ == with_account(old(self)@, a),
    {
        let mut taken = AccountMap::new();
        core::mem::swap(self, &mut taken);
        proof {
            use_type_invariant(&taken);
        }
        let AccountMap { mut by_hi } = taken;
        let mut lows = match by_hi.remove(&a.hi) {
            Some(lows) => lows,
            None => HashMap::new(),
        };
        if !lows.contains_key(&a.lo) {
            lows.insert(a.lo, WordSet::new());
        }
        assert(lows@.contains_key(a.lo));
        by_hi.insert(a.hi, lows);
        *self = AccountMap { by_hi };
        assert(self@ =~= with_account(old(self)@, a));
    }

    /// Marks `slot` as touched under the account `a`, which must be there.
    pub fn insert_slot(&mut self, a: &Address, slot: U256)
        requires
            old(self)@.contains_key(*a),
        ensures
            final(self)@ == with_slot(old(self)@, *a, slot),
    {
        let mut taken = AccountMap::new();
        core::mem::swap(self, &mut taken);
        proof {
            use_type_invariant(&taken);
        }
        let AccountMap { mut by_hi } = taken;
        // The account is there by the precondition; a caller outside the
        // proofs that breaks it stops here rather than creating the account.
        let mut lows = by_hi.remove(&a.hi).unwrap();
        let mut slots = lows.remove(&a.lo).unwrap();
        slots.insert(slot);
        lows.insert(a.lo, slots);
        assert(lows@.contains_key(a.lo));
        by_hi.insert(a.hi, lows);
        *self = AccountMap { by_hi };
        assert(self@ =~= with_slot(old(self)@, *a, slot));
    }

    /// Each account once, with the slots touched under it, in no particular order.
    pub fn to_vec(&self) -> (r: Vec<(Address, Vec<U256>)>)
        ensures
            forall|a: Address| self@.contains_key(a) <==> lists_account(r@, a),
            forall|i: int, w: U256|
                0 <= i < r.len() ==> (r@[i].1@.contains(w) <==> self@[r@[i].0].contains(w)),
            forall|i: int, j: int| 0 <= i < j < r.len() ==> r@[i].0 != r@[j].0,
    {
        let mut r: Vec<(Address, Vec<U256>)> = Vec::new();
        let ghost entries = spec_hash_map_iter(&self.by_hi).remaining();
        let ghost mut done: int = 0;
        let ghost mut seen: Set<u32> = Set::empty();
        for entry in it: self.by_hi.iter()
            invariant
                it.seq() == entries,
                done == it.index(),
                entries.no_duplicates(),
                forall|i: int| 0 <= i < r.len() ==> self@.contains_key(#[trigger] r@[i].0),
                forall|i: int, w: U256|
                    0 <= i < r.len() ==> (r@[i].1@.contains(w) <==> self@[r@[i].0].contains(w)),
                forall|i: int, j: int| 0 <= i < j < r.len() ==> r@[i].0 != r@[j].0,
                forall|i: int, lo: u128|
                    0 <= i < done && (*entries[i].1)@.contains_key(lo) ==> lists_account(
                        r@,
                        Address { hi: *entries[i].0, lo },
                    ),
                forall|k: int| 0 <= k < r.len() ==> seen.contains(#[trigger] r@[k].0.hi),
                forall|h: u32|
                    seen.contains(h) ==> exists|i: int| 0 <= i < done && *entries[i].0 == h,
        {
            let (hi, lows) = entry;
            proof {
                assert(self.by_hi@.contains_key(*hi) && self.by_hi@[*hi] == *lows);
                assert(entries[done] == (hi, lows));
                assert forall|i: int| 0 <= i < done implies *entries[i].0 != *hi by {
                    if *entries[i].0 == *hi {
                        assert(self.by_hi@[*entries[i].0] == *entries[i].1);
                        assert(entries[i] == entries[done]);
                    }
                }
                assert(!seen.contains(*hi));
            }
            let ghost before = r@;
            let ghost inner = spec_hash_map_iter(lows).remaining();
            let ghost mut taken: int = 0;
            for slot_entry in lit: lows.iter()
                invariant
                    lit.seq() == inner,
                    taken == lit.index(),
                    inner.no_duplicates(),
                    self.by_hi@.contains_key(*hi) && self.by_hi@[*hi] == *lows,
                    forall|i: int| 0 <= i < r.len() ==> self@.contains_key(#[trigger] r@[i].0),
                    forall|i: int, w: U256|
                        0 <= i < r.len() ==> (r@[i].1@.contains(w) <==> self@[r@[i].0].contains(
                            w,
                        )),
                    forall|i: int, j: int| 0 <= i < j < r.len() ==> r@[i].0 != r@[j].0,
                    r.len() == before.len() + taken,
                    forall|k: int| 0 <= k < before.len() ==> r@[k] == before[k],
                    forall|k: int| 0 <= k < before.len() ==> before[k].0.hi != *hi,
                    forall|j: int|
                        0 <= j < taken ==> r@[before.len() + j].0 == (Address {
                            hi: *hi,
                            lo: *inner[j].0,
                        }),
            {
                let (lo, slots) = slot_entry;
                let a = Address { hi: *hi, lo: *lo };
                proof {
                    assert(lows@.contains_key(*lo) && lows@[*lo] == *slots);
                    assert(inner[taken] == (lo, slots));
                    assert forall|k: int| 0 <= k < r.len() implies r@[k].0 != a by {
                        if k >= before.len() {
                            let j = k - before.len();
                            assert(r@[before.len() + j].0 == (Address { hi: *hi, lo: *inner[j].0 }));
                            if *inner[j].0 == *lo {
                                assert(lows@[*inner[j].0] == *inner[j].1);
                                assert(inner[j] == inner[taken]);
                            }
                        } else {
                            assert(r@[k] == before[k]);
                        }
                    }
                }
                r.push((a, slots.to_vec()));
                proof {
                    assert(self@[a] == slots@);
                    taken = taken + 1;
                }
            }
            proof {
                assert(taken == inner.len());
                assert forall|lo: u128| lows@.contains_key(lo) implies lists_account(
                    r@,
                    Address { hi: *hi, lo },
                ) by {
                    assert(inner.contains((&lo, &lows@[lo])));
                    let j = choose|j: int| 0 <= j < inner.len() && inner[j] == (&lo, &lows@[lo]);
                    assert(r@[before.len() + j].0 == (Address { hi: *hi, lo }));
                }
                assert forall|i: int, lo: u128|
                    0 <= i < done && (*entries[i].1)@.contains_key(lo) implies lists_account(
                        r@,
                        Address { hi: *entries[i].0, lo },
                    ) by {
                    let a = Address { hi: *entries[i].0, lo };
                    let k = choose|k: int| 0 <= k < before.len() && before[k].0 == a;
                    assert(r@[k].0 == a);
                }
                seen = seen.insert(*hi);
                assert forall|k: int| 0 <= k < r.len() implies seen.contains(
                    #[trigger] r@[k].0.hi,
                ) by {
                    if k < before.len() {
                        assert(before[k] == r@[k]);
                    } else {
                        let j = k - before.len();
                        assert(r@[before.len() + j].0 == (Address { hi: *hi, lo: *inner[j].0 }));
                    }
                }
                assert forall|h: u32| seen.contains(h) implies exists|i: int|
                    0 <= i < done + 1 && *entries[i].0 == h by {
                    if h == *hi {
                        assert(*entries[done].0 == h);
                    }
                }
                done = done + 1;
            }
        }
        proof {
            assert forall|a: Address| self@.contains_key(a) implies lists_account(r@, a) by {
                let lows = self.by_hi@[a.hi];
                assert(done == entries.len());
                assert(entries.contains((&a.hi, &lows)));
                let i = choose|i: int| 0 <= i < entries.len() && entries[i] == (&a.hi, &lows);
                assert((*entries[i].1)@.contains_key(a.lo));
                assert(*entries[i].0 == a.hi);
            }
            assert forall|a: Address| lists_account(r@, a) implies self@.contains_key(a) by {
                let i = choose|i: int| 0 <= i < r.len() && r@[i].0 == a;
            }
        }
        r
    }
}

} // verus!
