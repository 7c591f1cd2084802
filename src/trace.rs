use revm_interpreter::primitives::HashSet;
use vstd::prelude::*;

use crate::account_map::{with_account, with_slot, AccountMap};
use crate::primitives::{Address, B256, U256};
use crate::word_set::WordSet;

verus! {

broadcast use vstd::std_specs::hash::group_hash_axioms;

/// What a trace holds: the touched accounts with their touched slots, the
/// touched code hashes and the block numbers whose hashes were read.
pub ghost struct TraceView {
    pub accounts: Map<Address, Set<U256>>,
    pub codes: Set<B256>,
    pub block_hashes: Set<u64>,
}

impl TraceView {
    /// The trace of an execution that has touched nothing.
    pub open spec fn empty() -> TraceView {
        TraceView { accounts: Map::empty(), codes: Set::empty(), block_hashes: Set::empty() }
    }

    pub open spec fn add_account(self, a: Address) -> TraceView {
        TraceView { accounts: with_account(self.accounts, a), ..self }
    }

    /// Defined where `a` is already among the accounts.
    pub open spec fn add_storage(self, a: Address, slot: U256) -> TraceView {
        TraceView { accounts: with_slot(self.accounts, a, slot), ..self }
    }

    pub open spec fn add_code(self, hash: B256) -> TraceView {
        TraceView { codes: self.codes.insert(hash), ..self }
    }

    pub open spec fn add_block_num(self, number: u64) -> TraceView {
        TraceView { block_hashes: self.block_hashes.insert(number), ..self }
    }
}

/// The state that one execution unit has read from the database.
#[derive(Debug, PartialEq, Eq)]
pub struct ExecutionTrace {
    /// Accessed accounts and the storage slots accessed under each.
    pub accounts: AccountMap,
    /// Accessed codes.
    pub codes: WordSet,
    /// Block numbers whose block hashes have been accessed.
    pub block_hashes: HashSet<u64>,
}

impl View for ExecutionTrace {
    type V = TraceView;

    open spec fn view(&self) -> TraceView {
        TraceView { accounts: self.accounts@, codes: self.codes@, block_hashes: self.block_hashes@ }
    }
}

impl ExecutionTrace {
    pub fn new() -> (r: ExecutionTrace)
        ensures
            r@ == TraceView::empty(),
    {
        ExecutionTrace { accounts: AccountMap::new(), codes: WordSet::new(), block_hashes: HashSet::new() }
    }

    /// Add accessed account; an account already there keeps its slots.
    pub fn add_account(&mut self, address: Address)
        ensures
            final(self)@ == old(self)@.add_account(address),
    {
        self.accounts.insert_account(address);
    }

    /// Add accessed storage slot. The account must have been added first.
    pub fn add_storage(&mut self, address: &Address, slot: U256)
        requires
            old(self)@.accounts.contains_key(*address),
        ensures
            final(self)@ == old(self)@.add_storage(*address, slot),
    {
        self.accounts.insert_slot(address, slot);
    }

    /// Add accessed code.
    pub fn add_code(&mut self, hash: B256)
        ensures
            final(self)@ == old(self)@.add_code(hash),
    {
        self.codes.insert(hash);
    }

    /// Add accessed block hash.
    pub fn add_block_num(&mut self, number: u64)
        ensures
            final(self)@ == old(self)@.add_block_num(number),
    {
        self.block_hashes.insert(number);
    }

    /// Whether nothing has been recorded.
    pub fn is_empty(&self) -> (r: bool)
        ensures
            r == (self@ == TraceView::empty()),
    {
        let no_blocks = self.block_hashes.is_empty();
        proof {
            if !no_blocks {
                assert(self.block_hashes@ != Set::<u64>::empty());
            }
        }
        self.accounts.is_empty() && self.codes.is_empty() && no_blocks
    }

    /// Return execution trace and leave the remaining trace empty.
    pub fn take(&mut self) -> (r: ExecutionTrace)
        ensures
            r@ == old(self)@,
            final(self)@ == TraceView::empty(),
    {
        let mut r = ExecutionTrace::new();
        core::mem::swap(self, &mut r);
        r
    }
}

impl Default for ExecutionTrace {
    fn default() -> (r: ExecutionTrace)
        ensures
            r@ == TraceView::empty(),
    {
        ExecutionTrace::new()
    }
}

/// `t` after `step` has been applied to it `n` times.
pub open spec fn repeated(t: TraceView, step: spec_fn(TraceView) -> TraceView, n: nat) -> TraceView
    decreases n,
{
    if n == 0 {
        t
    } else {
        step(repeated(t, step, (n - 1) as nat))
    }
}

/// A step that changes nothing the second time gives, applied any positive
/// number of times, what it gives once.
proof fn lemma_repeated_idempotent(t: TraceView, step: spec_fn(TraceView) -> TraceView, n: nat)
    requires
        n >= 1,
        step(step(t)) == step(t),
    ensures
        repeated(t, step, n) == step(t),
    decreases n,
{
    assert(repeated(t, step, 0) == t);
    if n > 1 {
        lemma_repeated_idempotent(t, step, (n - 1) as nat);
        assert(repeated(t, step, n) == step(repeated(t, step, (n - 1) as nat)));
    } else {
        assert(repeated(t, step, 1) == step(repeated(t, step, 0)));
    }
}

/// Adding an account once or any number of times gives the same trace: the
/// account is present, with the slots it had, or with none if it was new.
pub proof fn lemma_add_account_idempotent(t: TraceView, a: Address, n: nat)
    requires
        n >= 1,
    ensures
        repeated(t, |v: TraceView| v.add_account(a), n) == t.add_account(a),
        t.add_account(a).accounts.contains_key(a),
        t.add_account(a).accounts.dom() == t.accounts.dom().insert(a),
        t.accounts.contains_key(a) ==> t.add_account(a) == t,
        !t.accounts.contains_key(a) ==> t.add_account(a).accounts[a] == Set::<U256>::empty(),
{
    let step = |v: TraceView| v.add_account(a);
    assert(step(step(t)) == step(t));
    lemma_repeated_idempotent(t, step, n);
    assert(t.add_account(a).accounts.dom() =~= t.accounts.dom().insert(a));
}

/// Once an account is added, storage may be added under it, and the slot is
/// then present under that account, beside the slots it had before.
pub proof fn lemma_storage_after_account(t: TraceView, a: Address, slot: U256)
    ensures
        t.add_account(a).accounts.contains_key(a),
        t.add_account(a).add_storage(a, slot).accounts[a] == t.add_account(a).accounts[a].insert(
            slot,
        ),
        t.add_account(a).add_storage(a, slot).accounts[a].contains(slot),
        t.add_account(a).add_storage(a, slot).accounts.dom() == t.add_account(a).accounts.dom(),
{
    let u = t.add_account(a);
    assert(u.add_storage(a, slot).accounts.dom() =~= u.accounts.dom());
}

/// Adding a slot that is already present under its account changes nothing.
pub proof fn lemma_add_storage_idempotent(t: TraceView, a: Address, slot: U256)
    requires
        t.accounts.contains_key(a),
    ensures
        t.add_storage(a, slot).add_storage(a, slot) == t.add_storage(a, slot),
{
    let once = t.add_storage(a, slot);
    assert(t.accounts[a].insert(slot).insert(slot) =~= t.accounts[a].insert(slot));
    assert(once.add_storage(a, slot).accounts =~= once.accounts);
}

/// Adding a code hash once or any number of times gives the same trace,
/// whose code set holds the hash.
pub proof fn lemma_add_code_idempotent(t: TraceView, hash: B256, n: nat)
    requires
        n >= 1,
    ensures
        repeated(t, |v: TraceView| v.add_code(hash), n) == t.add_code(hash),
        t.add_code(hash).codes == t.codes.insert(hash),
        t.add_code(hash).codes.contains(hash),
{
    let step = |v: TraceView| v.add_code(hash);
    assert(step(step(t)).codes =~= step(t).codes);
    lemma_repeated_idempotent(t, step, n);
}

/// Adding a block number once or any number of times gives the same trace,
/// whose block number set holds it.
pub proof fn lemma_add_block_num_idempotent(t: TraceView, number: u64, n: nat)
    requires
        n >= 1,
    ensures
        repeated(t, |v: TraceView| v.add_block_num(number), n) == t.add_block_num(number),
        t.add_block_num(number).block_hashes == t.block_hashes.insert(number),
        t.add_block_num(number).block_hashes.contains(number),
{
    let step = |v: TraceView| v.add_block_num(number);
    assert(step(step(t)).block_hashes =~= step(t).block_hashes);
    lemma_repeated_idempotent(t, step, n);
}

} // verus!
