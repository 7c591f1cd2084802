use execution_trace::{AccountMap, Address, ExecutionTrace, Word256, WordSet};

fn addr_a() -> Address {
    Address::new(0xdead_beef, 0x0102_0304_0506_0708_090a_0b0c_0d0e_0f10)
}

fn hash_h() -> Word256 {
    Word256::new(0xffff_0000_ffff_0000_ffff_0000_ffff_0000, 42)
}

fn slot(n: u128) -> Word256 {
    Word256::from_u128(n)
}

#[test]
fn new_trace_is_empty() {
    let t = ExecutionTrace::new();
    assert!(t.is_empty());
    assert!(t.accounts.is_empty());
    assert!(t.codes.is_empty());
    assert!(t.block_hashes.is_empty());
    assert_eq!(t, ExecutionTrace::default());
}

#[test]
fn end_to_end_harvest() {
    let a = addr_a();
    let h = hash_h();
    let mut t = ExecutionTrace::new();
    t.add_account(a);
    t.add_storage(&a, slot(5));
    t.add_storage(&a, slot(7));
    t.add_code(h);
    t.add_block_num(100);

    let harvested = t.take();
    assert!(harvested.accounts.contains(&a));
    assert!(harvested.accounts.contains_slot(&a, &slot(5)));
    assert!(harvested.accounts.contains_slot(&a, &slot(7)));
    assert!(!harvested.accounts.contains_slot(&a, &slot(9)));
    assert!(harvested.codes.contains(&h));
    assert!(harvested.block_hashes.contains(&100));
    assert_eq!(harvested.block_hashes.len(), 1);

    let mut expected = ExecutionTrace::new();
    expected.add_block_num(100);
    expected.add_code(h);
    expected.add_account(a);
    expected.add_storage(&a, slot(7));
    expected.add_storage(&a, slot(5));
    assert_eq!(harvested, expected);

    assert!(t.is_empty());
    assert_eq!(t, ExecutionTrace::new());
    // The account is gone, so storage under it may not be added before the
    // account is added again.
    assert!(!t.accounts.contains(&a));
}

#[test]
fn add_account_is_idempotent() {
    let a = addr_a();
    let mut once = ExecutionTrace::new();
    once.add_account(a);
    let mut many = ExecutionTrace::new();
    for _ in 0..5 {
        many.add_account(a);
    }
    assert_eq!(once, many);
    assert!(many.accounts.contains(&a));
    assert!(!many.accounts.contains_slot(&a, &slot(0)));
}

#[test]
fn add_account_keeps_existing_slots() {
    let a = addr_a();
    let mut t = ExecutionTrace::new();
    t.add_account(a);
    t.add_storage(&a, slot(3));
    t.add_account(a);
    assert!(t.accounts.contains_slot(&a, &slot(3)));
}

#[test]
fn storage_after_account_is_present() {
    let a = addr_a();
    let k = Word256::new(1, 2);
    let mut t = ExecutionTrace::new();
    t.add_account(a);
    t.add_storage(&a, k);
    assert!(t.accounts.contains_slot(&a, &k));
    assert!(!t.accounts.contains_slot(&a, &Word256::new(2, 1)));
    let before = t.take();
    let mut again = ExecutionTrace::new();
    again.add_account(a);
    again.add_storage(&a, k);
    again.add_storage(&a, k);
    assert_eq!(before, again);
}

#[test]
fn storage_is_kept_per_account() {
    let a = addr_a();
    let b = Address::new(0xdead_beef, 1);
    let c = Address::new(7, 0x0102_0304_0506_0708_090a_0b0c_0d0e_0f10);
    let mut t = ExecutionTrace::new();
    t.add_account(a);
    t.add_account(b);
    t.add_storage(&b, slot(1));
    assert!(t.accounts.contains(&a));
    assert!(t.accounts.contains(&b));
    assert!(!t.accounts.contains(&c));
    assert!(t.accounts.contains_slot(&b, &slot(1)));
    assert!(!t.accounts.contains_slot(&a, &slot(1)));
    assert!(!t.accounts.contains_slot(&c, &slot(1)));
}

#[test]
fn repeated_code_is_held_once() {
    let h = hash_h();
    let mut t = ExecutionTrace::new();
    t.add_code(h);
    t.add_code(h);
    t.add_code(h);
    let mut once = ExecutionTrace::new();
    once.add_code(h);
    assert_eq!(t, once);
    assert!(t.codes.contains(&h));
    assert!(!t.codes.contains(&Word256::new(h.hi, h.lo + 1)));
    assert!(!t.codes.contains(&Word256::new(h.hi - 1, h.lo)));
}

#[test]
fn repeated_block_number_is_held_once() {
    let mut t = ExecutionTrace::new();
    t.add_block_num(100);
    t.add_block_num(100);
    t.add_block_num(u64::MAX);
    assert_eq!(t.block_hashes.len(), 2);
    assert!(t.block_hashes.contains(&100));
    assert!(t.block_hashes.contains(&u64::MAX));
    assert!(!t.block_hashes.contains(&0));
}

#[test]
fn harvest_is_independent_of_later_mutations() {
    let a = addr_a();
    let b = Address::new(1, 1);
    let mut t = ExecutionTrace::new();
    t.add_account(a);
    t.add_code(slot(1));
    let harvested = t.take();

    t.add_account(b);
    t.add_storage(&b, slot(2));
    t.add_code(slot(3));
    t.add_block_num(4);
    t.add_account(a);
    t.add_storage(&a, slot(5));

    assert!(harvested.accounts.contains(&a));
    assert!(!harvested.accounts.contains(&b));
    assert!(!harvested.accounts.contains_slot(&a, &slot(5)));
    assert!(harvested.codes.contains(&slot(1)));
    assert!(!harvested.codes.contains(&slot(3)));
    assert!(harvested.block_hashes.is_empty());

    let second = t.take();
    assert!(second.accounts.contains_slot(&b, &slot(2)));
    assert!(second.accounts.contains_slot(&a, &slot(5)));
    assert!(!second.codes.contains(&slot(1)));
    assert!(t.is_empty());
}

#[test]
fn empty_harvest_gives_empty_trace() {
    let mut t = ExecutionTrace::default();
    let harvested = t.take();
    assert!(harvested.is_empty());
    assert!(t.is_empty());
}

#[test]
fn trace_with_only_an_account_is_not_empty() {
    let mut t = ExecutionTrace::new();
    t.add_account(Address::new(0, 0));
    assert!(!t.is_empty());
    assert!(!t.accounts.is_empty());
    let mut u = ExecutionTrace::new();
    u.add_block_num(0);
    assert!(!u.is_empty());
}

#[test]
fn word_set_and_account_map_alone() {
    let mut s = WordSet::new();
    assert!(s.is_empty());
    s.insert(Word256::new(u128::MAX, u128::MAX));
    assert!(!s.is_empty());
    assert!(s.contains(&Word256::new(u128::MAX, u128::MAX)));
    assert!(!s.contains(&Word256::new(u128::MAX, 0)));

    let mut m = AccountMap::new();
    let top = Address::new(u32::MAX, u128::MAX);
    m.insert_account(top);
    m.insert_slot(&top, Word256::new(0, 0));
    assert!(m.contains_slot(&top, &Word256::new(0, 0)));
    assert!(!m.is_empty());
}

#[test]
fn small_word_value() {
    let w = Word256::from_u128(9);
    assert_eq!(w.hi, 0);
    assert_eq!(w.lo, 9);
}

#[test]
fn word_set_lists_each_word() {
    let mut s = WordSet::new();
    assert!(s.to_vec().is_empty());
    s.insert(Word256::new(1, 2));
    s.insert(Word256::new(1, 3));
    s.insert(Word256::new(4, 2));
    s.insert(Word256::new(1, 2));
    let mut listed = s.to_vec();
    listed.sort_by_key(|w| (w.hi, w.lo));
    assert_eq!(
        listed,
        vec![Word256::new(1, 2), Word256::new(1, 3), Word256::new(4, 2)]
    );
}

#[test]
fn account_map_lists_each_account_with_its_slots() {
    let a = addr_a();
    let b = Address::new(0xdead_beef, 5);
    let c = Address::new(1, 5);
    let mut t = ExecutionTrace::new();
    t.add_account(a);
    t.add_account(b);
    t.add_account(c);
    t.add_storage(&a, slot(5));
    t.add_storage(&a, slot(7));
    t.add_storage(&c, slot(1));
    let mut listed = t.accounts.to_vec();
    listed.sort_by_key(|(x, _)| (x.hi, x.lo));
    for (_, slots) in listed.iter_mut() {
        slots.sort_by_key(|w| (w.hi, w.lo));
    }
    assert_eq!(
        listed,
        vec![
            (c, vec![slot(1)]),
            (b, vec![]),
            (a, vec![slot(5), slot(7)]),
        ]
    );
    assert!(ExecutionTrace::new().accounts.to_vec().is_empty());
}
