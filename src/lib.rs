//! Per-execution access tracking: which accounts, storage slots, code
//! hashes and block numbers one execution unit has touched.

mod account_map;
mod primitives;
mod trace;
mod word_set;

pub use account_map::{lists_account, with_account, with_slot, AccountMap};
pub use primitives::{Address, Word256, B256, U256};
pub use trace::{
    lemma_add_account_idempotent, lemma_add_block_num_idempotent, lemma_add_code_idempotent,
    lemma_add_storage_idempotent, lemma_storage_after_account, repeated, ExecutionTrace, TraceView,
};
pub use word_set::WordSet;
