use vstd::prelude::*;

pub mod value;
pub mod order;
pub mod entry;
pub mod state;
pub mod nested;
pub mod diff;
pub mod laws;
pub mod nested_laws;
pub mod text;
pub mod analysis;
pub mod storage;
pub mod wasm_diff;
pub mod interface_laws;
pub mod contract_spec;
pub mod analyzer;
pub mod digest;
pub mod migration;
pub mod ledger_values;
pub mod seeding;
pub mod debug_text;
pub mod reading_laws;
pub mod seeding_laws;

verus! {
} // verus!
