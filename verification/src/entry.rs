//! Storage entries and the order of their `(durability, key)` pairs.
use vstd::prelude::*;
use crate::order::{int_order, value_order, lemma_value_basic, lemma_value_trans};
use crate::value::{StateValue, ValueModel, compare_values, copy_value};

verus! {

/// How long a storage entry lives on the ledger.
#[derive(Debug, Clone, Copy, PartialEq, Eq, Structural, Hash, PartialOrd, Ord)]
pub enum Durability {
    Persistent,
    Instance,
    Temporary,
}

/// Position of a durability in the declaration order.
pub open spec fn durability_rank(d: Durability) -> int {
    match d {
        Durability::Persistent => 0,
        Durability::Instance => 1,
        Durability::Temporary => 2,
    }
}

/// One storage entry: a key and its value under a durability.
#[derive(Debug, PartialEq, Eq, Hash, PartialOrd, Ord)]
pub struct StateEntry {
    pub durability: Durability,
    pub key: StateValue,
    pub value: StateValue,
}

/// Model of a storage entry.
pub struct EntryModel {
    pub durability: Durability,
    pub key: ValueModel,
    pub value: ValueModel,
}

/// The identity of an entry: its durability and key.
pub type EntryKey = (Durability, ValueModel);

impl StateEntry {
    pub open spec fn model(&self) -> EntryModel {
        EntryModel { durability: self.durability, key: self.key.model(), value: self.value.model() }
    }
}

impl EntryModel {
    pub open spec fn id(self) -> EntryKey {
        (self.durability, self.key)
    }
}

/// Models of a sequence of entries.
pub open spec fn entries_model(s: Seq<StateEntry>) -> Seq<EntryModel> {
    s.map_values(|e: StateEntry| e.model())
}

/// Three-way comparison of entry identities: durability first, then key.
pub open spec fn key_order(a: EntryKey, b: EntryKey) -> int {
    if durability_rank(a.0) != durability_rank(b.0) {
        int_order(durability_rank(a.0), durability_rank(b.0))
    } else {
        value_order(a.1, b.1)
    }
}

pub proof fn lemma_key_basic(a: EntryKey, b: EntryKey)
    ensures
        key_order(a, a) == 0,
        key_order(a, b) == -key_order(b, a),
        key_order(a, b) == 0 <==> a == b,
        -1 <= key_order(a, b) <= 1,
{
    lemma_value_basic(a.1, b.1);
    lemma_value_basic(a.1, a.1);
}

pub proof fn lemma_key_trans(a: EntryKey, b: EntryKey, c: EntryKey)
    requires
        key_order(a, b) <= 0,
        key_order(b, c) <= 0,
    ensures
        key_order(a, c) <= 0,
        key_order(a, b) < 0 || key_order(b, c) < 0 ==> key_order(a, c) < 0,
{
    lemma_key_basic(a, b);
    lemma_key_basic(b, c);
    lemma_key_basic(a, c);
    if key_order(a, b) < 0 && key_order(b, c) < 0 && durability_rank(a.0) == durability_rank(b.0)
        && durability_rank(b.0) == durability_rank(c.0) {
        lemma_value_trans(a.1, b.1, c.1);
    }
}

fn durability_index(d: Durability) -> (r: u8)
    ensures
        r == durability_rank(d),
{
    match d {
        Durability::Persistent => 0,
        Durability::Instance => 1,
        Durability::Temporary => 2,
    }
}

/// Three-way comparison of two entries by durability, then key.
pub fn compare_entry_keys(a: &StateEntry, b: &StateEntry) -> (r: i8)
    ensures
        r == key_order(a.model().id(), b.model().id()),
{
    let x = durability_index(a.durability);
    let y = durability_index(b.durability);
    if x < y {
        -1
    } else if x > y {
        1
    } else {
        compare_values(&a.key, &b.key)
    }
}

/// A copy of an entry with the same model.
pub fn copy_entry(e: &StateEntry) -> (r: StateEntry)
    ensures
        r.model() == e.model(),
{
    StateEntry { durability: e.durability, key: copy_value(&e.key), value: copy_value(&e.value) }
}

impl Clone for StateEntry {
    fn clone(&self) -> (r: Self)
        ensures
            r.model() == self.model(),
    {
        copy_entry(self)
    }
}

} // verus!
