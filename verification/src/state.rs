//! Contract state snapshots: validation and canonical ordering.
use vstd::prelude::*;
use vstd::multiset::Multiset;
use crate::entry::{
    Durability, StateEntry, EntryModel, entries_model, key_order, lemma_key_basic, lemma_key_trans,
    compare_entry_keys, copy_entry,
};
use crate::value::{StateValue, copy_value};

verus! {

#[verifier::external_type_specification]
#[verifier::external_body]
pub struct ExJsonError(serde_json::Error);

#[verifier::external_type_specification]
#[verifier::external_body]
pub struct ExIoError(std::io::Error);

/// Why a state could not be read or built.
#[derive(Debug)]
pub enum StateError {
    MalformedJson(serde_json::Error),
    DuplicateKey(Durability, StateValue),
    IoError(std::io::Error),
}

/// The storage of one contract: its identifier and its entries.
#[derive(Debug, PartialEq, Eq)]
pub struct ContractState {
    pub contract_id: String,
    pub entries: Vec<StateEntry>,
}

/// The entry at `j` has the same identity as an earlier entry.
pub open spec fn repeats_earlier(s: Seq<EntryModel>, j: int) -> bool {
    exists|i: int| 0 <= i < j && s[i].id() == #[trigger] s[j].id()
}

/// No two entries share a `(durability, key)` identity.
pub open spec fn ids_unique(s: Seq<EntryModel>) -> bool {
    forall|i: int, j: int| 0 <= i < j < s.len() ==> #[trigger] s[i].id() != #[trigger] s[j].id()
}

/// `j` is the first position whose identity already occurred.
pub open spec fn is_first_repeat(s: Seq<EntryModel>, j: int) -> bool {
    &&& 0 <= j < s.len()
    &&& repeats_earlier(s, j)
    &&& forall|k: int| 0 <= k < j ==> !#[trigger] repeats_earlier(s, k)
}

/// Entries are in non-decreasing `(durability, key)` order.
pub open spec fn ids_sorted(s: Seq<EntryModel>) -> bool {
    forall|i: int, j: int| 0 <= i < j < s.len() ==> key_order(#[trigger] s[i].id(), #[trigger] s[j].id()) <= 0
}

/// Entries are in strictly increasing `(durability, key)` order.
pub open spec fn ids_strictly_sorted(s: Seq<EntryModel>) -> bool {
    forall|i: int, j: int| 0 <= i < j < s.len() ==> key_order(#[trigger] s[i].id(), #[trigger] s[j].id()) < 0
}

/// What `validate` reports for a sequence of entries.
pub open spec fn validation_ok(r: Result<(), StateError>, s: Seq<EntryModel>) -> bool {
    match r {
        Ok(()) => ids_unique(s),
        Err(StateError::DuplicateKey(d, k)) => exists|j: int|
            is_first_repeat(s, j) && d == s[j].durability && k.model() == #[trigger] s[j].key,
        Err(_) => false,
    }
}

/// Inserting at the end of the non-greater prefix keeps a sorted sequence sorted.
proof fn lemma_insert_sorted(s: Seq<EntryModel>, p: int, e: EntryModel)
    requires
        ids_sorted(s),
        0 <= p <= s.len(),
        forall|k: int| 0 <= k < p ==> key_order(#[trigger] s[k].id(), e.id()) <= 0,
        p < s.len() ==> key_order(s[p].id(), e.id()) > 0,
    ensures
        ids_sorted(s.insert(p, e)),
{
    let t = s.insert(p, e);
    if p < s.len() {
        lemma_key_basic(s[p].id(), e.id());
    }
    assert forall|i: int, j: int| 0 <= i < j < t.len() implies key_order(#[trigger] t[i].id(), #[trigger] t[j].id()) <= 0 by {
        if j == p {
            assert(t[i] == s[i]);
        } else if i == p {
            assert(t[j] == s[j - 1]);
            if j - 1 > p {
                lemma_key_trans(e.id(), s[p].id(), s[j - 1].id());
            }
        } else if i < p && j < p {
            assert(t[i] == s[i] && t[j] == s[j]);
        } else if i < p {
            assert(t[i] == s[i] && t[j] == s[j - 1]);
        } else {
            assert(t[i] == s[i - 1] && t[j] == s[j - 1]);
        }
    }
}

/// Reordering entries keeps their identities distinct.
pub proof fn lemma_permutation_keeps_unique(s: Seq<EntryModel>, t: Seq<EntryModel>)
    requires
        ids_unique(s),
        t.to_multiset() == s.to_multiset(),
    ensures
        ids_unique(t),
{
    broadcast use vstd::seq_lib::group_to_multiset_ensures;
    assert(s.no_duplicates()) by {
        assert forall|i: int, j: int| 0 <= i < s.len() && 0 <= j < s.len() && i != j implies s[i] != s[j] by {
            if i < j {
                assert(s[i].id() != s[j].id());
            } else {
                assert(s[j].id() != s[i].id());
            }
        }
    }
    s.lemma_multiset_has_no_duplicates();
    t.lemma_multiset_has_no_duplicates_conv();
    assert forall|i: int, j: int| 0 <= i < j < t.len() implies #[trigger] t[i].id() != #[trigger] t[j].id() by {
        assert(t.to_multiset().count(t[i]) > 0);
        assert(t.to_multiset().count(t[j]) > 0);
        assert(s.contains(t[i]));
        assert(s.contains(t[j]));
        let a = choose|a: int| 0 <= a < s.len() && s[a] == t[i];
        let b = choose|b: int| 0 <= b < s.len() && s[b] == t[j];
        assert(t[i] != t[j]);
        if a < b {
            assert(s[a].id() != s[b].id());
        } else {
            assert(s[b].id() != s[a].id());
        }
    }
}

/// Sorted entries with distinct identities are strictly sorted.
pub proof fn lemma_sorted_unique_strict(s: Seq<EntryModel>)
    requires
        ids_sorted(s),
        ids_unique(s),
    ensures
        ids_strictly_sorted(s),
{
    assert forall|i: int, j: int| 0 <= i < j < s.len() implies key_order(#[trigger] s[i].id(), #[trigger] s[j].id()) < 0 by {
        lemma_key_basic(s[i].id(), s[j].id());
    }
}

/// Two strictly sorted entry sequences holding the same entries are equal.
pub proof fn lemma_strictly_sorted_unique(x: Seq<EntryModel>, y: Seq<EntryModel>)
    requires
        ids_strictly_sorted(x),
        ids_strictly_sorted(y),
        x.to_multiset() == y.to_multiset(),
    ensures
        x == y,
    decreases x.len(),
{
    broadcast use vstd::seq_lib::group_to_multiset_ensures;
    broadcast use vstd::multiset::group_multiset_axioms;
    if x.len() == 0 || y.len() == 0 {
        assert(x.len() == x.to_multiset().len());
        assert(y.len() == y.to_multiset().len());
        assert(x =~= y);
    } else {
        assert(x.to_multiset().count(x[0]) > 0);
        assert(y.contains(x[0]));
        assert(y.to_multiset().count(y[0]) > 0);
        assert(x.contains(y[0]));
        let i = choose|i: int| 0 <= i < y.len() && y[i] == x[0];
        let j = choose|j: int| 0 <= j < x.len() && x[j] == y[0];
        lemma_key_basic(x[0].id(), y[0].id());
        lemma_key_basic(x[0].id(), x[0].id());
        if i > 0 {
            assert(key_order(y[0].id(), x[0].id()) < 0);
            if j > 0 {
                assert(key_order(x[0].id(), y[0].id()) < 0);
            }
        }
        assert(x[0] == y[0]);
        let xr = x.drop_first();
        let yr = y.drop_first();
        assert(x =~= seq![x[0]] + xr);
        assert(y =~= seq![y[0]] + yr);
        vstd::seq_lib::to_multiset_remove(x, 0);
        vstd::seq_lib::to_multiset_remove(y, 0);
        assert(x.remove(0) =~= xr);
        assert(y.remove(0) =~= yr);
        assert forall|a: int, b: int| 0 <= a < b < xr.len() implies key_order(#[trigger] xr[a].id(), #[trigger] xr[b].id()) < 0 by {
            assert(xr[a] == x[a + 1] && xr[b] == x[b + 1]);
        }
        assert forall|a: int, b: int| 0 <= a < b < yr.len() implies key_order(#[trigger] yr[a].id(), #[trigger] yr[b].id()) < 0 by {
            assert(yr[a] == y[a + 1] && yr[b] == y[b + 1]);
        }
        lemma_strictly_sorted_unique(xr, yr);
    }
}

impl ContractState {
    /// Builds a state from entries: rejects a repeated `(durability, key)`
    /// identity, then sorts the entries into canonical order.
    pub fn new(contract_id: String, entries: Vec<StateEntry>) -> (r: Result<ContractState, StateError>)
        ensures
            match r {
                Ok(st) => {
                    &&& ids_unique(entries_model(entries@))
                    &&& st.contract_id@ == contract_id@
                    &&& st.entries_model().to_multiset() == entries_model(entries@).to_multiset()
                    &&& ids_strictly_sorted(st.entries_model())
                },
                Err(e) => validation_ok(Err(e), entries_model(entries@)),
            },
    {
        let mut state = ContractState { contract_id, entries };
        let ghost input = state.entries_model();
        match state.validate() {
            Err(e) => {
                return Err(e);
            },
            Ok(()) => {},
        }
        state.canonicalize();
        proof {
            lemma_permutation_keeps_unique(input, state.entries_model());
            lemma_sorted_unique_strict(state.entries_model());
        }
        Ok(state)
    }

    /// Models of the entries, in stored order.
    pub open spec fn entries_model(&self) -> Seq<EntryModel> {
        entries_model(self.entries@)
    }

    /// Checks that no two entries share a `(durability, key)` identity; the
    /// first entry that repeats an earlier identity is reported.
    pub fn validate(&self) -> (r: Result<(), StateError>)
        ensures
            validation_ok(r, self.entries_model()),
    {
        let ghost s = self.entries_model();
        let n = self.entries.len();
        let mut j: usize = 0;
        while j < n
            invariant
                n == self.entries.len(),
                s == self.entries_model(),
                s.len() == n,
                j <= n,
                forall|k: int| 0 <= k < j ==> !#[trigger] repeats_earlier(s, k),
            decreases n - j,
        {
            let mut i: usize = 0;
            while i < j
                invariant
                    n == self.entries.len(),
                    s == self.entries_model(),
                    s.len() == n,
                    i <= j < n,
                    forall|k: int| 0 <= k < j ==> !#[trigger] repeats_earlier(s, k),
                    forall|k: int| 0 <= k < i ==> s[k].id() != s[j as int].id(),
                decreases j - i,
            {
                let c = compare_entry_keys(&self.entries[i], &self.entries[j]);
                proof {
                    lemma_key_basic(s[i as int].id(), s[j as int].id());
                }
                if c == 0 {
                    let d = self.entries[j].durability;
                    let k = copy_value(&self.entries[j].key);
                    proof {
                        assert(repeats_earlier(s, j as int));
                        assert(is_first_repeat(s, j as int));
                    }
                    return Err(StateError::DuplicateKey(d, k));
                }
                i = i + 1;
            }
            proof {
                assert(!repeats_earlier(s, j as int));
            }
            j = j + 1;
        }
        proof {
            assert forall|a: int, b: int| 0 <= a < b < s.len() implies #[trigger] s[a].id() != #[trigger] s[b].id() by {
                assert(!repeats_earlier(s, b));
            }
        }
        Ok(())
    }

    /// Sorts the entries by `(durability, key)`.
    pub fn canonicalize(&mut self)
        ensures
            final(self).contract_id@ == old(self).contract_id@,
            final(self).entries_model().to_multiset() == old(self).entries_model().to_multiset(),
            ids_sorted(final(self).entries_model()),
    {
        broadcast use vstd::seq_lib::group_to_multiset_ensures;

        let mut rest: Vec<StateEntry> = Vec::new();
        std::mem::swap(&mut rest, &mut self.entries);
        let ghost original = entries_model(rest@);
        let mut sorted: Vec<StateEntry> = Vec::new();
        proof {
            assert(entries_model(sorted@) =~= Seq::<EntryModel>::empty());
            assert(entries_model(sorted@).to_multiset() =~= Multiset::<EntryModel>::empty());
        }
        while rest.len() > 0
            invariant
                ids_sorted(entries_model(sorted@)),
                entries_model(sorted@).to_multiset().add(entries_model(rest@).to_multiset()) == original.to_multiset(),
            decreases rest.len(),
        {
            let ghost r0 = entries_model(rest@);
            let ghost s0 = entries_model(sorted@);
            let e = rest.pop().unwrap();
            proof {
                assert(r0 =~= entries_model(rest@).push(e.model()));
            }
            let mut p: usize = 0;
            while p < sorted.len() && compare_entry_keys(&sorted[p], &e) <= 0
                invariant
                    p <= sorted.len(),
                    s0 == entries_model(sorted@),
                    forall|k: int| 0 <= k < p ==> key_order(#[trigger] s0[k].id(), e.model().id()) <= 0,
                decreases sorted.len() - p,
            {
                p = p + 1;
            }
            proof {
                lemma_insert_sorted(s0, p as int, e.model());
            }
            sorted.insert(p, e);
            proof {
                assert(entries_model(sorted@) =~= s0.insert(p as int, e.model()));
                vstd::seq_lib::to_multiset_insert(s0, p as int, e.model());
                vstd::seq_lib::to_multiset_build(entries_model(rest@), e.model());
                assert(entries_model(sorted@).to_multiset() == s0.to_multiset().insert(e.model()));
                assert(r0.to_multiset() == entries_model(rest@).to_multiset().insert(e.model()));
                assert(entries_model(sorted@).to_multiset().add(entries_model(rest@).to_multiset())
                    =~= original.to_multiset());
            }
        }
        proof {
            assert(entries_model(rest@) =~= Seq::<EntryModel>::empty());
            assert(entries_model(sorted@).to_multiset() =~= original.to_multiset());
        }
        self.entries = sorted;
    }
}

/// A copy of a state.
pub fn copy_state(s: &ContractState) -> (r: ContractState)
    ensures
        r.contract_id@ == s.contract_id@,
        r.entries_model() == s.entries_model(),
{
    let mut entries: Vec<StateEntry> = Vec::new();
    let mut i: usize = 0;
    while i < s.entries.len()
        invariant
            i <= s.entries@.len(),
            entries@.len() == i,
            forall|j: int| 0 <= j < i ==> #[trigger] entries@[j].model() == s.entries@[j].model(),
        decreases s.entries.len() - i,
    {
        entries.push(copy_entry(&s.entries[i]));
        i = i + 1;
    }
    let r = ContractState { contract_id: s.contract_id.clone(), entries };
    proof {
        assert(r.entries_model() =~= s.entries_model());
    }
    r
}

impl Clone for ContractState {
    fn clone(&self) -> (r: Self)
        ensures
            r.contract_id@ == self.contract_id@,
            r.entries_model() == self.entries_model(),
    {
        copy_state(self)
    }
}

} // verus!
