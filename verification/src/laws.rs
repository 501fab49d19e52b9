//! Properties of state diffs and canonical states that hold for all inputs.
use vstd::prelude::*;
use crate::entry::{EntryModel, EntryKey, lemma_key_basic};
use crate::value::ValueModel;
use crate::state::{ids_unique, ids_strictly_sorted, lemma_strictly_sorted_unique};
use crate::diff::{
    entry_map, lists_map, canonical_listing, restrict, absent_from, same_in, changed_in, modified_of,
    state_diff, lemma_listing_exists, lemma_listing_filter, lemma_listing_unique, lemma_listing_len,
};

verus! {

proof fn lemma_empty_listing(q: Seq<EntryModel>, m: Map<EntryKey, ValueModel>)
    requires
        lists_map(q, m),
        m =~= Map::<EntryKey, ValueModel>::empty(),
    ensures
        q.len() == 0,
{
    if q.len() > 0 {
        assert(m.contains_key(q[0].id()));
    }
}

/// Comparing a state with itself reports nothing added, removed or
/// modified, and every entry of its storage map as unchanged.
pub proof fn law_diff_with_itself(s: Seq<EntryModel>)
    ensures
        state_diff(s, s).added.len() == 0,
        state_diff(s, s).removed.len() == 0,
        state_diff(s, s).modified.len() == 0,
        state_diff(s, s).unchanged == canonical_listing(entry_map(s)),
        !state_diff(s, s).has_changes(),
{
    let m = entry_map(s);
    let c = lemma_listing_exists(s);
    lemma_listing_filter(c, m, absent_from(m));
    lemma_listing_filter(c, m, changed_in(m));
    lemma_listing_filter(c, m, same_in(m));
    lemma_empty_listing(c.filter(absent_from(m)), restrict(m, absent_from(m)));
    lemma_empty_listing(c.filter(changed_in(m)), restrict(m, changed_in(m)));
    assert(restrict(m, same_in(m)) =~= m);
    lemma_listing_unique(c.filter(same_in(m)), c, m);
}

/// A diff reports changes exactly when the two storage maps differ.
pub proof fn law_changes_iff_maps_differ(before: Seq<EntryModel>, after: Seq<EntryModel>)
    ensures
        state_diff(before, after).has_changes() <==> entry_map(before) != entry_map(after),
{
    let m1 = entry_map(before);
    let m2 = entry_map(after);
    let c1 = lemma_listing_exists(before);
    let c2 = lemma_listing_exists(after);
    if m1 == m2 {
        law_diff_with_itself(before);
        assert(state_diff(before, after) == state_diff(before, before));
    } else {
        if forall|k: EntryKey| (m1.contains_key(k) == m2.contains_key(k)) && (m1.contains_key(k) ==> m1[k] == m2[k]) {
            assert(m1 =~= m2);
        }
        let k = choose|k: EntryKey| !((m1.contains_key(k) == m2.contains_key(k)) && (m1.contains_key(k) ==> m1[k] == m2[k]));
        if m1.contains_key(k) && !m2.contains_key(k) {
            lemma_listing_filter(c1, m1, absent_from(m2));
            assert(restrict(m1, absent_from(m2)).contains_key(k));
        } else if m2.contains_key(k) && !m1.contains_key(k) {
            lemma_listing_filter(c2, m2, absent_from(m1));
            assert(restrict(m2, absent_from(m1)).contains_key(k));
        } else {
            lemma_listing_filter(c1, m1, changed_in(m2));
            assert(restrict(m1, changed_in(m2)).contains_key(k));
        }
    }
}

/// Swapping the two states swaps added and removed, keeps unchanged, and
/// keeps the modified keys while swapping their before and after values.
pub proof fn law_diff_reversal(a: Seq<EntryModel>, b: Seq<EntryModel>)
    ensures
        state_diff(a, b).added == state_diff(b, a).removed,
        state_diff(a, b).removed == state_diff(b, a).added,
        state_diff(a, b).unchanged == state_diff(b, a).unchanged,
        state_diff(a, b).modified.len() == state_diff(b, a).modified.len(),
        forall|i: int| 0 <= i < state_diff(a, b).modified.len() ==> {
            &&& #[trigger] state_diff(a, b).modified[i].key == state_diff(b, a).modified[i].key
            &&& state_diff(a, b).modified[i].before == state_diff(b, a).modified[i].after
            &&& state_diff(a, b).modified[i].after == state_diff(b, a).modified[i].before
        },
{
    let m1 = entry_map(a);
    let m2 = entry_map(b);
    let c1 = lemma_listing_exists(a);
    let c2 = lemma_listing_exists(b);
    lemma_listing_filter(c1, m1, same_in(m2));
    lemma_listing_filter(c2, m2, same_in(m1));
    assert(restrict(m1, same_in(m2)) =~= restrict(m2, same_in(m1)));
    lemma_listing_unique(c1.filter(same_in(m2)), c2.filter(same_in(m1)), restrict(m1, same_in(m2)));
    let f = c1.filter(changed_in(m2));
    let g = c2.filter(changed_in(m1));
    let r1 = restrict(m1, changed_in(m2));
    let r2 = restrict(m2, changed_in(m1));
    lemma_listing_filter(c1, m1, changed_in(m2));
    lemma_listing_filter(c2, m2, changed_in(m1));
    let g2 = f.map_values(|e: EntryModel| EntryModel { durability: e.durability, key: e.key, value: m2[e.id()] });
    assert(lists_map(g2, r2)) by {
        assert forall|x: int, y: int| 0 <= x < y < g2.len() implies crate::entry::key_order(#[trigger] g2[x].id(), #[trigger] g2[y].id()) < 0 by {
            assert(g2[x].id() == f[x].id() && g2[y].id() == f[y].id());
        }
        assert forall|x: int| 0 <= x < g2.len() implies r2.contains_key(#[trigger] g2[x].id()) && r2[g2[x].id()] == g2[x].value by {
            assert(g2[x].id() == f[x].id());
            assert(r1.contains_key(f[x].id()));
        }
        assert forall|k: EntryKey| #[trigger] r2.contains_key(k) implies exists|x: int| 0 <= x < g2.len() && g2[x].id() == k by {
            assert(r1.contains_key(k));
            let x = choose|x: int| 0 <= x < f.len() && f[x].id() == k;
            assert(g2[x].id() == f[x].id());
        }
    }
    lemma_listing_unique(g2, g, r2);
    assert forall|i: int| 0 <= i < state_diff(a, b).modified.len() implies {
        &&& #[trigger] state_diff(a, b).modified[i].key == state_diff(b, a).modified[i].key
        &&& state_diff(a, b).modified[i].before == state_diff(b, a).modified[i].after
        &&& state_diff(a, b).modified[i].after == state_diff(b, a).modified[i].before
    } by {
        assert(state_diff(a, b).modified[i] == modified_of(m2)(f[i]));
        assert(state_diff(b, a).modified[i] == modified_of(m1)(g[i]));
        assert(r1.contains_key(f[i].id()));
    }
}

/// Every identity of the before-state is removed, modified or unchanged, and
/// every identity of the after-state is added, modified or unchanged.
pub proof fn law_diff_counts(before: Seq<EntryModel>, after: Seq<EntryModel>)
    ensures
        entry_map(before).dom().finite(),
        entry_map(after).dom().finite(),
        state_diff(before, after).removed.len() + state_diff(before, after).modified.len()
            + state_diff(before, after).unchanged.len() == entry_map(before).dom().len(),
        state_diff(before, after).added.len() + state_diff(before, after).modified.len()
            + state_diff(before, after).unchanged.len() == entry_map(after).dom().len(),
{
    let m1 = entry_map(before);
    let m2 = entry_map(after);
    let c1 = lemma_listing_exists(before);
    let c2 = lemma_listing_exists(after);
    lemma_listing_len(c1, m1);
    lemma_listing_len(c2, m2);
    lemma_listing_filter(c1, m1, absent_from(m2));
    lemma_listing_filter(c1, m1, changed_in(m2));
    lemma_listing_filter(c1, m1, same_in(m2));
    lemma_listing_filter(c2, m2, absent_from(m1));
    lemma_listing_filter(c2, m2, changed_in(m1));
    lemma_listing_filter(c2, m2, same_in(m1));
    let ra = restrict(m1, absent_from(m2));
    let rc = restrict(m1, changed_in(m2));
    let rs = restrict(m1, same_in(m2));
    let qa = restrict(m2, absent_from(m1));
    let qc = restrict(m2, changed_in(m1));
    let qs = restrict(m2, same_in(m1));
    lemma_listing_len(c1.filter(absent_from(m2)), ra);
    lemma_listing_len(c1.filter(changed_in(m2)), rc);
    lemma_listing_len(c1.filter(same_in(m2)), rs);
    lemma_listing_len(c2.filter(absent_from(m1)), qa);
    lemma_listing_len(c2.filter(changed_in(m1)), qc);
    lemma_listing_len(c2.filter(same_in(m1)), qs);
    vstd::set_lib::lemma_set_disjoint_lens(ra.dom(), rc.dom());
    vstd::set_lib::lemma_set_disjoint_lens(ra.dom() + rc.dom(), rs.dom());
    assert(m1.dom() =~= ra.dom() + rc.dom() + rs.dom());
    vstd::set_lib::lemma_set_disjoint_lens(qa.dom(), qc.dom());
    vstd::set_lib::lemma_set_disjoint_lens(qa.dom() + qc.dom(), qs.dom());
    assert(m2.dom() =~= qa.dom() + qc.dom() + qs.dom());
    assert(rc.dom() =~= qc.dom());
    assert(rs.dom() =~= qs.dom());
}

/// Canonical order: two entry lists in strictly increasing identity order
/// (as `ContractState::new` leaves them) that hold the same entries are
/// identical, whatever order the entries were given in.
pub proof fn law_canonical_order(x: Seq<EntryModel>, y: Seq<EntryModel>)
    requires
        ids_strictly_sorted(x),
        ids_strictly_sorted(y),
        x.to_multiset() == y.to_multiset(),
    ensures
        x == y,
{
    lemma_strictly_sorted_unique(x, y);
}

/// Reordering entries whose identities are distinct changes no diff: the
/// storage map, which is all a diff looks at, stays the same.
pub proof fn law_entry_order_irrelevant(a: Seq<EntryModel>, b: Seq<EntryModel>)
    requires
        ids_unique(a),
        a.to_multiset() == b.to_multiset(),
    ensures
        entry_map(a) == entry_map(b),
        forall|c: Seq<EntryModel>| state_diff(a, c) == state_diff(b, c) && state_diff(c, a) == state_diff(c, b),
{
    crate::state::lemma_permutation_keeps_unique(a, b);
    lemma_unique_entry_map(a);
    lemma_unique_entry_map(b);
    broadcast use vstd::seq_lib::group_to_multiset_ensures;
    assert forall|k: EntryKey| #[trigger] entry_map(a).contains_key(k) == entry_map(b).contains_key(k)
        && (entry_map(a).contains_key(k) ==> entry_map(a)[k] == entry_map(b)[k]) by {
        if entry_map(a).contains_key(k) {
            let i = choose|i: int| 0 <= i < a.len() && a[i].id() == k;
            assert(a.to_multiset().count(a[i]) > 0);
            assert(b.contains(a[i]));
            let j = choose|j: int| 0 <= j < b.len() && b[j] == a[i];
        }
        if entry_map(b).contains_key(k) {
            let j = choose|j: int| 0 <= j < b.len() && b[j].id() == k;
            assert(b.to_multiset().count(b[j]) > 0);
            assert(a.contains(b[j]));
            let i = choose|i: int| 0 <= i < a.len() && a[i] == b[j];
        }
    }
    assert(entry_map(a) =~= entry_map(b));
}

/// Every record of a diff says where its entry stands: an added entry is in
/// the after-state and its identity is not in the before-state; a removed
/// entry is in the before-state and its identity is not in the after-state;
/// an unchanged entry has the same value in both; a modified record names a
/// key held in both, with the before-state's value as `before`, the
/// after-state's as `after`, which differ, and the nested changes between
/// those two values.
pub proof fn law_diff_records_where_entries_stand(before: Seq<EntryModel>, after: Seq<EntryModel>)
    ensures
        forall|i: int| 0 <= i < state_diff(before, after).added.len() ==> {
            let e = #[trigger] state_diff(before, after).added[i];
            &&& entry_map(after).contains_key(e.id())
            &&& entry_map(after)[e.id()] == e.value
            &&& !entry_map(before).contains_key(e.id())
        },
        forall|i: int| 0 <= i < state_diff(before, after).removed.len() ==> {
            let e = #[trigger] state_diff(before, after).removed[i];
            &&& entry_map(before).contains_key(e.id())
            &&& entry_map(before)[e.id()] == e.value
            &&& !entry_map(after).contains_key(e.id())
        },
        forall|i: int| 0 <= i < state_diff(before, after).unchanged.len() ==> {
            let e = #[trigger] state_diff(before, after).unchanged[i];
            &&& entry_map(before).contains_key(e.id())
            &&& entry_map(after).contains_key(e.id())
            &&& entry_map(before)[e.id()] == e.value
            &&& entry_map(after)[e.id()] == e.value
        },
        forall|i: int| 0 <= i < state_diff(before, after).modified.len() ==> {
            let r = #[trigger] state_diff(before, after).modified[i];
            exists|d: crate::entry::Durability| {
                &&& #[trigger] entry_map(before).contains_key((d, r.key))
                &&& entry_map(after).contains_key((d, r.key))
                &&& entry_map(before)[(d, r.key)] == r.before
                &&& entry_map(after)[(d, r.key)] == r.after
                &&& r.before != r.after
                &&& r.nested_changes == crate::nested::nested_changes(r.before, r.after)
            }
        },
{
    let m1 = entry_map(before);
    let m2 = entry_map(after);
    let c1 = lemma_listing_exists(before);
    let c2 = lemma_listing_exists(after);
    lemma_listing_filter(c2, m2, absent_from(m1));
    lemma_listing_filter(c1, m1, absent_from(m2));
    lemma_listing_filter(c1, m1, changed_in(m2));
    lemma_listing_filter(c1, m1, same_in(m2));
    let ad = c2.filter(absent_from(m1));
    let rm = c1.filter(absent_from(m2));
    let un = c1.filter(same_in(m2));
    let f = c1.filter(changed_in(m2));
    assert forall|i: int| 0 <= i < ad.len() implies m2.contains_key(#[trigger] ad[i].id()) && m2[ad[i].id()] == ad[i].value
        && !m1.contains_key(ad[i].id()) by {
        assert(restrict(m2, absent_from(m1)).contains_key(ad[i].id()));
    }
    assert forall|i: int| 0 <= i < rm.len() implies m1.contains_key(#[trigger] rm[i].id()) && m1[rm[i].id()] == rm[i].value
        && !m2.contains_key(rm[i].id()) by {
        assert(restrict(m1, absent_from(m2)).contains_key(rm[i].id()));
    }
    assert forall|i: int| 0 <= i < un.len() implies m1.contains_key(#[trigger] un[i].id()) && m1[un[i].id()] == un[i].value
        && m2.contains_key(un[i].id()) && m2[un[i].id()] == un[i].value by {
        assert(restrict(m1, same_in(m2)).contains_key(un[i].id()));
    }
    let md = f.map_values(modified_of(m2));
    assert forall|i: int| 0 <= i < md.len() implies {
        let r = #[trigger] md[i];
        exists|d: crate::entry::Durability| {
            &&& #[trigger] m1.contains_key((d, r.key))
            &&& m2.contains_key((d, r.key))
            &&& m1[(d, r.key)] == r.before
            &&& m2[(d, r.key)] == r.after
            &&& r.before != r.after
            &&& r.nested_changes == crate::nested::nested_changes(r.before, r.after)
        }
    } by {
        let e = f[i];
        assert(restrict(m1, changed_in(m2)).contains_key(e.id()));
        assert(md[i] == modified_of(m2)(e));
        assert(e.id() == (e.durability, e.key));
        assert(m1.contains_key((e.durability, md[i].key)));
    }
}

/// For entry lists with distinct identities, the storage maps agree exactly
/// when the lists hold the same entries.
pub proof fn lemma_same_map_same_entries(a: Seq<EntryModel>, b: Seq<EntryModel>)
    requires
        ids_unique(a),
        ids_unique(b),
    ensures
        entry_map(a) == entry_map(b) <==> a.to_set() == b.to_set(),
{
    lemma_unique_entry_map(a);
    lemma_unique_entry_map(b);
    let ma = entry_map(a);
    let mb = entry_map(b);
    if ma == mb {
        assert forall|x: EntryModel| a.to_set().contains(x) <==> b.to_set().contains(x) by {
            if a.contains(x) {
                let i = choose|i: int| 0 <= i < a.len() && a[i] == x;
                assert(ma.contains_key(a[i].id()));
                let j = choose|j: int| 0 <= j < b.len() && b[j].id() == a[i].id();
                assert(mb[b[j].id()] == b[j].value);
                assert(b[j] == x);
            }
            if b.contains(x) {
                let j = choose|j: int| 0 <= j < b.len() && b[j] == x;
                assert(mb.contains_key(b[j].id()));
                let i = choose|i: int| 0 <= i < a.len() && a[i].id() == b[j].id();
                assert(ma[a[i].id()] == a[i].value);
                assert(a[i] == x);
            }
        }
        assert(a.to_set() =~= b.to_set());
    }
    if a.to_set() == b.to_set() {
        assert forall|k: EntryKey| #[trigger] ma.contains_key(k) <==> mb.contains_key(k) by {
            if ma.contains_key(k) {
                let i = choose|i: int| 0 <= i < a.len() && a[i].id() == k;
                assert(a.to_set().contains(a[i]));
                let j = choose|j: int| 0 <= j < b.len() && b[j] == a[i];
                assert(b[j].id() == k);
            }
            if mb.contains_key(k) {
                let j = choose|j: int| 0 <= j < b.len() && b[j].id() == k;
                assert(b.to_set().contains(b[j]));
                let i = choose|i: int| 0 <= i < a.len() && a[i] == b[j];
                assert(a[i].id() == k);
            }
        }
        assert forall|k: EntryKey| #[trigger] ma.contains_key(k) implies ma[k] == mb[k] by {
            let i = choose|i: int| 0 <= i < a.len() && a[i].id() == k;
            assert(a.to_set().contains(a[i]));
            let j = choose|j: int| 0 <= j < b.len() && b[j] == a[i];
            assert(ma[a[i].id()] == a[i].value);
            assert(mb[b[j].id()] == b[j].value);
        }
        assert(ma =~= mb);
    }
}

/// For states whose entries have distinct identities (as validation
/// requires), a diff reports no change exactly when both states hold the
/// same set of entries.
pub proof fn law_no_changes_iff_same_entries(a: Seq<EntryModel>, b: Seq<EntryModel>)
    requires
        ids_unique(a),
        ids_unique(b),
    ensures
        !state_diff(a, b).has_changes() <==> a.to_set() == b.to_set(),
{
    law_changes_iff_maps_differ(a, b);
    lemma_same_map_same_entries(a, b);
}

/// Comparing a state whose entries have distinct identities with itself
/// lists every one of its entries as unchanged, once each, in increasing
/// identity order.
pub proof fn law_unchanged_with_itself(s: Seq<EntryModel>)
    requires
        ids_unique(s),
    ensures
        ids_strictly_sorted(state_diff(s, s).unchanged),
        state_diff(s, s).unchanged.to_set() == s.to_set(),
        state_diff(s, s).unchanged.len() == s.len(),
{
    law_diff_with_itself(s);
    let q = lemma_listing_exists(s);
    let m = entry_map(s);
    lemma_unique_entry_map(s);
    assert forall|x: EntryModel| q.to_set().contains(x) <==> s.to_set().contains(x) by {
        if q.contains(x) {
            let a = choose|a: int| 0 <= a < q.len() && q[a] == x;
            assert(m.contains_key(q[a].id()));
            let i = choose|i: int| 0 <= i < s.len() && s[i].id() == q[a].id();
            assert(m[s[i].id()] == s[i].value);
            assert(s[i] == x);
        }
        if s.contains(x) {
            let i = choose|i: int| 0 <= i < s.len() && s[i] == x;
            assert(m.contains_key(s[i].id()));
            let a = choose|a: int| 0 <= a < q.len() && q[a].id() == s[i].id();
            assert(m[s[i].id()] == s[i].value);
            assert(q[a] == x);
        }
    }
    assert(q.to_set() =~= s.to_set());
    assert(q.no_duplicates()) by {
        assert forall|i: int, j: int| 0 <= i < q.len() && 0 <= j < q.len() && i != j implies q[i] != q[j] by {
            if i < j {
                lemma_key_basic(q[i].id(), q[j].id());
            } else {
                lemma_key_basic(q[j].id(), q[i].id());
            }
        }
    }
    assert(s.no_duplicates()) by {
        assert forall|i: int, j: int| 0 <= i < s.len() && 0 <= j < s.len() && i != j implies s[i] != s[j] by {
            if i < j {
                assert(s[i].id() != s[j].id());
            } else {
                assert(s[j].id() != s[i].id());
            }
        }
    }
    q.unique_seq_to_set();
    s.unique_seq_to_set();
}

/// Each category of a diff counts a set of identities: added ones only in
/// the after-state, removed ones only in the before-state, modified ones in
/// both with different values, unchanged ones in both with the same value.
pub proof fn law_diff_category_sizes(before: Seq<EntryModel>, after: Seq<EntryModel>)
    ensures
        state_diff(before, after).added.len() == entry_map(after).dom().difference(entry_map(before).dom()).len(),
        state_diff(before, after).removed.len() == entry_map(before).dom().difference(entry_map(after).dom()).len(),
        state_diff(before, after).modified.len() == entry_map(before).dom().filter(
            |k: EntryKey| entry_map(after).contains_key(k) && entry_map(before)[k] != entry_map(after)[k],
        ).len(),
        state_diff(before, after).unchanged.len() == entry_map(before).dom().filter(
            |k: EntryKey| entry_map(after).contains_key(k) && entry_map(before)[k] == entry_map(after)[k],
        ).len(),
{
    let m1 = entry_map(before);
    let m2 = entry_map(after);
    let c1 = lemma_listing_exists(before);
    let c2 = lemma_listing_exists(after);
    lemma_listing_filter(c2, m2, absent_from(m1));
    lemma_listing_filter(c1, m1, absent_from(m2));
    lemma_listing_filter(c1, m1, changed_in(m2));
    lemma_listing_filter(c1, m1, same_in(m2));
    lemma_listing_len(c2.filter(absent_from(m1)), restrict(m2, absent_from(m1)));
    lemma_listing_len(c1.filter(absent_from(m2)), restrict(m1, absent_from(m2)));
    lemma_listing_len(c1.filter(changed_in(m2)), restrict(m1, changed_in(m2)));
    lemma_listing_len(c1.filter(same_in(m2)), restrict(m1, same_in(m2)));
    assert(restrict(m2, absent_from(m1)).dom() =~= m2.dom().difference(m1.dom()));
    assert(restrict(m1, absent_from(m2)).dom() =~= m1.dom().difference(m2.dom()));
    assert(restrict(m1, changed_in(m2)).dom() =~= m1.dom().filter(
        |k: EntryKey| m2.contains_key(k) && m1[k] != m2[k],
    ));
    assert(restrict(m1, same_in(m2)).dom() =~= m1.dom().filter(
        |k: EntryKey| m2.contains_key(k) && m1[k] == m2[k],
    ));
}

/// For entries with distinct identities, the storage map holds exactly
/// their identities with their values.
pub proof fn lemma_unique_entry_map(s: Seq<EntryModel>)
    requires
        ids_unique(s),
    ensures
        forall|k: EntryKey| #[trigger] entry_map(s).contains_key(k) <==> exists|i: int| 0 <= i < s.len() && s[i].id() == k,
        forall|i: int| 0 <= i < s.len() ==> #[trigger] entry_map(s)[s[i].id()] == s[i].value,
    decreases s.len(),
{
    if s.len() > 0 {
        let d = s.drop_last();
        assert forall|i: int, j: int| 0 <= i < j < d.len() implies #[trigger] d[i].id() != #[trigger] d[j].id() by {
            assert(d[i] == s[i] && d[j] == s[j]);
        }
        lemma_unique_entry_map(d);
        assert forall|k: EntryKey| #[trigger] entry_map(s).contains_key(k) <==> exists|i: int| 0 <= i < s.len() && s[i].id() == k by {
            if entry_map(s).contains_key(k) && k != s.last().id() {
                let i = choose|i: int| 0 <= i < d.len() && d[i].id() == k;
                assert(s[i] == d[i]);
            }
            if exists|i: int| 0 <= i < s.len() && s[i].id() == k {
                let i = choose|i: int| 0 <= i < s.len() && s[i].id() == k;
                if i < s.len() - 1 {
                    assert(d[i] == s[i]);
                }
            }
        }
        assert forall|i: int| 0 <= i < s.len() implies #[trigger] entry_map(s)[s[i].id()] == s[i].value by {
            if i < s.len() - 1 {
                assert(d[i] == s[i]);
                assert(s[i].id() != s[s.len() - 1].id());
            }
        }
    }
}

} // verus!
