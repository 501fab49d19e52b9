//! Properties of nested changes that hold for all values.
use vstd::prelude::*;
use crate::value::{ValueModel, field_value};
use crate::nested::{
    ChangeModel, nested_changes, removed_fields, added_fields, modified_fields, vec_changes,
    pair_value, removed_pairs, added_pairs, modified_pairs, max_len,
};

verus! {

/// Field names of a struct model are pairwise distinct.
pub open spec fn field_names_unique(m: Seq<(Seq<char>, ValueModel)>) -> bool {
    forall|i: int, j: int| 0 <= i < j < m.len() ==> m[i].0 != m[j].0
}

/// Keys of a map model are pairwise distinct.
pub open spec fn pair_keys_unique(p: Seq<(ValueModel, ValueModel)>) -> bool {
    forall|i: int, j: int| 0 <= i < j < p.len() ==> p[i].0 != p[j].0
}

/// The value's own struct field names and map keys are distinct.
pub open spec fn keys_unique_at_top(v: ValueModel) -> bool {
    match v {
        ValueModel::Struct(f) => field_names_unique(f),
        ValueModel::Mapping(p) => pair_keys_unique(p),
        _ => true,
    }
}

proof fn lemma_field_value_at(m: Seq<(Seq<char>, ValueModel)>, i: int)
    requires
        0 <= i < m.len(),
    ensures
        field_value(m, m[i].0) is Some,
        field_names_unique(m) ==> field_value(m, m[i].0) == Some(m[i].1),
    decreases m.len(),
{
    if i < m.len() - 1 && m.last().0 != m[i].0 {
        let d = m.drop_last();
        assert(d[i] == m[i]);
        lemma_field_value_at(d, i);
        if field_names_unique(m) {
            assert(field_names_unique(d)) by {
                assert forall|a: int, b: int| 0 <= a < b < d.len() implies d[a].0 != d[b].0 by {
                    assert(d[a] == m[a] && d[b] == m[b]);
                }
            }
        }
    }
}

proof fn lemma_pair_value_at(p: Seq<(ValueModel, ValueModel)>, i: int)
    requires
        0 <= i < p.len(),
    ensures
        pair_value(p, p[i].0) is Some,
        pair_keys_unique(p) ==> pair_value(p, p[i].0) == Some(p[i].1),
    decreases p.len(),
{
    if i < p.len() - 1 && p.last().0 != p[i].0 {
        let d = p.drop_last();
        assert(d[i] == p[i]);
        lemma_pair_value_at(d, i);
        if pair_keys_unique(p) {
            assert(pair_keys_unique(d)) by {
                assert forall|a: int, b: int| 0 <= a < b < d.len() implies d[a].0 != d[b].0 by {
                    assert(d[a] == p[a] && d[b] == p[b]);
                }
            }
        }
    }
}

proof fn lemma_fields_self(f: Seq<(Seq<char>, ValueModel)>, n: int)
    requires
        field_names_unique(f),
        0 <= n <= f.len(),
    ensures
        removed_fields(f.subrange(0, n), f).len() == 0,
        added_fields(f, f.subrange(0, n)).len() == 0,
        modified_fields(f.subrange(0, n), f).len() == 0,
    decreases n,
{
    if n > 0 {
        let p = f.subrange(0, n);
        assert(p.drop_last() =~= f.subrange(0, n - 1));
        assert(p.last() == f[n - 1]);
        lemma_fields_self(f, n - 1);
        lemma_field_value_at(f, n - 1);
    }
}

proof fn lemma_pairs_self(q: Seq<(ValueModel, ValueModel)>, n: int)
    requires
        pair_keys_unique(q),
        0 <= n <= q.len(),
    ensures
        removed_pairs(q.subrange(0, n), q).len() == 0,
        added_pairs(q, q.subrange(0, n)).len() == 0,
        modified_pairs(q.subrange(0, n), q).len() == 0,
    decreases n,
{
    if n > 0 {
        let p = q.subrange(0, n);
        assert(p.drop_last() =~= q.subrange(0, n - 1));
        assert(p.last() == q[n - 1]);
        lemma_pairs_self(q, n - 1);
        lemma_pair_value_at(q, n - 1);
    }
}

proof fn lemma_vec_self(b: Seq<ValueModel>, n: nat)
    requires
        n <= b.len(),
    ensures
        vec_changes(b, b, n).len() == 0,
    decreases n,
{
    if n > 0 {
        lemma_vec_self(b, (n - 1) as nat);
    }
}

/// A value compared with itself has no nested changes, when its own struct
/// field names and map keys are distinct.
pub proof fn law_nested_changes_with_itself(v: ValueModel)
    requires
        keys_unique_at_top(v),
    ensures
        nested_changes(v, v).len() == 0,
{
    match v {
        ValueModel::Struct(f) => {
            lemma_fields_self(f, f.len() as int);
            assert(f.subrange(0, f.len() as int) =~= f);
        },
        ValueModel::Vec(b) => {
            lemma_vec_self(b, b.len());
        },
        ValueModel::Mapping(q) => {
            lemma_pairs_self(q, q.len() as int);
            assert(q.subrange(0, q.len() as int) =~= q);
        },
        _ => {},
    }
}

/// A modification record holds two different values; other records hold
/// one value and are shown as they are.
pub open spec fn shows_a_difference(c: ChangeModel) -> bool {
    match c {
        ChangeModel::FieldModified { before, after, .. } => before != after,
        ChangeModel::ItemModified { before, after, .. } => before != after,
        ChangeModel::MapEntryModified { before, after, .. } => before != after,
        _ => true,
    }
}

/// Every record of `s` shows a difference.
pub open spec fn all_show_differences(s: Seq<ChangeModel>) -> bool {
    forall|i: int| 0 <= i < s.len() ==> #[trigger] shows_a_difference(s[i])
}

proof fn lemma_push_shows(s: Seq<ChangeModel>, c: ChangeModel)
    requires
        all_show_differences(s),
        shows_a_difference(c),
    ensures
        all_show_differences(s.push(c)),
{
    assert forall|i: int| 0 <= i < s.push(c).len() implies #[trigger] shows_a_difference(s.push(c)[i]) by {
        if i < s.len() {
            assert(s.push(c)[i] == s[i]);
        }
    }
}

proof fn lemma_concat_shows(x: Seq<ChangeModel>, y: Seq<ChangeModel>)
    requires
        all_show_differences(x),
        all_show_differences(y),
    ensures
        all_show_differences(x + y),
{
    assert forall|i: int| 0 <= i < (x + y).len() implies #[trigger] shows_a_difference((x + y)[i]) by {
        if i < x.len() {
            assert((x + y)[i] == x[i]);
        } else {
            assert((x + y)[i] == y[i - x.len()]);
        }
    }
}

proof fn lemma_field_changes_show(b: Seq<(Seq<char>, ValueModel)>, a: Seq<(Seq<char>, ValueModel)>)
    ensures
        all_show_differences(removed_fields(b, a)),
        all_show_differences(modified_fields(b, a)),
    decreases b.len(),
{
    if b.len() > 0 {
        lemma_field_changes_show(b.drop_last(), a);
        let r = removed_fields(b.drop_last(), a);
        let m = modified_fields(b.drop_last(), a);
        lemma_push_shows(r, ChangeModel::FieldRemoved { field_name: b.last().0, value: b.last().1 });
        if let Some(av) = field_value(a, b.last().0) {
            if av != b.last().1 {
                lemma_push_shows(m, ChangeModel::FieldModified { field_name: b.last().0, before: b.last().1, after: av });
            }
        }
    }
}

proof fn lemma_added_fields_show(b: Seq<(Seq<char>, ValueModel)>, a: Seq<(Seq<char>, ValueModel)>)
    ensures
        all_show_differences(added_fields(b, a)),
    decreases a.len(),
{
    if a.len() > 0 {
        lemma_added_fields_show(b, a.drop_last());
        lemma_push_shows(added_fields(b, a.drop_last()), ChangeModel::FieldAdded { field_name: a.last().0, value: a.last().1 });
    }
}

proof fn lemma_pair_changes_show(b: Seq<(ValueModel, ValueModel)>, a: Seq<(ValueModel, ValueModel)>)
    ensures
        all_show_differences(removed_pairs(b, a)),
        all_show_differences(modified_pairs(b, a)),
    decreases b.len(),
{
    if b.len() > 0 {
        lemma_pair_changes_show(b.drop_last(), a);
        let r = removed_pairs(b.drop_last(), a);
        let m = modified_pairs(b.drop_last(), a);
        lemma_push_shows(r, ChangeModel::ItemRemoved { index: b.len() - 1, value: b.last().1 });
        if let Some(av) = pair_value(a, b.last().0) {
            if av != b.last().1 {
                lemma_push_shows(m, ChangeModel::MapEntryModified { key: b.last().0, before: b.last().1, after: av });
            }
        }
    }
}

proof fn lemma_added_pairs_show(b: Seq<(ValueModel, ValueModel)>, a: Seq<(ValueModel, ValueModel)>)
    ensures
        all_show_differences(added_pairs(b, a)),
    decreases a.len(),
{
    if a.len() > 0 {
        lemma_added_pairs_show(b, a.drop_last());
        lemma_push_shows(added_pairs(b, a.drop_last()), ChangeModel::ItemAdded { index: a.len() - 1, value: a.last().1 });
    }
}

proof fn lemma_vec_changes_show(b: Seq<ValueModel>, a: Seq<ValueModel>, n: nat)
    ensures
        all_show_differences(vec_changes(b, a, n)),
    decreases n,
{
    if n > 0 {
        lemma_vec_changes_show(b, a, (n - 1) as nat);
        let rest = vec_changes(b, a, (n - 1) as nat);
        let i = n - 1;
        if i < b.len() && i < a.len() && b[i] != a[i] {
            lemma_push_shows(rest, ChangeModel::ItemModified { index: i, before: b[i], after: a[i] });
        } else if i < b.len() {
            lemma_push_shows(rest, ChangeModel::ItemRemoved { index: i, value: b[i] });
        } else if i < a.len() {
            lemma_push_shows(rest, ChangeModel::ItemAdded { index: i, value: a[i] });
        }
    }
}

/// Every modification that nested changes report, of a struct field, a
/// vector item or a map entry, shows a before and an after that differ.
pub proof fn law_nested_modifications_differ(before: ValueModel, after: ValueModel)
    ensures
        all_show_differences(nested_changes(before, after)),
    decreases before,
{
    match before {
        ValueModel::Struct(b) => {
            if let ValueModel::Struct(a) = after {
                lemma_field_changes_show(b, a);
                lemma_added_fields_show(b, a);
                lemma_concat_shows(removed_fields(b, a), added_fields(b, a));
                lemma_concat_shows(removed_fields(b, a) + added_fields(b, a), modified_fields(b, a));
            }
        },
        ValueModel::Vec(b) => {
            if let ValueModel::Vec(a) = after {
                lemma_vec_changes_show(b, a, max_len(b.len(), a.len()));
            }
        },
        ValueModel::Mapping(b) => {
            if let ValueModel::Mapping(a) = after {
                lemma_pair_changes_show(b, a);
                lemma_added_pairs_show(b, a);
                lemma_concat_shows(removed_pairs(b, a), added_pairs(b, a));
                lemma_concat_shows(removed_pairs(b, a) + added_pairs(b, a), modified_pairs(b, a));
            }
        },
        ValueModel::Option(b) => {
            if let ValueModel::Option(a) = after {
                if let Some(x) = b {
                    if let Some(y) = a {
                        if *x != *y {
                            law_nested_modifications_differ(*x, *y);
                        }
                    }
                }
            }
        },
        _ => {},
    }
}

// ---------------------------------------------------------------------------
// What each reported change records
// ---------------------------------------------------------------------------

spec fn field_modified_from(c: ChangeModel, b: Seq<(Seq<char>, ValueModel)>, a: Seq<(Seq<char>, ValueModel)>) -> bool {
    &&& c matches ChangeModel::FieldModified { field_name, before, after }
    &&& exists|j: int| 0 <= j < b.len() && b[j].0 == c->FieldModified_field_name && #[trigger] b[j].1 == c->FieldModified_before
    &&& field_value(a, c->FieldModified_field_name) == Some(c->FieldModified_after)
    &&& c->FieldModified_before != c->FieldModified_after
}

spec fn field_removed_from(c: ChangeModel, b: Seq<(Seq<char>, ValueModel)>, a: Seq<(Seq<char>, ValueModel)>) -> bool {
    &&& c is FieldRemoved
    &&& exists|j: int| 0 <= j < b.len() && b[j].0 == c->FieldRemoved_field_name && #[trigger] b[j].1 == c->FieldRemoved_value
    &&& field_value(a, c->FieldRemoved_field_name) is None
}

spec fn field_added_from(c: ChangeModel, b: Seq<(Seq<char>, ValueModel)>, a: Seq<(Seq<char>, ValueModel)>) -> bool {
    &&& c is FieldAdded
    &&& exists|j: int| 0 <= j < a.len() && a[j].0 == c->FieldAdded_field_name && #[trigger] a[j].1 == c->FieldAdded_value
    &&& field_value(b, c->FieldAdded_field_name) is None
}

proof fn lemma_modified_fields_facts(b: Seq<(Seq<char>, ValueModel)>, a: Seq<(Seq<char>, ValueModel)>)
    ensures
        forall|i: int| 0 <= i < modified_fields(b, a).len() ==> field_modified_from(#[trigger] modified_fields(b, a)[i], b, a),
    decreases b.len(),
{
    if b.len() > 0 {
        let d = b.drop_last();
        lemma_modified_fields_facts(d, a);
        let rest = modified_fields(d, a);
        let m = modified_fields(b, a);
        assert forall|i: int| 0 <= i < m.len() implies field_modified_from(#[trigger] m[i], b, a) by {
            if i < rest.len() {
                assert(m[i] == rest[i]);
                assert(field_modified_from(rest[i], d, a));
                let j = choose|j: int| 0 <= j < d.len() && d[j].0 == rest[i]->FieldModified_field_name && #[trigger] d[j].1 == rest[i]->FieldModified_before;
                assert(b[j] == d[j]);
            } else {
                assert(b[b.len() - 1] == b.last());
            }
        }
    }
}

proof fn lemma_removed_fields_facts(b: Seq<(Seq<char>, ValueModel)>, a: Seq<(Seq<char>, ValueModel)>)
    ensures
        forall|i: int| 0 <= i < removed_fields(b, a).len() ==> field_removed_from(#[trigger] removed_fields(b, a)[i], b, a),
    decreases b.len(),
{
    if b.len() > 0 {
        let d = b.drop_last();
        lemma_removed_fields_facts(d, a);
        let rest = removed_fields(d, a);
        let m = removed_fields(b, a);
        assert forall|i: int| 0 <= i < m.len() implies field_removed_from(#[trigger] m[i], b, a) by {
            if i < rest.len() {
                assert(m[i] == rest[i]);
                assert(field_removed_from(rest[i], d, a));
                let j = choose|j: int| 0 <= j < d.len() && d[j].0 == rest[i]->FieldRemoved_field_name && #[trigger] d[j].1 == rest[i]->FieldRemoved_value;
                assert(b[j] == d[j]);
            } else {
                assert(b[b.len() - 1] == b.last());
            }
        }
    }
}

proof fn lemma_added_fields_facts(b: Seq<(Seq<char>, ValueModel)>, a: Seq<(Seq<char>, ValueModel)>)
    ensures
        forall|i: int| 0 <= i < added_fields(b, a).len() ==> field_added_from(#[trigger] added_fields(b, a)[i], b, a),
    decreases a.len(),
{
    if a.len() > 0 {
        let d = a.drop_last();
        lemma_added_fields_facts(b, d);
        let rest = added_fields(b, d);
        let m = added_fields(b, a);
        assert forall|i: int| 0 <= i < m.len() implies field_added_from(#[trigger] m[i], b, a) by {
            if i < rest.len() {
                assert(m[i] == rest[i]);
                assert(field_added_from(rest[i], b, d));
                let j = choose|j: int| 0 <= j < d.len() && d[j].0 == rest[i]->FieldAdded_field_name && #[trigger] d[j].1 == rest[i]->FieldAdded_value;
                assert(a[j] == d[j]);
            } else {
                assert(a[a.len() - 1] == a.last());
            }
        }
    }
}

/// Between two structs whose field names are each distinct, every change
/// reported names a field and records its values where they stand: a
/// modification has the before-struct's value of that field as `before` and
/// the after-struct's as `after`, and they differ; a removal has the
/// before-struct's value of a field the after-struct lacks; an addition has
/// the after-struct's value of a field the before-struct lacks.
pub proof fn law_struct_changes_record_field_values(b: Seq<(Seq<char>, ValueModel)>, a: Seq<(Seq<char>, ValueModel)>)
    requires
        field_names_unique(b),
        field_names_unique(a),
    ensures
        forall|i: int| 0 <= i < nested_changes(ValueModel::Struct(b), ValueModel::Struct(a)).len() ==> {
            let c = #[trigger] nested_changes(ValueModel::Struct(b), ValueModel::Struct(a))[i];
            match c {
                ChangeModel::FieldModified { field_name, before, after } =>
                    field_value(b, field_name) == Some(before) && field_value(a, field_name) == Some(after) && before != after,
                ChangeModel::FieldRemoved { field_name, value } =>
                    field_value(b, field_name) == Some(value) && field_value(a, field_name) is None,
                ChangeModel::FieldAdded { field_name, value } =>
                    field_value(a, field_name) == Some(value) && field_value(b, field_name) is None,
                _ => false,
            }
        },
{
    let r = removed_fields(b, a);
    let ad = added_fields(b, a);
    let m = modified_fields(b, a);
    lemma_removed_fields_facts(b, a);
    lemma_added_fields_facts(b, a);
    lemma_modified_fields_facts(b, a);
    let all = nested_changes(ValueModel::Struct(b), ValueModel::Struct(a));
    assert(all == r + ad + m);
    assert forall|i: int| 0 <= i < all.len() implies {
        let c = #[trigger] all[i];
        match c {
            ChangeModel::FieldModified { field_name, before, after } =>
                field_value(b, field_name) == Some(before) && field_value(a, field_name) == Some(after) && before != after,
            ChangeModel::FieldRemoved { field_name, value } =>
                field_value(b, field_name) == Some(value) && field_value(a, field_name) is None,
            ChangeModel::FieldAdded { field_name, value } =>
                field_value(a, field_name) == Some(value) && field_value(b, field_name) is None,
            _ => false,
        }
    } by {
        if i < r.len() {
            assert(all[i] == r[i]);
            assert(field_removed_from(r[i], b, a));
            let j = choose|j: int| 0 <= j < b.len() && b[j].0 == r[i]->FieldRemoved_field_name && #[trigger] b[j].1 == r[i]->FieldRemoved_value;
            lemma_field_value_at(b, j);
        } else if i < r.len() + ad.len() {
            assert(all[i] == ad[i - r.len()]);
            assert(field_added_from(ad[i - r.len()], b, a));
            let c = ad[i - r.len()];
            let j = choose|j: int| 0 <= j < a.len() && a[j].0 == c->FieldAdded_field_name && #[trigger] a[j].1 == c->FieldAdded_value;
            lemma_field_value_at(a, j);
        } else {
            let k = i - r.len() - ad.len();
            assert(all[i] == m[k]);
            assert(field_modified_from(m[k], b, a));
            let c = m[k];
            let j = choose|j: int| 0 <= j < b.len() && b[j].0 == c->FieldModified_field_name && #[trigger] b[j].1 == c->FieldModified_before;
            lemma_field_value_at(b, j);
        }
    }
}

spec fn item_change_from(c: ChangeModel, b: Seq<ValueModel>, a: Seq<ValueModel>) -> bool {
    match c {
        ChangeModel::ItemModified { index, before, after } =>
            0 <= index < b.len() && index < a.len() && before == b[index] && after == a[index] && before != after,
        ChangeModel::ItemRemoved { index, value } => a.len() <= index < b.len() && value == b[index],
        ChangeModel::ItemAdded { index, value } => b.len() <= index < a.len() && value == a[index],
        _ => false,
    }
}

proof fn lemma_vec_changes_facts(b: Seq<ValueModel>, a: Seq<ValueModel>, n: nat)
    ensures
        forall|i: int| 0 <= i < vec_changes(b, a, n).len() ==> item_change_from(#[trigger] vec_changes(b, a, n)[i], b, a),
    decreases n,
{
    if n > 0 {
        lemma_vec_changes_facts(b, a, (n - 1) as nat);
        let rest = vec_changes(b, a, (n - 1) as nat);
        let m = vec_changes(b, a, n);
        assert forall|i: int| 0 <= i < m.len() implies item_change_from(#[trigger] m[i], b, a) by {
            if i < rest.len() {
                assert(m[i] == rest[i]);
            }
        }
    }
}

/// Between two vectors, every change reported names a position and records
/// the values there: a modification has the before-vector's item as
/// `before` and the after-vector's as `after`, and they differ; a removal
/// is a position only the before-vector has, with its item; an addition a
/// position only the after-vector has, with its item.
pub proof fn law_vec_changes_record_items(b: Seq<ValueModel>, a: Seq<ValueModel>)
    ensures
        forall|i: int| 0 <= i < nested_changes(ValueModel::Vec(b), ValueModel::Vec(a)).len() ==> {
            let c = #[trigger] nested_changes(ValueModel::Vec(b), ValueModel::Vec(a))[i];
            match c {
                ChangeModel::ItemModified { index, before, after } =>
                    0 <= index < b.len() && index < a.len() && before == b[index] && after == a[index] && before != after,
                ChangeModel::ItemRemoved { index, value } => a.len() <= index < b.len() && value == b[index],
                ChangeModel::ItemAdded { index, value } => b.len() <= index < a.len() && value == a[index],
                _ => false,
            }
        },
{
    lemma_vec_changes_facts(b, a, max_len(b.len(), a.len()));
}

spec fn pair_removed_from(c: ChangeModel, b: Seq<(ValueModel, ValueModel)>, a: Seq<(ValueModel, ValueModel)>) -> bool {
    &&& c is ItemRemoved
    &&& 0 <= c->ItemRemoved_index < b.len()
    &&& b[c->ItemRemoved_index].1 == c->ItemRemoved_value
    &&& pair_value(a, b[c->ItemRemoved_index].0) is None
}

spec fn pair_added_from(c: ChangeModel, b: Seq<(ValueModel, ValueModel)>, a: Seq<(ValueModel, ValueModel)>) -> bool {
    &&& c is ItemAdded
    &&& 0 <= c->ItemAdded_index < a.len()
    &&& a[c->ItemAdded_index].1 == c->ItemAdded_value
    &&& pair_value(b, a[c->ItemAdded_index].0) is None
}

spec fn pair_modified_from(c: ChangeModel, b: Seq<(ValueModel, ValueModel)>, a: Seq<(ValueModel, ValueModel)>) -> bool {
    &&& c is MapEntryModified
    &&& exists|j: int| 0 <= j < b.len() && b[j].0 == c->key && #[trigger] b[j].1 == c->MapEntryModified_before
    &&& pair_value(a, c->key) == Some(c->MapEntryModified_after)
    &&& c->MapEntryModified_before != c->MapEntryModified_after
}

proof fn lemma_pair_changes_facts(b: Seq<(ValueModel, ValueModel)>, a: Seq<(ValueModel, ValueModel)>)
    ensures
        forall|i: int| 0 <= i < removed_pairs(b, a).len() ==> pair_removed_from(#[trigger] removed_pairs(b, a)[i], b, a),
        forall|i: int| 0 <= i < modified_pairs(b, a).len() ==> pair_modified_from(#[trigger] modified_pairs(b, a)[i], b, a),
    decreases b.len(),
{
    if b.len() > 0 {
        let d = b.drop_last();
        lemma_pair_changes_facts(d, a);
        let r0 = removed_pairs(d, a);
        let r = removed_pairs(b, a);
        assert forall|i: int| 0 <= i < r.len() implies pair_removed_from(#[trigger] r[i], b, a) by {
            if i < r0.len() {
                assert(r[i] == r0[i]);
                assert(pair_removed_from(r0[i], d, a));
                assert(b[r0[i]->ItemRemoved_index] == d[r0[i]->ItemRemoved_index]);
            } else {
                assert(b[b.len() - 1] == b.last());
            }
        }
        let m0 = modified_pairs(d, a);
        let m = modified_pairs(b, a);
        assert forall|i: int| 0 <= i < m.len() implies pair_modified_from(#[trigger] m[i], b, a) by {
            if i < m0.len() {
                assert(m[i] == m0[i]);
                assert(pair_modified_from(m0[i], d, a));
                let j = choose|j: int| 0 <= j < d.len() && d[j].0 == m0[i]->key && #[trigger] d[j].1 == m0[i]->MapEntryModified_before;
                assert(b[j] == d[j]);
            } else {
                assert(b[b.len() - 1] == b.last());
            }
        }
    }
}

proof fn lemma_added_pairs_facts(b: Seq<(ValueModel, ValueModel)>, a: Seq<(ValueModel, ValueModel)>)
    ensures
        forall|i: int| 0 <= i < added_pairs(b, a).len() ==> pair_added_from(#[trigger] added_pairs(b, a)[i], b, a),
    decreases a.len(),
{
    if a.len() > 0 {
        let d = a.drop_last();
        lemma_added_pairs_facts(b, d);
        let r0 = added_pairs(b, d);
        let r = added_pairs(b, a);
        assert forall|i: int| 0 <= i < r.len() implies pair_added_from(#[trigger] r[i], b, a) by {
            if i < r0.len() {
                assert(r[i] == r0[i]);
                assert(pair_added_from(r0[i], b, d));
                assert(a[r0[i]->ItemAdded_index] == d[r0[i]->ItemAdded_index]);
            } else {
                assert(a[a.len() - 1] == a.last());
            }
        }
    }
}

/// Between two maps whose keys are each distinct, every change reported
/// records values where they stand: a modification has the before-map's
/// value for its key as `before` and the after-map's as `after`, and they
/// differ; a removal is a before-map pair whose key the after-map lacks; an
/// addition an after-map pair whose key the before-map lacks.
pub proof fn law_map_changes_record_values(b: Seq<(ValueModel, ValueModel)>, a: Seq<(ValueModel, ValueModel)>)
    requires
        pair_keys_unique(b),
    ensures
        forall|i: int| 0 <= i < nested_changes(ValueModel::Mapping(b), ValueModel::Mapping(a)).len() ==> {
            let c = #[trigger] nested_changes(ValueModel::Mapping(b), ValueModel::Mapping(a))[i];
            match c {
                ChangeModel::MapEntryModified { key, before, after } =>
                    pair_value(b, key) == Some(before) && pair_value(a, key) == Some(after) && before != after,
                ChangeModel::ItemRemoved { index, value } =>
                    0 <= index < b.len() && b[index].1 == value && pair_value(a, b[index].0) is None,
                ChangeModel::ItemAdded { index, value } =>
                    0 <= index < a.len() && a[index].1 == value && pair_value(b, a[index].0) is None,
                _ => false,
            }
        },
{
    let r = removed_pairs(b, a);
    let ad = added_pairs(b, a);
    let m = modified_pairs(b, a);
    lemma_pair_changes_facts(b, a);
    lemma_added_pairs_facts(b, a);
    let all = nested_changes(ValueModel::Mapping(b), ValueModel::Mapping(a));
    assert(all == r + ad + m);
    assert forall|i: int| 0 <= i < all.len() implies {
        let c = #[trigger] all[i];
        match c {
            ChangeModel::MapEntryModified { key, before, after } =>
                pair_value(b, key) == Some(before) && pair_value(a, key) == Some(after) && before != after,
            ChangeModel::ItemRemoved { index, value } =>
                0 <= index < b.len() && b[index].1 == value && pair_value(a, b[index].0) is None,
            ChangeModel::ItemAdded { index, value } =>
                0 <= index < a.len() && a[index].1 == value && pair_value(b, a[index].0) is None,
            _ => false,
        }
    } by {
        if i < r.len() {
            assert(all[i] == r[i]);
            assert(pair_removed_from(r[i], b, a));
        } else if i < r.len() + ad.len() {
            assert(all[i] == ad[i - r.len()]);
            assert(pair_added_from(ad[i - r.len()], b, a));
        } else {
            let k = i - r.len() - ad.len();
            assert(all[i] == m[k]);
            assert(pair_modified_from(m[k], b, a));
            let c = m[k];
            let j = choose|j: int| 0 <= j < b.len() && b[j].0 == c->key && #[trigger] b[j].1 == c->MapEntryModified_before;
            lemma_pair_value_at(b, j);
        }
    }
}

/// Optional values: losing the content is one removal of it at position
/// 0, gaining one is one addition at position 0, two absent values have no
/// changes, and two present ones have the changes between their contents.
pub proof fn law_option_changes(x: ValueModel, y: ValueModel)
    ensures
        nested_changes(ValueModel::Option(Some(Box::new(x))), ValueModel::Option(None))
            == seq![ChangeModel::ItemRemoved { index: 0, value: x }],
        nested_changes(ValueModel::Option(None), ValueModel::Option(Some(Box::new(y))))
            == seq![ChangeModel::ItemAdded { index: 0, value: y }],
        nested_changes(ValueModel::Option(None), ValueModel::Option(None)).len() == 0,
        x != y ==> nested_changes(ValueModel::Option(Some(Box::new(x))), ValueModel::Option(Some(Box::new(y))))
            == nested_changes(x, y),
        nested_changes(ValueModel::Option(Some(Box::new(x))), ValueModel::Option(Some(Box::new(x)))).len() == 0,
{
}

} // verus!
