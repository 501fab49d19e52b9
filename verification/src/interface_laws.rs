//! Properties of interface and storage comparisons that hold for all inputs.
use vstd::prelude::*;
use crate::analysis::{FieldView, FunctionView, TypeRefView, TypeView};
use crate::text::{bracket_delta, before_top_level, has_prefix, is_white_space, trim_end_white, trim_start_white, without_last};
use crate::storage::{
    FieldChangeView, StorageEntryView, first_index, lemma_first_index, lemma_first_index_found,
    resolved_fields, old_field_changes, old_field_change, added_fields, field_changes, entry_changes, storage_changes,
    inferred_entries, stored_value_type, Durability, Confidence,
};
use crate::wasm_diff::{
    Named, keys_of, is_last_of_name, last_of_each_upto, last_of_each, without_match, replaced_in,
    interface_diff,
};

verus! {

/// The items of `s` have pairwise distinct names.
pub open spec fn names_distinct<T: Named>(s: Seq<T>) -> bool {
    forall|a: int, b: int| 0 <= a < b < s.len() ==> s[a].key() != s[b].key()
}

/// `x` is an item among the first `n` of `s` that is the last of its name.
spec fn kept_from<T: Named>(s: Seq<T>, n: int, x: T) -> bool {
    exists|i: int| 0 <= i < n && is_last_of_name(s, i) && x == #[trigger] s[i]
}

proof fn lemma_last_of_each_upto<T: Named>(s: Seq<T>, n: int)
    requires
        0 <= n <= s.len(),
    ensures
        names_distinct(last_of_each_upto(s, n)),
        forall|a: int| 0 <= a < last_of_each_upto(s, n).len() ==> kept_from(s, n, #[trigger] last_of_each_upto(s, n)[a]),
    decreases n,
{
    if n > 0 {
        lemma_last_of_each_upto(s, n - 1);
        let rest = last_of_each_upto(s, n - 1);
        assert forall|a: int| 0 <= a < rest.len() implies kept_from(s, n, #[trigger] rest[a]) by {
            assert(kept_from(s, n - 1, rest[a]));
            let i = choose|i: int| 0 <= i < n - 1 && is_last_of_name(s, i) && rest[a] == #[trigger] s[i];
            assert(0 <= i < n && is_last_of_name(s, i) && rest[a] == s[i]);
        }
        if is_last_of_name(s, n - 1) {
            let l = rest.push(s[n - 1]);
            assert forall|a: int, b: int| 0 <= a < b < l.len() implies l[a].key() != l[b].key() by {
                if b == l.len() - 1 {
                    assert(kept_from(s, n - 1, rest[a]));
                    let i = choose|i: int| 0 <= i < n - 1 && is_last_of_name(s, i) && rest[a] == #[trigger] s[i];
                    assert(s[n - 1].key() != s[i].key());
                } else {
                    assert(l[a] == rest[a] && l[b] == rest[b]);
                }
            }
            assert forall|a: int| 0 <= a < l.len() implies kept_from(s, n, #[trigger] l[a]) by {
                if a < l.len() - 1 {
                    assert(l[a] == rest[a]);
                } else {
                    assert(l[a] == s[n - 1]);
                }
            }
        }
    }
}

/// Keeping the last item of each name leaves no name twice.
pub proof fn lemma_last_of_each_distinct<T: Named>(s: Seq<T>)
    ensures
        names_distinct(last_of_each(s)),
{
    lemma_last_of_each_upto(s, s.len() as int);
}

proof fn lemma_key_position<T: Named>(l: Seq<T>, i: int)
    requires
        names_distinct(l),
        0 <= i < l.len(),
    ensures
        first_index(keys_of(l), l[i].key()) == i,
{
    let keys = keys_of(l);
    assert forall|j: int| 0 <= j < i implies keys[j] != l[i].key() by {
        assert(keys[j] == l[j].key());
    }
    assert(keys[i] == l[i].key());
    lemma_first_index(keys, l[i].key(), i);
}

proof fn lemma_without_match_self<T: Named>(l: Seq<T>, n: int)
    requires
        0 <= n <= l.len(),
    ensures
        without_match(l.subrange(0, n), l).len() == 0,
    decreases n,
{
    if n > 0 {
        let p = l.subrange(0, n);
        assert(p.drop_last() =~= l.subrange(0, n - 1));
        lemma_without_match_self(l, n - 1);
        let keys = keys_of(l);
        lemma_first_index_found(keys, p.last().key());
        assert(keys[n - 1] == p.last().key());
    }
}

proof fn lemma_replaced_in_self<T: Named>(l: Seq<T>, n: int)
    requires
        names_distinct(l),
        0 <= n <= l.len(),
    ensures
        replaced_in(l.subrange(0, n), l).len() == 0,
    decreases n,
{
    if n > 0 {
        let p = l.subrange(0, n);
        assert(p.drop_last() =~= l.subrange(0, n - 1));
        lemma_replaced_in_self(l, n - 1);
        lemma_key_position(l, n - 1);
    }
}

/// Comparing an interface with itself reports no function or type as
/// added, removed or changed.
pub proof fn law_interface_diff_with_itself(functions: Seq<FunctionView>, types: Seq<TypeView>)
    ensures
        interface_diff(functions, types, functions, types).added_functions.len() == 0,
        interface_diff(functions, types, functions, types).removed_functions.len() == 0,
        interface_diff(functions, types, functions, types).changed_functions.len() == 0,
        interface_diff(functions, types, functions, types).added_types.len() == 0,
        interface_diff(functions, types, functions, types).removed_types.len() == 0,
        interface_diff(functions, types, functions, types).changed_types.len() == 0,
{
    let f = last_of_each(functions);
    let t = last_of_each(types);
    lemma_last_of_each_distinct(functions);
    lemma_last_of_each_distinct(types);
    assert(f.subrange(0, f.len() as int) =~= f);
    assert(t.subrange(0, t.len() as int) =~= t);
    lemma_without_match_self(f, f.len() as int);
    lemma_without_match_self(t, t.len() as int);
    lemma_replaced_in_self(f, f.len() as int);
    lemma_replaced_in_self(t, t.len() as int);
}

/// What a comparison reports as added is exactly what the comparison in
/// the other direction reports as removed, in the same order.
pub proof fn law_interface_diff_swap(
    a_functions: Seq<FunctionView>,
    a_types: Seq<TypeView>,
    b_functions: Seq<FunctionView>,
    b_types: Seq<TypeView>,
)
    ensures
        interface_diff(a_functions, a_types, b_functions, b_types).added_functions
            == interface_diff(b_functions, b_types, a_functions, a_types).removed_functions,
        interface_diff(a_functions, a_types, b_functions, b_types).added_types
            == interface_diff(b_functions, b_types, a_functions, a_types).removed_types,
{
}

/// A name is among those `replaced_in` reports exactly when an old item has
/// it and the first new item of that name differs from it.
proof fn lemma_replaced_names<T: Named>(olds: Seq<T>, news: Seq<T>)
    ensures
        forall|n: Seq<char>| #[trigger] keys_of(replaced_in(olds, news)).contains(n) <==> exists|i: int|
            0 <= i < olds.len() && olds[i].key() == n && first_index(keys_of(news), n) >= 0
                && news[first_index(keys_of(news), n)] != #[trigger] olds[i],
    decreases olds.len(),
{
    if olds.len() > 0 {
        let d = olds.drop_last();
        lemma_replaced_names(d, news);
        let rest = replaced_in(d, news);
        let x = olds.last();
        let k = first_index(keys_of(news), x.key());
        lemma_first_index_found(keys_of(news), x.key());
        let r = replaced_in(olds, news);
        assert forall|n: Seq<char>| #[trigger] keys_of(r).contains(n) <==> exists|i: int|
            0 <= i < olds.len() && olds[i].key() == n && first_index(keys_of(news), n) >= 0
                && news[first_index(keys_of(news), n)] != #[trigger] olds[i] by {
            if keys_of(r).contains(n) {
                let a = choose|a: int| 0 <= a < keys_of(r).len() && keys_of(r)[a] == n;
                if a < rest.len() {
                    assert(r[a] == rest[a]);
                    assert(keys_of(rest)[a] == n);
                    assert(keys_of(rest).contains(n));
                    let i = choose|i: int| 0 <= i < d.len() && d[i].key() == n && first_index(keys_of(news), n) >= 0
                        && news[first_index(keys_of(news), n)] != #[trigger] d[i];
                    assert(olds[i] == d[i]);
                } else {
                    assert(r[a] == news[k]);
                    assert(keys_of(news)[k] == news[k].key());
                    assert(olds[olds.len() - 1] == x);
                }
            }
            if exists|i: int| 0 <= i < olds.len() && olds[i].key() == n && first_index(keys_of(news), n) >= 0
                && news[first_index(keys_of(news), n)] != #[trigger] olds[i] {
                let i = choose|i: int| 0 <= i < olds.len() && olds[i].key() == n && first_index(keys_of(news), n) >= 0
                    && news[first_index(keys_of(news), n)] != #[trigger] olds[i];
                if i < d.len() {
                    assert(d[i] == olds[i]);
                    assert(keys_of(rest).contains(n));
                    let a = choose|a: int| 0 <= a < keys_of(rest).len() && keys_of(rest)[a] == n;
                    assert(r[a] == rest[a]);
                    assert(keys_of(r)[a] == n);
                } else {
                    let last = r.len() - 1;
                    assert(r[last] == news[k]);
                    assert(keys_of(news)[k] == news[k].key());
                    assert(keys_of(r)[last] == n);
                }
            }
        }
    }
}

/// Between two lists that each name an item at most once, the items changed
/// going one way carry the same names as those changed going the other way.
proof fn lemma_replaced_symmetric<T: Named>(x: Seq<T>, y: Seq<T>)
    requires
        names_distinct(x),
        names_distinct(y),
    ensures
        keys_of(replaced_in(x, y)).to_set() == keys_of(replaced_in(y, x)).to_set(),
{
    lemma_replaced_names(x, y);
    lemma_replaced_names(y, x);
    assert forall|n: Seq<char>| keys_of(replaced_in(x, y)).contains(n) implies keys_of(replaced_in(y, x)).contains(n) by {
        let i = choose|i: int| 0 <= i < x.len() && x[i].key() == n && first_index(keys_of(y), n) >= 0
            && y[first_index(keys_of(y), n)] != #[trigger] x[i];
        let k = first_index(keys_of(y), n);
        lemma_first_index_found(keys_of(y), n);
        assert(keys_of(y)[k] == y[k].key());
        lemma_key_position(x, i);
        assert(y[k].key() == n && first_index(keys_of(x), n) >= 0 && x[first_index(keys_of(x), n)] != y[k]);
    }
    assert forall|n: Seq<char>| keys_of(replaced_in(y, x)).contains(n) implies keys_of(replaced_in(x, y)).contains(n) by {
        let i = choose|i: int| 0 <= i < y.len() && y[i].key() == n && first_index(keys_of(x), n) >= 0
            && x[first_index(keys_of(x), n)] != #[trigger] y[i];
        let k = first_index(keys_of(x), n);
        lemma_first_index_found(keys_of(x), n);
        assert(keys_of(x)[k] == x[k].key());
        lemma_key_position(y, i);
        assert(x[k].key() == n && first_index(keys_of(y), n) >= 0 && y[first_index(keys_of(y), n)] != x[k]);
    }
    assert(keys_of(replaced_in(x, y)).to_set() =~= keys_of(replaced_in(y, x)).to_set());
}

/// The functions and types that a comparison reports as changed carry the
/// same names as those the comparison in the other direction reports.
pub proof fn law_changed_names_swap(
    a_functions: Seq<FunctionView>,
    a_types: Seq<TypeView>,
    b_functions: Seq<FunctionView>,
    b_types: Seq<TypeView>,
)
    ensures
        keys_of(interface_diff(a_functions, a_types, b_functions, b_types).changed_functions).to_set()
            == keys_of(interface_diff(b_functions, b_types, a_functions, a_types).changed_functions).to_set(),
        keys_of(interface_diff(a_functions, a_types, b_functions, b_types).changed_types).to_set()
            == keys_of(interface_diff(b_functions, b_types, a_functions, a_types).changed_types).to_set(),
{
    lemma_last_of_each_distinct(a_functions);
    lemma_last_of_each_distinct(b_functions);
    lemma_last_of_each_distinct(a_types);
    lemma_last_of_each_distinct(b_types);
    lemma_replaced_symmetric(last_of_each(a_functions), last_of_each(b_functions));
    lemma_replaced_symmetric(last_of_each(a_types), last_of_each(b_types));
}

/// The names of a list of fields are pairwise distinct.
pub open spec fn field_list_names_distinct(fields: Seq<FieldView>) -> bool {
    forall|a: int, b: int| 0 <= a < b < fields.len() ==> fields[a].name != fields[b].name
}

proof fn lemma_old_field_changes_at(of: Seq<FieldView>, nf: Seq<FieldView>)
    ensures
        old_field_changes(of, nf).len() == of.len(),
        forall|i: int| 0 <= i < of.len() ==> #[trigger] old_field_changes(of, nf)[i] == old_field_change(of[i], nf),
    decreases of.len(),
{
    if of.len() > 0 {
        lemma_old_field_changes_at(of.drop_last(), nf);
        assert forall|i: int| 0 <= i < of.len() implies #[trigger] old_field_changes(of, nf)[i] == old_field_change(of[i], nf) by {
            if i < of.len() - 1 {
                assert(of.drop_last()[i] == of[i]);
            }
        }
    }
}

spec fn added_from(c: FieldChangeView, of: Seq<FieldView>, nf: Seq<FieldView>) -> bool {
    &&& c is Added
    &&& exists|j: int| 0 <= j < nf.len() && nf[j].name == c->Added_name && #[trigger] nf[j].type_ref == c->Added_type_ref
    &&& forall|i: int| 0 <= i < of.len() ==> #[trigger] of[i].name != c->Added_name
}

proof fn lemma_added_fields_from(of: Seq<FieldView>, nf: Seq<FieldView>)
    ensures
        forall|k: int| 0 <= k < added_fields(of, nf).len() ==> added_from(#[trigger] added_fields(of, nf)[k], of, nf),
    decreases nf.len(),
{
    if nf.len() > 0 {
        let d = nf.drop_last();
        lemma_added_fields_from(of, d);
        let rest = added_fields(of, d);
        let all = added_fields(of, nf);
        let g = nf.last();
        let names = of.map_values(|f: FieldView| f.name);
        lemma_first_index_found(names, g.name);
        assert forall|k: int| 0 <= k < all.len() implies added_from(#[trigger] all[k], of, nf) by {
            if k < rest.len() {
                assert(all[k] == rest[k]);
                assert(added_from(rest[k], of, d));
                let j = choose|j: int| 0 <= j < d.len() && d[j].name == rest[k]->Added_name && #[trigger] d[j].type_ref == rest[k]->Added_type_ref;
                assert(nf[j] == d[j]);
            } else {
                assert(nf[nf.len() - 1] == g);
                assert forall|i: int| 0 <= i < of.len() implies #[trigger] of[i].name != g.name by {
                    assert(names[i] == of[i].name);
                }
            }
        }
    }
}

/// Comparing the fields of an old and a new value type (the new one naming
/// each field once) reports first one change per old field, in order: a
/// removal with the old field's type when the new type has no field of that
/// name; otherwise a preservation exactly when the two fields' types are the
/// same, and else a type change from the old field's type to the new one's.
/// The changes after those are additions, each of a new field, with its
/// type, that no old field names.
pub proof fn law_field_changes_compare_types(of: Seq<FieldView>, nf: Seq<FieldView>)
    requires
        field_list_names_distinct(nf),
    ensures
        field_changes(of, nf).len() >= of.len(),
        forall|i: int| 0 <= i < of.len() ==> (forall|j: int| 0 <= j < nf.len() ==> #[trigger] nf[j].name != of[i].name)
            ==> #[trigger] field_changes(of, nf)[i] == (FieldChangeView::Removed { name: of[i].name, type_ref: of[i].type_ref }),
        forall|i: int, j: int| 0 <= i < of.len() && 0 <= j < nf.len() && #[trigger] nf[j].name == #[trigger] of[i].name ==> {
            &&& of[i].type_ref == nf[j].type_ref ==> field_changes(of, nf)[i] == (FieldChangeView::Preserved { name: of[i].name })
            &&& of[i].type_ref != nf[j].type_ref ==> field_changes(of, nf)[i] == (FieldChangeView::TypeChanged {
                name: of[i].name,
                old_type: of[i].type_ref,
                new_type: nf[j].type_ref,
            })
        },
        forall|k: int| of.len() <= k < field_changes(of, nf).len() ==> {
            let c = #[trigger] field_changes(of, nf)[k];
            &&& c is Added
            &&& exists|j: int| 0 <= j < nf.len() && nf[j].name == c->Added_name && #[trigger] nf[j].type_ref == c->Added_type_ref
            &&& forall|i: int| 0 <= i < of.len() ==> #[trigger] of[i].name != c->Added_name
        },
{
    lemma_old_field_changes_at(of, nf);
    lemma_added_fields_from(of, nf);
    let o = old_field_changes(of, nf);
    let ad = added_fields(of, nf);
    let all = field_changes(of, nf);
    assert(all == o + ad);
    let names = nf.map_values(|g: FieldView| g.name);
    assert forall|i: int| 0 <= i < of.len() implies (forall|j: int| 0 <= j < nf.len() ==> #[trigger] nf[j].name != of[i].name)
        ==> #[trigger] all[i] == (FieldChangeView::Removed { name: of[i].name, type_ref: of[i].type_ref }) by {
        assert(all[i] == o[i]);
        lemma_first_index_found(names, of[i].name);
        if forall|j: int| 0 <= j < nf.len() ==> #[trigger] nf[j].name != of[i].name {
            let k = first_index(names, of[i].name);
            if k >= 0 {
                assert(names[k] == nf[k].name);
            }
        }
    }
    assert forall|i: int, j: int| 0 <= i < of.len() && 0 <= j < nf.len() && #[trigger] nf[j].name == #[trigger] of[i].name implies {
        &&& of[i].type_ref == nf[j].type_ref ==> all[i] == (FieldChangeView::Preserved { name: of[i].name })
        &&& of[i].type_ref != nf[j].type_ref ==> all[i] == (FieldChangeView::TypeChanged {
            name: of[i].name,
            old_type: of[i].type_ref,
            new_type: nf[j].type_ref,
        })
    } by {
        assert(all[i] == o[i]);
        assert forall|x: int| 0 <= x < j implies names[x] != of[i].name by {
            assert(names[x] == nf[x].name);
        }
        assert(names[j] == nf[j].name);
        lemma_first_index(names, of[i].name, j);
    }
    assert forall|k: int| of.len() <= k < all.len() implies {
        let c = #[trigger] all[k];
        &&& c is Added
        &&& exists|j: int| 0 <= j < nf.len() && nf[j].name == c->Added_name && #[trigger] nf[j].type_ref == c->Added_type_ref
        &&& forall|i: int| 0 <= i < of.len() ==> #[trigger] of[i].name != c->Added_name
    } by {
        assert(all[k] == ad[k - of.len()]);
        assert(added_from(ad[k - of.len()], of, nf));
    }
}

/// `e` is what the accessor `f`, named `get_<namespace>`, says is stored:
/// under the namespace after `get_`, keyed by the type of the accessor's
/// first input, holding the value type behind its first result, with
/// unknown durability and inferred confidence.
pub open spec fn entry_read_from(e: StorageEntryView, f: FunctionView) -> bool {
    &&& has_prefix(f.name, "get_"@)
    &&& e.namespace == f.name.subrange(4, f.name.len() as int)
    &&& e.key_type == (if f.inputs.len() > 0 { f.inputs[0].type_ref } else { TypeRefView::Unknown })
    &&& e.value_type == (if f.outputs.len() > 0 { stored_value_type(f.outputs[0]) } else { TypeRefView::Unknown })
    &&& e.durability == Durability::Unknown
    &&& e.confidence == Confidence::Inferred
}

/// Every inferred storage entry is read from an accessor, its key type the
/// type of that accessor's first input; every accessor gives an entry; and
/// the entries follow the accessors' order.
pub proof fn law_entries_read_from_accessors(fs: Seq<FunctionView>)
    ensures
        forall|k: int| 0 <= k < inferred_entries(fs).len() ==> exists|j: int|
            0 <= j < fs.len() && entry_read_from(#[trigger] inferred_entries(fs)[k], #[trigger] fs[j]),
        forall|j: int| 0 <= j < fs.len() && has_prefix(#[trigger] fs[j].name, "get_"@) ==> exists|k: int|
            0 <= k < inferred_entries(fs).len() && entry_read_from(#[trigger] inferred_entries(fs)[k], fs[j]),
        inferred_entries(fs).len() <= fs.len(),
    decreases fs.len(),
{
    reveal_strlit("get_");
    if fs.len() > 0 {
        let d = fs.drop_last();
        law_entries_read_from_accessors(d);
        let rest = inferred_entries(d);
        let all = inferred_entries(fs);
        assert forall|k: int| 0 <= k < all.len() implies exists|j: int|
            0 <= j < fs.len() && entry_read_from(#[trigger] all[k], #[trigger] fs[j]) by {
            if k < rest.len() {
                assert(all[k] == rest[k]);
                let j = choose|j: int| 0 <= j < d.len() && entry_read_from(#[trigger] rest[k], #[trigger] d[j]);
                assert(fs[j] == d[j]);
            } else {
                assert(fs[fs.len() - 1] == fs.last());
                assert(entry_read_from(all[k], fs[fs.len() - 1]));
            }
        }
        assert forall|j: int| 0 <= j < fs.len() && has_prefix(#[trigger] fs[j].name, "get_"@) implies exists|k: int|
            0 <= k < all.len() && entry_read_from(#[trigger] all[k], fs[j]) by {
            if j < d.len() {
                assert(fs[j] == d[j]);
                assert(has_prefix(d[j].name, "get_"@));
                let k = choose|k: int| 0 <= k < rest.len() && entry_read_from(#[trigger] rest[k], d[j]);
                assert(all[k] == rest[k]);
            } else {
                assert(fs[j] == fs.last());
                assert(entry_read_from(all[all.len() - 1], fs[j]));
            }
        }
    }
}

/// An item that is the last of its name in `s`, at a position below `n`, is
/// kept among the first `n`.
proof fn lemma_last_kept<T: Named>(s: Seq<T>, j: int, n: int)
    requires
        0 <= j < n <= s.len(),
        is_last_of_name(s, j),
    ensures
        last_of_each_upto(s, n).contains(s[j]),
    decreases n,
{
    if n - 1 == j {
        let rest = last_of_each_upto(s, n - 1);
        assert(last_of_each_upto(s, n) == rest.push(s[j]));
        assert(rest.push(s[j])[rest.len() as int] == s[j]);
    } else {
        lemma_last_kept(s, j, n - 1);
        let rest = last_of_each_upto(s, n - 1);
        let k = choose|k: int| 0 <= k < rest.len() && rest[k] == s[j];
        if is_last_of_name(s, n - 1) {
            assert(rest.push(s[n - 1])[k] == s[j]);
        }
    }
}

/// Some item of each name in `s`, the last of that name, is kept.
proof fn lemma_every_name_kept<T: Named>(s: Seq<T>, i: int)
    requires
        0 <= i < s.len(),
    ensures
        exists|k: int| 0 <= k < last_of_each(s).len() && #[trigger] last_of_each(s)[k].key() == s[i].key(),
    decreases s.len() - i,
{
    if is_last_of_name(s, i) {
        lemma_last_kept(s, i, s.len() as int);
        let k = choose|k: int| 0 <= k < last_of_each(s).len() && last_of_each(s)[k] == s[i];
        assert(last_of_each(s)[k].key() == s[i].key());
    } else {
        let j = choose|j: int| i < j < s.len() && #[trigger] s[j].key() != s[i].key() == false;
        lemma_every_name_kept(s, j);
    }
}

/// Every kept item is an item of `s`.
proof fn lemma_kept_items<T: Named>(s: Seq<T>)
    ensures
        forall|k: int| 0 <= k < last_of_each(s).len() ==> s.contains(#[trigger] last_of_each(s)[k]),
{
    lemma_last_of_each_upto(s, s.len() as int);
    assert forall|k: int| 0 <= k < last_of_each(s).len() implies s.contains(#[trigger] last_of_each(s)[k]) by {
        assert(kept_from(s, s.len() as int, last_of_each(s)[k]));
        let i = choose|i: int| 0 <= i < s.len() && is_last_of_name(s, i) && last_of_each(s)[k] == #[trigger] s[i];
    }
}

proof fn lemma_without_match_items<T: Named>(s: Seq<T>, others: Seq<T>)
    ensures
        forall|k: int| 0 <= k < without_match(s, others).len() ==> {
            &&& s.contains(#[trigger] without_match(s, others)[k])
            &&& forall|j: int| 0 <= j < others.len() ==> #[trigger] others[j].key() != without_match(s, others)[k].key()
        },
    decreases s.len(),
{
    if s.len() > 0 {
        let d = s.drop_last();
        lemma_without_match_items(d, others);
        let rest = without_match(d, others);
        let all = without_match(s, others);
        let keys = keys_of(others);
        lemma_first_index_found(keys, s.last().key());
        assert forall|k: int| 0 <= k < all.len() implies {
            &&& s.contains(#[trigger] all[k])
            &&& forall|j: int| 0 <= j < others.len() ==> #[trigger] others[j].key() != all[k].key()
        } by {
            if k < rest.len() {
                assert(all[k] == rest[k]);
                let i = choose|i: int| 0 <= i < d.len() && d[i] == rest[k];
                assert(s[i] == d[i]);
            } else {
                assert(s[s.len() - 1] == s.last());
                assert forall|j: int| 0 <= j < others.len() implies #[trigger] others[j].key() != all[k].key() by {
                    assert(keys[j] == others[j].key());
                }
            }
        }
    }
}

proof fn lemma_replaced_items<T: Named>(olds: Seq<T>, news: Seq<T>)
    ensures
        forall|k: int| 0 <= k < replaced_in(olds, news).len() ==> {
            &&& news.contains(#[trigger] replaced_in(olds, news)[k])
            &&& exists|i: int| 0 <= i < olds.len() && #[trigger] olds[i].key() == replaced_in(olds, news)[k].key()
                && olds[i] != replaced_in(olds, news)[k]
        },
    decreases olds.len(),
{
    if olds.len() > 0 {
        let d = olds.drop_last();
        lemma_replaced_items(d, news);
        let rest = replaced_in(d, news);
        let all = replaced_in(olds, news);
        let keys = keys_of(news);
        lemma_first_index_found(keys, olds.last().key());
        assert forall|k: int| 0 <= k < all.len() implies {
            &&& news.contains(#[trigger] all[k])
            &&& exists|i: int| 0 <= i < olds.len() && #[trigger] olds[i].key() == all[k].key() && olds[i] != all[k]
        } by {
            if k < rest.len() {
                assert(all[k] == rest[k]);
                let i = choose|i: int| 0 <= i < d.len() && #[trigger] d[i].key() == rest[k].key() && d[i] != rest[k];
                assert(olds[i] == d[i]);
            } else {
                let x = first_index(keys, olds.last().key());
                assert(all[k] == news[x]);
                assert(keys[x] == news[x].key());
                assert(olds[olds.len() - 1] == olds.last());
            }
        }
    }
}

/// What an interface comparison reports comes from the two interfaces:
/// each added function or type is one of the new interface's and no old one
/// has its name; each removed one is one of the old interface's and no new
/// one has its name; each changed one is the new interface's version, and
/// the old interface has a different one of that name.
pub proof fn law_interface_diff_reports_from_the_interfaces(
    old_functions: Seq<FunctionView>,
    old_types: Seq<TypeView>,
    new_functions: Seq<FunctionView>,
    new_types: Seq<TypeView>,
)
    ensures
        ({
            let d = interface_diff(old_functions, old_types, new_functions, new_types);
            &&& forall|k: int| 0 <= k < d.added_functions.len() ==> new_functions.contains(#[trigger] d.added_functions[k])
                && forall|j: int| 0 <= j < old_functions.len() ==> #[trigger] old_functions[j].name != d.added_functions[k].name
            &&& forall|k: int| 0 <= k < d.removed_functions.len() ==> old_functions.contains(#[trigger] d.removed_functions[k])
                && forall|j: int| 0 <= j < new_functions.len() ==> #[trigger] new_functions[j].name != d.removed_functions[k].name
            &&& forall|k: int| 0 <= k < d.changed_functions.len() ==> new_functions.contains(#[trigger] d.changed_functions[k])
                && exists|i: int| 0 <= i < old_functions.len() && #[trigger] old_functions[i].name == d.changed_functions[k].name
                    && old_functions[i] != d.changed_functions[k]
            &&& forall|k: int| 0 <= k < d.added_types.len() ==> new_types.contains(#[trigger] d.added_types[k])
                && forall|j: int| 0 <= j < old_types.len() ==> #[trigger] old_types[j].name != d.added_types[k].name
            &&& forall|k: int| 0 <= k < d.removed_types.len() ==> old_types.contains(#[trigger] d.removed_types[k])
                && forall|j: int| 0 <= j < new_types.len() ==> #[trigger] new_types[j].name != d.removed_types[k].name
            &&& forall|k: int| 0 <= k < d.changed_types.len() ==> new_types.contains(#[trigger] d.changed_types[k])
                && exists|i: int| 0 <= i < old_types.len() && #[trigger] old_types[i].name == d.changed_types[k].name
                    && old_types[i] != d.changed_types[k]
        }),
{
    lemma_diff_side(old_functions, new_functions);
    lemma_diff_side(old_types, new_types);
    let d = interface_diff(old_functions, old_types, new_functions, new_types);
    assert forall|k: int, j: int| 0 <= k < d.added_functions.len() && 0 <= j < old_functions.len()
        implies #[trigger] old_functions[j].name != #[trigger] d.added_functions[k].name by {
        assert(old_functions[j].key() != d.added_functions[k].key());
    }
    assert forall|k: int, j: int| 0 <= k < d.removed_functions.len() && 0 <= j < new_functions.len()
        implies #[trigger] new_functions[j].name != #[trigger] d.removed_functions[k].name by {
        assert(new_functions[j].key() != d.removed_functions[k].key());
    }
    assert forall|k: int| 0 <= k < d.changed_functions.len() implies exists|i: int| 0 <= i < old_functions.len()
        && #[trigger] old_functions[i].name == d.changed_functions[k].name && old_functions[i] != #[trigger] d.changed_functions[k] by {
        let i = choose|i: int| 0 <= i < old_functions.len() && #[trigger] old_functions[i].key() == d.changed_functions[k].key()
            && old_functions[i] != d.changed_functions[k];
    }
    assert forall|k: int, j: int| 0 <= k < d.added_types.len() && 0 <= j < old_types.len()
        implies #[trigger] old_types[j].name != #[trigger] d.added_types[k].name by {
        assert(old_types[j].key() != d.added_types[k].key());
    }
    assert forall|k: int, j: int| 0 <= k < d.removed_types.len() && 0 <= j < new_types.len()
        implies #[trigger] new_types[j].name != #[trigger] d.removed_types[k].name by {
        assert(new_types[j].key() != d.removed_types[k].key());
    }
    assert forall|k: int| 0 <= k < d.changed_types.len() implies exists|i: int| 0 <= i < old_types.len()
        && #[trigger] old_types[i].name == d.changed_types[k].name && old_types[i] != #[trigger] d.changed_types[k] by {
        let i = choose|i: int| 0 <= i < old_types.len() && #[trigger] old_types[i].key() == d.changed_types[k].key()
            && old_types[i] != d.changed_types[k];
    }
}

/// The added, removed and changed items between two lists, as the
/// interface comparison takes them.
proof fn lemma_diff_side<T: Named>(olds: Seq<T>, news: Seq<T>)
    ensures
        forall|k: int| 0 <= k < without_match(last_of_each(news), last_of_each(olds)).len() ==> {
            &&& news.contains(#[trigger] without_match(last_of_each(news), last_of_each(olds))[k])
            &&& forall|j: int| 0 <= j < olds.len() ==> #[trigger] olds[j].key() != without_match(last_of_each(news), last_of_each(olds))[k].key()
        },
        forall|k: int| 0 <= k < without_match(last_of_each(olds), last_of_each(news)).len() ==> {
            &&& olds.contains(#[trigger] without_match(last_of_each(olds), last_of_each(news))[k])
            &&& forall|j: int| 0 <= j < news.len() ==> #[trigger] news[j].key() != without_match(last_of_each(olds), last_of_each(news))[k].key()
        },
        forall|k: int| 0 <= k < replaced_in(last_of_each(olds), last_of_each(news)).len() ==> {
            &&& news.contains(#[trigger] replaced_in(last_of_each(olds), last_of_each(news))[k])
            &&& exists|i: int| 0 <= i < olds.len() && #[trigger] olds[i].key() == replaced_in(last_of_each(olds), last_of_each(news))[k].key()
                && olds[i] != replaced_in(last_of_each(olds), last_of_each(news))[k]
        },
{
    let lo = last_of_each(olds);
    let ln = last_of_each(news);
    lemma_kept_items(olds);
    lemma_kept_items(news);
    lemma_without_match_items(ln, lo);
    lemma_without_match_items(lo, ln);
    lemma_replaced_items(lo, ln);
    let a = without_match(ln, lo);
    assert forall|k: int| 0 <= k < a.len() implies {
        &&& news.contains(#[trigger] a[k])
        &&& forall|j: int| 0 <= j < olds.len() ==> #[trigger] olds[j].key() != a[k].key()
    } by {
        let i = choose|i: int| 0 <= i < ln.len() && ln[i] == a[k];
        assert(news.contains(ln[i]));
        assert forall|j: int| 0 <= j < olds.len() implies #[trigger] olds[j].key() != a[k].key() by {
            lemma_every_name_kept(olds, j);
            let x = choose|x: int| 0 <= x < lo.len() && #[trigger] lo[x].key() == olds[j].key();
            assert(lo[x].key() != a[k].key());
        }
    }
    let r = without_match(lo, ln);
    assert forall|k: int| 0 <= k < r.len() implies {
        &&& olds.contains(#[trigger] r[k])
        &&& forall|j: int| 0 <= j < news.len() ==> #[trigger] news[j].key() != r[k].key()
    } by {
        let i = choose|i: int| 0 <= i < lo.len() && lo[i] == r[k];
        assert(olds.contains(lo[i]));
        assert forall|j: int| 0 <= j < news.len() implies #[trigger] news[j].key() != r[k].key() by {
            lemma_every_name_kept(news, j);
            let x = choose|x: int| 0 <= x < ln.len() && #[trigger] ln[x].key() == news[j].key();
            assert(ln[x].key() != r[k].key());
        }
    }
    let c = replaced_in(lo, ln);
    assert forall|k: int| 0 <= k < c.len() implies {
        &&& news.contains(#[trigger] c[k])
        &&& exists|i: int| 0 <= i < olds.len() && #[trigger] olds[i].key() == c[k].key() && olds[i] != c[k]
    } by {
        let i = choose|i: int| 0 <= i < ln.len() && ln[i] == c[k];
        assert(news.contains(ln[i]));
        let x = choose|x: int| 0 <= x < lo.len() && #[trigger] lo[x].key() == c[k].key() && lo[x] != c[k];
        assert(olds.contains(lo[x]));
        let y = choose|y: int| 0 <= y < olds.len() && olds[y] == lo[x];
        assert(olds[y].key() == c[k].key());
    }
}

/// Starting at nesting depth `d`, every comma of `t` stands inside angle
/// brackets, and `t` ends back at depth 0.
pub open spec fn commas_nested(t: Seq<char>, d: int) -> bool
    decreases t.len(),
{
    if t.len() == 0 {
        d == 0
    } else {
        (t[0] == ',' ==> d != 0) && commas_nested(t.drop_first(), d + bracket_delta(t[0]))
    }
}

/// Text whose commas are all nested is kept whole before a comma that
/// follows it.
proof fn lemma_before_comma(t: Seq<char>, rest: Seq<char>, d: int)
    requires
        commas_nested(t, d),
        rest.len() > 0,
        rest[0] == ',',
    ensures
        before_top_level(t + rest, ',', d) == t,
    decreases t.len(),
{
    if t.len() == 0 {
        assert(t + rest =~= rest);
        assert(before_top_level(rest, ',', d) =~= Seq::<char>::empty());
    } else {
        let s = t + rest;
        assert(s.drop_first() =~= t.drop_first() + rest);
        lemma_before_comma(t.drop_first(), rest, d + bracket_delta(t[0]));
        assert(s[0] == t[0]);
        assert(seq![t[0]] + t.drop_first() =~= t);
    }
}

/// An accessor returning `Option<T>` stores `T`; one returning
/// `Result<T, E>`, where every comma of `T` stands inside angle brackets that
/// `T` closes and `T` has no white space at either end, stores `T`.
pub proof fn law_stored_value_type_payload(t: Seq<char>, e: Seq<char>)
    ensures
        stored_value_type(TypeRefView::Complex("Option<"@ + t + ">"@)) == TypeRefView::Complex(t),
        commas_nested(t, 0) && (t.len() > 0 ==> !is_white_space(t[0]) && !is_white_space(t.last()))
            ==> stored_value_type(TypeRefView::Complex("Result<"@ + t + ", "@ + e + ">"@)) == TypeRefView::Complex(t),
{
    reveal_strlit("Option<");
    reveal_strlit("Result<");
    reveal_strlit(">");
    reveal_strlit(", ");
    let o = "Option<"@ + t + ">"@;
    assert(o.subrange(0, 7) =~= "Option<"@);
    assert(o.subrange(7, o.len() as int) =~= t + ">"@);
    assert((t + ">"@).drop_last() =~= t);
    let r = "Result<"@ + t + ", "@ + e + ">"@;
    assert(r.subrange(0, 7) =~= "Result<"@);
    assert(!has_prefix(r, "Option<"@)) by {
        assert(r.subrange(0, 7)[0] != "Option<"@[0]);
    }
    let body = r.subrange(7, r.len() as int);
    assert(body =~= t + (", "@ + e) + ">"@);
    let p = without_last(body, '>');
    assert(p =~= t + (", "@ + e));
    if commas_nested(t, 0) && (t.len() > 0 ==> !is_white_space(t[0]) && !is_white_space(t.last())) {
        lemma_before_comma(t, ", "@ + e, 0);
        assert(trim_start_white(t) == t);
        assert(trim_end_white(t) == t);
    }
}

/// The fields of every type have pairwise distinct names.
pub open spec fn field_names_distinct(types: Seq<TypeView>) -> bool {
    forall|k: int, a: int, b: int| 0 <= k < types.len() && 0 <= a < b < types[k].fields.len()
        ==> #[trigger] types[k].fields[a].name != #[trigger] types[k].fields[b].name
}

/// Entries that share a namespace, where both value types resolve in
/// `types`, resolve to the same fields.
pub open spec fn namespaces_agree(entries: Seq<StorageEntryView>, types: Seq<TypeView>) -> bool {
    forall|a: int, b: int|
        0 <= a < entries.len() && 0 <= b < entries.len() && entries[a].namespace == entries[b].namespace
            && (#[trigger] resolved_fields(entries[a].value_type, types)) is Some
            && (#[trigger] resolved_fields(entries[b].value_type, types)) is Some
            ==> resolved_fields(entries[a].value_type, types) == resolved_fields(entries[b].value_type, types)
}

/// Every change is a preservation.
pub open spec fn all_preserved(changes: Seq<FieldChangeView>) -> bool {
    forall|i: int| 0 <= i < changes.len() ==> #[trigger] changes[i] is Preserved
}

proof fn lemma_field_position(fields: Seq<FieldView>, i: int)
    requires
        forall|a: int, b: int| 0 <= a < b < fields.len() ==> fields[a].name != fields[b].name,
        0 <= i < fields.len(),
    ensures
        first_index(fields.map_values(|g: FieldView| g.name), fields[i].name) == i,
{
    let keys = fields.map_values(|g: FieldView| g.name);
    assert forall|j: int| 0 <= j < i implies keys[j] != fields[i].name by {
        assert(keys[j] == fields[j].name);
    }
    assert(keys[i] == fields[i].name);
    lemma_first_index(keys, fields[i].name, i);
}

proof fn lemma_field_changes_self(fields: Seq<FieldView>)
    requires
        forall|a: int, b: int| 0 <= a < b < fields.len() ==> fields[a].name != fields[b].name,
    ensures
        all_preserved(field_changes(fields, fields)),
{
    assert forall|n: int| 0 <= n <= fields.len() implies all_preserved(#[trigger] old_field_changes(fields.subrange(0, n), fields)) by {
        lemma_old_changes_self(fields, n);
    }
    assert forall|n: int| 0 <= n <= fields.len() implies #[trigger] added_fields(fields, fields.subrange(0, n)).len() == 0 by {
        lemma_added_self(fields, n);
    }
    assert(fields.subrange(0, fields.len() as int) =~= fields);
    assert(all_preserved(old_field_changes(fields.subrange(0, fields.len() as int), fields)));
    assert(added_fields(fields, fields.subrange(0, fields.len() as int)).len() == 0);
    let c = field_changes(fields, fields);
    assert(c =~= old_field_changes(fields, fields));
}

proof fn lemma_old_changes_self(fields: Seq<FieldView>, n: int)
    requires
        forall|a: int, b: int| 0 <= a < b < fields.len() ==> fields[a].name != fields[b].name,
        0 <= n <= fields.len(),
    ensures
        all_preserved(old_field_changes(fields.subrange(0, n), fields)),
    decreases n,
{
    if n > 0 {
        let p = fields.subrange(0, n);
        assert(p.drop_last() =~= fields.subrange(0, n - 1));
        lemma_old_changes_self(fields, n - 1);
        lemma_field_position(fields, n - 1);
        let c = old_field_changes(p, fields);
        assert(c == old_field_changes(fields.subrange(0, n - 1), fields).push(crate::storage::old_field_change(fields[n - 1], fields)));
    }
}

proof fn lemma_added_self(fields: Seq<FieldView>, n: int)
    requires
        0 <= n <= fields.len(),
    ensures
        added_fields(fields, fields.subrange(0, n)).len() == 0,
    decreases n,
{
    if n > 0 {
        let p = fields.subrange(0, n);
        assert(p.drop_last() =~= fields.subrange(0, n - 1));
        lemma_added_self(fields, n - 1);
        let keys = fields.map_values(|f: FieldView| f.name);
        lemma_first_index_found(keys, p.last().name);
        assert(keys[n - 1] == p.last().name);
    }
}

proof fn lemma_storage_changes_self(entries: Seq<StorageEntryView>, types: Seq<TypeView>, n: int)
    requires
        namespaces_agree(entries, types),
        field_names_distinct(types),
        0 <= n <= entries.len(),
    ensures
        all_preserved(storage_changes(entries.subrange(0, n), entries, types, types)),
    decreases n,
{
    if n > 0 {
        let p = entries.subrange(0, n);
        assert(p.drop_last() =~= entries.subrange(0, n - 1));
        lemma_storage_changes_self(entries, types, n - 1);
        let e = entries[n - 1];
        let keys = entries.map_values(|x: StorageEntryView| x.namespace);
        assert(keys[n - 1] == e.namespace);
        lemma_first_index_found(keys, e.namespace);
        let k = first_index(keys, e.namespace);
        assert(keys[k] == entries[k].namespace);
        let ec = entry_changes(e, entries, types, types);
        match resolved_fields(e.value_type, types) {
            Some(f) if resolved_fields(entries[k].value_type, types) is Some => {
                assert(resolved_fields(entries[k].value_type, types) == resolved_fields(entries[n - 1].value_type, types));
                let name = e.value_type->Complex_0;
                let k = first_index(types.map_values(|ty: TypeView| ty.name), name);
                lemma_first_index_found(types.map_values(|ty: TypeView| ty.name), name);
                assert(f == types[k].fields);
                assert forall|a: int, b: int| 0 <= a < b < f.len() implies f[a].name != f[b].name by {
                    assert(types[k].fields[a].name != types[k].fields[b].name);
                }
                lemma_field_changes_self(f);
                assert(ec == field_changes(f, f));
            },
            _ => {
                assert(ec.len() == 0);
            },
        }
        let before = storage_changes(entries.subrange(0, n - 1), entries, types, types);
        assert(storage_changes(p, entries, types, types) == before + ec);
        assert forall|i: int| 0 <= i < (before + ec).len() implies #[trigger] (before + ec)[i] is Preserved by {
            if i < before.len() {
                assert((before + ec)[i] == before[i]);
            } else {
                assert((before + ec)[i] == ec[i - before.len()]);
            }
        }
    }
}

/// Comparing a storage layout with itself, against the same types, reports
/// every field of every resolved value type as preserved and nothing else,
/// when entries sharing a namespace do not resolve to different fields and
/// each type's field names are distinct.
pub proof fn law_storage_diff_with_itself(entries: Seq<StorageEntryView>, types: Seq<TypeView>)
    requires
        namespaces_agree(entries, types),
        field_names_distinct(types),
    ensures
        all_preserved(storage_changes(entries, entries, types, types)),
{
    lemma_storage_changes_self(entries, types, entries.len() as int);
    assert(entries.subrange(0, entries.len() as int) =~= entries);
}

} // verus!
