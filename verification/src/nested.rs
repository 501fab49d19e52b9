//! Field-, item- and entry-level changes inside composite values.
use vstd::prelude::*;
use crate::value::{
    StateValue, ValueModel, StructFields, field_value, model_seq, model_pairs, lemma_model_seq,
    lemma_model_pairs, values_equal, copy_value,
};

verus! {

/// A change inside a composite value.
#[derive(Debug, PartialEq, Eq)]
pub enum NestedChange {
    /// A field was added (Struct only).
    FieldAdded { field_name: String, value: StateValue },
    /// A field was removed (Struct only).
    FieldRemoved { field_name: String, value: StateValue },
    /// A field's value changed (Struct only).
    FieldModified { field_name: String, before: StateValue, after: StateValue },
    /// An item was added to a Vec or Map.
    ItemAdded { index: usize, value: StateValue },
    /// An item was removed from a Vec or Map.
    ItemRemoved { index: usize, value: StateValue },
    /// An item at a specific index changed (Vec only).
    ItemModified { index: usize, before: StateValue, after: StateValue },
    /// A Map entry's value changed (matched by key).
    MapEntryModified { key: StateValue, before: StateValue, after: StateValue },
}

/// Model of a nested change.
pub enum ChangeModel {
    FieldAdded { field_name: Seq<char>, value: ValueModel },
    FieldRemoved { field_name: Seq<char>, value: ValueModel },
    FieldModified { field_name: Seq<char>, before: ValueModel, after: ValueModel },
    ItemAdded { index: int, value: ValueModel },
    ItemRemoved { index: int, value: ValueModel },
    ItemModified { index: int, before: ValueModel, after: ValueModel },
    MapEntryModified { key: ValueModel, before: ValueModel, after: ValueModel },
}

impl NestedChange {
    pub open spec fn model(&self) -> ChangeModel {
        match self {
            NestedChange::FieldAdded { field_name, value } =>
                ChangeModel::FieldAdded { field_name: field_name@, value: value.model() },
            NestedChange::FieldRemoved { field_name, value } =>
                ChangeModel::FieldRemoved { field_name: field_name@, value: value.model() },
            NestedChange::FieldModified { field_name, before, after } =>
                ChangeModel::FieldModified { field_name: field_name@, before: before.model(), after: after.model() },
            NestedChange::ItemAdded { index, value } =>
                ChangeModel::ItemAdded { index: *index as int, value: value.model() },
            NestedChange::ItemRemoved { index, value } =>
                ChangeModel::ItemRemoved { index: *index as int, value: value.model() },
            NestedChange::ItemModified { index, before, after } =>
                ChangeModel::ItemModified { index: *index as int, before: before.model(), after: after.model() },
            NestedChange::MapEntryModified { key, before, after } =>
                ChangeModel::MapEntryModified { key: key.model(), before: before.model(), after: after.model() },
        }
    }
}

/// Models of a sequence of changes.
pub open spec fn changes_model(s: Seq<NestedChange>) -> Seq<ChangeModel> {
    s.map_values(|c: NestedChange| c.model())
}

/// Fields of `b` that `a` lacks, as removals, in `b`'s order.
pub open spec fn removed_fields(b: Seq<(Seq<char>, ValueModel)>, a: Seq<(Seq<char>, ValueModel)>) -> Seq<ChangeModel>
    decreases b.len(),
{
    if b.len() == 0 {
        Seq::empty()
    } else {
        let rest = removed_fields(b.drop_last(), a);
        if field_value(a, b.last().0) is None {
            rest.push(ChangeModel::FieldRemoved { field_name: b.last().0, value: b.last().1 })
        } else {
            rest
        }
    }
}

/// Fields of `a` that `b` lacks, as additions, in `a`'s order.
pub open spec fn added_fields(b: Seq<(Seq<char>, ValueModel)>, a: Seq<(Seq<char>, ValueModel)>) -> Seq<ChangeModel>
    decreases a.len(),
{
    if a.len() == 0 {
        Seq::empty()
    } else {
        let rest = added_fields(b, a.drop_last());
        if field_value(b, a.last().0) is None {
            rest.push(ChangeModel::FieldAdded { field_name: a.last().0, value: a.last().1 })
        } else {
            rest
        }
    }
}

/// Fields present in both whose values differ, in `b`'s order.
pub open spec fn modified_fields(b: Seq<(Seq<char>, ValueModel)>, a: Seq<(Seq<char>, ValueModel)>) -> Seq<ChangeModel>
    decreases b.len(),
{
    if b.len() == 0 {
        Seq::empty()
    } else {
        let rest = modified_fields(b.drop_last(), a);
        match field_value(a, b.last().0) {
            Some(av) => if av != b.last().1 {
                rest.push(ChangeModel::FieldModified { field_name: b.last().0, before: b.last().1, after: av })
            } else {
                rest
            },
            None => rest,
        }
    }
}

/// Index-by-index changes over the first `n` positions of two sequences.
pub open spec fn vec_changes(b: Seq<ValueModel>, a: Seq<ValueModel>, n: nat) -> Seq<ChangeModel>
    decreases n,
{
    if n == 0 {
        Seq::empty()
    } else {
        let rest = vec_changes(b, a, (n - 1) as nat);
        let i = n - 1;
        if i < b.len() && i < a.len() {
            if b[i] != a[i] {
                rest.push(ChangeModel::ItemModified { index: i, before: b[i], after: a[i] })
            } else {
                rest
            }
        } else if i < b.len() {
            rest.push(ChangeModel::ItemRemoved { index: i, value: b[i] })
        } else if i < a.len() {
            rest.push(ChangeModel::ItemAdded { index: i, value: a[i] })
        } else {
            rest
        }
    }
}

/// The value paired with `k` (the last pair with that key wins).
pub open spec fn pair_value(p: Seq<(ValueModel, ValueModel)>, k: ValueModel) -> Option<ValueModel>
    decreases p.len(),
{
    if p.len() == 0 {
        None
    } else if p.last().0 == k {
        Some(p.last().1)
    } else {
        pair_value(p.drop_last(), k)
    }
}

/// Pairs of `b` whose key `a` lacks, as removals at their index in `b`.
pub open spec fn removed_pairs(b: Seq<(ValueModel, ValueModel)>, a: Seq<(ValueModel, ValueModel)>) -> Seq<ChangeModel>
    decreases b.len(),
{
    if b.len() == 0 {
        Seq::empty()
    } else {
        let rest = removed_pairs(b.drop_last(), a);
        if pair_value(a, b.last().0) is None {
            rest.push(ChangeModel::ItemRemoved { index: b.len() - 1, value: b.last().1 })
        } else {
            rest
        }
    }
}

/// Pairs of `a` whose key `b` lacks, as additions at their index in `a`.
pub open spec fn added_pairs(b: Seq<(ValueModel, ValueModel)>, a: Seq<(ValueModel, ValueModel)>) -> Seq<ChangeModel>
    decreases a.len(),
{
    if a.len() == 0 {
        Seq::empty()
    } else {
        let rest = added_pairs(b, a.drop_last());
        if pair_value(b, a.last().0) is None {
            rest.push(ChangeModel::ItemAdded { index: a.len() - 1, value: a.last().1 })
        } else {
            rest
        }
    }
}

/// Pairs of `b` whose key maps in `a` to a different value, in `b`'s order.
pub open spec fn modified_pairs(b: Seq<(ValueModel, ValueModel)>, a: Seq<(ValueModel, ValueModel)>) -> Seq<ChangeModel>
    decreases b.len(),
{
    if b.len() == 0 {
        Seq::empty()
    } else {
        let rest = modified_pairs(b.drop_last(), a);
        match pair_value(a, b.last().0) {
            Some(av) => if av != b.last().1 {
                rest.push(ChangeModel::MapEntryModified { key: b.last().0, before: b.last().1, after: av })
            } else {
                rest
            },
            None => rest,
        }
    }
}

pub open spec fn max_len(x: nat, y: nat) -> nat {
    if x >= y { x } else { y }
}

/// The nested changes from `before` to `after`: field-level for structs,
/// index-level for vectors, key-level for maps, through options; none for
/// leaves or values of different kinds.
pub open spec fn nested_changes(before: ValueModel, after: ValueModel) -> Seq<ChangeModel>
    decreases before,
{
    match before {
        ValueModel::Struct(b) => match after {
            ValueModel::Struct(a) => removed_fields(b, a) + added_fields(b, a) + modified_fields(b, a),
            _ => Seq::empty(),
        },
        ValueModel::Vec(b) => match after {
            ValueModel::Vec(a) => vec_changes(b, a, max_len(b.len(), a.len())),
            _ => Seq::empty(),
        },
        ValueModel::Mapping(b) => match after {
            ValueModel::Mapping(a) => removed_pairs(b, a) + added_pairs(b, a) + modified_pairs(b, a),
            _ => Seq::empty(),
        },
        ValueModel::Option(b) => match after {
            ValueModel::Option(a) => match b {
                Some(x) => match a {
                    Some(y) => if *x != *y { nested_changes(*x, *y) } else { Seq::empty() },
                    None => seq![ChangeModel::ItemRemoved { index: 0, value: *x }],
                },
                None => match a {
                    Some(y) => seq![ChangeModel::ItemAdded { index: 0, value: *y }],
                    None => Seq::empty(),
                },
            },
            _ => Seq::empty(),
        },
        _ => Seq::empty(),
    }
}


proof fn lemma_take_last<A>(s: Seq<A>, i: int)
    requires
        0 <= i < s.len(),
    ensures
        s.take(i + 1).drop_last() == s.take(i),
        s.take(i + 1).last() == s[i],
        s.take(i + 1).len() == i + 1,
{
    assert(s.take(i + 1).drop_last() =~= s.take(i));
}

fn struct_changes(bf: &StructFields, af: &StructFields) -> (r: Vec<NestedChange>)
    ensures
        changes_model(r@) == removed_fields(bf.model(), af.model()) + added_fields(bf.model(), af.model())
            + modified_fields(bf.model(), af.model()),
{
    let ghost bm = bf.model();
    let ghost am = af.model();
    let mut changes: Vec<NestedChange> = Vec::new();
    let n = bf.len();
    let mut i: usize = 0;
    proof {
        assert(bm.take(0) =~= Seq::<(Seq<char>, ValueModel)>::empty());
        assert(changes_model(changes@) =~= Seq::<ChangeModel>::empty());
    }
    while i < n
        invariant
            n == bm.len(),
            bm == bf.model(),
            am == af.model(),
            i <= n,
            changes_model(changes@) == removed_fields(bm.take(i as int), am),
        decreases n - i,
    {
        let name = bf.name_at(i);
        let present = af.contains_key(name.as_str());
        proof {
            lemma_take_last(bm, i as int);
        }
        if !present {
            let c = NestedChange::FieldRemoved { field_name: name.clone(), value: copy_value(bf.value_at(i)) };
            changes.push(c);
        }
        proof {
            assert(changes_model(changes@) =~= removed_fields(bm.take(i + 1), am));
        }
        i = i + 1;
    }
    proof {
        assert(bm.take(n as int) =~= bm);
        assert(am.take(0) =~= Seq::<(Seq<char>, ValueModel)>::empty());
        assert(changes_model(changes@) =~= removed_fields(bm, am) + added_fields(bm, am.take(0)));
    }
    let m = af.len();
    let mut j: usize = 0;
    while j < m
        invariant
            m == am.len(),
            bm == bf.model(),
            am == af.model(),
            j <= m,
            changes_model(changes@) == removed_fields(bm, am) + added_fields(bm, am.take(j as int)),
        decreases m - j,
    {
        let name = af.name_at(j);
        let present = bf.contains_key(name.as_str());
        proof {
            lemma_take_last(am, j as int);
        }
        let ghost prev = changes_model(changes@);
        if !present {
            let c = NestedChange::FieldAdded { field_name: name.clone(), value: copy_value(af.value_at(j)) };
            changes.push(c);
        }
        proof {
            let t = added_fields(bm, am.take(j + 1));
            if !present {
                assert(changes_model(changes@) =~= prev.push(changes@.last().model()));
            } else {
                assert(changes_model(changes@) =~= prev);
            }
            assert(changes_model(changes@) =~= removed_fields(bm, am) + t);
        }
        j = j + 1;
    }
    proof {
        assert(am.take(m as int) =~= am);
        assert(bm.take(0) =~= Seq::<(Seq<char>, ValueModel)>::empty());
        assert(changes_model(changes@) =~= removed_fields(bm, am) + added_fields(bm, am) + modified_fields(bm.take(0), am));
    }
    let mut k: usize = 0;
    while k < n
        invariant
            n == bm.len(),
            bm == bf.model(),
            am == af.model(),
            k <= n,
            changes_model(changes@) == removed_fields(bm, am) + added_fields(bm, am) + modified_fields(bm.take(k as int), am),
        decreases n - k,
    {
        let name = bf.name_at(k);
        let found = af.get(name.as_str());
        proof {
            lemma_take_last(bm, k as int);
        }
        let ghost prev = changes_model(changes@);
        match found {
            Some(av) => {
                let bv = bf.value_at(k);
                if !values_equal(bv, av) {
                    let c = NestedChange::FieldModified {
                        field_name: name.clone(),
                        before: copy_value(bv),
                        after: copy_value(av),
                    };
                    changes.push(c);
                }
            },
            None => {},
        }
        proof {
            let t = modified_fields(bm.take(k + 1), am);
            if changes@.len() > prev.len() {
                assert(changes_model(changes@) =~= prev.push(changes@.last().model()));
            } else {
                assert(changes_model(changes@) =~= prev);
            }
            assert(changes_model(changes@) =~= removed_fields(bm, am) + added_fields(bm, am) + t);
        }
        k = k + 1;
    }
    proof {
        assert(bm.take(n as int) =~= bm);
    }
    changes
}

fn vec_item_changes(b: &Vec<StateValue>, a: &Vec<StateValue>) -> (r: Vec<NestedChange>)
    ensures
        changes_model(r@) == vec_changes(model_seq(b@), model_seq(a@), max_len(b@.len(), a@.len())),
{
    let ghost bm = model_seq(b@);
    let ghost am = model_seq(a@);
    proof {
        lemma_model_seq(b@);
        lemma_model_seq(a@);
    }
    let max = if b.len() >= a.len() { b.len() } else { a.len() };
    let mut changes: Vec<NestedChange> = Vec::new();
    let mut i: usize = 0;
    proof {
        assert(changes_model(changes@) =~= Seq::<ChangeModel>::empty());
    }
    while i < max
        invariant
            bm == model_seq(b@),
            am == model_seq(a@),
            bm.len() == b.len(),
            am.len() == a.len(),
            forall|k: int| 0 <= k < b.len() ==> #[trigger] bm[k] == b@[k].model(),
            forall|k: int| 0 <= k < a.len() ==> #[trigger] am[k] == a@[k].model(),
            max == max_len(b@.len(), a@.len()),
            i <= max,
            changes_model(changes@) == vec_changes(bm, am, i as nat),
        decreases max - i,
    {
        if i < b.len() && i < a.len() {
            if !values_equal(&b[i], &a[i]) {
                changes.push(NestedChange::ItemModified { index: i, before: copy_value(&b[i]), after: copy_value(&a[i]) });
            }
        } else if i < b.len() {
            changes.push(NestedChange::ItemRemoved { index: i, value: copy_value(&b[i]) });
        } else {
            changes.push(NestedChange::ItemAdded { index: i, value: copy_value(&a[i]) });
        }
        proof {
            assert(changes_model(changes@) =~= vec_changes(bm, am, (i + 1) as nat));
        }
        i = i + 1;
    }
    changes
}

/// The value paired with `key` in `pairs` (the last such pair wins).
fn find_pair_value<'a>(pairs: &'a Vec<(StateValue, StateValue)>, key: &StateValue) -> (r: Option<&'a StateValue>)
    ensures
        match r {
            Some(v) => pair_value(model_pairs(pairs@), key.model()) == Some(v.model()),
            None => pair_value(model_pairs(pairs@), key.model()) is None,
        },
{
    let ghost pm = model_pairs(pairs@);
    proof {
        lemma_model_pairs(pairs@);
        assert(pm.take(pm.len() as int) =~= pm);
    }
    let mut i: usize = pairs.len();
    while i > 0
        invariant
            pm == model_pairs(pairs@),
            pm.len() == pairs.len(),
            forall|k: int| 0 <= k < pairs.len() ==> #[trigger] pm[k] == (pairs@[k].0.model(), pairs@[k].1.model()),
            i <= pairs.len(),
            pair_value(pm, key.model()) == pair_value(pm.take(i as int), key.model()),
        decreases i,
    {
        proof {
            lemma_take_last(pm, i - 1);
        }
        if values_equal(&pairs[i - 1].0, key) {
            return Some(&pairs[i - 1].1);
        }
        i = i - 1;
    }
    None
}

fn pair_changes(b: &Vec<(StateValue, StateValue)>, a: &Vec<(StateValue, StateValue)>) -> (r: Vec<NestedChange>)
    ensures
        changes_model(r@) == removed_pairs(model_pairs(b@), model_pairs(a@)) + added_pairs(model_pairs(b@), model_pairs(a@))
            + modified_pairs(model_pairs(b@), model_pairs(a@)),
{
    let ghost bm = model_pairs(b@);
    let ghost am = model_pairs(a@);
    proof {
        lemma_model_pairs(b@);
        lemma_model_pairs(a@);
        assert(bm.take(0) =~= Seq::<(ValueModel, ValueModel)>::empty());
        assert(am.take(0) =~= Seq::<(ValueModel, ValueModel)>::empty());
    }
    let mut changes: Vec<NestedChange> = Vec::new();
    proof {
        assert(changes_model(changes@) =~= Seq::<ChangeModel>::empty());
    }
    let mut i: usize = 0;
    while i < b.len()
        invariant
            bm == model_pairs(b@),
            am == model_pairs(a@),
            bm.len() == b.len(),
            forall|k: int| 0 <= k < b.len() ==> #[trigger] bm[k] == (b@[k].0.model(), b@[k].1.model()),
            i <= b.len(),
            changes_model(changes@) == removed_pairs(bm.take(i as int), am),
        decreases b.len() - i,
    {
        proof {
            lemma_take_last(bm, i as int);
        }
        if find_pair_value(a, &b[i].0).is_none() {
            changes.push(NestedChange::ItemRemoved { index: i, value: copy_value(&b[i].1) });
        }
        proof {
            assert(changes_model(changes@) =~= removed_pairs(bm.take(i + 1), am));
        }
        i = i + 1;
    }
    proof {
        assert(bm.take(b.len() as int) =~= bm);
        assert(changes_model(changes@) =~= removed_pairs(bm, am) + added_pairs(bm, am.take(0)));
    }
    let mut j: usize = 0;
    while j < a.len()
        invariant
            bm == model_pairs(b@),
            am == model_pairs(a@),
            am.len() == a.len(),
            forall|k: int| 0 <= k < a.len() ==> #[trigger] am[k] == (a@[k].0.model(), a@[k].1.model()),
            j <= a.len(),
            changes_model(changes@) == removed_pairs(bm, am) + added_pairs(bm, am.take(j as int)),
        decreases a.len() - j,
    {
        proof {
            lemma_take_last(am, j as int);
        }
        let ghost prev = changes_model(changes@);
        if find_pair_value(b, &a[j].0).is_none() {
            changes.push(NestedChange::ItemAdded { index: j, value: copy_value(&a[j].1) });
        }
        proof {
            let t = added_pairs(bm, am.take(j + 1));
            if changes@.len() > prev.len() {
                assert(changes_model(changes@) =~= prev.push(changes@.last().model()));
            } else {
                assert(changes_model(changes@) =~= prev);
            }
            assert(changes_model(changes@) =~= removed_pairs(bm, am) + t);
        }
        j = j + 1;
    }
    proof {
        assert(am.take(a.len() as int) =~= am);
        assert(changes_model(changes@) =~= removed_pairs(bm, am) + added_pairs(bm, am) + modified_pairs(bm.take(0), am));
    }
    let mut k: usize = 0;
    while k < b.len()
        invariant
            bm == model_pairs(b@),
            am == model_pairs(a@),
            bm.len() == b.len(),
            forall|q: int| 0 <= q < b.len() ==> #[trigger] bm[q] == (b@[q].0.model(), b@[q].1.model()),
            k <= b.len(),
            changes_model(changes@) == removed_pairs(bm, am) + added_pairs(bm, am) + modified_pairs(bm.take(k as int), am),
        decreases b.len() - k,
    {
        proof {
            lemma_take_last(bm, k as int);
        }
        let ghost prev = changes_model(changes@);
        match find_pair_value(a, &b[k].0) {
            Some(av) => {
                if !values_equal(&b[k].1, av) {
                    changes.push(NestedChange::MapEntryModified {
                        key: copy_value(&b[k].0),
                        before: copy_value(&b[k].1),
                        after: copy_value(av),
                    });
                }
            },
            None => {},
        }
        proof {
            let t = modified_pairs(bm.take(k + 1), am);
            if changes@.len() > prev.len() {
                assert(changes_model(changes@) =~= prev.push(changes@.last().model()));
            } else {
                assert(changes_model(changes@) =~= prev);
            }
            assert(changes_model(changes@) =~= removed_pairs(bm, am) + added_pairs(bm, am) + t);
        }
        k = k + 1;
    }
    proof {
        assert(bm.take(b.len() as int) =~= bm);
    }
    changes
}

/// Computes the nested changes from `before` to `after`.
pub fn compute_nested_changes(before: &StateValue, after: &StateValue) -> (r: Vec<NestedChange>)
    ensures
        changes_model(r@) == nested_changes(before.model(), after.model()),
    decreases before,
{
    match (before, after) {
        (StateValue::Struct(bf), StateValue::Struct(af)) => {
            let r = struct_changes(bf, af);
            assert(changes_model(r@) == nested_changes(before.model(), after.model()));
            r
        },
        (StateValue::Vec(b), StateValue::Vec(a)) => {
            let r = vec_item_changes(b, a);
            proof {
                lemma_model_seq(b@);
                lemma_model_seq(a@);
            }
            assert(changes_model(r@) == nested_changes(before.model(), after.model()));
            r
        },
        (StateValue::Mapping(b), StateValue::Mapping(a)) => {
            let r = pair_changes(b, a);
            assert(changes_model(r@) == nested_changes(before.model(), after.model()));
            r
        },
        (StateValue::Option(b), StateValue::Option(a)) => match (b, a) {
            (Some(x), Some(y)) => {
                if !values_equal(x, y) {
                    compute_nested_changes(x, y)
                } else {
                    let r: Vec<NestedChange> = Vec::new();
                    proof {
                        assert(changes_model(r@) =~= Seq::<ChangeModel>::empty());
                    }
                    r
                }
            },
            (Some(x), None) => {
                let r = vec![NestedChange::ItemRemoved { index: 0, value: copy_value(x) }];
                proof {
                    assert(changes_model(r@) =~= nested_changes(before.model(), after.model()));
                }
                r
            },
            (None, Some(y)) => {
                let r = vec![NestedChange::ItemAdded { index: 0, value: copy_value(y) }];
                proof {
                    assert(changes_model(r@) =~= nested_changes(before.model(), after.model()));
                }
                r
            },
            (None, None) => {
                let r: Vec<NestedChange> = Vec::new();
                proof {
                    assert(changes_model(r@) =~= Seq::<ChangeModel>::empty());
                }
                r
            },
        },
        _ => {
            let r: Vec<NestedChange> = Vec::new();
            proof {
                assert(changes_model(r@) =~= Seq::<ChangeModel>::empty());
            }
            r
        },
    }
}

} // verus!
