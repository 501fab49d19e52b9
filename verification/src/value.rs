use vstd::prelude::*;
use vstd::string::StringExecFns;
use crate::seeding::{
    StorageModel, StorageValue, hex_decode, lemma_storage_fields, lemma_storage_pairs, lemma_storage_seq,
    lemma_stored_pairs, lemma_stored_seq, storage_fields, storage_model, storage_pairs, storage_seq,
    stored_pairs, stored_seq,
};
use crate::debug_text::{debug_fields, debug_model, debug_pairs, debug_seq, str_debug, str_debug_of};
use crate::text::decimal_text;
use crate::order::{bytes_order, text_order, lemma_text_basic, lemma_text_trans, value_order, seq_order, pairs_order, fields_order, variant_rank, lemma_value_basic};

verus! {

/// A normalized Soroban contract value.
#[derive(Debug, PartialEq, Eq, Hash, PartialOrd, Ord)]
pub enum StateValue {
    Address(String),
    U32(u32),
    U64(u64),
    Bool(bool),
    Symbol(String),
    Bytes(String),
    Struct(StructFields),
    Mapping(Vec<(StateValue, StateValue)>),
    Vec(Vec<StateValue>),
    Option(Option<Box<StateValue>>),
}

/// Named fields of a struct value, kept sorted by field name.
#[derive(Debug, PartialEq, Eq, Hash, PartialOrd, Ord)]
pub struct StructFields {
    entries: Vec<(String, StateValue)>,
}

/// Mathematical model of a `StateValue`.
pub enum ValueModel {
    Address(Seq<char>),
    U32(u32),
    U64(u64),
    Bool(bool),
    Symbol(Seq<char>),
    Bytes(Seq<char>),
    Struct(Seq<(Seq<char>, ValueModel)>),
    Mapping(Seq<(ValueModel, ValueModel)>),
    Vec(Seq<ValueModel>),
    Option(Option<Box<ValueModel>>),
}

pub open spec fn model_seq(s: Seq<StateValue>) -> Seq<ValueModel>
    decreases s,
{
    if s.len() == 0 {
        Seq::empty()
    } else {
        model_seq(s.subrange(0, s.len() - 1)).push(s[s.len() - 1].model())
    }
}

pub open spec fn model_pairs(s: Seq<(StateValue, StateValue)>) -> Seq<(ValueModel, ValueModel)>
    decreases s,
{
    if s.len() == 0 {
        Seq::empty()
    } else {
        model_pairs(s.subrange(0, s.len() - 1)).push((s[s.len() - 1].0.model(), s[s.len() - 1].1.model()))
    }
}

pub open spec fn model_fields(s: Seq<(String, StateValue)>) -> Seq<(Seq<char>, ValueModel)>
    decreases s,
{
    if s.len() == 0 {
        Seq::empty()
    } else {
        model_fields(s.subrange(0, s.len() - 1)).push((s[s.len() - 1].0@, s[s.len() - 1].1.model()))
    }
}

impl StateValue {
    pub open spec fn model(&self) -> ValueModel
        decreases self,
    {
        match self {
            StateValue::Address(s) => ValueModel::Address(s@),
            StateValue::U32(v) => ValueModel::U32(*v),
            StateValue::U64(v) => ValueModel::U64(*v),
            StateValue::Bool(b) => ValueModel::Bool(*b),
            StateValue::Symbol(s) => ValueModel::Symbol(s@),
            StateValue::Bytes(s) => ValueModel::Bytes(s@),
            StateValue::Struct(f) => ValueModel::Struct(f.model()),
            StateValue::Mapping(p) => ValueModel::Mapping(model_pairs(p@)),
            StateValue::Vec(v) => ValueModel::Vec(model_seq(v@)),
            StateValue::Option(None) => ValueModel::Option(None),
            StateValue::Option(Some(b)) => ValueModel::Option(Some(Box::new(b.model()))),
        }
    }
}

impl StructFields {
    /// The fields as (name, value) pairs in stored order.
    pub closed spec fn model(&self) -> Seq<(Seq<char>, ValueModel)>
        decreases self,
    {
        model_fields(self.entries@)
    }
}


pub proof fn lemma_model_seq(s: Seq<StateValue>)
    ensures
        model_seq(s).len() == s.len(),
        forall|i: int| 0 <= i < s.len() ==> #[trigger] model_seq(s)[i] == s[i].model(),
    decreases s.len(),
{
    if s.len() > 0 {
        lemma_model_seq(s.subrange(0, s.len() - 1));
    }
}

pub proof fn lemma_model_pairs(s: Seq<(StateValue, StateValue)>)
    ensures
        model_pairs(s).len() == s.len(),
        forall|i: int| 0 <= i < s.len() ==> #[trigger] model_pairs(s)[i] == (s[i].0.model(), s[i].1.model()),
    decreases s.len(),
{
    if s.len() > 0 {
        lemma_model_pairs(s.subrange(0, s.len() - 1));
    }
}

pub proof fn lemma_model_fields(s: Seq<(String, StateValue)>)
    ensures
        model_fields(s).len() == s.len(),
        forall|i: int| 0 <= i < s.len() ==> #[trigger] model_fields(s)[i] == (s[i].0@, s[i].1.model()),
    decreases s.len(),
{
    if s.len() > 0 {
        lemma_model_fields(s.subrange(0, s.len() - 1));
    }
}

/// Three-way comparison of two byte strings.
pub fn compare_bytes(x: &[u8], y: &[u8]) -> (r: i8)
    ensures
        r == bytes_order(x@, y@),
{
    let mut i: usize = 0;
    assert(x@.subrange(0, x@.len() as int) =~= x@);
    assert(y@.subrange(0, y@.len() as int) =~= y@);
    while i < x.len() && i < y.len()
        invariant
            i <= x.len(),
            i <= y.len(),
            bytes_order(x@, y@) == bytes_order(x@.subrange(i as int, x@.len() as int), y@.subrange(i as int, y@.len() as int)),
        decreases x.len() - i,
    {
        if x[i] < y[i] {
            return -1;
        } else if x[i] > y[i] {
            return 1;
        }
        assert(x@.subrange(i as int, x@.len() as int).drop_first() =~= x@.subrange(i + 1, x@.len() as int));
        assert(y@.subrange(i as int, y@.len() as int).drop_first() =~= y@.subrange(i + 1, y@.len() as int));
        i = i + 1;
    }
    if i < x.len() {
        1
    } else if i < y.len() {
        -1
    } else {
        0
    }
}

/// Three-way comparison of two texts by their UTF-8 bytes.
pub fn compare_text(a: &str, b: &str) -> (r: i8)
    ensures
        r == text_order(a@, b@),
{
    compare_bytes(a.as_bytes(), b.as_bytes())
}

/// Three-way comparison of two values (-1, 0 or 1).
pub fn compare_values(a: &StateValue, b: &StateValue) -> (r: i8)
    ensures
        r == value_order(a.model(), b.model()),
    decreases a,
{
    match (a, b) {
        (StateValue::Address(x), StateValue::Address(y)) => compare_text(x.as_str(), y.as_str()),
        (StateValue::U32(x), StateValue::U32(y)) => if *x < *y { -1 } else if *x > *y { 1 } else { 0 },
        (StateValue::U64(x), StateValue::U64(y)) => if *x < *y { -1 } else if *x > *y { 1 } else { 0 },
        (StateValue::Bool(x), StateValue::Bool(y)) => if !*x && *y { -1 } else if *x && !*y { 1 } else { 0 },
        (StateValue::Symbol(x), StateValue::Symbol(y)) => compare_text(x.as_str(), y.as_str()),
        (StateValue::Bytes(x), StateValue::Bytes(y)) => compare_text(x.as_str(), y.as_str()),
        (StateValue::Struct(x), StateValue::Struct(y)) => compare_fields(x, y),
        (StateValue::Mapping(x), StateValue::Mapping(y)) => compare_pairs(x, y),
        (StateValue::Vec(x), StateValue::Vec(y)) => compare_seq(x, y),
        (StateValue::Option(x), StateValue::Option(y)) => match (x, y) {
            (None, None) => 0,
            (None, Some(_)) => -1,
            (Some(_), None) => 1,
            (Some(p), Some(q)) => compare_values(p, q),
        },
        _ => {
            let ra = rank_of(a);
            let rb = rank_of(b);
            if ra < rb { -1 } else { 1 }
        },
    }
}

fn rank_of(a: &StateValue) -> (r: u8)
    ensures
        r == variant_rank(a.model()),
{
    match a {
        StateValue::Address(_) => 0,
        StateValue::U32(_) => 1,
        StateValue::U64(_) => 2,
        StateValue::Bool(_) => 3,
        StateValue::Symbol(_) => 4,
        StateValue::Bytes(_) => 5,
        StateValue::Struct(_) => 6,
        StateValue::Mapping(_) => 7,
        StateValue::Vec(_) => 8,
        StateValue::Option(_) => 9,
    }
}

fn compare_seq(x: &Vec<StateValue>, y: &Vec<StateValue>) -> (r: i8)
    ensures
        r == seq_order(model_seq(x@), model_seq(y@)),
    decreases x,
{
    proof {
        lemma_model_seq(x@);
        lemma_model_seq(y@);
    }
    let ghost xm = model_seq(x@);
    let ghost ym = model_seq(y@);
    let mut i: usize = 0;
    assert(xm.subrange(0, xm.len() as int) =~= xm);
    assert(ym.subrange(0, ym.len() as int) =~= ym);
    while i < x.len() && i < y.len()
        invariant
            i <= x.len(),
            i <= y.len(),
            xm == model_seq(x@),
            ym == model_seq(y@),
            xm.len() == x.len(),
            ym.len() == y.len(),
            forall|k: int| 0 <= k < x.len() ==> #[trigger] xm[k] == x@[k].model(),
            forall|k: int| 0 <= k < y.len() ==> #[trigger] ym[k] == y@[k].model(),
            seq_order(xm, ym) == seq_order(xm.subrange(i as int, xm.len() as int), ym.subrange(i as int, ym.len() as int)),
        decreases x.len() - i,
    {
        assert(decreases_to!(x => x@[i as int]));
        let c = compare_values(&x[i], &y[i]);
        let ghost xs = xm.subrange(i as int, xm.len() as int);
        let ghost ys = ym.subrange(i as int, ym.len() as int);
        assert(xs[0] == xm[i as int]);
        assert(ys[0] == ym[i as int]);
        if c != 0 {
            return c;
        }
        assert(xs.subrange(1, xs.len() as int) =~= xm.subrange(i + 1, xm.len() as int));
        assert(ys.subrange(1, ys.len() as int) =~= ym.subrange(i + 1, ym.len() as int));
        i = i + 1;
    }
    if i < x.len() {
        1
    } else if i < y.len() {
        -1
    } else {
        0
    }
}

fn compare_pairs(x: &Vec<(StateValue, StateValue)>, y: &Vec<(StateValue, StateValue)>) -> (r: i8)
    ensures
        r == pairs_order(model_pairs(x@), model_pairs(y@)),
    decreases x,
{
    proof {
        lemma_model_pairs(x@);
        lemma_model_pairs(y@);
    }
    let ghost xm = model_pairs(x@);
    let ghost ym = model_pairs(y@);
    let mut i: usize = 0;
    assert(xm.subrange(0, xm.len() as int) =~= xm);
    assert(ym.subrange(0, ym.len() as int) =~= ym);
    while i < x.len() && i < y.len()
        invariant
            i <= x.len(),
            i <= y.len(),
            xm == model_pairs(x@),
            ym == model_pairs(y@),
            xm.len() == x.len(),
            ym.len() == y.len(),
            forall|k: int| 0 <= k < x.len() ==> #[trigger] xm[k] == (x@[k].0.model(), x@[k].1.model()),
            forall|k: int| 0 <= k < y.len() ==> #[trigger] ym[k] == (y@[k].0.model(), y@[k].1.model()),
            pairs_order(xm, ym) == pairs_order(xm.subrange(i as int, xm.len() as int), ym.subrange(i as int, ym.len() as int)),
        decreases x.len() - i,
    {
        assert(decreases_to!(x => x@[i as int].0));
        assert(decreases_to!(x => x@[i as int].1));
        let ghost xs = xm.subrange(i as int, xm.len() as int);
        let ghost ys = ym.subrange(i as int, ym.len() as int);
        assert(xs[0] == xm[i as int]);
        assert(ys[0] == ym[i as int]);
        let c = compare_values(&x[i].0, &y[i].0);
        if c != 0 {
            return c;
        }
        let d = compare_values(&x[i].1, &y[i].1);
        if d != 0 {
            return d;
        }
        assert(xs.subrange(1, xs.len() as int) =~= xm.subrange(i + 1, xm.len() as int));
        assert(ys.subrange(1, ys.len() as int) =~= ym.subrange(i + 1, ym.len() as int));
        i = i + 1;
    }
    if i < x.len() {
        1
    } else if i < y.len() {
        -1
    } else {
        0
    }
}

fn compare_fields(x: &StructFields, y: &StructFields) -> (r: i8)
    ensures
        r == fields_order(x.model(), y.model()),
    decreases x,
{
    let xe = &x.entries;
    let ye = &y.entries;
    proof {
        lemma_model_fields(xe@);
        lemma_model_fields(ye@);
    }
    let ghost xm = model_fields(xe@);
    let ghost ym = model_fields(ye@);
    let mut i: usize = 0;
    assert(xm.subrange(0, xm.len() as int) =~= xm);
    assert(ym.subrange(0, ym.len() as int) =~= ym);
    while i < xe.len() && i < ye.len()
        invariant
            i <= xe.len(),
            i <= ye.len(),
            xe == x.entries,
            ye == y.entries,
            xm == x.model(),
            ym == y.model(),
            xm.len() == xe.len(),
            ym.len() == ye.len(),
            forall|k: int| 0 <= k < xe.len() ==> #[trigger] xm[k] == (xe@[k].0@, xe@[k].1.model()),
            forall|k: int| 0 <= k < ye.len() ==> #[trigger] ym[k] == (ye@[k].0@, ye@[k].1.model()),
            fields_order(xm, ym) == fields_order(xm.subrange(i as int, xm.len() as int), ym.subrange(i as int, ym.len() as int)),
        decreases xe.len() - i,
    {
        assert(decreases_to!(x => x.entries@[i as int].1));
        let ghost xs = xm.subrange(i as int, xm.len() as int);
        let ghost ys = ym.subrange(i as int, ym.len() as int);
        assert(xs[0] == xm[i as int]);
        assert(ys[0] == ym[i as int]);
        let c = compare_text(xe[i].0.as_str(), ye[i].0.as_str());
        if c != 0 {
            return c;
        }
        let d = compare_values(&xe[i].1, &ye[i].1);
        if d != 0 {
            return d;
        }
        assert(xs.subrange(1, xs.len() as int) =~= xm.subrange(i + 1, xm.len() as int));
        assert(ys.subrange(1, ys.len() as int) =~= ym.subrange(i + 1, ym.len() as int));
        i = i + 1;
    }
    if i < xe.len() {
        1
    } else if i < ye.len() {
        -1
    } else {
        0
    }
}

/// Whether two values are equal.
pub fn values_equal(a: &StateValue, b: &StateValue) -> (r: bool)
    ensures
        r == (a.model() == b.model()),
{
    proof {
        lemma_value_basic(a.model(), b.model());
    }
    compare_values(a, b) == 0
}


/// Field names strictly increase along the sequence.
pub open spec fn names_sorted(m: Seq<(Seq<char>, ValueModel)>) -> bool {
    forall|i: int, j: int| 0 <= i < j < m.len() ==> text_order(#[trigger] m[i].0, #[trigger] m[j].0) < 0
}

/// The value stored under `name` (the last occurrence wins).
pub open spec fn field_value(m: Seq<(Seq<char>, ValueModel)>, name: Seq<char>) -> Option<ValueModel>
    decreases m.len(),
{
    if m.len() == 0 {
        None
    } else if m.last().0 == name {
        Some(m.last().1)
    } else {
        field_value(m.drop_last(), name)
    }
}

pub proof fn lemma_field_value_sorted(m: Seq<(Seq<char>, ValueModel)>, name: Seq<char>)
    requires
        names_sorted(m),
    ensures
        forall|i: int| 0 <= i < m.len() && m[i].0 == name ==> field_value(m, name) == Some(m[i].1),
        (forall|i: int| 0 <= i < m.len() ==> m[i].0 != name) ==> field_value(m, name) is None,
    decreases m.len(),
{
    if m.len() > 0 {
        let d = m.drop_last();
        assert(names_sorted(d)) by {
            assert forall|i: int, j: int| 0 <= i < j < d.len() implies text_order(#[trigger] d[i].0, #[trigger] d[j].0) < 0 by {
                assert(d[i] == m[i] && d[j] == m[j]);
            }
        }
        lemma_field_value_sorted(d, name);
        assert forall|i: int| 0 <= i < m.len() && m[i].0 == name implies field_value(m, name) == Some(m[i].1) by {
            if i < m.len() - 1 {
                assert(text_order(m[i].0, m[m.len() - 1].0) < 0);
                lemma_text_basic(m[i].0, m[i].0);
                assert(d[i] == m[i]);
            }
        }
        if forall|i: int| 0 <= i < m.len() ==> m[i].0 != name {
            assert forall|i: int| 0 <= i < d.len() implies d[i].0 != name by {
                assert(d[i] == m[i]);
            }
        }
    }
}

impl StructFields {
    /// Field names are kept strictly increasing.
    #[verifier::type_invariant]
    pub closed spec fn well_formed(&self) -> bool {
        names_sorted(self.model())
    }

    /// An empty set of fields.
    pub fn new() -> (r: StructFields)
        ensures
            r.model() == Seq::<(Seq<char>, ValueModel)>::empty(),
    {
        let r = StructFields { entries: Vec::new() };
        proof {
            assert(r.model() =~= Seq::<(Seq<char>, ValueModel)>::empty());
        }
        r
    }

    /// Number of fields.
    pub fn len(&self) -> (r: usize)
        ensures
            r == self.model().len(),
            names_sorted(self.model()),
    {
        proof {
            use_type_invariant(self);
            lemma_model_fields(self.entries@);
        }
        self.entries.len()
    }

    /// Whether there are no fields.
    pub fn is_empty(&self) -> (r: bool)
        ensures
            r == (self.model().len() == 0),
    {
        proof {
            lemma_model_fields(self.entries@);
        }
        self.entries.len() == 0
    }

    /// The name of the `i`-th field in name order.
    pub fn name_at(&self, i: usize) -> (r: &String)
        requires
            i < self.model().len(),
        ensures
            r@ == self.model()[i as int].0,
    {
        proof {
            lemma_model_fields(self.entries@);
        }
        &self.entries[i].0
    }

    /// The value of the `i`-th field in name order.
    pub fn value_at(&self, i: usize) -> (r: &StateValue)
        requires
            i < self.model().len(),
        ensures
            r.model() == self.model()[i as int].1,
    {
        proof {
            lemma_model_fields(self.entries@);
        }
        &self.entries[i].1
    }

    /// The value of the field called `name`, if there is one.
    pub fn get(&self, name: &str) -> (r: Option<&StateValue>)
        ensures
            match r {
                Some(v) => field_value(self.model(), name@) == Some(v.model()),
                None => field_value(self.model(), name@) is None,
            },
    {
        proof {
            use_type_invariant(self);
            lemma_model_fields(self.entries@);
            lemma_field_value_sorted(self.model(), name@);
        }
        let mut i: usize = 0;
        while i < self.entries.len()
            invariant
                i <= self.entries.len(),
                self.model().len() == self.entries.len(),
                forall|k: int| 0 <= k < self.entries.len() ==> #[trigger] self.model()[k] == (self.entries@[k].0@, self.entries@[k].1.model()),
                forall|k: int| 0 <= k < i ==> self.model()[k].0 != name@,
            decreases self.entries.len() - i,
        {
            let c = compare_text(self.entries[i].0.as_str(), name);
            proof {
                lemma_text_basic(self.entries@[i as int].0@, name@);
            }
            if c == 0 {
                proof {
                    use_type_invariant(self);
                    lemma_field_value_sorted(self.model(), name@);
                    assert(self.model()[i as int].0 == name@);
                    assert(field_value(self.model(), name@) == Some(self.model()[i as int].1));
                }
                return Some(&self.entries[i].1);
            }
            i = i + 1;
        }
        None
    }

    /// Whether a field called `name` exists.
    pub fn contains_key(&self, name: &str) -> (r: bool)
        ensures
            r == field_value(self.model(), name@) is Some,
    {
        self.get(name).is_some()
    }

    /// Sets the field `name` to `value`, returning the value it replaced.
    pub fn insert(&mut self, name: String, value: StateValue) -> (r: Option<StateValue>)
        ensures
            final(self).model() == with_field(old(self).model(), name@, value.model()),
            names_sorted(final(self).model()),
            forall|n: Seq<char>| #[trigger] field_value(final(self).model(), n)
                == if n == name@ { Some(value.model()) } else { field_value(old(self).model(), n) },
            match r {
                Some(v) => field_value(old(self).model(), name@) == Some(v.model()),
                None => field_value(old(self).model(), name@) is None,
            },
    {
        proof {
            use_type_invariant(&*self);
        }
        let ghost m = self.model();
        let mut entries: Vec<(String, StateValue)> = Vec::new();
        proof {
            assert(model_fields(entries@) =~= Seq::<(Seq<char>, ValueModel)>::empty());
        }
        std::mem::swap(&mut entries, &mut self.entries);
        proof {
            lemma_model_fields(entries@);
            lemma_field_value_sorted(m, name@);
        }
        assert(m == model_fields(entries@));
        let mut i: usize = 0;
        while i < entries.len() && compare_text(entries[i].0.as_str(), name.as_str()) < 0
            invariant
                i <= entries.len(),
                m.len() == entries.len(),
                forall|k: int| 0 <= k < entries.len() ==> #[trigger] m[k] == (entries@[k].0@, entries@[k].1.model()),
                forall|k: int| 0 <= k < i ==> text_order(#[trigger] m[k].0, name@) < 0,
            decreases entries.len() - i,
        {
            i = i + 1;
        }
        let ghost nm = (name@, value.model());
        let r;
        let ghost replaced = i < entries.len() && text_order(m[i as int].0, name@) == 0;
        if i < entries.len() && compare_text(entries[i].0.as_str(), name.as_str()) == 0 {
            proof {
                lemma_text_basic(m[i as int].0, name@);
            }
            let (_, old_value) = entries.remove(i);
            entries.insert(i, (name, value));
            r = Some(old_value);
        } else {
            entries.insert(i, (name, value));
            r = None;
        }
        proof {
            lemma_model_fields(entries@);
            let m2 = model_fields(entries@);
            if replaced {
                assert(m2 =~= m.update(i as int, nm));
            } else {
                assert(m2 =~= m.insert(i as int, nm));
            }
            assert(m2 == placed(m, i as int, nm, replaced));
            lemma_names_below(m, name@, i as int);
            if i < entries.len() {
                lemma_text_basic(m[i as int].0, name@);
            }
            assert(m2 == with_field(m, name@, value.model()));
            lemma_place_sorted(m, i as int, nm, replaced);
            lemma_place_values(m, i as int, nm, replaced);
        }
        self.entries = entries;
        r
    }
}

pub open spec fn placed(m: Seq<(Seq<char>, ValueModel)>, i: int, nm: (Seq<char>, ValueModel), replaced: bool) -> Seq<(Seq<char>, ValueModel)> {
    if replaced { m.update(i, nm) } else { m.insert(i, nm) }
}

/// Number of leading fields whose names order before `name`.
pub open spec fn names_below(m: Seq<(Seq<char>, ValueModel)>, name: Seq<char>) -> nat
    decreases m.len(),
{
    if m.len() == 0 || text_order(m[0].0, name) >= 0 {
        0
    } else {
        1 + names_below(m.drop_first(), name)
    }
}

/// Sorted fields with `name` set to `v`: the field replaced where the name
/// is present, inserted in name order where it is not.
pub open spec fn with_field(m: Seq<(Seq<char>, ValueModel)>, name: Seq<char>, v: ValueModel) -> Seq<(Seq<char>, ValueModel)> {
    let i = names_below(m, name) as int;
    placed(m, i, (name, v), i < m.len() && m[i].0 == name)
}

proof fn lemma_names_below(m: Seq<(Seq<char>, ValueModel)>, name: Seq<char>, i: int)
    requires
        0 <= i <= m.len(),
        forall|k: int| 0 <= k < i ==> text_order(#[trigger] m[k].0, name) < 0,
        i < m.len() ==> text_order(m[i].0, name) >= 0,
    ensures
        names_below(m, name) == i,
    decreases m.len(),
{
    if m.len() > 0 && i > 0 {
        let t = m.drop_first();
        assert forall|k: int| 0 <= k < i - 1 implies text_order(#[trigger] t[k].0, name) < 0 by {
            assert(t[k] == m[k + 1]);
        }
        assert(text_order(m[0].0, name) < 0);
        lemma_names_below(t, name, i - 1);
    }
}

/// Placing a field at the position found by a scan keeps names sorted.
proof fn lemma_place_sorted(m: Seq<(Seq<char>, ValueModel)>, i: int, nm: (Seq<char>, ValueModel), replaced: bool)
    requires
        names_sorted(m),
        0 <= i <= m.len(),
        forall|k: int| 0 <= k < i ==> text_order(#[trigger] m[k].0, nm.0) < 0,
        i < m.len() ==> text_order(m[i].0, nm.0) >= 0,
        replaced == (i < m.len() && text_order(m[i].0, nm.0) == 0),
    ensures
        names_sorted(placed(m, i, nm, replaced)),
{
    let m2 = placed(m, i, nm, replaced);
    let name = nm.0;
    if i < m.len() {
        lemma_text_basic(m[i].0, name);
    }
    assert forall|a: int, b: int| 0 <= a < b < m2.len() implies text_order(#[trigger] m2[a].0, #[trigger] m2[b].0) < 0 by {
        if replaced {
            if a == i {
                assert(m2[b] == m[b]);
            } else if b == i {
                assert(m2[a] == m[a]);
            } else {
                assert(m2[a] == m[a] && m2[b] == m[b]);
            }
        } else {
            if b == i {
                assert(m2[a] == m[a]);
            } else if a == i {
                assert(m2[b] == m[b - 1]);
                if b - 1 > i {
                    lemma_text_trans(name, m[i].0, m[b - 1].0);
                }
            } else if a < i && b < i {
                assert(m2[a] == m[a] && m2[b] == m[b]);
            } else if a < i {
                assert(m2[a] == m[a] && m2[b] == m[b - 1]);
            } else {
                assert(m2[a] == m[a - 1] && m2[b] == m[b - 1]);
            }
        }
    }
}

/// Placing a field updates exactly the placed name.
#[verifier::rlimit(40)]
proof fn lemma_place_values(m: Seq<(Seq<char>, ValueModel)>, i: int, nm: (Seq<char>, ValueModel), replaced: bool)
    requires
        names_sorted(m),
        names_sorted(placed(m, i, nm, replaced)),
        0 <= i <= m.len(),
        forall|k: int| 0 <= k < i ==> text_order(#[trigger] m[k].0, nm.0) < 0,
        i < m.len() ==> text_order(m[i].0, nm.0) >= 0,
        replaced == (i < m.len() && text_order(m[i].0, nm.0) == 0),
    ensures
        forall|n: Seq<char>| #[trigger] field_value(placed(m, i, nm, replaced), n)
            == if n == nm.0 { Some(nm.1) } else { field_value(m, n) },
        replaced ==> field_value(m, nm.0) == Some(m[i].1),
        !replaced ==> field_value(m, nm.0) is None,
{
    let m2 = placed(m, i, nm, replaced);
    let name = nm.0;
    if i < m.len() {
        lemma_text_basic(m[i].0, name);
    }
    assert(m2[i] == nm);
    lemma_field_value_sorted(m, name);
    lemma_field_value_sorted(m2, name);
    if !replaced {
        assert forall|k: int| 0 <= k < m.len() implies m[k].0 != name by {
            if k < i {
                lemma_text_basic(m[k].0, name);
            } else if k > i {
                lemma_text_trans(name, m[i].0, m[k].0);
                lemma_text_basic(name, m[k].0);
                lemma_text_basic(name, name);
            }
        }
    }
    assert forall|n: Seq<char>| #[trigger] field_value(m2, n) == if n == name { Some(nm.1) } else { field_value(m, n) } by {
        lemma_field_value_sorted(m2, n);
        lemma_field_value_sorted(m, n);
        if n != name {
            if exists|k: int| 0 <= k < m.len() && m[k].0 == n {
                let k = choose|k: int| 0 <= k < m.len() && m[k].0 == n;
                if replaced || k < i {
                    assert(m2[k] == m[k]);
                } else {
                    assert(m2[k + 1] == m[k]);
                }
            } else {
                assert forall|k: int| 0 <= k < m2.len() implies m2[k].0 != n by {
                    if k != i {
                        if replaced || k < i {
                            assert(m2[k] == m[k]);
                        } else {
                            assert(m2[k] == m[k - 1]);
                        }
                    }
                }
            }
        }
    }
}

/// A copy of `a` with the same model.
pub fn copy_value(a: &StateValue) -> (r: StateValue)
    ensures
        r.model() == a.model(),
    decreases a,
{
    match a {
        StateValue::Address(s) => StateValue::Address(s.clone()),
        StateValue::U32(v) => StateValue::U32(*v),
        StateValue::U64(v) => StateValue::U64(*v),
        StateValue::Bool(b) => StateValue::Bool(*b),
        StateValue::Symbol(s) => StateValue::Symbol(s.clone()),
        StateValue::Bytes(s) => StateValue::Bytes(s.clone()),
        StateValue::Struct(f) => StateValue::Struct(copy_fields(f)),
        StateValue::Mapping(p) => StateValue::Mapping(copy_pairs(p)),
        StateValue::Vec(v) => StateValue::Vec(copy_seq(v)),
        StateValue::Option(None) => StateValue::Option(None),
        StateValue::Option(Some(b)) => StateValue::Option(Some(Box::new(copy_value(b)))),
    }
}

fn copy_seq(v: &Vec<StateValue>) -> (r: Vec<StateValue>)
    ensures
        model_seq(r@) == model_seq(v@),
    decreases v,
{
    let mut out: Vec<StateValue> = Vec::new();
    let mut i: usize = 0;
    while i < v.len()
        invariant
            i <= v.len(),
            out.len() == i,
            forall|k: int| 0 <= k < i ==> #[trigger] out@[k].model() == v@[k].model(),
        decreases v.len() - i,
    {
        assert(decreases_to!(v => v@[i as int]));
        out.push(copy_value(&v[i]));
        i = i + 1;
    }
    proof {
        lemma_model_seq(out@);
        lemma_model_seq(v@);
        assert(model_seq(out@) =~= model_seq(v@));
    }
    out
}

fn copy_pairs(v: &Vec<(StateValue, StateValue)>) -> (r: Vec<(StateValue, StateValue)>)
    ensures
        model_pairs(r@) == model_pairs(v@),
    decreases v,
{
    let mut out: Vec<(StateValue, StateValue)> = Vec::new();
    let mut i: usize = 0;
    while i < v.len()
        invariant
            i <= v.len(),
            out.len() == i,
            forall|k: int| 0 <= k < i ==> #[trigger] out@[k].0.model() == v@[k].0.model() && out@[k].1.model() == v@[k].1.model(),
        decreases v.len() - i,
    {
        assert(decreases_to!(v => v@[i as int].0));
        assert(decreases_to!(v => v@[i as int].1));
        let a = copy_value(&v[i].0);
        let b = copy_value(&v[i].1);
        out.push((a, b));
        i = i + 1;
    }
    proof {
        lemma_model_pairs(out@);
        lemma_model_pairs(v@);
        assert(model_pairs(out@) =~= model_pairs(v@));
    }
    out
}

fn copy_fields(f: &StructFields) -> (r: StructFields)
    ensures
        r.model() == f.model(),
    decreases f,
{
    proof {
        use_type_invariant(f);
    }
    let v = &f.entries;
    let mut out: Vec<(String, StateValue)> = Vec::new();
    let mut i: usize = 0;
    while i < v.len()
        invariant
            i <= v.len(),
            v == f.entries,
            out.len() == i,
            forall|k: int| 0 <= k < i ==> #[trigger] out@[k].0@ == v@[k].0@ && out@[k].1.model() == v@[k].1.model(),
        decreases v.len() - i,
    {
        assert(decreases_to!(f => f.entries@[i as int].1));
        let b = copy_value(&v[i].1);
        out.push((v[i].0.clone(), b));
        i = i + 1;
    }
    proof {
        lemma_model_fields(out@);
        lemma_model_fields(v@);
        assert(model_fields(out@) =~= model_fields(v@));
    }
    StructFields { entries: out }
}

/// The stored form of a value, or the message for the first bytes inside
/// that are not valid hexadecimal text.
pub(crate) fn storage_form(a: &StateValue) -> (r: Result<StorageValue, String>)
    ensures
        r matches Ok(x) ==> storage_model(a.model()) == Ok::<StorageModel, Seq<char>>(x.model()),
        r matches Err(m) ==> storage_model(a.model()) == Err::<StorageModel, Seq<char>>(m@),
    decreases a,
{
    match a {
        StateValue::Address(s) => Ok(StorageValue::Address(s.clone())),
        StateValue::U32(v) => Ok(StorageValue::U32(*v)),
        StateValue::U64(v) => Ok(StorageValue::U64(*v)),
        StateValue::Bool(b) => Ok(StorageValue::Bool(*b)),
        StateValue::Symbol(s) => Ok(StorageValue::Symbol(s.clone())),
        StateValue::Bytes(h) => match hex_decode(h.as_str()) {
            Ok(b) => Ok(StorageValue::Bytes(b)),
            Err(e) => Err(String::from_str("Invalid hex bytes: ").concat(e.as_str())),
        },
        StateValue::Struct(f) => match storage_form_fields(f) {
            Ok(p) => Ok(StorageValue::Mapping(p)),
            Err(e) => Err(e),
        },
        StateValue::Mapping(p) => match storage_form_pairs(p) {
            Ok(q) => Ok(StorageValue::Mapping(q)),
            Err(e) => Err(e),
        },
        StateValue::Vec(v) => match storage_form_seq(v) {
            Ok(q) => Ok(StorageValue::Vec(q)),
            Err(e) => Err(e),
        },
        StateValue::Option(None) => Ok(StorageValue::Void),
        StateValue::Option(Some(b)) => storage_form(b),
    }
}

fn storage_form_seq(v: &Vec<StateValue>) -> (r: Result<Vec<StorageValue>, String>)
    ensures
        r matches Ok(x) ==> storage_seq(model_seq(v@)) == Ok::<Seq<StorageModel>, Seq<char>>(stored_seq(x@)),
        r matches Err(m) ==> storage_seq(model_seq(v@)) == Err::<Seq<StorageModel>, Seq<char>>(m@),
    decreases v,
{
    proof {
        lemma_model_seq(v@);
        lemma_storage_seq(model_seq(v@));
    }
    let ghost s = model_seq(v@);
    let mut out: Vec<StorageValue> = Vec::new();
    let mut i: usize = 0;
    while i < v.len()
        invariant
            i <= v.len(),
            s == model_seq(v@),
            s.len() == v@.len(),
            forall|k: int| 0 <= k < s.len() ==> #[trigger] s[k] == v@[k].model(),
            out.len() == i,
            forall|k: int| 0 <= k < i ==> (#[trigger] storage_model(s[k])) is Ok
                && out@[k].model() == storage_model(s[k])->Ok_0,
        decreases v.len() - i,
    {
        assert(decreases_to!(v => v@[i as int]));
        match storage_form(&v[i]) {
            Ok(x) => out.push(x),
            Err(e) => {
                proof {
                    lemma_storage_seq(s);
                    assert(s[i as int] == v@[i as int].model());
                    assert(storage_model(s[i as int]) is Err);
                }
                return Err(e);
            },
        }
        i = i + 1;
    }
    proof {
        lemma_storage_seq(s);
        lemma_stored_seq(out@);
        assert forall|k: int| 0 <= k < out@.len() implies stored_seq(out@)[k] == storage_seq(s)->Ok_0[k] by {
            assert(storage_model(s[k]) is Ok);
        }
        assert(stored_seq(out@) =~= storage_seq(s)->Ok_0);
    }
    Ok(out)
}

fn storage_form_pairs(v: &Vec<(StateValue, StateValue)>) -> (r: Result<Vec<(StorageValue, StorageValue)>, String>)
    ensures
        r matches Ok(x) ==> storage_pairs(model_pairs(v@)) == Ok::<Seq<(StorageModel, StorageModel)>, Seq<char>>(stored_pairs(x@)),
        r matches Err(m) ==> storage_pairs(model_pairs(v@)) == Err::<Seq<(StorageModel, StorageModel)>, Seq<char>>(m@),
    decreases v,
{
    proof {
        lemma_model_pairs(v@);
    }
    let ghost s = model_pairs(v@);
    let mut out: Vec<(StorageValue, StorageValue)> = Vec::new();
    let mut i: usize = 0;
    while i < v.len()
        invariant
            i <= v.len(),
            s == model_pairs(v@),
            s.len() == v@.len(),
            forall|k: int| 0 <= k < s.len() ==> #[trigger] s[k] == (v@[k].0.model(), v@[k].1.model()),
            out.len() == i,
            forall|k: int| 0 <= k < i ==> (#[trigger] storage_model(s[k].0)) is Ok
                && storage_model(s[k].1) is Ok
                && out@[k].0.model() == storage_model(s[k].0)->Ok_0
                && out@[k].1.model() == storage_model(s[k].1)->Ok_0,
        decreases v.len() - i,
    {
        assert(decreases_to!(v => v@[i as int].0));
        assert(decreases_to!(v => v@[i as int].1));
        assert(s[i as int] == (v@[i as int].0.model(), v@[i as int].1.model()));
        let a = match storage_form(&v[i].0) {
            Ok(x) => x,
            Err(e) => {
                proof {
                    lemma_storage_pairs(s);
                    assert(storage_model(s[i as int].0) is Err);
                }
                return Err(e);
            },
        };
        let b = match storage_form(&v[i].1) {
            Ok(x) => x,
            Err(e) => {
                proof {
                    lemma_storage_pairs(s);
                    assert(storage_model(s[i as int].0) is Ok);
                }
                return Err(e);
            },
        };
        out.push((a, b));
        i = i + 1;
    }
    proof {
        lemma_storage_pairs(s);
        lemma_stored_pairs(out@);
        assert forall|k: int| 0 <= k < out@.len() implies stored_pairs(out@)[k] == storage_pairs(s)->Ok_0[k] by {
            assert(storage_model(s[k].0) is Ok);
        }
        assert(stored_pairs(out@) =~= storage_pairs(s)->Ok_0);
    }
    Ok(out)
}

fn storage_form_fields(f: &StructFields) -> (r: Result<Vec<(StorageValue, StorageValue)>, String>)
    ensures
        r matches Ok(x) ==> storage_fields(f.model()) == Ok::<Seq<(StorageModel, StorageModel)>, Seq<char>>(stored_pairs(x@)),
        r matches Err(m) ==> storage_fields(f.model()) == Err::<Seq<(StorageModel, StorageModel)>, Seq<char>>(m@),
    decreases f,
{
    let v = &f.entries;
    proof {
        lemma_model_fields(v@);
    }
    let ghost s = model_fields(v@);
    let mut out: Vec<(StorageValue, StorageValue)> = Vec::new();
    let mut i: usize = 0;
    while i < v.len()
        invariant
            i <= v.len(),
            v == f.entries,
            s == model_fields(v@),
            s.len() == v@.len(),
            forall|k: int| 0 <= k < s.len() ==> #[trigger] s[k] == (v@[k].0@, v@[k].1.model()),
            out.len() == i,
            forall|k: int| 0 <= k < i ==> (#[trigger] storage_model(s[k].1)) is Ok
                && out@[k].0.model() == StorageModel::Symbol(s[k].0)
                && out@[k].1.model() == storage_model(s[k].1)->Ok_0,
        decreases v.len() - i,
    {
        assert(decreases_to!(f => f.entries@[i as int].1));
        assert(s[i as int] == (v@[i as int].0@, v@[i as int].1.model()));
        let b = match storage_form(&v[i].1) {
            Ok(x) => x,
            Err(e) => {
                proof {
                    lemma_storage_fields(s);
                    assert(storage_model(s[i as int].1) is Err);
                }
                return Err(e);
            },
        };
        out.push((StorageValue::Symbol(v[i].0.clone()), b));
        i = i + 1;
    }
    proof {
        lemma_storage_fields(s);
        lemma_stored_pairs(out@);
        assert forall|k: int| 0 <= k < out@.len() implies stored_pairs(out@)[k] == storage_fields(s)->Ok_0[k] by {
            assert(storage_model(s[k].1) is Ok);
        }
        assert(stored_pairs(out@) =~= storage_fields(s)->Ok_0);
    }
    Ok(out)
}

/// The debug text of a value.
pub(crate) fn debug_text_of(a: &StateValue) -> (r: String)
    ensures
        r@ == debug_model(a.model()),
    decreases a,
{
    match a {
        StateValue::Address(t) => String::from_str("Address(").concat(str_debug(t.as_str()).as_str()).concat(")"),
        StateValue::U32(n) => String::from_str("U32(").concat(decimal_text(*n as u64).as_str()).concat(")"),
        StateValue::U64(n) => String::from_str("U64(").concat(decimal_text(*n).as_str()).concat(")"),
        StateValue::Bool(b) => {
            if *b {
                String::from_str("Bool(").concat("true").concat(")")
            } else {
                String::from_str("Bool(").concat("false").concat(")")
            }
        },
        StateValue::Symbol(t) => String::from_str("Symbol(").concat(str_debug(t.as_str()).as_str()).concat(")"),
        StateValue::Bytes(t) => String::from_str("Bytes(").concat(str_debug(t.as_str()).as_str()).concat(")"),
        StateValue::Struct(f) => String::from_str("Struct({").concat(debug_text_fields(f).as_str()).concat("})"),
        StateValue::Mapping(p) => String::from_str("Map([").concat(debug_text_pairs(p).as_str()).concat("])"),
        StateValue::Vec(v) => String::from_str("Vec([").concat(debug_text_seq(v).as_str()).concat("])"),
        StateValue::Option(None) => String::from_str("Option(None)"),
        StateValue::Option(Some(b)) => String::from_str("Option(Some(").concat(debug_text_of(b).as_str()).concat("))"),
    }
}

fn debug_text_seq(v: &Vec<StateValue>) -> (r: String)
    ensures
        r@ == debug_seq(model_seq(v@)),
    decreases v,
{
    proof {
        lemma_model_seq(v@);
    }
    let ghost s = model_seq(v@);
    let mut out = String::new();
    let mut i: usize = 0;
    while i < v.len()
        invariant
            i <= v.len(),
            s == model_seq(v@),
            s.len() == v@.len(),
            forall|k: int| 0 <= k < s.len() ==> #[trigger] s[k] == v@[k].model(),
            out@ == debug_seq(s.subrange(0, i as int)),
        decreases v.len() - i,
    {
        assert(decreases_to!(v => v@[i as int]));
        let piece = debug_text_of(&v[i]);
        let ghost before = out@;
        if i > 0 {
            out.append(", ");
        }
        out.append(piece.as_str());
        proof {
            let t = s.subrange(0, i + 1);
            assert(t.subrange(0, t.len() - 1) =~= s.subrange(0, i as int));
            assert(t[t.len() - 1] == s[i as int]);
            if i == 0 {
                assert(before =~= Seq::<char>::empty());
                assert(out@ =~= debug_model(s[0]));
            } else {
                assert(out@ =~= before + ", "@ + debug_model(s[i as int]));
            }
        }
        i = i + 1;
    }
    proof {
        assert(s.subrange(0, s.len() as int) =~= s);
    }
    out
}

fn debug_text_pairs(v: &Vec<(StateValue, StateValue)>) -> (r: String)
    ensures
        r@ == debug_pairs(model_pairs(v@)),
    decreases v,
{
    proof {
        lemma_model_pairs(v@);
    }
    let ghost s = model_pairs(v@);
    let mut out = String::new();
    let mut i: usize = 0;
    while i < v.len()
        invariant
            i <= v.len(),
            s == model_pairs(v@),
            s.len() == v@.len(),
            forall|k: int| 0 <= k < s.len() ==> #[trigger] s[k] == (v@[k].0.model(), v@[k].1.model()),
            out@ == debug_pairs(s.subrange(0, i as int)),
        decreases v.len() - i,
    {
        assert(decreases_to!(v => v@[i as int].0));
        assert(decreases_to!(v => v@[i as int].1));
        let k = debug_text_of(&v[i].0);
        let x = debug_text_of(&v[i].1);
        let piece = String::from_str("(").concat(k.as_str()).concat(", ").concat(x.as_str()).concat(")");
        let ghost before = out@;
        if i > 0 {
            out.append(", ");
        }
        out.append(piece.as_str());
        proof {
            let t = s.subrange(0, i + 1);
            assert(t.subrange(0, t.len() - 1) =~= s.subrange(0, i as int));
            assert(t[t.len() - 1] == s[i as int]);
            let last = "("@ + debug_model(s[i as int].0) + ", "@ + debug_model(s[i as int].1) + ")"@;
            assert(piece@ =~= last);
            if i == 0 {
                assert(before =~= Seq::<char>::empty());
                assert(out@ =~= last);
            } else {
                assert(out@ =~= before + ", "@ + last);
            }
        }
        i = i + 1;
    }
    proof {
        assert(s.subrange(0, s.len() as int) =~= s);
    }
    out
}

fn debug_text_fields(f: &StructFields) -> (r: String)
    ensures
        r@ == debug_fields(f.model()),
    decreases f,
{
    let v = &f.entries;
    proof {
        lemma_model_fields(v@);
    }
    let ghost s = model_fields(v@);
    let mut out = String::new();
    let mut i: usize = 0;
    while i < v.len()
        invariant
            i <= v.len(),
            v == f.entries,
            s == model_fields(v@),
            s.len() == v@.len(),
            forall|k: int| 0 <= k < s.len() ==> #[trigger] s[k] == (v@[k].0@, v@[k].1.model()),
            out@ == debug_fields(s.subrange(0, i as int)),
        decreases v.len() - i,
    {
        assert(decreases_to!(f => f.entries@[i as int].1));
        let x = debug_text_of(&v[i].1);
        let piece = str_debug(v[i].0.as_str()).concat(": ").concat(x.as_str());
        let ghost before = out@;
        if i > 0 {
            out.append(", ");
        }
        out.append(piece.as_str());
        proof {
            let t = s.subrange(0, i + 1);
            assert(t.subrange(0, t.len() - 1) =~= s.subrange(0, i as int));
            assert(t[t.len() - 1] == s[i as int]);
            let last = str_debug_of(s[i as int].0) + ": "@ + debug_model(s[i as int].1);
            assert(piece@ =~= last);
            if i == 0 {
                assert(before =~= Seq::<char>::empty());
                assert(out@ =~= last);
            } else {
                assert(out@ =~= before + ", "@ + last);
            }
        }
        i = i + 1;
    }
    proof {
        assert(s.subrange(0, s.len() as int) =~= s);
    }
    out
}

impl Clone for StateValue {
    fn clone(&self) -> (r: Self)
        ensures
            r.model() == self.model(),
    {
        copy_value(self)
    }
}

impl Clone for StructFields {
    fn clone(&self) -> (r: Self)
        ensures
            r.model() == self.model(),
    {
        copy_fields(self)
    }
}

} // verus!
