//! The total order on values: the order in which canonical states list their
//! entries (variant first, then contents, sequences lexicographically, text
//! by its UTF-8 bytes).
use vstd::prelude::*;
use crate::value::ValueModel;

verus! {

/// Three-way lexicographic comparison of byte strings (-1, 0 or 1).
pub open spec fn bytes_order(a: Seq<u8>, b: Seq<u8>) -> int
    decreases a.len(),
{
    if a.len() == 0 {
        if b.len() == 0 { 0 } else { -1 }
    } else if b.len() == 0 {
        1
    } else if a[0] < b[0] {
        -1
    } else if a[0] > b[0] {
        1
    } else {
        bytes_order(a.drop_first(), b.drop_first())
    }
}

/// Text is ordered by its UTF-8 encoding.
pub open spec fn text_order(a: Seq<char>, b: Seq<char>) -> int {
    bytes_order(vstd::utf8::encode_utf8(a), vstd::utf8::encode_utf8(b))
}

/// Position of a value's variant in the declaration order.
pub open spec fn variant_rank(v: ValueModel) -> int {
    match v {
        ValueModel::Address(_) => 0,
        ValueModel::U32(_) => 1,
        ValueModel::U64(_) => 2,
        ValueModel::Bool(_) => 3,
        ValueModel::Symbol(_) => 4,
        ValueModel::Bytes(_) => 5,
        ValueModel::Struct(_) => 6,
        ValueModel::Mapping(_) => 7,
        ValueModel::Vec(_) => 8,
        ValueModel::Option(_) => 9,
    }
}

pub open spec fn int_order(a: int, b: int) -> int {
    if a < b { -1 } else if a > b { 1 } else { 0 }
}

/// Three-way comparison of values (-1, 0 or 1).
pub open spec fn value_order(a: ValueModel, b: ValueModel) -> int
    decreases a,
{
    if variant_rank(a) != variant_rank(b) {
        int_order(variant_rank(a), variant_rank(b))
    } else {
        match a {
            ValueModel::Address(x) => match b { ValueModel::Address(y) => text_order(x, y), _ => 0 },
            ValueModel::U32(x) => match b { ValueModel::U32(y) => int_order(x as int, y as int), _ => 0 },
            ValueModel::U64(x) => match b { ValueModel::U64(y) => int_order(x as int, y as int), _ => 0 },
            ValueModel::Bool(x) => match b {
                ValueModel::Bool(y) => int_order(if x { 1 } else { 0 }, if y { 1 } else { 0 }),
                _ => 0,
            },
            ValueModel::Symbol(x) => match b { ValueModel::Symbol(y) => text_order(x, y), _ => 0 },
            ValueModel::Bytes(x) => match b { ValueModel::Bytes(y) => text_order(x, y), _ => 0 },
            ValueModel::Struct(x) => match b { ValueModel::Struct(y) => fields_order(x, y), _ => 0 },
            ValueModel::Mapping(x) => match b { ValueModel::Mapping(y) => pairs_order(x, y), _ => 0 },
            ValueModel::Vec(x) => match b { ValueModel::Vec(y) => seq_order(x, y), _ => 0 },
            ValueModel::Option(x) => match b {
                ValueModel::Option(y) => match x {
                    None => match y { None => 0, Some(_) => -1 },
                    Some(p) => match y { None => 1, Some(q) => value_order(*p, *q) },
                },
                _ => 0,
            },
        }
    }
}

/// Lexicographic comparison of value sequences.
pub open spec fn seq_order(x: Seq<ValueModel>, y: Seq<ValueModel>) -> int
    decreases x,
{
    if x.len() == 0 {
        if y.len() == 0 { 0 } else { -1 }
    } else if y.len() == 0 {
        1
    } else {
        let c = value_order(x[0], y[0]);
        if c != 0 { c } else { seq_order(x.subrange(1, x.len() as int), y.subrange(1, y.len() as int)) }
    }
}

/// Lexicographic comparison of key/value pair sequences.
pub open spec fn pairs_order(x: Seq<(ValueModel, ValueModel)>, y: Seq<(ValueModel, ValueModel)>) -> int
    decreases x,
{
    if x.len() == 0 {
        if y.len() == 0 { 0 } else { -1 }
    } else if y.len() == 0 {
        1
    } else {
        let c = value_order(x[0].0, y[0].0);
        if c != 0 {
            c
        } else {
            let d = value_order(x[0].1, y[0].1);
            if d != 0 { d } else { pairs_order(x.subrange(1, x.len() as int), y.subrange(1, y.len() as int)) }
        }
    }
}

/// Lexicographic comparison of named-field sequences.
pub open spec fn fields_order(x: Seq<(Seq<char>, ValueModel)>, y: Seq<(Seq<char>, ValueModel)>) -> int
    decreases x,
{
    if x.len() == 0 {
        if y.len() == 0 { 0 } else { -1 }
    } else if y.len() == 0 {
        1
    } else {
        let c = text_order(x[0].0, y[0].0);
        if c != 0 {
            c
        } else {
            let d = value_order(x[0].1, y[0].1);
            if d != 0 { d } else { fields_order(x.subrange(1, x.len() as int), y.subrange(1, y.len() as int)) }
        }
    }
}


pub proof fn lemma_bytes_basic(a: Seq<u8>, b: Seq<u8>)
    ensures
        bytes_order(a, a) == 0,
        bytes_order(a, b) == -bytes_order(b, a),
        bytes_order(a, b) == 0 ==> a == b,
        -1 <= bytes_order(a, b) <= 1,
    decreases a.len(),
{
    if a.len() > 0 && b.len() > 0 {
        lemma_bytes_basic(a.drop_first(), b.drop_first());
        lemma_bytes_basic(a.drop_first(), a.drop_first());
        if bytes_order(a, b) == 0 {
            assert(a =~= seq![a[0]] + a.drop_first());
            assert(b =~= seq![b[0]] + b.drop_first());
        }
    } else if a.len() > 0 {
        lemma_bytes_basic(a.drop_first(), a.drop_first());
    }
}

pub proof fn lemma_bytes_trans(a: Seq<u8>, b: Seq<u8>, c: Seq<u8>)
    requires
        bytes_order(a, b) < 0,
        bytes_order(b, c) < 0,
    ensures
        bytes_order(a, c) < 0,
    decreases a.len(),
{
    if a.len() > 0 && b.len() > 0 && c.len() > 0 && a[0] == b[0] && b[0] == c[0] {
        lemma_bytes_trans(a.drop_first(), b.drop_first(), c.drop_first());
    }
}

pub proof fn lemma_text_basic(a: Seq<char>, b: Seq<char>)
    ensures
        text_order(a, a) == 0,
        text_order(a, b) == -text_order(b, a),
        text_order(a, b) == 0 ==> a == b,
        -1 <= text_order(a, b) <= 1,
{
    lemma_bytes_basic(vstd::utf8::encode_utf8(a), vstd::utf8::encode_utf8(b));
    vstd::utf8::encode_utf8_decode_utf8(a);
    vstd::utf8::encode_utf8_decode_utf8(b);
}

pub proof fn lemma_text_trans(a: Seq<char>, b: Seq<char>, c: Seq<char>)
    requires
        text_order(a, b) < 0,
        text_order(b, c) < 0,
    ensures
        text_order(a, c) < 0,
{
    lemma_bytes_trans(vstd::utf8::encode_utf8(a), vstd::utf8::encode_utf8(b), vstd::utf8::encode_utf8(c));
}

/// The value order is reflexive, antisymmetric, and only equal values tie.
pub proof fn lemma_value_basic(a: ValueModel, b: ValueModel)
    ensures
        value_order(a, a) == 0,
        value_order(a, b) == -value_order(b, a),
        value_order(a, b) == 0 ==> a == b,
        -1 <= value_order(a, b) <= 1,
    decreases a,
{
    match a {
        ValueModel::Address(x) => {
            lemma_text_basic(x, x);
            if let ValueModel::Address(y) = b { lemma_text_basic(x, y); }
        },
        ValueModel::Symbol(x) => {
            lemma_text_basic(x, x);
            if let ValueModel::Symbol(y) = b { lemma_text_basic(x, y); }
        },
        ValueModel::Bytes(x) => {
            lemma_text_basic(x, x);
            if let ValueModel::Bytes(y) = b { lemma_text_basic(x, y); }
        },
        ValueModel::Struct(x) => {
            lemma_fields_basic(x, x);
            if let ValueModel::Struct(y) = b { lemma_fields_basic(x, y); }
        },
        ValueModel::Mapping(x) => {
            lemma_pairs_basic(x, x);
            if let ValueModel::Mapping(y) = b { lemma_pairs_basic(x, y); }
        },
        ValueModel::Vec(x) => {
            lemma_seq_basic(x, x);
            if let ValueModel::Vec(y) = b { lemma_seq_basic(x, y); }
        },
        ValueModel::Option(x) => {
            if let Some(p) = x {
                lemma_value_basic(*p, *p);
                if let ValueModel::Option(y) = b {
                    if let Some(q) = y {
                        lemma_value_basic(*p, *q);
                    }
                }
            }
        },
        _ => {},
    }
}

pub proof fn lemma_seq_basic(x: Seq<ValueModel>, y: Seq<ValueModel>)
    ensures
        seq_order(x, x) == 0,
        seq_order(x, y) == -seq_order(y, x),
        seq_order(x, y) == 0 ==> x == y,
        -1 <= seq_order(x, y) <= 1,
    decreases x,
{
    if x.len() > 0 {
        let xr = x.subrange(1, x.len() as int);
        lemma_value_basic(x[0], x[0]);
        lemma_seq_basic(xr, xr);
        if y.len() > 0 {
            let yr = y.subrange(1, y.len() as int);
            lemma_value_basic(x[0], y[0]);
            lemma_seq_basic(xr, yr);
            if seq_order(x, y) == 0 {
                assert(x =~= seq![x[0]] + xr);
                assert(y =~= seq![y[0]] + yr);
            }
        }
    }
}

pub proof fn lemma_pairs_basic(x: Seq<(ValueModel, ValueModel)>, y: Seq<(ValueModel, ValueModel)>)
    ensures
        pairs_order(x, x) == 0,
        pairs_order(x, y) == -pairs_order(y, x),
        pairs_order(x, y) == 0 ==> x == y,
        -1 <= pairs_order(x, y) <= 1,
    decreases x,
{
    if x.len() > 0 {
        let xr = x.subrange(1, x.len() as int);
        lemma_value_basic(x[0].0, x[0].0);
        lemma_value_basic(x[0].1, x[0].1);
        lemma_pairs_basic(xr, xr);
        if y.len() > 0 {
            let yr = y.subrange(1, y.len() as int);
            lemma_value_basic(x[0].0, y[0].0);
            lemma_value_basic(x[0].1, y[0].1);
            lemma_pairs_basic(xr, yr);
            if pairs_order(x, y) == 0 {
                assert(x =~= seq![x[0]] + xr);
                assert(y =~= seq![y[0]] + yr);
            }
        }
    }
}

pub proof fn lemma_fields_basic(x: Seq<(Seq<char>, ValueModel)>, y: Seq<(Seq<char>, ValueModel)>)
    ensures
        fields_order(x, x) == 0,
        fields_order(x, y) == -fields_order(y, x),
        fields_order(x, y) == 0 ==> x == y,
        -1 <= fields_order(x, y) <= 1,
    decreases x,
{
    if x.len() > 0 {
        let xr = x.subrange(1, x.len() as int);
        lemma_text_basic(x[0].0, x[0].0);
        lemma_value_basic(x[0].1, x[0].1);
        lemma_fields_basic(xr, xr);
        if y.len() > 0 {
            let yr = y.subrange(1, y.len() as int);
            lemma_text_basic(x[0].0, y[0].0);
            lemma_value_basic(x[0].1, y[0].1);
            lemma_fields_basic(xr, yr);
            if fields_order(x, y) == 0 {
                assert(x =~= seq![x[0]] + xr);
                assert(y =~= seq![y[0]] + yr);
            }
        }
    }
}


/// The value order is transitive.
pub proof fn lemma_value_trans(a: ValueModel, b: ValueModel, c: ValueModel)
    requires
        value_order(a, b) < 0,
        value_order(b, c) < 0,
    ensures
        value_order(a, c) < 0,
    decreases a,
{
    if variant_rank(a) == variant_rank(b) && variant_rank(b) == variant_rank(c) {
        match a {
            ValueModel::Address(x) => {
                if let (ValueModel::Address(y), ValueModel::Address(z)) = (b, c) { lemma_text_trans(x, y, z); }
            },
            ValueModel::Symbol(x) => {
                if let (ValueModel::Symbol(y), ValueModel::Symbol(z)) = (b, c) { lemma_text_trans(x, y, z); }
            },
            ValueModel::Bytes(x) => {
                if let (ValueModel::Bytes(y), ValueModel::Bytes(z)) = (b, c) { lemma_text_trans(x, y, z); }
            },
            ValueModel::Struct(x) => {
                if let (ValueModel::Struct(y), ValueModel::Struct(z)) = (b, c) { lemma_fields_trans(x, y, z); }
            },
            ValueModel::Mapping(x) => {
                if let (ValueModel::Mapping(y), ValueModel::Mapping(z)) = (b, c) { lemma_pairs_trans(x, y, z); }
            },
            ValueModel::Vec(x) => {
                if let (ValueModel::Vec(y), ValueModel::Vec(z)) = (b, c) { lemma_seq_trans(x, y, z); }
            },
            ValueModel::Option(x) => {
                if let (ValueModel::Option(y), ValueModel::Option(z)) = (b, c) {
                    if let (Some(p), Some(q), Some(r)) = (x, y, z) {
                        lemma_value_trans(*p, *q, *r);
                    }
                }
            },
            _ => {},
        }
    }
}

/// Combines two comparisons where each is either a tie or strictly less.
pub proof fn lemma_seq_trans(x: Seq<ValueModel>, y: Seq<ValueModel>, z: Seq<ValueModel>)
    requires
        seq_order(x, y) < 0,
        seq_order(y, z) < 0,
    ensures
        seq_order(x, z) < 0,
    decreases x,
{
    if x.len() > 0 && y.len() > 0 && z.len() > 0 {
        lemma_value_basic(x[0], y[0]);
        lemma_value_basic(y[0], z[0]);
        lemma_value_basic(x[0], z[0]);
        if value_order(x[0], y[0]) == 0 && value_order(y[0], z[0]) == 0 {
            lemma_seq_trans(x.subrange(1, x.len() as int), y.subrange(1, y.len() as int), z.subrange(1, z.len() as int));
        } else {
            if value_order(x[0], y[0]) < 0 && value_order(y[0], z[0]) < 0 { lemma_value_trans(x[0], y[0], z[0]); }
        }
    }
}

pub proof fn lemma_pairs_trans(x: Seq<(ValueModel, ValueModel)>, y: Seq<(ValueModel, ValueModel)>, z: Seq<(ValueModel, ValueModel)>)
    requires
        pairs_order(x, y) < 0,
        pairs_order(y, z) < 0,
    ensures
        pairs_order(x, z) < 0,
    decreases x,
{
    if x.len() > 0 && y.len() > 0 && z.len() > 0 {
        lemma_value_basic(x[0].0, y[0].0);
        lemma_value_basic(y[0].0, z[0].0);
        lemma_value_basic(x[0].0, z[0].0);
        lemma_value_basic(x[0].1, y[0].1);
        lemma_value_basic(y[0].1, z[0].1);
        lemma_value_basic(x[0].1, z[0].1);
        if value_order(x[0].0, y[0].0) == 0 && value_order(y[0].0, z[0].0) == 0 {
            if value_order(x[0].1, y[0].1) == 0 && value_order(y[0].1, z[0].1) == 0 {
                lemma_pairs_trans(x.subrange(1, x.len() as int), y.subrange(1, y.len() as int), z.subrange(1, z.len() as int));
            } else {
                if value_order(x[0].1, y[0].1) < 0 && value_order(y[0].1, z[0].1) < 0 { lemma_value_trans(x[0].1, y[0].1, z[0].1); }
            }
        } else {
            if value_order(x[0].0, y[0].0) < 0 && value_order(y[0].0, z[0].0) < 0 { lemma_value_trans(x[0].0, y[0].0, z[0].0); }
        }
    }
}

pub proof fn lemma_fields_trans(x: Seq<(Seq<char>, ValueModel)>, y: Seq<(Seq<char>, ValueModel)>, z: Seq<(Seq<char>, ValueModel)>)
    requires
        fields_order(x, y) < 0,
        fields_order(y, z) < 0,
    ensures
        fields_order(x, z) < 0,
    decreases x,
{
    if x.len() > 0 && y.len() > 0 && z.len() > 0 {
        lemma_text_basic(x[0].0, y[0].0);
        lemma_text_basic(y[0].0, z[0].0);
        lemma_text_basic(x[0].0, z[0].0);
        lemma_value_basic(x[0].1, y[0].1);
        lemma_value_basic(y[0].1, z[0].1);
        lemma_value_basic(x[0].1, z[0].1);
        if text_order(x[0].0, y[0].0) == 0 && text_order(y[0].0, z[0].0) == 0 {
            if value_order(x[0].1, y[0].1) == 0 && value_order(y[0].1, z[0].1) == 0 {
                lemma_fields_trans(x.subrange(1, x.len() as int), y.subrange(1, y.len() as int), z.subrange(1, z.len() as int));
            } else {
                if value_order(x[0].1, y[0].1) < 0 && value_order(y[0].1, z[0].1) < 0 { lemma_value_trans(x[0].1, y[0].1, z[0].1); }
            }
        } else if text_order(x[0].0, y[0].0) < 0 && text_order(y[0].0, z[0].0) < 0 {
            lemma_text_trans(x[0].0, y[0].0, z[0].0);
        }
    }
}

} // verus!
