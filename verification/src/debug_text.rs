//! The debug text of a state value, as `{:?}` writes a value of this shape:
//! the variant name, then its content in brackets.
use vstd::prelude::*;
use crate::text::decimal;
use crate::value::ValueModel;

verus! {

/// The text `{:?}` writes for a string: quoted, with escapes.
pub uninterp spec fn str_debug_of(s: Seq<char>) -> Seq<char>;

/// `{:?}` of a string (std's `Debug` for `str`): the text in double quotes,
/// with quotes, backslashes and unprintable characters escaped.
#[verifier::external_body]
pub(crate) fn str_debug(s: &str) -> (r: String)
    ensures
        r@ == str_debug_of(s@),
{
    format!("{:?}", s)
}

/// The debug text of a value. Maps are written under the name `Map`.
pub open spec fn debug_model(v: ValueModel) -> Seq<char>
    decreases v,
{
    match v {
        ValueModel::Address(s) => "Address("@ + str_debug_of(s) + ")"@,
        ValueModel::U32(n) => "U32("@ + decimal(n as nat) + ")"@,
        ValueModel::U64(n) => "U64("@ + decimal(n as nat) + ")"@,
        ValueModel::Bool(b) => "Bool("@ + (if b { "true"@ } else { "false"@ }) + ")"@,
        ValueModel::Symbol(s) => "Symbol("@ + str_debug_of(s) + ")"@,
        ValueModel::Bytes(s) => "Bytes("@ + str_debug_of(s) + ")"@,
        ValueModel::Struct(fs) => "Struct({"@ + debug_fields(fs) + "})"@,
        ValueModel::Mapping(ps) => "Map(["@ + debug_pairs(ps) + "])"@,
        ValueModel::Vec(xs) => "Vec(["@ + debug_seq(xs) + "])"@,
        ValueModel::Option(None) => "Option(None)"@,
        ValueModel::Option(Some(b)) => "Option(Some("@ + debug_model(*b) + "))"@,
    }
}

/// The debug texts of values, separated by `, `.
pub open spec fn debug_seq(s: Seq<ValueModel>) -> Seq<char>
    decreases s,
{
    if s.len() == 0 {
        Seq::empty()
    } else if s.len() == 1 {
        debug_model(s[0])
    } else {
        debug_seq(s.subrange(0, s.len() - 1)) + ", "@ + debug_model(s[s.len() - 1])
    }
}

/// Key/value pairs as `(key, value)`, separated by `, `.
pub open spec fn debug_pairs(s: Seq<(ValueModel, ValueModel)>) -> Seq<char>
    decreases s,
{
    if s.len() == 0 {
        Seq::empty()
    } else {
        let last = "("@ + debug_model(s[s.len() - 1].0) + ", "@ + debug_model(s[s.len() - 1].1) + ")"@;
        if s.len() == 1 {
            last
        } else {
            debug_pairs(s.subrange(0, s.len() - 1)) + ", "@ + last
        }
    }
}

/// Named fields as `"name": value`, separated by `, `.
pub open spec fn debug_fields(s: Seq<(Seq<char>, ValueModel)>) -> Seq<char>
    decreases s,
{
    if s.len() == 0 {
        Seq::empty()
    } else {
        let last = str_debug_of(s[s.len() - 1].0) + ": "@ + debug_model(s[s.len() - 1].1);
        if s.len() == 1 {
            last
        } else {
            debug_fields(s.subrange(0, s.len() - 1)) + ", "@ + last
        }
    }
}

} // verus!
