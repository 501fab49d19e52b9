//! The stored form of state values: how a `StateValue` is written into
//! contract storage, and how a storage key is built from a key value.
use vstd::prelude::*;
use vstd::string::StringExecFns;
use crate::migration::MigrationError;
use crate::debug_text::debug_model;
use crate::value::{StateValue, ValueModel, debug_text_of, storage_form};

verus! {

/// A value as contract storage holds it.
#[derive(Debug, PartialEq, Eq)]
pub enum StorageValue {
    Bool(bool),
    U32(u32),
    U64(u64),
    Address(String),
    Symbol(String),
    Bytes(Vec<u8>),
    Void,
    Vec(Vec<StorageValue>),
    Mapping(Vec<(StorageValue, StorageValue)>),
}

/// Mathematical model of a `StorageValue`.
pub enum StorageModel {
    Bool(bool),
    U32(u32),
    U64(u64),
    Address(Seq<char>),
    Symbol(Seq<char>),
    Bytes(Seq<u8>),
    Void,
    Vec(Seq<StorageModel>),
    Mapping(Seq<(StorageModel, StorageModel)>),
}

pub open spec fn stored_seq(s: Seq<StorageValue>) -> Seq<StorageModel>
    decreases s,
{
    if s.len() == 0 {
        Seq::empty()
    } else {
        stored_seq(s.subrange(0, s.len() - 1)).push(s[s.len() - 1].model())
    }
}

pub open spec fn stored_pairs(s: Seq<(StorageValue, StorageValue)>) -> Seq<(StorageModel, StorageModel)>
    decreases s,
{
    if s.len() == 0 {
        Seq::empty()
    } else {
        stored_pairs(s.subrange(0, s.len() - 1)).push((s[s.len() - 1].0.model(), s[s.len() - 1].1.model()))
    }
}

impl StorageValue {
    pub open spec fn model(&self) -> StorageModel
        decreases self,
    {
        match self {
            StorageValue::Bool(b) => StorageModel::Bool(*b),
            StorageValue::U32(v) => StorageModel::U32(*v),
            StorageValue::U64(v) => StorageModel::U64(*v),
            StorageValue::Address(s) => StorageModel::Address(s@),
            StorageValue::Symbol(s) => StorageModel::Symbol(s@),
            StorageValue::Bytes(b) => StorageModel::Bytes(b@),
            StorageValue::Void => StorageModel::Void,
            StorageValue::Vec(v) => StorageModel::Vec(stored_seq(v@)),
            StorageValue::Mapping(p) => StorageModel::Mapping(stored_pairs(p@)),
        }
    }
}

impl View for StorageValue {
    type V = StorageModel;

    open spec fn view(&self) -> StorageModel {
        self.model()
    }
}

pub proof fn lemma_stored_seq(s: Seq<StorageValue>)
    ensures
        stored_seq(s).len() == s.len(),
        forall|i: int| 0 <= i < s.len() ==> #[trigger] stored_seq(s)[i] == s[i].model(),
    decreases s.len(),
{
    if s.len() > 0 {
        lemma_stored_seq(s.subrange(0, s.len() - 1));
    }
}

pub proof fn lemma_stored_pairs(s: Seq<(StorageValue, StorageValue)>)
    ensures
        stored_pairs(s).len() == s.len(),
        forall|i: int| 0 <= i < s.len() ==> #[trigger] stored_pairs(s)[i] == (s[i].0.model(), s[i].1.model()),
    decreases s.len(),
{
    if s.len() > 0 {
        lemma_stored_pairs(s.subrange(0, s.len() - 1));
    }
}

// ---------------------------------------------------------------------------
// Hexadecimal text
// ---------------------------------------------------------------------------

/// The value of a hexadecimal digit, either case.
pub open spec fn hex_digit(c: char) -> Option<u8> {
    if '0' <= c <= '9' {
        Some((c as u32 - '0' as u32) as u8)
    } else if 'a' <= c <= 'f' {
        Some((c as u32 - 'a' as u32 + 10) as u8)
    } else if 'A' <= c <= 'F' {
        Some((c as u32 - 'A' as u32 + 10) as u8)
    } else {
        None
    }
}

/// The bytes that hexadecimal text `s` spells, two digits per byte, high
/// digit first; `None` when its length is odd or a character is no digit.
pub open spec fn hex_decoded(s: Seq<char>) -> Option<Seq<u8>> {
    if s.len() % 2 == 0 && forall|i: int| 0 <= i < s.len() ==> (#[trigger] hex_digit(s[i])) is Some {
        Some(Seq::new(
            (s.len() / 2) as nat,
            |i: int| (16 * hex_digit(s[2 * i])->Some_0 + hex_digit(s[2 * i + 1])->Some_0) as u8,
        ))
    } else {
        None
    }
}

/// The debug text of the error `hex::decode` gives for `text`.
pub uninterp spec fn hex_error_of(text: Seq<char>) -> Seq<char>;

/// Decodes hexadecimal text with `hex::decode`: the bytes that the digit
/// pairs spell, or, for odd length or a character that is no digit, the
/// debug text of its error.
#[verifier::external_body]
pub(crate) fn hex_decode(text: &str) -> (r: Result<Vec<u8>, String>)
    ensures
        r is Ok <==> hex_decoded(text@) is Some,
        r matches Ok(b) ==> b@ == hex_decoded(text@)->Some_0,
        r matches Err(m) ==> m@ == hex_error_of(text@),
{
    match hex::decode(text) {
        Ok(b) => Ok(b),
        Err(e) => Err(format!("{:?}", e)),
    }
}

// ---------------------------------------------------------------------------
// Stored form
// ---------------------------------------------------------------------------

/// The message for hex text that does not decode.
pub open spec fn bad_hex_message(h: Seq<char>) -> Seq<char> {
    "Invalid hex bytes: "@ + hex_error_of(h)
}

/// The stored form of a value: a struct becomes a map keyed by its field
/// names as symbols, a missing option becomes void, a present one the stored
/// form of its content, hex bytes their decoded bytes. The first bytes,
/// in order, that are not valid hexadecimal text give the error message.
pub open spec fn storage_model(v: ValueModel) -> Result<StorageModel, Seq<char>>
    decreases v,
{
    match v {
        ValueModel::Address(s) => Ok(StorageModel::Address(s)),
        ValueModel::U32(x) => Ok(StorageModel::U32(x)),
        ValueModel::U64(x) => Ok(StorageModel::U64(x)),
        ValueModel::Bool(b) => Ok(StorageModel::Bool(b)),
        ValueModel::Symbol(s) => Ok(StorageModel::Symbol(s)),
        ValueModel::Bytes(h) => match hex_decoded(h) {
            Some(b) => Ok(StorageModel::Bytes(b)),
            None => Err(bad_hex_message(h)),
        },
        ValueModel::Struct(fs) => match storage_fields(fs) {
            Ok(p) => Ok(StorageModel::Mapping(p)),
            Err(m) => Err(m),
        },
        ValueModel::Mapping(ps) => match storage_pairs(ps) {
            Ok(p) => Ok(StorageModel::Mapping(p)),
            Err(m) => Err(m),
        },
        ValueModel::Vec(xs) => match storage_seq(xs) {
            Ok(s) => Ok(StorageModel::Vec(s)),
            Err(m) => Err(m),
        },
        ValueModel::Option(None) => Ok(StorageModel::Void),
        ValueModel::Option(Some(b)) => storage_model(*b),
    }
}

/// Stored forms of a sequence of values, or the first error.
pub open spec fn storage_seq(s: Seq<ValueModel>) -> Result<Seq<StorageModel>, Seq<char>>
    decreases s,
{
    if s.len() == 0 {
        Ok(Seq::empty())
    } else {
        match storage_model(s[0]) {
            Err(m) => Err(m),
            Ok(a) => match storage_seq(s.subrange(1, s.len() as int)) {
                Err(m) => Err(m),
                Ok(rest) => Ok(seq![a] + rest),
            },
        }
    }
}

/// Stored forms of key/value pairs, key before value, or the first error.
pub open spec fn storage_pairs(s: Seq<(ValueModel, ValueModel)>) -> Result<Seq<(StorageModel, StorageModel)>, Seq<char>>
    decreases s,
{
    if s.len() == 0 {
        Ok(Seq::empty())
    } else {
        match storage_model(s[0].0) {
            Err(m) => Err(m),
            Ok(k) => match storage_model(s[0].1) {
                Err(m) => Err(m),
                Ok(v) => match storage_pairs(s.subrange(1, s.len() as int)) {
                    Err(m) => Err(m),
                    Ok(rest) => Ok(seq![(k, v)] + rest),
                },
            },
        }
    }
}

/// Stored forms of named fields, each name as a symbol key, or the first
/// error.
pub open spec fn storage_fields(s: Seq<(Seq<char>, ValueModel)>) -> Result<Seq<(StorageModel, StorageModel)>, Seq<char>>
    decreases s,
{
    if s.len() == 0 {
        Ok(Seq::empty())
    } else {
        match storage_model(s[0].1) {
            Err(m) => Err(m),
            Ok(v) => match storage_fields(s.subrange(1, s.len() as int)) {
                Err(m) => Err(m),
                Ok(rest) => Ok(seq![(StorageModel::Symbol(s[0].0), v)] + rest),
            },
        }
    }
}

/// `storage_seq` element by element.
pub proof fn lemma_storage_seq(s: Seq<ValueModel>)
    ensures
        (forall|i: int| 0 <= i < s.len() ==> (#[trigger] storage_model(s[i])) is Ok) ==> {
            &&& storage_seq(s) is Ok
            &&& storage_seq(s)->Ok_0.len() == s.len()
            &&& forall|i: int| 0 <= i < s.len() ==> storage_seq(s)->Ok_0[i] == (#[trigger] storage_model(s[i]))->Ok_0
        },
        forall|i: int| 0 <= i < s.len() && (forall|j: int| 0 <= j < i ==> (#[trigger] storage_model(s[j])) is Ok)
            && (#[trigger] storage_model(s[i])) is Err ==> storage_seq(s) == Err::<Seq<StorageModel>, Seq<char>>(storage_model(s[i])->Err_0),
    decreases s.len(),
{
    if s.len() > 0 {
        let t = s.subrange(1, s.len() as int);
        lemma_storage_seq(t);
        assert forall|i: int| 1 <= i < s.len() implies s[i] == t[i - 1] by {}
        if forall|i: int| 0 <= i < s.len() ==> (#[trigger] storage_model(s[i])) is Ok {
            assert(storage_model(s[0]) is Ok);
            assert forall|i: int| 0 <= i < t.len() implies (#[trigger] storage_model(t[i])) is Ok by {
                assert(storage_model(s[i + 1]) is Ok);
            }
            assert forall|i: int| 0 <= i < s.len() implies storage_seq(s)->Ok_0[i] == (#[trigger] storage_model(s[i]))->Ok_0 by {
                if i > 0 {
                    assert(storage_model(t[i - 1]) is Ok);
                }
            }
        }
        assert forall|i: int| 0 <= i < s.len() && (forall|j: int| 0 <= j < i ==> (#[trigger] storage_model(s[j])) is Ok)
            && (#[trigger] storage_model(s[i])) is Err implies storage_seq(s) == Err::<Seq<StorageModel>, Seq<char>>(storage_model(s[i])->Err_0) by {
            if i > 0 {
                assert(storage_model(s[0]) is Ok);
                assert forall|j: int| 0 <= j < i - 1 implies (#[trigger] storage_model(t[j])) is Ok by {
                    assert(storage_model(s[j + 1]) is Ok);
                }
                assert(storage_model(t[i - 1]) is Err);
            }
        }
    }
}

/// `storage_pairs` pair by pair.
pub proof fn lemma_storage_pairs(s: Seq<(ValueModel, ValueModel)>)
    ensures
        (forall|i: int| 0 <= i < s.len() ==> (#[trigger] storage_model(s[i].0)) is Ok && storage_model(s[i].1) is Ok) ==> {
            &&& storage_pairs(s) is Ok
            &&& storage_pairs(s)->Ok_0.len() == s.len()
            &&& forall|i: int| 0 <= i < s.len() ==> storage_pairs(s)->Ok_0[i]
                == ((#[trigger] storage_model(s[i].0))->Ok_0, storage_model(s[i].1)->Ok_0)
        },
        forall|i: int| 0 <= i < s.len() && (forall|j: int| 0 <= j < i ==> (#[trigger] storage_model(s[j].0)) is Ok && storage_model(s[j].1) is Ok)
            && (#[trigger] storage_model(s[i].0)) is Err ==> storage_pairs(s) == Err::<Seq<(StorageModel, StorageModel)>, Seq<char>>(storage_model(s[i].0)->Err_0),
        forall|i: int| 0 <= i < s.len() && (forall|j: int| 0 <= j < i ==> (#[trigger] storage_model(s[j].0)) is Ok && storage_model(s[j].1) is Ok)
            && (#[trigger] storage_model(s[i].0)) is Ok && storage_model(s[i].1) is Err
            ==> storage_pairs(s) == Err::<Seq<(StorageModel, StorageModel)>, Seq<char>>(storage_model(s[i].1)->Err_0),
    decreases s.len(),
{
    if s.len() > 0 {
        let t = s.subrange(1, s.len() as int);
        lemma_storage_pairs(t);
        assert forall|i: int| 1 <= i < s.len() implies s[i] == t[i - 1] by {}
        if forall|i: int| 0 <= i < s.len() ==> (#[trigger] storage_model(s[i].0)) is Ok && storage_model(s[i].1) is Ok {
            assert(storage_model(s[0].0) is Ok);
            assert forall|i: int| 0 <= i < t.len() implies (#[trigger] storage_model(t[i].0)) is Ok && storage_model(t[i].1) is Ok by {
                assert(storage_model(s[i + 1].0) is Ok);
            }
            assert forall|i: int| 0 <= i < s.len() implies storage_pairs(s)->Ok_0[i]
                == ((#[trigger] storage_model(s[i].0))->Ok_0, storage_model(s[i].1)->Ok_0) by {
                if i > 0 {
                    assert(storage_model(t[i - 1].0) is Ok);
                }
            }
        }
        assert forall|i: int| 0 <= i < s.len() && (forall|j: int| 0 <= j < i ==> (#[trigger] storage_model(s[j].0)) is Ok && storage_model(s[j].1) is Ok)
            && (#[trigger] storage_model(s[i].0)) is Err implies storage_pairs(s) == Err::<Seq<(StorageModel, StorageModel)>, Seq<char>>(storage_model(s[i].0)->Err_0) by {
            if i > 0 {
                assert(storage_model(s[0].0) is Ok);
                assert forall|j: int| 0 <= j < i - 1 implies (#[trigger] storage_model(t[j].0)) is Ok && storage_model(t[j].1) is Ok by {
                    assert(storage_model(s[j + 1].0) is Ok);
                }
                assert(storage_model(t[i - 1].0) is Err);
            }
        }
        assert forall|i: int| 0 <= i < s.len() && (forall|j: int| 0 <= j < i ==> (#[trigger] storage_model(s[j].0)) is Ok && storage_model(s[j].1) is Ok)
            && (#[trigger] storage_model(s[i].0)) is Ok && storage_model(s[i].1) is Err
            implies storage_pairs(s) == Err::<Seq<(StorageModel, StorageModel)>, Seq<char>>(storage_model(s[i].1)->Err_0) by {
            if i > 0 {
                assert(storage_model(s[0].0) is Ok);
                assert forall|j: int| 0 <= j < i - 1 implies (#[trigger] storage_model(t[j].0)) is Ok && storage_model(t[j].1) is Ok by {
                    assert(storage_model(s[j + 1].0) is Ok);
                }
                assert(storage_model(t[i - 1].0) is Ok);
            }
        }
    }
}

/// `storage_fields` field by field.
pub proof fn lemma_storage_fields(s: Seq<(Seq<char>, ValueModel)>)
    ensures
        (forall|i: int| 0 <= i < s.len() ==> (#[trigger] storage_model(s[i].1)) is Ok) ==> {
            &&& storage_fields(s) is Ok
            &&& storage_fields(s)->Ok_0.len() == s.len()
            &&& forall|i: int| 0 <= i < s.len() ==> storage_fields(s)->Ok_0[i]
                == (StorageModel::Symbol(s[i].0), (#[trigger] storage_model(s[i].1))->Ok_0)
        },
        forall|i: int| 0 <= i < s.len() && (forall|j: int| 0 <= j < i ==> (#[trigger] storage_model(s[j].1)) is Ok)
            && (#[trigger] storage_model(s[i].1)) is Err ==> storage_fields(s) == Err::<Seq<(StorageModel, StorageModel)>, Seq<char>>(storage_model(s[i].1)->Err_0),
    decreases s.len(),
{
    if s.len() > 0 {
        let t = s.subrange(1, s.len() as int);
        lemma_storage_fields(t);
        assert forall|i: int| 1 <= i < s.len() implies s[i] == t[i - 1] by {}
        if forall|i: int| 0 <= i < s.len() ==> (#[trigger] storage_model(s[i].1)) is Ok {
            assert(storage_model(s[0].1) is Ok);
            assert forall|i: int| 0 <= i < t.len() implies (#[trigger] storage_model(t[i].1)) is Ok by {
                assert(storage_model(s[i + 1].1) is Ok);
            }
            assert forall|i: int| 0 <= i < s.len() implies storage_fields(s)->Ok_0[i]
                == (StorageModel::Symbol(s[i].0), (#[trigger] storage_model(s[i].1))->Ok_0) by {
                if i > 0 {
                    assert(storage_model(t[i - 1].1) is Ok);
                }
            }
        }
        assert forall|i: int| 0 <= i < s.len() && (forall|j: int| 0 <= j < i ==> (#[trigger] storage_model(s[j].1)) is Ok)
            && (#[trigger] storage_model(s[i].1)) is Err implies storage_fields(s) == Err::<Seq<(StorageModel, StorageModel)>, Seq<char>>(storage_model(s[i].1)->Err_0) by {
            if i > 0 {
                assert(storage_model(s[0].1) is Ok);
                assert forall|j: int| 0 <= j < i - 1 implies (#[trigger] storage_model(t[j].1)) is Ok by {
                    assert(storage_model(s[j + 1].1) is Ok);
                }
                assert(storage_model(t[i - 1].1) is Err);
            }
        }
    }
}

/// The stored form of a state value, as it is written into contract storage.
/// Fails exactly when some bytes inside are not valid hexadecimal text, with
/// the message for the first such bytes.
pub fn storage_value_of(sv: &StateValue) -> (r: Result<StorageValue, MigrationError>)
    ensures
        r matches Ok(x) ==> storage_model(sv.model()) == Ok::<StorageModel, Seq<char>>(x@),
        r matches Err(e) ==> e matches MigrationError::StateConversionFailure(m)
            && storage_model(sv.model()) == Err::<StorageModel, Seq<char>>(m@),
{
    match storage_form(sv) {
        Ok(x) => Ok(x),
        Err(m) => Err(MigrationError::StateConversionFailure(m)),
    }
}

/// A key value that a storage key can hold: an address, a `u32`, a `u64`, a
/// symbol, or a struct (stored as the map of its fields).
pub open spec fn is_key_value(v: ValueModel) -> bool {
    v is Address || v is U32 || v is U64 || v is Symbol || v is Struct
}

/// The storage key `Vec[Symbol(key_prefix), stored key]` for key value
/// `key`, or the message why there is none.
pub open spec fn storage_key_model(key: ValueModel, key_prefix: Seq<char>) -> Result<StorageModel, Seq<char>> {
    if is_key_value(key) {
        match storage_model(key) {
            Ok(k) => Ok(StorageModel::Vec(seq![StorageModel::Symbol(key_prefix), k])),
            Err(m) => Err(m),
        }
    } else {
        Err("Unsupported key type for storage key: "@ + debug_model(key))
    }
}

/// The storage key under which an entry with key value `key` is stored.
pub fn storage_key_of(key: &StateValue, key_prefix: &String) -> (r: Result<StorageValue, MigrationError>)
    ensures
        r matches Ok(k) ==> storage_key_model(key.model(), key_prefix@) == Ok::<StorageModel, Seq<char>>(k@),
        r matches Err(e) ==> e matches MigrationError::StateConversionFailure(m)
            && storage_key_model(key.model(), key_prefix@) == Err::<StorageModel, Seq<char>>(m@),
{
    match key {
        StateValue::Address(_) | StateValue::U32(_) | StateValue::U64(_) | StateValue::Symbol(_) | StateValue::Struct(_) => {},
        _ => {
            let m = String::from_str("Unsupported key type for storage key: ").concat(debug_text_of(key).as_str());
            return Err(MigrationError::StateConversionFailure(m));
        },
    }
    let stored = match storage_form(key) {
        Ok(x) => x,
        Err(m) => return Err(MigrationError::StateConversionFailure(m)),
    };
    let mut parts: Vec<StorageValue> = Vec::new();
    parts.push(StorageValue::Symbol(key_prefix.clone()));
    parts.push(stored);
    proof {
        lemma_stored_seq(parts@);
        assert(stored_seq(parts@) =~= seq![StorageModel::Symbol(key_prefix@), storage_model(key.model())->Ok_0]);
    }
    Ok(StorageValue::Vec(parts))
}

} // verus!
