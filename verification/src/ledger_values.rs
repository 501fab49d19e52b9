//! Ledger values read back from a host snapshot, turned into state values.
//! `stellar_xdr` decodes each value; which state value it becomes is decided
//! here.
use vstd::prelude::*;
use vstd::string::StringExecFns;
use stellar_xdr::curr::{Limits, ReadXdr, ScAddress, ScVal, WriteXdr};
use crate::digest::{hex_encode, hex_text};
use crate::entry::{Durability, EntryModel, StateEntry, entries_model};
use crate::migration::{MigrationEngine, MigrationError};
use crate::state::{ContractState, StateError, ids_strictly_sorted, ids_unique, validation_ok};
use crate::text::same_text;
use crate::value::{StateValue, StructFields, ValueModel, lemma_model_seq, model_seq, with_field};

verus! {

/// A ledger value's variant name and the number or flag it holds (`U32`,
/// `U64`, `I32`, `Bool`; zero or false for the others).
pub uninterp spec fn scval_head_of(xdr: Seq<u8>) -> Option<(Seq<char>, u32, u64, i32, bool)>;

/// A ledger value's text (`Symbol`, `Address`), bytes (`Bytes`) and kind of
/// address (0 for an account or contract, 1 for a muxed account, 2 for
/// another kind; 0 for values that are no address).
pub uninterp spec fn scval_text_of(xdr: Seq<u8>) -> Option<(Seq<char>, Seq<u8>, u8)>;

/// The encodings of the values a present `Vec` or `Map` holds.
pub uninterp spec fn scval_parts_of(xdr: Seq<u8>) -> Option<Seq<Seq<u8>>>;

/// A ledger value's debug text.
pub uninterp spec fn scval_debug_of(xdr: Seq<u8>) -> Option<Seq<char>>;

/// Decodes `xdr` as one `ScVal` (`ReadXdr::from_xdr`, no limits) and gives
/// `ScVal::name` with the value of `U32`, `U64`, `I32` and `Bool` (zero or
/// false for other variants); `None` where decoding fails.
#[verifier::external_body]
fn scval_head(xdr: &[u8]) -> (r: Option<(String, u32, u64, i32, bool)>)
    ensures
        (match r {
            Some(h) => scval_head_of(xdr@) == Some((h.0@, h.1, h.2, h.3, h.4)),
            None => scval_head_of(xdr@) is None,
        }),
{
    let v = ScVal::from_xdr(xdr, Limits::none()).ok()?;
    let (a, b, c, d) = match &v {
        ScVal::U32(n) => (*n, 0, 0, false),
        ScVal::U64(n) => (0, *n, 0, false),
        ScVal::I32(n) => (0, 0, *n, false),
        ScVal::Bool(x) => (0, 0, 0, *x),
        _ => (0, 0, 0, false),
    };
    Some((v.name().to_string(), a, b, c, d))
}

/// Decodes `xdr` as one `ScVal` (`ReadXdr::from_xdr`, no limits) and gives
/// the text of a `Symbol` (`to_utf8_string_lossy`) or of an account, contract
/// or muxed-account `Address` (its `Display`, the strkey), the contents of
/// `Bytes` (empty otherwise), and which kind of address it is (0 account or
/// contract, 1 muxed account, 2 any other kind, with empty text; 0 for values
/// that are no address); `None` where decoding fails.
#[verifier::external_body]
fn scval_text(xdr: &[u8]) -> (r: Option<(String, Vec<u8>, u8)>)
    ensures
        (match r {
            Some(t) => scval_text_of(xdr@) == Some((t.0@, t.1@, t.2)),
            None => scval_text_of(xdr@) is None,
        }),
{
    let v = ScVal::from_xdr(xdr, Limits::none()).ok()?;
    let (text, kind) = match &v {
        ScVal::Symbol(s) => (s.to_utf8_string_lossy(), 0),
        ScVal::Address(a @ ScAddress::Account(_)) => (a.to_string(), 0),
        ScVal::Address(a @ ScAddress::Contract(_)) => (a.to_string(), 0),
        ScVal::Address(a @ ScAddress::MuxedAccount(_)) => (a.to_string(), 1),
        ScVal::Address(_) => (String::new(), 2),
        _ => (String::new(), 0),
    };
    let bytes = match &v {
        ScVal::Bytes(b) => b.to_vec(),
        _ => vec![],
    };
    Some((text, bytes, kind))
}

/// What a host gives for an address it stores as a muxed address, which is
/// no `Address`.
pub open spec fn muxed_address_text() -> Seq<char> {
    "Failed to convert Val to Address: ConversionError"@
}

/// What a host gives for a kind of address it does not accept at all.
pub open spec fn foreign_address_text() -> Seq<char> {
    "Failed to convert ScVal Address to Val: Error(Object, UnexpectedType)"@
}

/// Decodes `xdr` as one `ScVal` (`ReadXdr::from_xdr`, no limits) and
/// re-encodes (`WriteXdr::to_xdr`) the items of a present `Vec`, or the key
/// and then the value of each entry of a present `Map`; `None` for other
/// values or where decoding fails. Each is part of `xdr`, so shorter.
#[verifier::external_body]
fn scval_parts(xdr: &[u8]) -> (r: Option<Vec<Vec<u8>>>)
    ensures
        (match r {
            Some(p) => scval_parts_of(xdr@) == Some(p@.map_values(|b: Vec<u8>| b@)),
            None => scval_parts_of(xdr@) is None,
        }),
        r matches Some(p) ==> forall|i: int| 0 <= i < p@.len() ==> #[trigger] p@[i]@.len() < xdr@.len(),
{
    let v = ScVal::from_xdr(xdr, Limits::none()).ok()?;
    let parts: Vec<&ScVal> = match &v {
        ScVal::Vec(Some(items)) => items.iter().collect(),
        ScVal::Map(Some(m)) => m.iter().flat_map(|e| [&e.key, &e.val]).collect(),
        _ => return None,
    };
    parts.iter().map(|p| p.to_xdr(Limits::none()).ok()).collect()
}

/// Decodes `xdr` as one `ScVal` (`ReadXdr::from_xdr`, no limits) and gives
/// its `Debug` text; `None` where decoding fails.
#[verifier::external_body]
fn scval_debug(xdr: &[u8]) -> (r: Option<String>)
    ensures
        (match r {
            Some(d) => scval_debug_of(xdr@) == Some(d@),
            None => scval_debug_of(xdr@) is None,
        }),
{
    ScVal::from_xdr(xdr, Limits::none()).ok().map(|v| format!("{:?}", v))
}

/// The debug text, or nothing where there is none.
pub open spec fn debug_text(xdr: Seq<u8>) -> Seq<char> {
    match scval_debug_of(xdr) {
        Some(d) => d,
        None => Seq::empty(),
    }
}

/// The message for a value that has no state form.
pub open spec fn unsupported_text(xdr: Seq<u8>) -> Seq<char> {
    "Unsupported ScVal variant: "@ + debug_text(xdr)
}

/// The name a map key gives its field: a symbol's text, else the key's
/// debug text.
pub open spec fn field_name_of(key: Seq<u8>) -> Seq<char> {
    match scval_head_of(key) {
        Some(h) => if h.0 == "Symbol"@ {
            match scval_text_of(key) {
                Some(t) => t.0,
                None => debug_text(key),
            }
        } else {
            debug_text(key)
        },
        None => debug_text(key),
    }
}

/// The state form of a ledger value: booleans, `U32`, `U64` and `I32` (as
/// `U64`), account and contract addresses and symbols by their text, bytes
/// in hex, a present vector item by item, a present map as a struct named by
/// its keys, `Void` as an absent option. Other addresses give the message a
/// host gives when it converts them; any other value, or the first item
/// that has no state form, gives the message for it.
pub open spec fn scval_model(xdr: Seq<u8>) -> Result<ValueModel, Seq<char>>
    decreases xdr.len(), 2nat, 0nat,
{
    match scval_head_of(xdr) {
        None => Err(unsupported_text(xdr)),
        Some(h) => {
            let kind = h.0;
            if kind == "Bool"@ {
                Ok(ValueModel::Bool(h.4))
            } else if kind == "U32"@ {
                Ok(ValueModel::U32(h.1))
            } else if kind == "U64"@ {
                Ok(ValueModel::U64(h.2))
            } else if kind == "I32"@ {
                Ok(ValueModel::U64(h.3 as u64))
            } else if kind == "Address"@ || kind == "Symbol"@ || kind == "Bytes"@ {
                match scval_text_of(xdr) {
                    None => Err(unsupported_text(xdr)),
                    Some(t) => {
                        if kind == "Address"@ {
                            if t.2 == 0 {
                                Ok(ValueModel::Address(t.0))
                            } else if t.2 == 1 {
                                Err(muxed_address_text())
                            } else {
                                Err(foreign_address_text())
                            }
                        } else if kind == "Symbol"@ {
                            Ok(ValueModel::Symbol(t.0))
                        } else {
                            Ok(ValueModel::Bytes(hex_text(t.1)))
                        }
                    },
                }
            } else if (kind == "Vec"@ || kind == "Map"@) && scval_parts_of(xdr) is Some {
                let parts = scval_parts_of(xdr)->0;
                if kind == "Vec"@ {
                    match items_model(parts, parts.len(), xdr.len()) {
                        Ok(items) => Ok(ValueModel::Vec(items)),
                        Err(m) => Err(m),
                    }
                } else {
                    match fields_model(parts, parts.len() / 2, xdr.len()) {
                        Ok(f) => Ok(ValueModel::Struct(f)),
                        Err(m) => Err(m),
                    }
                }
            } else if kind == "Void"@ {
                Ok(ValueModel::Option(None))
            } else {
                Err(unsupported_text(xdr))
            }
        },
    }
}

/// The state form of the `i`-th nested value (each shorter than `bound`).
pub open spec fn part_model(parts: Seq<Seq<u8>>, i: int, bound: nat) -> Result<ValueModel, Seq<char>>
    decreases bound, 0nat, 0nat,
{
    if 0 <= i < parts.len() && parts[i].len() < bound {
        scval_model(parts[i])
    } else {
        Err(Seq::empty())
    }
}

/// The state forms of the first `n` nested values, or the first message.
pub open spec fn items_model(parts: Seq<Seq<u8>>, n: nat, bound: nat) -> Result<Seq<ValueModel>, Seq<char>>
    decreases bound, 1nat, n,
{
    if n == 0 {
        Ok(Seq::empty())
    } else {
        match items_model(parts, (n - 1) as nat, bound) {
            Err(m) => Err(m),
            Ok(s) => match part_model(parts, n - 1, bound) {
                Err(m) => Err(m),
                Ok(v) => Ok(s.push(v)),
            },
        }
    }
}

/// The struct fields of the first `n` key/value pairs, each set in name
/// order (a later key replacing an earlier field of the same name), or the
/// first message.
pub open spec fn fields_model(parts: Seq<Seq<u8>>, n: nat, bound: nat) -> Result<Seq<(Seq<char>, ValueModel)>, Seq<char>>
    decreases bound, 1nat, n,
{
    if n == 0 {
        Ok(Seq::empty())
    } else {
        match fields_model(parts, (n - 1) as nat, bound) {
            Err(m) => Err(m),
            Ok(f) => match part_model(parts, 2 * (n - 1) + 1, bound) {
                Err(m) => Err(m),
                Ok(v) => Ok(with_field(f, field_name_of(parts[2 * (n - 1)]), v)),
            },
        }
    }
}

/// The message for a value without a state form.
fn unsupported(xdr: &[u8]) -> (r: MigrationError)
    ensures
        r matches MigrationError::StateConversionFailure(m) && m@ == unsupported_text(xdr@),
{
    let debug = match scval_debug(xdr) {
        Some(d) => d,
        None => String::new(),
    };
    MigrationError::StateConversionFailure(String::from_str("Unsupported ScVal variant: ").concat(debug.as_str()))
}

/// The name a map key gives its field.
fn field_name(key: &[u8]) -> (r: String)
    ensures
        r@ == field_name_of(key@),
{
    let debug = match scval_debug(key) {
        Some(d) => d,
        None => String::new(),
    };
    match scval_head(key) {
        Some(h) => {
            if same_text(h.0.as_str(), "Symbol") {
                match scval_text(key) {
                    Some(t) => t.0,
                    None => debug,
                }
            } else {
                debug
            }
        },
        None => debug,
    }
}

/// The state form of the `i`-th nested value.
fn part_value(parts: &Vec<Vec<u8>>, i: usize, bound: usize) -> (r: Result<StateValue, MigrationError>)
    requires
        forall|j: int| 0 <= j < parts@.len() ==> #[trigger] parts@[j]@.len() < bound,
        i < parts@.len(),
    ensures
        (match r {
            Ok(v) => part_model(parts@.map_values(|b: Vec<u8>| b@), i as int, bound as nat) == Ok::<ValueModel, Seq<char>>(v.model()),
            Err(e) => e matches MigrationError::StateConversionFailure(m)
                && part_model(parts@.map_values(|b: Vec<u8>| b@), i as int, bound as nat) == Err::<ValueModel, Seq<char>>(m@),
        }),
    decreases bound, 0nat, 0nat,
{
    proof {
        assert(parts@.map_values(|b: Vec<u8>| b@)[i as int] == parts@[i as int]@);
        assert(parts@[i as int]@.len() < bound);
    }
    scval_to_state_value(parts[i].as_slice())
}

/// Turns an encoded ledger value into a state value (see `scval_model`).
pub fn scval_to_state_value(xdr: &[u8]) -> (r: Result<StateValue, MigrationError>)
    ensures
        (match r {
            Ok(v) => scval_model(xdr@) == Ok::<ValueModel, Seq<char>>(v.model()),
            Err(e) => e matches MigrationError::StateConversionFailure(m)
                && scval_model(xdr@) == Err::<ValueModel, Seq<char>>(m@),
        }),
    decreases xdr@.len(), 2nat, 0nat,
{
    let h = match scval_head(xdr) {
        Some(h) => h,
        None => return Err(unsupported(xdr)),
    };
    let kind = h.0.as_str();
    if same_text(kind, "Bool") {
        Ok(StateValue::Bool(h.4))
    } else if same_text(kind, "U32") {
        Ok(StateValue::U32(h.1))
    } else if same_text(kind, "U64") {
        Ok(StateValue::U64(h.2))
    } else if same_text(kind, "I32") {
        Ok(StateValue::U64(#[verifier::truncate] (h.3 as u64)))
    } else if same_text(kind, "Address") || same_text(kind, "Symbol") || same_text(kind, "Bytes") {
        let t = match scval_text(xdr) {
            Some(t) => t,
            None => return Err(unsupported(xdr)),
        };
        if same_text(kind, "Address") {
            if t.2 == 0 {
                Ok(StateValue::Address(t.0))
            } else if t.2 == 1 {
                Err(MigrationError::StateConversionFailure(String::from_str("Failed to convert Val to Address: ConversionError")))
            } else {
                Err(MigrationError::StateConversionFailure(String::from_str(
                    "Failed to convert ScVal Address to Val: Error(Object, UnexpectedType)",
                )))
            }
        } else if same_text(kind, "Symbol") {
            Ok(StateValue::Symbol(t.0))
        } else {
            Ok(StateValue::Bytes(hex_encode(t.1.as_slice())))
        }
    } else if same_text(kind, "Vec") || same_text(kind, "Map") {
        let parts = match scval_parts(xdr) {
            Some(p) => p,
            None => {
                proof {
                    reveal_strlit("Vec");
                    reveal_strlit("Map");
                    reveal_strlit("Void");
                    assert(kind@ == "Vec"@ || kind@ == "Map"@);
                    assert(kind@.len() == 3);
                    assert("Void"@.len() == 4);
                }
                return Err(unsupported(xdr));
            },
        };
        let ghost pv = parts@.map_values(|b: Vec<u8>| b@);
        let b = xdr.len();
        proof {
            assert(scval_parts_of(xdr@) == Some(pv));
        }
        if same_text(kind, "Vec") {
            let ghost whole = match items_model(pv, pv.len(), b as nat) {
                Ok(items) => Ok::<ValueModel, Seq<char>>(ValueModel::Vec(items)),
                Err(m) => Err::<ValueModel, Seq<char>>(m),
            };
            assert(scval_model(xdr@) == whole);
            let mut items: Vec<StateValue> = Vec::new();
            let mut n: usize = 0;
            while n < parts.len()
                invariant
                    pv == parts@.map_values(|b: Vec<u8>| b@),
                    b == xdr@.len(),
                    forall|j: int| 0 <= j < parts@.len() ==> #[trigger] parts@[j]@.len() < b,
                    n <= parts@.len(),
                    items_model(pv, n as nat, b as nat) == Ok::<Seq<ValueModel>, Seq<char>>(model_seq(items@)),
                    scval_model(xdr@) == whole,
                    whole == (match items_model(pv, pv.len(), b as nat) {
                        Ok(items) => Ok::<ValueModel, Seq<char>>(ValueModel::Vec(items)),
                        Err(m) => Err::<ValueModel, Seq<char>>(m),
                    }),
                decreases parts.len() - n,
            {
                let ghost before = items@;
                match part_value(&parts, n, b) {
                    Err(e) => {
                        proof {
                            lemma_items_error_sticks(pv, (n + 1) as nat, pv.len(), b as nat);
                        }
                        return Err(e);
                    },
                    Ok(v) => {
                        items.push(v);
                        proof {
                            lemma_model_seq(items@);
                            lemma_model_seq(before);
                            assert(model_seq(items@) =~= model_seq(before).push(items@.last().model()));
                        }
                    },
                }
                n = n + 1;
            }
            proof {
                assert(pv.len() == n);
            }
            Ok(StateValue::Vec(items))
        } else {
            let pairs = parts.len() / 2;
            let ghost whole = match fields_model(pv, pv.len() / 2, b as nat) {
                Ok(f) => Ok::<ValueModel, Seq<char>>(ValueModel::Struct(f)),
                Err(m) => Err::<ValueModel, Seq<char>>(m),
            };
            assert(scval_model(xdr@) == whole);
            let mut fields = StructFields::new();
            let mut n: usize = 0;
            while n < pairs
                invariant
                    pv == parts@.map_values(|b: Vec<u8>| b@),
                    b == xdr@.len(),
                    forall|j: int| 0 <= j < parts@.len() ==> #[trigger] parts@[j]@.len() < b,
                    pairs == parts@.len() / 2,
                    n <= pairs,
                    fields_model(pv, n as nat, b as nat) == Ok::<Seq<(Seq<char>, ValueModel)>, Seq<char>>(fields.model()),
                    scval_model(xdr@) == whole,
                    whole == (match fields_model(pv, pv.len() / 2, b as nat) {
                        Ok(f) => Ok::<ValueModel, Seq<char>>(ValueModel::Struct(f)),
                        Err(m) => Err::<ValueModel, Seq<char>>(m),
                    }),
                decreases pairs - n,
            {
                proof {
                    let len = parts@.len() as int;
                    assert(2 * (n as int) + 1 < len) by (nonlinear_arith)
                        requires
                            (n as int) < (pairs as int),
                            (pairs as int) == len / 2,
                            len >= 0;
                }
                match part_value(&parts, 2 * n + 1, b) {
                    Err(e) => {
                        proof {
                            lemma_fields_error_sticks(pv, (n + 1) as nat, (pairs) as nat, b as nat);
                        }
                        return Err(e);
                    },
                    Ok(v) => {
                        proof {
                            assert(pv[2 * n as int] == parts@[2 * n as int]@);
                        }
                        let name = field_name(parts[2 * n].as_slice());
                        fields.insert(name, v);
                    },
                }
                n = n + 1;
            }
            Ok(StateValue::Struct(fields))
        }
    } else if same_text(kind, "Void") {
        Ok(StateValue::Option(None))
    } else {
        Err(unsupported(xdr))
    }
}

/// Once the first `n` items give a message, so do the first `m`.
proof fn lemma_items_error_sticks(parts: Seq<Seq<u8>>, n: nat, m: nat, bound: nat)
    requires
        n <= m,
        items_model(parts, n, bound) is Err,
    ensures
        items_model(parts, m, bound) == items_model(parts, n, bound),
    decreases m - n,
{
    if n < m {
        lemma_items_error_sticks(parts, n, (m - 1) as nat, bound);
    }
}

/// Once the first `n` pairs give a message, so do the first `m`.
proof fn lemma_fields_error_sticks(parts: Seq<Seq<u8>>, n: nat, m: nat, bound: nat)
    requires
        n <= m,
        fields_model(parts, n, bound) is Err,
    ensures
        fields_model(parts, m, bound) == fields_model(parts, n, bound),
    decreases m - n,
{
    if n < m {
        lemma_fields_error_sticks(parts, n, (m - 1) as nat, bound);
    }
}

/// A contract data entry of a ledger snapshot: whether it is temporary,
/// whether its key is the contract-instance key, the identifier of the
/// contract that owns it (where a contract does), and its encoded key and
/// value.
pub struct LedgerItem {
    pub temporary: bool,
    pub instance_key: bool,
    pub owner: Option<Vec<u8>>,
    pub key: Vec<u8>,
    pub value: Vec<u8>,
}

/// Why a state could not be captured from a snapshot.
#[derive(Debug)]
pub enum CaptureFailure {
    KeyConversion(MigrationError),
    ValueConversion(MigrationError),
    InvalidState(StateError),
}

/// The entry belongs to the captured state of `contract`.
pub open spec fn kept_item(it: LedgerItem, contract: Seq<u8>) -> bool {
    !it.temporary && !it.instance_key && (it.owner matches Some(o) && o@ == contract)
}

/// The entries of the first `n` snapshot items that belong to `contract`,
/// each persistent with its key and value in state form; or the first
/// conversion message, with whether it was a key's.
pub open spec fn captured_from(items: Seq<LedgerItem>, contract: Seq<u8>, n: nat) -> Result<Seq<EntryModel>, (bool, Seq<char>)>
    decreases n,
{
    if n == 0 {
        Ok(Seq::empty())
    } else {
        match captured_from(items, contract, (n - 1) as nat) {
            Err(e) => Err(e),
            Ok(es) => {
                let it = items[n - 1];
                if !kept_item(it, contract) {
                    Ok(es)
                } else {
                    match scval_model(it.key@) {
                        Err(m) => Err((true, m)),
                        Ok(k) => match scval_model(it.value@) {
                            Err(m) => Err((false, m)),
                            Ok(v) => Ok(es.push(EntryModel { durability: Durability::Persistent, key: k, value: v })),
                        },
                    }
                }
            },
        }
    }
}

proof fn lemma_capture_error_sticks(items: Seq<LedgerItem>, contract: Seq<u8>, n: nat, m: nat)
    requires
        n <= m,
        captured_from(items, contract, n) is Err,
    ensures
        captured_from(items, contract, m) == captured_from(items, contract, n),
    decreases m - n,
{
    if n < m {
        lemma_capture_error_sticks(items, contract, n, (m - 1) as nat);
    }
}

impl MigrationEngine {
    /// The state of `contract` in a snapshot: the items it owns that are
    /// neither temporary nor its instance entry, in order, converted to
    /// persistent entries; the first key or value without a state form
    /// fails the capture, and so does a repeated identity; the entries are
    /// put in canonical order.
    pub fn capture_state(contract_id: String, contract: &Vec<u8>, items: &Vec<LedgerItem>) -> (r: Result<ContractState, CaptureFailure>)
        ensures
            (match captured_from(items@, contract@, items@.len()) {
                Err((is_key, m)) => {
                    if is_key {
                        r matches Err(CaptureFailure::KeyConversion(MigrationError::StateConversionFailure(x))) && x@ == m
                    } else {
                        r matches Err(CaptureFailure::ValueConversion(MigrationError::StateConversionFailure(x))) && x@ == m
                    }
                },
                Ok(es) => match r {
                    Ok(st) => {
                        &&& ids_unique(es)
                        &&& st.contract_id@ == contract_id@
                        &&& st.entries_model().to_multiset() == es.to_multiset()
                        &&& ids_strictly_sorted(st.entries_model())
                    },
                    Err(CaptureFailure::InvalidState(e)) => validation_ok(Err(e), es),
                    Err(_) => false,
                },
            }),
    {
        let mut entries: Vec<StateEntry> = Vec::new();
        let mut i: usize = 0;
        proof {
            assert(entries_model(entries@) =~= Seq::<EntryModel>::empty());
        }
        while i < items.len()
            invariant
                i <= items@.len(),
                captured_from(items@, contract@, i as nat) == Ok::<Seq<EntryModel>, (bool, Seq<char>)>(entries_model(entries@)),
            decreases items.len() - i,
        {
            let it = &items[i];
            if MigrationEngine::keeps_ledger_entry(it.temporary, it.instance_key, &it.owner, contract) {
                let key = match scval_to_state_value(it.key.as_slice()) {
                    Ok(k) => k,
                    Err(e) => {
                        proof {
                            lemma_capture_error_sticks(items@, contract@, (i + 1) as nat, items@.len());
                        }
                        return Err(CaptureFailure::KeyConversion(e));
                    },
                };
                let value = match scval_to_state_value(it.value.as_slice()) {
                    Ok(v) => v,
                    Err(e) => {
                        proof {
                            lemma_capture_error_sticks(items@, contract@, (i + 1) as nat, items@.len());
                        }
                        return Err(CaptureFailure::ValueConversion(e));
                    },
                };
                let ghost before = entries@;
                entries.push(StateEntry { durability: Durability::Persistent, key, value });
                proof {
                    assert(entries_model(entries@) =~= entries_model(before).push(entries@.last().model()));
                }
            }
            i = i + 1;
        }
        match ContractState::new(contract_id, entries) {
            Ok(st) => Ok(st),
            Err(e) => Err(CaptureFailure::InvalidState(e)),
        }
    }
}

} // verus!
