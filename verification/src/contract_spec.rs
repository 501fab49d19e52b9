//! Reading a contract's `contractspecv0`, `contractmetav0` and
//! `contractenvmetav0` custom sections: XDR decoding is left to `stellar_xdr`,
//! and what the entries say is turned into functions, types and metadata here.
use vstd::prelude::*;
use vstd::string::StringExecFns;
use stellar_xdr::curr::{
    Limited, Limits, ReadXdr, ScEnvMetaEntry, ScMetaEntry, ScSpecEntry, ScSpecTypeDef,
    ScSpecUdtUnionCaseV0, WriteXdr,
};
use crate::analysis::{
    EnvMetadata, FieldAnalysis, FieldView, FunctionAnalysis, FunctionView, Metadata, TypeAnalysis,
    TypeRef, TypeRefView, TypeView, fields_view, functions_view, type_refs_view, types_view,
};
use crate::text::{decimal, decimal_text, same_text};

verus! {

// ---------------------------------------------------------------------------
// Views of what the decoder hands over
// ---------------------------------------------------------------------------

/// The views of a list of byte strings.
pub open spec fn bytes_list_view(s: Seq<Vec<u8>>) -> Seq<Seq<u8>> {
    s.map_values(|v: Vec<u8>| v@)
}

/// The views of a list of (name, encoded type) pairs.
pub open spec fn named_types_view(s: Seq<(String, Vec<u8>)>) -> Seq<(Seq<char>, Seq<u8>)> {
    s.map_values(|p: (String, Vec<u8>)| (p.0@, p.1@))
}

/// The views of a list of union cases: (case kind, name, encoded types).
pub open spec fn union_cases_view(s: Seq<(String, String, Vec<Vec<u8>>)>) -> Seq<(Seq<char>, Seq<char>, Seq<Seq<u8>>)> {
    s.map_values(|c: (String, String, Vec<Vec<u8>>)| (c.0@, c.1@, bytes_list_view(c.2@)))
}

/// The views of a list of enum cases: (name, value).
pub open spec fn enum_cases_view(s: Seq<(String, u32)>) -> Seq<(Seq<char>, u32)> {
    s.map_values(|c: (String, u32)| (c.0@, c.1))
}

/// A type definition's variant name, `BytesN` size and user type name.
pub uninterp spec fn type_def_kind_of(xdr: Seq<u8>) -> Option<(Seq<char>, u32, Seq<char>)>;

/// The encodings of the type definitions nested in a type definition.
pub uninterp spec fn type_def_parts_of(xdr: Seq<u8>) -> Option<Seq<Seq<u8>>>;

/// A spec entry read at a position: its variant name and length, or the
/// decoding error's message.
pub uninterp spec fn spec_entry_at(data: Seq<u8>, pos: nat) -> Result<(Seq<char>, nat), Seq<char>>;

/// A function entry: name, (input name, encoded input type), encoded outputs.
pub uninterp spec fn function_entry_of(entry: Seq<u8>) -> Option<(Seq<char>, Seq<(Seq<char>, Seq<u8>)>, Seq<Seq<u8>>)>;

/// A struct entry: name, (field name, encoded field type).
pub uninterp spec fn struct_entry_of(entry: Seq<u8>) -> Option<(Seq<char>, Seq<(Seq<char>, Seq<u8>)>)>;

/// A union entry: name, (case kind, case name, encoded case types).
pub uninterp spec fn union_entry_of(entry: Seq<u8>) -> Option<(Seq<char>, Seq<(Seq<char>, Seq<char>, Seq<Seq<u8>>)>)>;

/// An enum entry: name, (case name, case value).
pub uninterp spec fn enum_entry_of(entry: Seq<u8>) -> Option<(Seq<char>, Seq<(Seq<char>, u32)>)>;

/// A metadata entry read at a position: key, value and length.
pub uninterp spec fn meta_entry_at(data: Seq<u8>, pos: nat) -> Option<(Seq<char>, Seq<char>, nat)>;

/// An environment metadata entry read at a position: protocol and length.
pub uninterp spec fn env_meta_entry_at(data: Seq<u8>, pos: nat) -> Option<(u32, nat)>;

// ---------------------------------------------------------------------------
// Calls into `stellar_xdr`
// ---------------------------------------------------------------------------

/// Decodes `xdr` as one `ScSpecTypeDef` (`ReadXdr::from_xdr`, no limits) and
/// gives `ScSpecTypeDef::name`, the `n` of `BytesN` (else 0) and the name of
/// `Udt` (else empty); `None` where decoding fails.
#[verifier::external_body]
fn type_def_kind(xdr: &[u8]) -> (r: Option<(String, u32, String)>)
    ensures
        (match r {
            Some(k) => type_def_kind_of(xdr@) == Some((k.0@, k.1, k.2@)),
            None => type_def_kind_of(xdr@) is None,
        }),
{
    let t = ScSpecTypeDef::from_xdr(xdr, Limits::none()).ok()?;
    let (size, udt) = match &t {
        ScSpecTypeDef::BytesN(b) => (b.n, String::new()),
        ScSpecTypeDef::Udt(u) => (0, u.name.to_utf8_string_lossy()),
        _ => (0, String::new()),
    };
    Some((t.name().to_string(), size, udt))
}

/// Decodes `xdr` as one `ScSpecTypeDef` (`ReadXdr::from_xdr`, no limits) and
/// re-encodes (`WriteXdr::to_xdr`) the definitions it nests: the payload of
/// `Option` and `Vec`, ok and error of `Result`, key and value of `Map`, the
/// members of `Tuple`; `None` where decoding fails. A nested definition is
/// part of the encoding after the variant tag, so each is shorter than `xdr`.
#[verifier::external_body]
fn type_def_parts(xdr: &[u8]) -> (r: Option<Vec<Vec<u8>>>)
    ensures
        (match r {
            Some(p) => type_def_parts_of(xdr@) == Some(bytes_list_view(p@)),
            None => type_def_parts_of(xdr@) is None,
        }),
        r matches Some(p) ==> forall|i: int| 0 <= i < p@.len() ==> #[trigger] p@[i]@.len() < xdr@.len(),
{
    let t = ScSpecTypeDef::from_xdr(xdr, Limits::none()).ok()?;
    let kids: Vec<&ScSpecTypeDef> = match &t {
        ScSpecTypeDef::Option(o) => vec![&*o.value_type],
        ScSpecTypeDef::Result(r) => vec![&*r.ok_type, &*r.error_type],
        ScSpecTypeDef::Vec(v) => vec![&*v.element_type],
        ScSpecTypeDef::Map(m) => vec![&*m.key_type, &*m.value_type],
        ScSpecTypeDef::Tuple(u) => u.value_types.iter().collect(),
        _ => Vec::new(),
    };
    kids.iter().map(|k| k.to_xdr(Limits::none()).ok()).collect()
}

/// Reads one `ScSpecEntry` (`ReadXdr::read_xdr`, no limits) from `data`
/// starting at `pos`; gives `ScSpecEntry::name` and the number of bytes read,
/// or the error's message. An entry starts with a 4-byte variant tag, so a
/// read that succeeds consumes bytes.
#[verifier::external_body]
fn read_spec_entry(data: &[u8], pos: usize) -> (r: Result<(String, usize), String>)
    requires
        pos <= data@.len(),
    ensures
        (match r {
            Ok(k) => spec_entry_at(data@, pos as nat) == Ok::<(Seq<char>, nat), Seq<char>>((k.0@, k.1 as nat)),
            Err(m) => spec_entry_at(data@, pos as nat) == Err::<(Seq<char>, nat), Seq<char>>(m@),
        }),
        r matches Ok(k) ==> 0 < k.1 <= data@.len() - pos,
{
    let mut cursor = std::io::Cursor::new(&data[pos..]);
    let mut limited = Limited::new(&mut cursor, Limits::none());
    match ScSpecEntry::read_xdr(&mut limited) {
        Ok(entry) => Ok((entry.name().to_string(), limited.inner.position() as usize)),
        Err(e) => Err(e.to_string()),
    }
}

/// Decodes `entry` as one `ScSpecEntry` (`ReadXdr::from_xdr`, no limits);
/// for a `FunctionV0` gives its name, each input's name with its type
/// re-encoded (`WriteXdr::to_xdr`), and each output type re-encoded.
#[verifier::external_body]
fn function_entry(entry: &[u8]) -> (r: Option<(String, Vec<(String, Vec<u8>)>, Vec<Vec<u8>>)>)
    ensures
        (match r {
            Some(f) => function_entry_of(entry@) == Some((f.0@, named_types_view(f.1@), bytes_list_view(f.2@))),
            None => function_entry_of(entry@) is None,
        }),
{
    match ScSpecEntry::from_xdr(entry, Limits::none()) {
        Ok(ScSpecEntry::FunctionV0(f)) => Some((
            f.name.to_utf8_string_lossy(),
            f.inputs.iter().map(|i| (i.name.to_utf8_string_lossy(), i.type_.to_xdr(Limits::none()).unwrap_or_default())).collect(),
            f.outputs.iter().map(|o| o.to_xdr(Limits::none()).unwrap_or_default()).collect(),
        )),
        Ok(_) => None,
        Err(_) => None,
    }
}

/// Decodes `entry` as one `ScSpecEntry` (`ReadXdr::from_xdr`, no limits);
/// for a `UdtStructV0` gives its name and each field's name with its type
/// re-encoded (`WriteXdr::to_xdr`).
#[verifier::external_body]
fn struct_entry(entry: &[u8]) -> (r: Option<(String, Vec<(String, Vec<u8>)>)>)
    ensures
        (match r {
            Some(s) => struct_entry_of(entry@) == Some((s.0@, named_types_view(s.1@))),
            None => struct_entry_of(entry@) is None,
        }),
{
    match ScSpecEntry::from_xdr(entry, Limits::none()) {
        Ok(ScSpecEntry::UdtStructV0(s)) => Some((
            s.name.to_utf8_string_lossy(),
            s.fields.iter().map(|f| (f.name.to_utf8_string_lossy(), f.type_.to_xdr(Limits::none()).unwrap_or_default())).collect(),
        )),
        Ok(_) => None,
        Err(_) => None,
    }
}

/// Decodes `entry` as one `ScSpecEntry` (`ReadXdr::from_xdr`, no limits);
/// for a `UdtUnionV0` gives its name and, for each case, the case's variant
/// name (`ScSpecUdtUnionCaseV0::name`), its name and its types re-encoded.
#[verifier::external_body]
fn union_entry(entry: &[u8]) -> (r: Option<(String, Vec<(String, String, Vec<Vec<u8>>)>)>)
    ensures
        (match r {
            Some(u) => union_entry_of(entry@) == Some((u.0@, union_cases_view(u.1@))),
            None => union_entry_of(entry@) is None,
        }),
{
    match ScSpecEntry::from_xdr(entry, Limits::none()) {
        Ok(ScSpecEntry::UdtUnionV0(u)) => Some((
            u.name.to_utf8_string_lossy(),
            u.cases.iter().map(|c| match c {
                ScSpecUdtUnionCaseV0::VoidV0(v) => (c.name().to_string(), v.name.to_utf8_string_lossy(), Vec::new()),
                ScSpecUdtUnionCaseV0::TupleV0(t) => (c.name().to_string(), t.name.to_utf8_string_lossy(),
                    t.type_.iter().map(|x| x.to_xdr(Limits::none()).unwrap_or_default()).collect()),
            }).collect(),
        )),
        Ok(_) => None,
        Err(_) => None,
    }
}

/// Decodes `entry` as one `ScSpecEntry` (`ReadXdr::from_xdr`, no limits);
/// for a `UdtEnumV0` gives its name and each case's name and value.
#[verifier::external_body]
fn enum_entry(entry: &[u8]) -> (r: Option<(String, Vec<(String, u32)>)>)
    ensures
        (match r {
            Some(e) => enum_entry_of(entry@) == Some((e.0@, enum_cases_view(e.1@))),
            None => enum_entry_of(entry@) is None,
        }),
{
    match ScSpecEntry::from_xdr(entry, Limits::none()) {
        Ok(ScSpecEntry::UdtEnumV0(e)) => Some((
            e.name.to_utf8_string_lossy(),
            e.cases.iter().map(|c| (c.name.to_utf8_string_lossy(), c.value)).collect(),
        )),
        Ok(_) => None,
        Err(_) => None,
    }
}

/// Reads one `ScMetaEntry` (`ReadXdr::read_xdr`, no limits) from `data` at
/// `pos`; gives its key, its value and the number of bytes read, `None`
/// where reading fails. A read that succeeds consumes bytes.
#[verifier::external_body]
fn read_meta_entry(data: &[u8], pos: usize) -> (r: Option<(String, String, usize)>)
    requires
        pos <= data@.len(),
    ensures
        (match r {
            Some(m) => meta_entry_at(data@, pos as nat) == Some((m.0@, m.1@, m.2 as nat)),
            None => meta_entry_at(data@, pos as nat) is None,
        }),
        r matches Some(m) ==> 0 < m.2 <= data@.len() - pos,
{
    let mut cursor = std::io::Cursor::new(&data[pos..]);
    let mut limited = Limited::new(&mut cursor, Limits::none());
    let ScMetaEntry::ScMetaV0(m) = ScMetaEntry::read_xdr(&mut limited).ok()?;
    Some((m.key.to_utf8_string_lossy(), m.val.to_utf8_string_lossy(), limited.inner.position() as usize))
}

/// Reads one `ScEnvMetaEntry` (`ReadXdr::read_xdr`, no limits) from `data`
/// at `pos`; gives the interface version's protocol and the number of bytes
/// read, `None` where reading fails. A read that succeeds consumes bytes.
#[verifier::external_body]
fn read_env_meta_entry(data: &[u8], pos: usize) -> (r: Option<(u32, usize)>)
    requires
        pos <= data@.len(),
    ensures
        (match r {
            Some(m) => env_meta_entry_at(data@, pos as nat) == Some((m.0, m.1 as nat)),
            None => env_meta_entry_at(data@, pos as nat) is None,
        }),
        r matches Some(m) ==> 0 < m.1 <= data@.len() - pos,
{
    let mut cursor = std::io::Cursor::new(&data[pos..]);
    let mut limited = Limited::new(&mut cursor, Limits::none());
    let ScEnvMetaEntry::ScEnvMetaKindInterfaceVersion(v) = ScEnvMetaEntry::read_xdr(&mut limited).ok()?;
    Some((v.protocol, limited.inner.position() as usize))
}

// ---------------------------------------------------------------------------
// How type definitions are written
// ---------------------------------------------------------------------------

/// The text of a type that stands alone, by its variant name.
pub open spec fn simple_type_text(kind: Seq<char>) -> Option<Seq<char>> {
    if kind == "Val"@ { Some("Val"@) }
    else if kind == "U64"@ { Some("u64"@) }
    else if kind == "I64"@ { Some("i64"@) }
    else if kind == "U32"@ { Some("u32"@) }
    else if kind == "I32"@ { Some("i32"@) }
    else if kind == "U128"@ { Some("u128"@) }
    else if kind == "I128"@ { Some("i128"@) }
    else if kind == "U256"@ { Some("u256"@) }
    else if kind == "I256"@ { Some("i256"@) }
    else if kind == "Bool"@ { Some("bool"@) }
    else if kind == "Symbol"@ { Some("symbol"@) }
    else if kind == "String"@ { Some("string"@) }
    else if kind == "Bytes"@ { Some("bytes"@) }
    else if kind == "Address"@ { Some("Address"@) }
    else if kind == "Void"@ { Some("void"@) }
    else if kind == "Timepoint"@ { Some("Timepoint"@) }
    else if kind == "Duration"@ { Some("Duration"@) }
    else { None }
}

/// The variant names of type definitions that nest others.
pub open spec fn is_composite(kind: Seq<char>) -> bool {
    kind == "Option"@ || kind == "Result"@ || kind == "Vec"@ || kind == "Map"@ || kind == "Tuple"@
}

/// The `i`-th text, or `Unknown` where there is none.
pub open spec fn text_at(texts: Seq<Seq<char>>, i: int) -> Seq<char> {
    if 0 <= i < texts.len() { texts[i] } else { "Unknown"@ }
}

/// The first `n` texts, separated by `, `.
pub open spec fn join_texts(texts: Seq<Seq<char>>, n: nat) -> Seq<char>
    decreases n,
{
    if n == 0 {
        Seq::empty()
    } else if n == 1 {
        text_at(texts, 0)
    } else {
        join_texts(texts, (n - 1) as nat) + ", "@ + text_at(texts, n - 1)
    }
}

/// How a type definition is written, given its variant name, its `BytesN`
/// size, its user-defined type name and the texts of the definitions it
/// nests: a simple name, a composite `Name<..>`, the user-defined name, or
/// unknown.
pub open spec fn node_text(kind: Seq<char>, size: u32, udt: Seq<char>, parts: Seq<Seq<char>>) -> TypeRefView {
    if simple_type_text(kind) is Some {
        TypeRefView::Simple(simple_type_text(kind)->0)
    } else if kind == "Option"@ {
        TypeRefView::Complex("Option<"@ + text_at(parts, 0) + ">"@)
    } else if kind == "Result"@ {
        TypeRefView::Complex("Result<"@ + text_at(parts, 0) + ", "@ + text_at(parts, 1) + ">"@)
    } else if kind == "Vec"@ {
        TypeRefView::Complex("Vec<"@ + text_at(parts, 0) + ">"@)
    } else if kind == "Map"@ {
        TypeRefView::Complex("Map<"@ + text_at(parts, 0) + ", "@ + text_at(parts, 1) + ">"@)
    } else if kind == "Tuple"@ {
        TypeRefView::Complex("Tuple<"@ + join_texts(parts, parts.len()) + ">"@)
    } else if kind == "BytesN"@ {
        TypeRefView::Complex("BytesN<"@ + decimal(size as nat) + ">"@)
    } else if kind == "Udt"@ {
        TypeRefView::Complex(udt)
    } else {
        TypeRefView::Unknown
    }
}

/// How the type definition encoded in `xdr` is written (`node_text` of what
/// the decoder reports, the nested definitions written the same way).
pub open spec fn type_text(xdr: Seq<u8>) -> TypeRefView
    decreases xdr.len(), 2nat, 0nat,
{
    match type_def_kind_of(xdr) {
        None => TypeRefView::Unknown,
        Some(k) => {
            if is_composite(k.0) {
                match type_def_parts_of(xdr) {
                    None => TypeRefView::Unknown,
                    Some(parts) => node_text(k.0, k.1, k.2, part_texts(parts, parts.len(), xdr.len())),
                }
            } else {
                node_text(k.0, k.1, k.2, Seq::empty())
            }
        },
    }
}

/// The text of the `i`-th nested definition (each shorter than `bound`).
pub open spec fn part_text(parts: Seq<Seq<u8>>, i: int, bound: nat) -> Seq<char>
    decreases bound, 0nat, 0nat,
{
    if 0 <= i < parts.len() && parts[i].len() < bound {
        type_text(parts[i]).text()
    } else {
        "Unknown"@
    }
}

/// The texts of the first `n` nested definitions.
pub open spec fn part_texts(parts: Seq<Seq<u8>>, n: nat, bound: nat) -> Seq<Seq<char>>
    decreases bound, 1nat, n,
{
    if n == 0 {
        Seq::empty()
    } else {
        part_texts(parts, (n - 1) as nat, bound).push(part_text(parts, n - 1, bound))
    }
}

/// The texts of the type definitions in `xs`.
pub open spec fn type_texts(xs: Seq<Seq<u8>>) -> Seq<Seq<char>> {
    xs.map_values(|x: Seq<u8>| type_text(x).text())
}

/// The text of a type that stands alone, by its variant name.
fn simple_type_string(kind: &String) -> (r: Option<String>)
    ensures
        (match r {
            Some(t) => simple_type_text(kind@) == Some(t@),
            None => simple_type_text(kind@) is None,
        }),
{
    let k = kind.as_str();
    if same_text(k, "Val") { Some(String::from_str("Val")) }
    else if same_text(k, "U64") { Some(String::from_str("u64")) }
    else if same_text(k, "I64") { Some(String::from_str("i64")) }
    else if same_text(k, "U32") { Some(String::from_str("u32")) }
    else if same_text(k, "I32") { Some(String::from_str("i32")) }
    else if same_text(k, "U128") { Some(String::from_str("u128")) }
    else if same_text(k, "I128") { Some(String::from_str("i128")) }
    else if same_text(k, "U256") { Some(String::from_str("u256")) }
    else if same_text(k, "I256") { Some(String::from_str("i256")) }
    else if same_text(k, "Bool") { Some(String::from_str("bool")) }
    else if same_text(k, "Symbol") { Some(String::from_str("symbol")) }
    else if same_text(k, "String") { Some(String::from_str("string")) }
    else if same_text(k, "Bytes") { Some(String::from_str("bytes")) }
    else if same_text(k, "Address") { Some(String::from_str("Address")) }
    else if same_text(k, "Void") { Some(String::from_str("void")) }
    else if same_text(k, "Timepoint") { Some(String::from_str("Timepoint")) }
    else if same_text(k, "Duration") { Some(String::from_str("Duration")) }
    else { None }
}

/// The views of a list of strings.
pub open spec fn strings_view(s: Seq<String>) -> Seq<Seq<char>> {
    s.map_values(|t: String| t@)
}

/// The texts, separated by `, `.
fn join_strings(texts: &Vec<String>) -> (r: String)
    ensures
        r@ == join_texts(strings_view(texts@), texts@.len()),
{
    let ghost v = strings_view(texts@);
    let mut s = String::new();
    let mut n: usize = 0;
    while n < texts.len()
        invariant
            v == strings_view(texts@),
            n <= texts@.len(),
            s@ == join_texts(v, n as nat),
        decreases texts.len() - n,
    {
        if n > 0 {
            s.append(", ");
        }
        proof {
            assert(v[n as int] == texts@[n as int]@);
        }
        s.append(texts[n].as_str());
        n = n + 1;
        proof {
            assert(s@ =~= join_texts(v, n as nat));
        }
    }
    s
}

/// How a type definition is written, given its variant name, its `BytesN`
/// size, its user-defined type name and the texts of the definitions it
/// nests.
pub fn type_from_parts(kind: &String, size: u32, udt: &String, parts: &Vec<String>) -> (r: TypeRef)
    ensures
        r@ == node_text(kind@, size, udt@, strings_view(parts@)),
{
    let ghost pv = strings_view(parts@);
    if let Some(t) = simple_type_string(kind) {
        return TypeRef::Simple(t);
    }
    let k = kind.as_str();
    let unknown = String::from_str("Unknown");
    let first = if parts.len() > 0 { parts[0].as_str() } else { unknown.as_str() };
    let second = if parts.len() > 1 { parts[1].as_str() } else { unknown.as_str() };
    proof {
        assert(first@ == text_at(pv, 0));
        assert(second@ == text_at(pv, 1));
    }
    if same_text(k, "Option") {
        TypeRef::Complex(String::from_str("Option<").concat(first).concat(">"))
    } else if same_text(k, "Result") {
        TypeRef::Complex(String::from_str("Result<").concat(first).concat(", ").concat(second).concat(">"))
    } else if same_text(k, "Vec") {
        TypeRef::Complex(String::from_str("Vec<").concat(first).concat(">"))
    } else if same_text(k, "Map") {
        TypeRef::Complex(String::from_str("Map<").concat(first).concat(", ").concat(second).concat(">"))
    } else if same_text(k, "Tuple") {
        TypeRef::Complex(String::from_str("Tuple<").concat(join_strings(parts).as_str()).concat(">"))
    } else if same_text(k, "BytesN") {
        TypeRef::Complex(String::from_str("BytesN<").concat(decimal_text(size as u64).as_str()).concat(">"))
    } else if same_text(k, "Udt") {
        TypeRef::Complex(udt.clone())
    } else {
        TypeRef::Unknown
    }
}

/// The text of the `i`-th nested definition.
fn part_string(parts: &Vec<Vec<u8>>, i: usize, bound: usize) -> (r: String)
    requires
        forall|j: int| 0 <= j < parts@.len() ==> #[trigger] parts@[j]@.len() < bound,
    ensures
        r@ == part_text(bytes_list_view(parts@), i as int, bound as nat),
    decreases bound, 0nat, 0nat,
{
    if i < parts.len() {
        proof {
            assert(bytes_list_view(parts@)[i as int] == parts@[i as int]@);
            assert(parts@[i as int]@.len() < bound);
        }
        map_type_def(parts[i].as_slice()).to_string_rep()
    } else {
        String::from_str("Unknown")
    }
}

/// How the type definition encoded in `xdr` is written.
pub fn map_type_def(xdr: &[u8]) -> (r: TypeRef)
    ensures
        r@ == type_text(xdr@),
    decreases xdr@.len(), 2nat, 0nat,
{
    let kind = match type_def_kind(xdr) {
        Some(k) => k,
        None => return TypeRef::Unknown,
    };
    let k = kind.0.as_str();
    if same_text(k, "Option") || same_text(k, "Result") || same_text(k, "Vec") || same_text(k, "Map") || same_text(k, "Tuple") {
        let parts = match type_def_parts(xdr) {
            Some(p) => p,
            None => return TypeRef::Unknown,
        };
        let ghost pv = bytes_list_view(parts@);
        let b = xdr.len();
        let mut texts: Vec<String> = Vec::new();
        let mut n: usize = 0;
        while n < parts.len()
            invariant
                pv == bytes_list_view(parts@),
                b == xdr@.len(),
                forall|j: int| 0 <= j < parts@.len() ==> #[trigger] parts@[j]@.len() < b,
                n <= parts@.len(),
                strings_view(texts@) == part_texts(pv, n as nat, b as nat),
            decreases parts.len() - n,
        {
            let t = part_string(&parts, n, b);
            texts.push(t);
            n = n + 1;
            proof {
                assert(strings_view(texts@) =~= part_texts(pv, n as nat, b as nat));
            }
        }
        type_from_parts(&kind.0, kind.1, &kind.2, &texts)
    } else {
        let none: Vec<String> = Vec::new();
        proof {
            assert(strings_view(none@) =~= Seq::<Seq<char>>::empty());
        }
        type_from_parts(&kind.0, kind.1, &kind.2, &none)
    }
}

/// The texts of the type definitions in `xs`.
fn type_strings(xs: &Vec<Vec<u8>>) -> (r: Vec<String>)
    ensures
        strings_view(r@) == type_texts(bytes_list_view(xs@)),
{
    let mut out: Vec<String> = Vec::new();
    let mut n: usize = 0;
    while n < xs.len()
        invariant
            n <= xs@.len(),
            out@.len() == n,
            forall|j: int| 0 <= j < n ==> #[trigger] out@[j]@ == type_text(xs@[j]@).text(),
        decreases xs.len() - n,
    {
        out.push(map_type_def(xs[n].as_slice()).to_string_rep());
        n = n + 1;
    }
    proof {
        assert(strings_view(out@) =~= type_texts(bytes_list_view(xs@)));
    }
    out
}

// ---------------------------------------------------------------------------
// What spec entries declare
// ---------------------------------------------------------------------------

/// A named, encoded type as a field.
pub open spec fn field_of(p: (Seq<char>, Seq<u8>)) -> FieldView {
    FieldView { name: p.0, type_ref: type_text(p.1) }
}

/// The function a function entry declares.
pub open spec fn function_of(f: (Seq<char>, Seq<(Seq<char>, Seq<u8>)>, Seq<Seq<u8>>)) -> FunctionView {
    FunctionView {
        name: f.0,
        inputs: f.1.map_values(|p: (Seq<char>, Seq<u8>)| field_of(p)),
        outputs: f.2.map_values(|x: Seq<u8>| type_text(x)),
    }
}

/// The type a struct entry declares.
pub open spec fn struct_of(s: (Seq<char>, Seq<(Seq<char>, Seq<u8>)>)) -> TypeView {
    TypeView { name: s.0, description: "struct"@, fields: s.1.map_values(|p: (Seq<char>, Seq<u8>)| field_of(p)) }
}

/// A union case as a field: `void` for a case without values, else the tuple
/// of its value types.
pub open spec fn union_case_of(c: (Seq<char>, Seq<char>, Seq<Seq<u8>>)) -> FieldView {
    FieldView {
        name: c.1,
        type_ref: if c.0 == "VoidV0"@ {
            TypeRefView::Simple("void"@)
        } else {
            TypeRefView::Complex("Tuple<"@ + join_texts(type_texts(c.2), c.2.len()) + ">"@)
        },
    }
}

/// The type a union entry declares.
pub open spec fn union_of(u: (Seq<char>, Seq<(Seq<char>, Seq<char>, Seq<Seq<u8>>)>)) -> TypeView {
    TypeView {
        name: u.0,
        description: "union"@,
        fields: u.1.map_values(|c: (Seq<char>, Seq<char>, Seq<Seq<u8>>)| union_case_of(c)),
    }
}

/// The type an enum entry declares: each case with its value in decimal.
pub open spec fn enum_of(e: (Seq<char>, Seq<(Seq<char>, u32)>)) -> TypeView {
    TypeView {
        name: e.0,
        description: "enum"@,
        fields: e.1.map_values(|c: (Seq<char>, u32)| FieldView { name: c.0, type_ref: TypeRefView::Simple(decimal(c.1 as nat)) }),
    }
}

/// The functions and types found so far, extended by one entry.
pub open spec fn with_entry(
    kind: Seq<char>,
    entry: Seq<u8>,
    acc: (Seq<FunctionView>, Seq<TypeView>),
) -> (Seq<FunctionView>, Seq<TypeView>) {
    if kind == "FunctionV0"@ {
        match function_entry_of(entry) {
            Some(f) => (acc.0.push(function_of(f)), acc.1),
            None => acc,
        }
    } else if kind == "UdtStructV0"@ {
        match struct_entry_of(entry) {
            Some(x) => (acc.0, acc.1.push(struct_of(x))),
            None => acc,
        }
    } else if kind == "UdtUnionV0"@ {
        match union_entry_of(entry) {
            Some(x) => (acc.0, acc.1.push(union_of(x))),
            None => acc,
        }
    } else if kind == "UdtEnumV0"@ {
        match enum_entry_of(entry) {
            Some(x) => (acc.0, acc.1.push(enum_of(x))),
            None => acc,
        }
    } else {
        acc
    }
}

/// The entries of a spec section from `pos` on, added to `acc`, or the
/// message of the first entry that does not decode.
pub open spec fn spec_entries_from(
    data: Seq<u8>,
    pos: nat,
    acc: (Seq<FunctionView>, Seq<TypeView>),
) -> Result<(Seq<FunctionView>, Seq<TypeView>), Seq<char>>
    decreases data.len() - pos,
{
    if pos >= data.len() {
        Ok(acc)
    } else {
        match spec_entry_at(data, pos) {
            Err(m) => Err(m),
            Ok(k) => {
                if 0 < k.1 && pos + k.1 <= data.len() {
                    spec_entries_from(data, pos + k.1, with_entry(k.0, data.subrange(pos as int, (pos + k.1) as int), acc))
                } else {
                    Ok(acc)
                }
            },
        }
    }
}

/// The metadata of a section from `pos` on, stored into `m`, up to the first
/// entry that does not decode.
pub open spec fn meta_entries_from(data: Seq<u8>, pos: nat, m: Map<Seq<char>, Seq<char>>) -> Map<Seq<char>, Seq<char>>
    decreases data.len() - pos,
{
    if pos >= data.len() {
        m
    } else {
        match meta_entry_at(data, pos) {
            None => m,
            Some(e) => {
                if 0 < e.2 && pos + e.2 <= data.len() {
                    meta_entries_from(data, pos + e.2, m.insert(e.0, e.1))
                } else {
                    m
                }
            },
        }
    }
}

/// The last interface version of a section from `pos` on (or `env` when
/// there is none), up to the first entry that does not decode.
pub open spec fn env_entries_from(data: Seq<u8>, pos: nat, env: Option<EnvMetadata>) -> Option<EnvMetadata>
    decreases data.len() - pos,
{
    if pos >= data.len() {
        env
    } else {
        match env_meta_entry_at(data, pos) {
            None => env,
            Some(e) => {
                if 0 < e.1 && pos + e.1 <= data.len() {
                    env_entries_from(data, pos + e.1, Some(EnvMetadata { interface_version: e.0 }))
                } else {
                    env
                }
            },
        }
    }
}

/// The field for a named, encoded type.
fn field_from(p: &(String, Vec<u8>)) -> (r: FieldAnalysis)
    ensures
        r@ == field_of((p.0@, p.1@)),
{
    FieldAnalysis { name: p.0.clone(), type_ref: map_type_def(p.1.as_slice()) }
}

/// The fields for a list of named, encoded types.
fn fields_from(s: &Vec<(String, Vec<u8>)>) -> (r: Vec<FieldAnalysis>)
    ensures
        fields_view(r@) == named_types_view(s@).map_values(|p: (Seq<char>, Seq<u8>)| field_of(p)),
{
    let mut out: Vec<FieldAnalysis> = Vec::new();
    let mut i: usize = 0;
    while i < s.len()
        invariant
            i <= s@.len(),
            out@.len() == i,
            forall|j: int| 0 <= j < i ==> #[trigger] out@[j]@ == field_of((s@[j].0@, s@[j].1@)),
        decreases s.len() - i,
    {
        out.push(field_from(&s[i]));
        i = i + 1;
    }
    proof {
        assert(fields_view(out@) =~= named_types_view(s@).map_values(|p: (Seq<char>, Seq<u8>)| field_of(p)));
    }
    out
}

/// The function a function entry declares.
pub fn function_from(f: (String, Vec<(String, Vec<u8>)>, Vec<Vec<u8>>)) -> (r: FunctionAnalysis)
    ensures
        r@ == function_of((f.0@, named_types_view(f.1@), bytes_list_view(f.2@))),
{
    let inputs = fields_from(&f.1);
    let mut outputs: Vec<TypeRef> = Vec::new();
    let mut i: usize = 0;
    while i < f.2.len()
        invariant
            i <= f.2@.len(),
            outputs@.len() == i,
            forall|j: int| 0 <= j < i ==> #[trigger] outputs@[j]@ == type_text(f.2@[j]@),
        decreases f.2.len() - i,
    {
        outputs.push(map_type_def(f.2[i].as_slice()));
        i = i + 1;
    }
    proof {
        assert(type_refs_view(outputs@) =~= bytes_list_view(f.2@).map_values(|x: Seq<u8>| type_text(x)));
    }
    FunctionAnalysis { name: f.0, inputs, outputs }
}

/// The type a struct entry declares.
pub fn struct_from(x: (String, Vec<(String, Vec<u8>)>)) -> (r: TypeAnalysis)
    ensures
        r@ == struct_of((x.0@, named_types_view(x.1@))),
{
    TypeAnalysis { name: x.0, description: String::from_str("struct"), fields: fields_from(&x.1) }
}

/// The type a union entry declares.
pub fn union_from(x: (String, Vec<(String, String, Vec<Vec<u8>>)>)) -> (r: TypeAnalysis)
    ensures
        r@ == union_of((x.0@, union_cases_view(x.1@))),
{
    let mut fields: Vec<FieldAnalysis> = Vec::new();
    let mut i: usize = 0;
    while i < x.1.len()
        invariant
            i <= x.1@.len(),
            fields@.len() == i,
            forall|j: int| 0 <= j < i ==> #[trigger] fields@[j]@
                == union_case_of((x.1@[j].0@, x.1@[j].1@, bytes_list_view(x.1@[j].2@))),
        decreases x.1.len() - i,
    {
        let c = &x.1[i];
        let type_ref = if same_text(c.0.as_str(), "VoidV0") {
            TypeRef::Simple(String::from_str("void"))
        } else {
            TypeRef::Complex(String::from_str("Tuple<").concat(join_strings(&type_strings(&c.2)).as_str()).concat(">"))
        };
        fields.push(FieldAnalysis { name: c.1.clone(), type_ref });
        i = i + 1;
    }
    proof {
        assert(fields_view(fields@) =~= union_cases_view(x.1@).map_values(
            |c: (Seq<char>, Seq<char>, Seq<Seq<u8>>)| union_case_of(c),
        ));
    }
    TypeAnalysis { name: x.0, description: String::from_str("union"), fields }
}

/// The type an enum entry declares.
pub fn enum_from(x: (String, Vec<(String, u32)>)) -> (r: TypeAnalysis)
    ensures
        r@ == enum_of((x.0@, enum_cases_view(x.1@))),
{
    let mut fields: Vec<FieldAnalysis> = Vec::new();
    let mut i: usize = 0;
    while i < x.1.len()
        invariant
            i <= x.1@.len(),
            fields@.len() == i,
            forall|j: int| 0 <= j < i ==> #[trigger] fields@[j]@
                == (FieldView { name: x.1@[j].0@, type_ref: TypeRefView::Simple(decimal(x.1@[j].1 as nat)) }),
        decreases x.1.len() - i,
    {
        let c = &x.1[i];
        fields.push(FieldAnalysis { name: c.0.clone(), type_ref: TypeRef::Simple(decimal_text(c.1 as u64)) });
        i = i + 1;
    }
    proof {
        assert(fields_view(fields@) =~= enum_cases_view(x.1@).map_values(
            |c: (Seq<char>, u32)| FieldView { name: c.0, type_ref: TypeRefView::Simple(decimal(c.1 as nat)) },
        ));
    }
    TypeAnalysis { name: x.0, description: String::from_str("enum"), fields }
}

/// Adds what one entry declares to `functions` and `types`.
fn add_entry(kind: &String, entry: &[u8], functions: &mut Vec<FunctionAnalysis>, types: &mut Vec<TypeAnalysis>)
    ensures
        (functions_view(final(functions)@), types_view(final(types)@))
            == with_entry(kind@, entry@, (functions_view(old(functions)@), types_view(old(types)@))),
{
    let ghost f0 = functions_view(functions@);
    let ghost t0 = types_view(types@);
    let k = kind.as_str();
    if same_text(k, "FunctionV0") {
        if let Some(f) = function_entry(entry) {
            let g = function_from(f);
            functions.push(g);
            proof {
                assert(functions_view(functions@) =~= f0.push(functions@.last()@));
            }
        }
    } else if same_text(k, "UdtStructV0") {
        if let Some(x) = struct_entry(entry) {
            let t = struct_from(x);
            types.push(t);
            proof {
                assert(types_view(types@) =~= t0.push(types@.last()@));
            }
        }
    } else if same_text(k, "UdtUnionV0") {
        if let Some(x) = union_entry(entry) {
            let t = union_from(x);
            types.push(t);
            proof {
                assert(types_view(types@) =~= t0.push(types@.last()@));
            }
        }
    } else if same_text(k, "UdtEnumV0") {
        if let Some(x) = enum_entry(entry) {
            let t = enum_from(x);
            types.push(t);
            proof {
                assert(types_view(types@) =~= t0.push(types@.last()@));
            }
        }
    }
}

/// Reads the entries of a `contractspecv0` section into `functions` and
/// `types`, stopping with the message of the first entry that does not
/// decode.
pub fn read_spec_section(data: &[u8], functions: &mut Vec<FunctionAnalysis>, types: &mut Vec<TypeAnalysis>) -> (r: Result<(), String>)
    ensures
        (match spec_entries_from(data@, 0, (functions_view(old(functions)@), types_view(old(types)@))) {
            Ok(acc) => r is Ok && functions_view(final(functions)@) == acc.0 && types_view(final(types)@) == acc.1,
            Err(m) => r matches Err(e) && e@ == m,
        }),
{
    let ghost whole = spec_entries_from(data@, 0, (functions_view(functions@), types_view(types@)));
    let mut pos: usize = 0;
    while pos < data.len()
        invariant
            pos <= data@.len(),
            whole == spec_entries_from(data@, 0, (functions_view(old(functions)@), types_view(old(types)@))),
            whole == spec_entries_from(data@, pos as nat, (functions_view(functions@), types_view(types@))),
        decreases data.len() - pos,
    {
        match read_spec_entry(data, pos) {
            Err(m) => {
                return Err(m);
            },
            Ok(k) => {
                let used = k.1;
                let entry = slice_between(data, pos, pos + used);
                add_entry(&k.0, entry, functions, types);
                pos = pos + used;
            },
        }
    }
    Ok(())
}

/// Reads the entries of a `contractmetav0` section into `meta`, stopping at
/// the first entry that does not decode.
pub fn read_meta_section(data: &[u8], meta: &mut Metadata)
    ensures
        final(meta).view() == meta_entries_from(data@, 0, old(meta).view()),
{
    let ghost whole = meta_entries_from(data@, 0, meta.view());
    let mut pos: usize = 0;
    while pos < data.len()
        invariant
            pos <= data@.len(),
            whole == meta_entries_from(data@, 0, old(meta).view()),
            whole == meta_entries_from(data@, pos as nat, meta.view()),
        decreases data.len() - pos,
    {
        match read_meta_entry(data, pos) {
            None => {
                return;
            },
            Some(e) => {
                let used = e.2;
                meta.insert(e.0, e.1);
                pos = pos + used;
            },
        }
    }
}

/// Reads the entries of a `contractenvmetav0` section: the last interface
/// version found, or `env` when there is none, stopping at the first entry
/// that does not decode.
pub fn read_env_section(data: &[u8], env: Option<EnvMetadata>) -> (r: Option<EnvMetadata>)
    ensures
        r == env_entries_from(data@, 0, env),
{
    let mut cur = env;
    let mut pos: usize = 0;
    while pos < data.len()
        invariant
            pos <= data@.len(),
            env_entries_from(data@, 0, env) == env_entries_from(data@, pos as nat, cur),
        decreases data.len() - pos,
    {
        match read_env_meta_entry(data, pos) {
            None => {
                return cur;
            },
            Some(e) => {
                cur = Some(EnvMetadata { interface_version: e.0 });
                pos = pos + e.1;
            },
        }
    }
    cur
}

/// The bytes of `data` from `from` up to `to`.
fn slice_between(data: &[u8], from: usize, to: usize) -> (r: &[u8])
    requires
        from <= to <= data@.len(),
    ensures
        r@ == data@.subrange(from as int, to as int),
{
    let (_, tail) = data.split_at(from);
    let (part, _) = tail.split_at(to - from);
    proof {
        assert(part@ =~= data@.subrange(from as int, to as int));
    }
    part
}

} // verus!
