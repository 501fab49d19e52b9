//! Storage layout inferred from a contract's accessor functions, and how the
//! value types behind each storage namespace change between two versions.
use vstd::prelude::*;
use vstd::string::{StrSliceExecFns, StringExecFns};
use crate::analysis::{
    ContractAnalysis, FieldAnalysis, FieldView, FunctionAnalysis, FunctionView, TypeAnalysis,
    TypeRef, TypeRefView, TypeView, copy_fields, copy_type_ref, fields_view, functions_view,
    same_type_ref, types_view,
};
use crate::text::{
    before_top_level, drop_last_char, first_top_level_segment, has_prefix, starts_with, trim,
    trim_white, without_last,
};

verus! {

/// Failure of a storage analysis.
#[derive(Debug, Clone, Copy, PartialEq, Eq, Structural)]
pub enum StorageError {
    InvalidInput,
}

/// How sure the analysis is of an inferred entry.
#[derive(Debug, Clone, Copy, PartialEq, Eq, Structural)]
pub enum Confidence {
    Known,
    Inferred,
    Unknown,
}

/// The storage class of an inferred entry, when it can be told.
#[derive(Debug, Clone, Copy, PartialEq, Eq, Structural)]
pub enum Durability {
    Persistent,
    Instance,
    Temporary,
    Unknown,
}

/// A storage namespace with its key and value types.
#[derive(Debug, PartialEq, Eq)]
pub struct StorageEntry {
    pub key_type: TypeRef,
    pub value_type: TypeRef,
    pub durability: Durability,
    pub confidence: Confidence,
    pub namespace: String,
}

/// View of a `StorageEntry`.
pub struct StorageEntryView {
    pub key_type: TypeRefView,
    pub value_type: TypeRefView,
    pub durability: Durability,
    pub confidence: Confidence,
    pub namespace: Seq<char>,
}

impl View for StorageEntry {
    type V = StorageEntryView;

    open spec fn view(&self) -> StorageEntryView {
        StorageEntryView {
            key_type: self.key_type@,
            value_type: self.value_type@,
            durability: self.durability,
            confidence: self.confidence,
            namespace: self.namespace@,
        }
    }
}

/// The views of a list of storage entries.
pub open spec fn entries_view(s: Seq<StorageEntry>) -> Seq<StorageEntryView> {
    s.map_values(|e: StorageEntry| e@)
}

/// The storage layout of a contract.
#[derive(Debug, PartialEq, Eq)]
pub struct StorageAnalysis {
    pub entries: Vec<StorageEntry>,
}

/// What happened to one field of a stored value type.
#[derive(Debug, PartialEq, Eq)]
pub enum FieldChange {
    Added { name: String, type_ref: TypeRef },
    Removed { name: String, type_ref: TypeRef },
    TypeChanged { name: String, old_type: TypeRef, new_type: TypeRef },
    Preserved { name: String },
}

/// View of a `FieldChange`.
pub enum FieldChangeView {
    Added { name: Seq<char>, type_ref: TypeRefView },
    Removed { name: Seq<char>, type_ref: TypeRefView },
    TypeChanged { name: Seq<char>, old_type: TypeRefView, new_type: TypeRefView },
    Preserved { name: Seq<char> },
}

impl View for FieldChange {
    type V = FieldChangeView;

    open spec fn view(&self) -> FieldChangeView {
        match self {
            FieldChange::Added { name, type_ref } => FieldChangeView::Added { name: name@, type_ref: type_ref@ },
            FieldChange::Removed { name, type_ref } => FieldChangeView::Removed { name: name@, type_ref: type_ref@ },
            FieldChange::TypeChanged { name, old_type, new_type } => FieldChangeView::TypeChanged {
                name: name@,
                old_type: old_type@,
                new_type: new_type@,
            },
            FieldChange::Preserved { name } => FieldChangeView::Preserved { name: name@ },
        }
    }
}

/// The views of a list of field changes.
pub open spec fn changes_view(s: Seq<FieldChange>) -> Seq<FieldChangeView> {
    s.map_values(|c: FieldChange| c@)
}

/// Field-level changes of the value types stored under the same namespaces.
#[derive(Debug, PartialEq, Eq)]
pub struct StorageDiff {
    pub changed_value_types: Vec<FieldChange>,
}

/// Infers storage layouts from contract interfaces.
pub struct StorageAnalyzer;

// ---------------------------------------------------------------------------
// Specification
// ---------------------------------------------------------------------------

/// Index of the first occurrence of `k` in `keys`, or -1.
pub open spec fn first_index(keys: Seq<Seq<char>>, k: Seq<char>) -> int
    decreases keys.len(),
{
    if keys.len() == 0 {
        -1
    } else if keys[0] == k {
        0
    } else {
        let r = first_index(keys.drop_first(), k);
        if r < 0 { -1 } else { r + 1 }
    }
}

/// What stands between `prefix` and the closing `>` of `s`.
pub open spec fn bracket_payload(s: Seq<char>, prefix: Seq<char>) -> Seq<char> {
    without_last(s.subrange(prefix.len() as int, s.len() as int), '>')
}

/// The value type behind an accessor's result: `T` for `Option<T>`, the
/// success type `T` of `Result<T, E>` (cut at the comma outside every angle
/// bracket), or the result itself.
pub open spec fn stored_value_type(t: TypeRefView) -> TypeRefView {
    match t {
        TypeRefView::Complex(s) => {
            if has_prefix(s, "Option<"@) {
                TypeRefView::Complex(bracket_payload(s, "Option<"@))
            } else if has_prefix(s, "Result<"@) {
                TypeRefView::Complex(trim_white(before_top_level(bracket_payload(s, "Result<"@), ',', 0)))
            } else {
                t
            }
        },
        _ => t,
    }
}

/// The entry inferred from an accessor function `get_<namespace>`.
pub open spec fn accessor_entry(f: FunctionView) -> StorageEntryView {
    StorageEntryView {
        key_type: if f.inputs.len() > 0 { f.inputs[0].type_ref } else { TypeRefView::Unknown },
        value_type: if f.outputs.len() > 0 { stored_value_type(f.outputs[0]) } else { TypeRefView::Unknown },
        durability: Durability::Unknown,
        confidence: Confidence::Inferred,
        namespace: f.name.subrange("get_"@.len() as int, f.name.len() as int),
    }
}

/// One entry per function whose name starts with `get_`, in function order.
pub open spec fn inferred_entries(fs: Seq<FunctionView>) -> Seq<StorageEntryView>
    decreases fs.len(),
{
    if fs.len() == 0 {
        Seq::empty()
    } else {
        let rest = inferred_entries(fs.drop_last());
        if has_prefix(fs.last().name, "get_"@) {
            rest.push(accessor_entry(fs.last()))
        } else {
            rest
        }
    }
}

/// The fields of the type that `t` names in `types` (the first of that name).
pub open spec fn resolved_fields(t: TypeRefView, types: Seq<TypeView>) -> Option<Seq<FieldView>> {
    match t {
        TypeRefView::Complex(name) => {
            let i = first_index(types.map_values(|ty: TypeView| ty.name), name);
            if i < 0 { None } else { Some(types[i].fields) }
        },
        _ => None,
    }
}

/// The change of one old field against the new fields.
pub open spec fn old_field_change(f: FieldView, new_fields: Seq<FieldView>) -> FieldChangeView {
    let i = first_index(new_fields.map_values(|g: FieldView| g.name), f.name);
    if i < 0 {
        FieldChangeView::Removed { name: f.name, type_ref: f.type_ref }
    } else if f.type_ref != new_fields[i].type_ref {
        FieldChangeView::TypeChanged { name: f.name, old_type: f.type_ref, new_type: new_fields[i].type_ref }
    } else {
        FieldChangeView::Preserved { name: f.name }
    }
}

/// The changes of the old fields, in old field order.
pub open spec fn old_field_changes(old_fields: Seq<FieldView>, new_fields: Seq<FieldView>) -> Seq<FieldChangeView>
    decreases old_fields.len(),
{
    if old_fields.len() == 0 {
        Seq::empty()
    } else {
        old_field_changes(old_fields.drop_last(), new_fields).push(old_field_change(old_fields.last(), new_fields))
    }
}

/// The new fields whose names no old field has, in new field order.
pub open spec fn added_fields(old_fields: Seq<FieldView>, new_fields: Seq<FieldView>) -> Seq<FieldChangeView>
    decreases new_fields.len(),
{
    if new_fields.len() == 0 {
        Seq::empty()
    } else {
        let rest = added_fields(old_fields, new_fields.drop_last());
        let g = new_fields.last();
        if first_index(old_fields.map_values(|f: FieldView| f.name), g.name) < 0 {
            rest.push(FieldChangeView::Added { name: g.name, type_ref: g.type_ref })
        } else {
            rest
        }
    }
}

/// The changes between the fields of an old and a new value type.
pub open spec fn field_changes(old_fields: Seq<FieldView>, new_fields: Seq<FieldView>) -> Seq<FieldChangeView> {
    old_field_changes(old_fields, new_fields) + added_fields(old_fields, new_fields)
}

/// The changes for one old entry: those of its value type against the value
/// type of the first new entry of the same namespace, when both resolve.
pub open spec fn entry_changes(
    e: StorageEntryView,
    new_entries: Seq<StorageEntryView>,
    old_types: Seq<TypeView>,
    new_types: Seq<TypeView>,
) -> Seq<FieldChangeView> {
    let i = first_index(new_entries.map_values(|n: StorageEntryView| n.namespace), e.namespace);
    if i < 0 {
        Seq::empty()
    } else {
        match (resolved_fields(e.value_type, old_types), resolved_fields(new_entries[i].value_type, new_types)) {
            (Some(of), Some(nf)) => field_changes(of, nf),
            _ => Seq::empty(),
        }
    }
}

/// All changes, old entry by old entry.
pub open spec fn storage_changes(
    old_entries: Seq<StorageEntryView>,
    new_entries: Seq<StorageEntryView>,
    old_types: Seq<TypeView>,
    new_types: Seq<TypeView>,
) -> Seq<FieldChangeView>
    decreases old_entries.len(),
{
    if old_entries.len() == 0 {
        Seq::empty()
    } else {
        storage_changes(old_entries.drop_last(), new_entries, old_types, new_types)
            + entry_changes(old_entries.last(), new_entries, old_types, new_types)
    }
}

/// `first_index` is the first position holding `k`.
pub proof fn lemma_first_index(keys: Seq<Seq<char>>, k: Seq<char>, i: int)
    requires
        0 <= i <= keys.len(),
        forall|j: int| 0 <= j < i ==> keys[j] != k,
        i < keys.len() ==> keys[i] == k,
    ensures
        first_index(keys, k) == (if i < keys.len() { i } else { -1 }),
    decreases keys.len(),
{
    if keys.len() > 0 && i > 0 {
        let t = keys.drop_first();
        assert forall|j: int| 0 <= j < i - 1 implies t[j] != k by {
            assert(t[j] == keys[j + 1]);
        }
        lemma_first_index(t, k, i - 1);
    }
}

/// What `first_index` finds is `k`, and nothing before it is.
pub proof fn lemma_first_index_found(keys: Seq<Seq<char>>, k: Seq<char>)
    ensures
        -1 <= first_index(keys, k) < keys.len(),
        first_index(keys, k) >= 0 ==> keys[first_index(keys, k)] == k,
        forall|j: int| 0 <= j < keys.len() && (first_index(keys, k) < 0 || j < first_index(keys, k)) ==> keys[j] != k,
    decreases keys.len(),
{
    if keys.len() > 0 && keys[0] != k {
        let t = keys.drop_first();
        lemma_first_index_found(t, k);
        assert forall|j: int| 0 <= j < keys.len() && (first_index(keys, k) < 0 || j < first_index(keys, k)) implies keys[j] != k by {
            if j > 0 {
                assert(keys[j] == t[j - 1]);
            }
        }
    }
}

// ---------------------------------------------------------------------------
// Implementation
// ---------------------------------------------------------------------------

/// `stored_value_type` for one accessor result.
fn stored_value_type_of(t: &TypeRef) -> (r: TypeRef)
    ensures
        r@ == stored_value_type(t@),
{
    match t {
        TypeRef::Complex(s) => {
            if starts_with(s.as_str(), "Option<") {
                proof {
                    reveal_strlit("Option<");
                }
                let n = s.as_str().unicode_len();
                let inner = drop_last_char(s.as_str().substring_char(7, n), '>');
                TypeRef::Complex(inner)
            } else if starts_with(s.as_str(), "Result<") {
                proof {
                    reveal_strlit("Result<");
                }
                let n = s.as_str().unicode_len();
                let inner = drop_last_char(s.as_str().substring_char(7, n), '>');
                let ok = first_top_level_segment(inner.as_str(), ',');
                TypeRef::Complex(trim(ok.as_str()))
            } else {
                copy_type_ref(t)
            }
        },
        _ => copy_type_ref(t),
    }
}

impl StorageAnalyzer {
    /// One entry per function named `get_<namespace>`, in function order: its
    /// first input's type as the key type, the value type behind its first
    /// result, unknown durability, inferred confidence. Never fails.
    pub fn analyze(contract: &ContractAnalysis) -> (r: Result<StorageAnalysis, StorageError>)
        ensures
            r matches Ok(a) && entries_view(a.entries@) == inferred_entries(functions_view(contract.functions@)),
    {
        let ghost fs = functions_view(contract.functions@);
        let mut entries: Vec<StorageEntry> = Vec::new();
        let mut i: usize = 0;
        while i < contract.functions.len()
            invariant
                fs == functions_view(contract.functions@),
                i <= contract.functions@.len(),
                entries_view(entries@) == inferred_entries(fs.subrange(0, i as int)),
            decreases contract.functions.len() - i,
        {
            let func: &FunctionAnalysis = &contract.functions[i];
            proof {
                assert(fs.subrange(0, i + 1).drop_last() =~= fs.subrange(0, i as int));
                assert(fs.subrange(0, i + 1).last() == func@);
            }
            if starts_with(func.name.as_str(), "get_") {
                proof {
                    reveal_strlit("get_");
                }
                let n = func.name.as_str().unicode_len();
                let namespace = String::from_str(func.name.as_str().substring_char(4, n));
                let key_type = if func.inputs.len() > 0 {
                    copy_type_ref(&func.inputs[0].type_ref)
                } else {
                    TypeRef::Unknown
                };
                let value_type = if func.outputs.len() > 0 {
                    stored_value_type_of(&func.outputs[0])
                } else {
                    TypeRef::Unknown
                };
                let e = StorageEntry {
                    key_type,
                    value_type,
                    durability: Durability::Unknown,
                    confidence: Confidence::Inferred,
                    namespace,
                };
                proof {
                    assert(e@ == accessor_entry(func@));
                }
                entries.push(e);
                proof {
                    assert(entries_view(entries@) =~= inferred_entries(fs.subrange(0, i + 1)));
                }
            }
            i = i + 1;
        }
        proof {
            assert(fs.subrange(0, i as int) =~= fs);
        }
        Ok(StorageAnalysis { entries })
    }
}

/// Position of the first entry of namespace `ns`, if any.
fn find_namespace(entries: &Vec<StorageEntry>, ns: &String) -> (r: Option<usize>)
    ensures
        ({
            let i = first_index(entries_view(entries@).map_values(|n: StorageEntryView| n.namespace), ns@);
            &&& r is None ==> i < 0
            &&& r matches Some(k) ==> k == i
        }),
        r matches Some(k) ==> k < entries@.len(),
{
    let ghost keys = entries_view(entries@).map_values(|n: StorageEntryView| n.namespace);
    let mut i: usize = 0;
    while i < entries.len()
        invariant
            keys == entries_view(entries@).map_values(|n: StorageEntryView| n.namespace),
            i <= entries@.len(),
            forall|j: int| 0 <= j < i ==> keys[j] != ns@,
        decreases entries.len() - i,
    {
        if entries[i].namespace == *ns {
            proof {
                lemma_first_index(keys, ns@, i as int);
            }
            return Some(i);
        }
        i = i + 1;
    }
    proof {
        lemma_first_index(keys, ns@, i as int);
    }
    None
}

/// Position of the first type called `name`, if any.
fn find_type(types: &[TypeAnalysis], name: &String) -> (r: Option<usize>)
    ensures
        ({
            let i = first_index(types_view(types@).map_values(|ty: TypeView| ty.name), name@);
            &&& r is None ==> i < 0
            &&& r matches Some(k) ==> k == i
        }),
        r matches Some(k) ==> k < types@.len(),
{
    let ghost keys = types_view(types@).map_values(|ty: TypeView| ty.name);
    let mut i: usize = 0;
    while i < types.len()
        invariant
            keys == types_view(types@).map_values(|ty: TypeView| ty.name),
            i <= types@.len(),
            forall|j: int| 0 <= j < i ==> keys[j] != name@,
        decreases types.len() - i,
    {
        if types[i].name == *name {
            proof {
                lemma_first_index(keys, name@, i as int);
            }
            return Some(i);
        }
        i = i + 1;
    }
    proof {
        lemma_first_index(keys, name@, i as int);
    }
    None
}

/// Position of the first field called `name`, if any.
fn find_field(fields: &Vec<FieldAnalysis>, name: &String) -> (r: Option<usize>)
    ensures
        ({
            let i = first_index(fields_view(fields@).map_values(|g: FieldView| g.name), name@);
            &&& r is None ==> i < 0
            &&& r matches Some(k) ==> k == i
        }),
        r matches Some(k) ==> k < fields@.len(),
{
    let ghost keys = fields_view(fields@).map_values(|g: FieldView| g.name);
    let mut i: usize = 0;
    while i < fields.len()
        invariant
            keys == fields_view(fields@).map_values(|g: FieldView| g.name),
            i <= fields@.len(),
            forall|j: int| 0 <= j < i ==> keys[j] != name@,
        decreases fields.len() - i,
    {
        if fields[i].name == *name {
            proof {
                lemma_first_index(keys, name@, i as int);
            }
            return Some(i);
        }
        i = i + 1;
    }
    proof {
        lemma_first_index(keys, name@, i as int);
    }
    None
}

/// The fields of the struct that a type reference names, if `types` has it.
pub fn resolve_struct(type_ref: &TypeRef, types: &[TypeAnalysis]) -> (r: Option<Vec<FieldAnalysis>>)
    ensures
        r is Some == resolved_fields(type_ref@, types_view(types@)) is Some,
        r matches Some(f) ==> resolved_fields(type_ref@, types_view(types@)) == Some(fields_view(f@)),
{
    match type_ref {
        TypeRef::Complex(name) => {
            match find_type(types, name) {
                Some(k) => Some(copy_fields(&types[k].fields)),
                None => None,
            }
        },
        _ => None,
    }
}

/// Appends the changes between `old_fields` and `new_fields` to `out`.
fn push_field_changes(old_fields: &Vec<FieldAnalysis>, new_fields: &Vec<FieldAnalysis>, out: &mut Vec<FieldChange>)
    ensures
        changes_view(final(out)@) == changes_view(old(out)@) + field_changes(fields_view(old_fields@), fields_view(new_fields@)),
{
    let ghost of = fields_view(old_fields@);
    let ghost nf = fields_view(new_fields@);
    let ghost start = changes_view(out@);
    let mut i: usize = 0;
    while i < old_fields.len()
        invariant
            of == fields_view(old_fields@),
            nf == fields_view(new_fields@),
            i <= old_fields@.len(),
            changes_view(out@) == start + old_field_changes(of.subrange(0, i as int), nf),
        decreases old_fields.len() - i,
    {
        let f = &old_fields[i];
        let c = match find_field(new_fields, &f.name) {
            Some(k) => {
                if !same_type_ref(&f.type_ref, &new_fields[k].type_ref) {
                    FieldChange::TypeChanged {
                        name: f.name.clone(),
                        old_type: copy_type_ref(&f.type_ref),
                        new_type: copy_type_ref(&new_fields[k].type_ref),
                    }
                } else {
                    FieldChange::Preserved { name: f.name.clone() }
                }
            },
            None => FieldChange::Removed { name: f.name.clone(), type_ref: copy_type_ref(&f.type_ref) },
        };
        proof {
            assert(of.subrange(0, i + 1).drop_last() =~= of.subrange(0, i as int));
            assert(c@ == old_field_change(of[i as int], nf));
        }
        let ghost prev = changes_view(out@);
        let ghost cv = c@;
        out.push(c);
        proof {
            assert(changes_view(out@) =~= prev.push(cv));
        }
        i = i + 1;
        proof {
            assert(changes_view(out@) =~= start + old_field_changes(of.subrange(0, i as int), nf));
        }
    }
    proof {
        assert(of.subrange(0, i as int) =~= of);
    }
    let ghost mid = changes_view(out@);
    let mut j: usize = 0;
    while j < new_fields.len()
        invariant
            of == fields_view(old_fields@),
            nf == fields_view(new_fields@),
            j <= new_fields@.len(),
            changes_view(out@) == mid + added_fields(of, nf.subrange(0, j as int)),
        decreases new_fields.len() - j,
    {
        let g = &new_fields[j];
        let found = find_field(old_fields, &g.name);
        proof {
            assert(nf.subrange(0, j + 1).drop_last() =~= nf.subrange(0, j as int));
            assert(nf.subrange(0, j + 1).last() == g@);
        }
        if found.is_none() {
            let c = FieldChange::Added { name: g.name.clone(), type_ref: copy_type_ref(&g.type_ref) };
            let ghost prev = changes_view(out@);
            let ghost cv = c@;
            out.push(c);
            proof {
                assert(changes_view(out@) =~= prev.push(cv));
            }
        }
        j = j + 1;
        proof {
            assert(changes_view(out@) =~= mid + added_fields(of, nf.subrange(0, j as int)));
        }
    }
    proof {
        assert(nf.subrange(0, j as int) =~= nf);
    }
}

impl StorageDiff {
    /// For each old entry, in order, with a new entry of the same namespace
    /// (the first such): when both value types resolve to structs of the
    /// given type lists, the change of each old field (removed, type
    /// changed or preserved, against the first new field of its name), then
    /// each new field that no old field names, as added.
    pub fn compare(
        old: &StorageAnalysis,
        new: &StorageAnalysis,
        old_types: &[TypeAnalysis],
        new_types: &[TypeAnalysis],
    ) -> (r: Self)
        ensures
            changes_view(r.changed_value_types@) == storage_changes(
                entries_view(old.entries@),
                entries_view(new.entries@),
                types_view(old_types@),
                types_view(new_types@),
            ),
    {
        let ghost oe = entries_view(old.entries@);
        let ghost ne = entries_view(new.entries@);
        let ghost ot = types_view(old_types@);
        let ghost nt = types_view(new_types@);
        let mut changed_value_types: Vec<FieldChange> = Vec::new();
        let mut i: usize = 0;
        while i < old.entries.len()
            invariant
                oe == entries_view(old.entries@),
                ne == entries_view(new.entries@),
                ot == types_view(old_types@),
                nt == types_view(new_types@),
                i <= old.entries@.len(),
                changes_view(changed_value_types@) == storage_changes(oe.subrange(0, i as int), ne, ot, nt),
            decreases old.entries.len() - i,
        {
            let old_entry = &old.entries[i];
            let ghost before = changes_view(changed_value_types@);
            proof {
                assert(oe.subrange(0, i + 1).drop_last() =~= oe.subrange(0, i as int));
                assert(oe.subrange(0, i + 1).last() == old_entry@);
            }
            match find_namespace(&new.entries, &old_entry.namespace) {
                Some(k) => {
                    let new_entry = &new.entries[k];
                    let old_struct = resolve_struct(&old_entry.value_type, old_types);
                    let new_struct = resolve_struct(&new_entry.value_type, new_types);
                    match (old_struct, new_struct) {
                        (Some(old_fields), Some(new_fields)) => {
                            proof {
                                assert(entry_changes(old_entry@, ne, ot, nt)
                                    == field_changes(fields_view(old_fields@), fields_view(new_fields@)));
                            }
                            push_field_changes(&old_fields, &new_fields, &mut changed_value_types);
                        },
                        _ => {
                            proof {
                                assert(entry_changes(old_entry@, ne, ot, nt) == Seq::<FieldChangeView>::empty());
                                assert(before + Seq::<FieldChangeView>::empty() =~= before);
                            }
                        },
                    }
                },
                None => {
                    proof {
                        assert(entry_changes(old_entry@, ne, ot, nt) == Seq::<FieldChangeView>::empty());
                        assert(before + Seq::<FieldChangeView>::empty() =~= before);
                    }
                },
            }
            i = i + 1;
        }
        proof {
            assert(oe.subrange(0, i as int) =~= oe);
        }
        StorageDiff { changed_value_types }
    }
}

} // verus!
