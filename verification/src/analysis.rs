//! What the analysis of a contract's interface yields: functions, user-defined
//! types and metadata, each with a mathematical view.
use vstd::prelude::*;
use vstd::string::StringExecFns;

verus! {

/// How a parameter, result or field type is written.
#[derive(Debug, PartialEq, Eq)]
pub enum TypeRef {
    Simple(String),
    Complex(String),
    Unknown,
}

/// View of a `TypeRef`.
pub enum TypeRefView {
    Simple(Seq<char>),
    Complex(Seq<char>),
    Unknown,
}

impl TypeRefView {
    /// The text that stands for the type.
    pub open spec fn text(self) -> Seq<char> {
        match self {
            TypeRefView::Simple(s) => s,
            TypeRefView::Complex(s) => s,
            TypeRefView::Unknown => "Unknown"@,
        }
    }
}

impl View for TypeRef {
    type V = TypeRefView;

    open spec fn view(&self) -> TypeRefView {
        match self {
            TypeRef::Simple(s) => TypeRefView::Simple(s@),
            TypeRef::Complex(s) => TypeRefView::Complex(s@),
            TypeRef::Unknown => TypeRefView::Unknown,
        }
    }
}

impl TypeRef {
    /// The text that stands for the type: the name it holds, or `Unknown`.
    pub fn to_string_rep(&self) -> (r: String)
        ensures
            r@ == self@.text(),
    {
        match self {
            TypeRef::Simple(s) => s.clone(),
            TypeRef::Complex(s) => s.clone(),
            TypeRef::Unknown => String::from_str("Unknown"),
        }
    }
}

/// A named, typed parameter or field.
#[derive(Debug, PartialEq, Eq)]
pub struct FieldAnalysis {
    pub name: String,
    pub type_ref: TypeRef,
}

/// View of a `FieldAnalysis`.
pub struct FieldView {
    pub name: Seq<char>,
    pub type_ref: TypeRefView,
}

impl View for FieldAnalysis {
    type V = FieldView;

    open spec fn view(&self) -> FieldView {
        FieldView { name: self.name@, type_ref: self.type_ref@ }
    }
}

/// The views of a list of fields.
pub open spec fn fields_view(s: Seq<FieldAnalysis>) -> Seq<FieldView> {
    s.map_values(|f: FieldAnalysis| f@)
}

/// The views of a list of type references.
pub open spec fn type_refs_view(s: Seq<TypeRef>) -> Seq<TypeRefView> {
    s.map_values(|t: TypeRef| t@)
}

/// A function of the contract's interface.
#[derive(Debug, PartialEq, Eq)]
pub struct FunctionAnalysis {
    pub name: String,
    pub inputs: Vec<FieldAnalysis>,
    pub outputs: Vec<TypeRef>,
}

/// View of a `FunctionAnalysis`.
pub struct FunctionView {
    pub name: Seq<char>,
    pub inputs: Seq<FieldView>,
    pub outputs: Seq<TypeRefView>,
}

impl View for FunctionAnalysis {
    type V = FunctionView;

    open spec fn view(&self) -> FunctionView {
        FunctionView {
            name: self.name@,
            inputs: fields_view(self.inputs@),
            outputs: type_refs_view(self.outputs@),
        }
    }
}

/// A user-defined type of the contract's interface.
#[derive(Debug, PartialEq, Eq)]
pub struct TypeAnalysis {
    pub name: String,
    pub description: String,
    pub fields: Vec<FieldAnalysis>,
}

/// View of a `TypeAnalysis`.
pub struct TypeView {
    pub name: Seq<char>,
    pub description: Seq<char>,
    pub fields: Seq<FieldView>,
}

impl View for TypeAnalysis {
    type V = TypeView;

    open spec fn view(&self) -> TypeView {
        TypeView {
            name: self.name@,
            description: self.description@,
            fields: fields_view(self.fields@),
        }
    }
}

/// The views of a list of functions.
pub open spec fn functions_view(s: Seq<FunctionAnalysis>) -> Seq<FunctionView> {
    s.map_values(|f: FunctionAnalysis| f@)
}

/// The views of a list of types.
pub open spec fn types_view(s: Seq<TypeAnalysis>) -> Seq<TypeView> {
    s.map_values(|t: TypeAnalysis| t@)
}

/// The host interface version a contract was built for.
#[derive(Debug, Clone, Copy, PartialEq, Eq, Structural)]
pub struct EnvMetadata {
    pub interface_version: u32,
}

/// Key/value metadata of a contract: each key at most once, a later value
/// for a key replacing the earlier one.
#[derive(Debug)]
pub struct Metadata {
    entries: Vec<(String, String)>,
}

/// The keys of a list of pairs are pairwise distinct.
pub open spec fn keys_distinct(s: Seq<(String, String)>) -> bool {
    forall|i: int, j: int| 0 <= i < j < s.len() ==> s[i].0@ != s[j].0@
}

/// The map that a list of pairs with distinct keys stands for.
pub open spec fn pairs_map(s: Seq<(String, String)>) -> Map<Seq<char>, Seq<char>>
    decreases s.len(),
{
    if s.len() == 0 {
        Map::empty()
    } else {
        pairs_map(s.drop_last()).insert(s.last().0@, s.last().1@)
    }
}

proof fn lemma_pairs_map(s: Seq<(String, String)>)
    requires
        keys_distinct(s),
    ensures
        pairs_map(s).dom().finite(),
        pairs_map(s).dom().len() == s.len(),
        forall|k: Seq<char>| #[trigger] pairs_map(s).contains_key(k) <==> exists|i: int| 0 <= i < s.len() && s[i].0@ == k,
        forall|i: int| 0 <= i < s.len() ==> #[trigger] pairs_map(s)[s[i].0@] == s[i].1@,
    decreases s.len(),
{
    if s.len() > 0 {
        let t = s.drop_last();
        assert(keys_distinct(t));
        lemma_pairs_map(t);
        assert(!pairs_map(t).contains_key(s.last().0@)) by {
            if pairs_map(t).contains_key(s.last().0@) {
                let i = choose|i: int| 0 <= i < t.len() && t[i].0@ == s.last().0@;
                assert(s[i].0@ == s[s.len() - 1].0@);
            }
        }
        assert forall|k: Seq<char>| #[trigger] pairs_map(s).contains_key(k) <==> exists|i: int| 0 <= i < s.len() && s[i].0@ == k by {
            if pairs_map(s).contains_key(k) && k != s.last().0@ {
                let i = choose|i: int| 0 <= i < t.len() && t[i].0@ == k;
                assert(s[i].0@ == k);
            }
            if exists|i: int| 0 <= i < s.len() && s[i].0@ == k {
                let i = choose|i: int| 0 <= i < s.len() && s[i].0@ == k;
                if i < s.len() - 1 {
                    assert(t[i].0@ == k);
                }
            }
        }
        assert forall|i: int| 0 <= i < s.len() implies #[trigger] pairs_map(s)[s[i].0@] == s[i].1@ by {
            if i < s.len() - 1 {
                assert(t[i] == s[i]);
                assert(s[i].0@ != s[s.len() - 1].0@);
            }
        }
    }
}

/// Lists whose keys and values read the same stand for the same map.
proof fn lemma_pairs_map_same_views(s: Seq<(String, String)>, t: Seq<(String, String)>)
    requires
        s.len() == t.len(),
        forall|i: int| 0 <= i < s.len() ==> s[i].0@ == t[i].0@ && s[i].1@ == t[i].1@,
    ensures
        pairs_map(s) == pairs_map(t),
    decreases s.len(),
{
    if s.len() > 0 {
        lemma_pairs_map_same_views(s.drop_last(), t.drop_last());
    }
}

impl Metadata {
    #[verifier::type_invariant]
    spec fn keys_unique(self) -> bool {
        keys_distinct(self.entries@)
    }

    /// The key/value map.
    pub closed spec fn view(&self) -> Map<Seq<char>, Seq<char>> {
        pairs_map(self.entries@)
    }

    /// The keys in the order they were first stored.
    pub closed spec fn key_order(&self) -> Seq<Seq<char>> {
        self.entries@.map_values(|e: (String, String)| e.0@)
    }

    /// Empty metadata.
    pub fn new() -> (r: Metadata)
        ensures
            r.view() == Map::<Seq<char>, Seq<char>>::empty(),
    {
        Metadata { entries: Vec::new() }
    }

    /// Number of keys.
    pub fn len(&self) -> (r: usize)
        ensures
            r == self.view().dom().len(),
            r == self.key_order().len(),
            forall|i: int, j: int| 0 <= i < j < r ==> self.key_order()[i] != self.key_order()[j],
            forall|k: Seq<char>| #[trigger] self.view().contains_key(k) <==> self.key_order().contains(k),
    {
        proof {
            use_type_invariant(self);
            lemma_pairs_map(self.entries@);
            let ko = self.key_order();
            assert forall|k: Seq<char>| #[trigger] self.view().contains_key(k) <==> ko.contains(k) by {
                if self.view().contains_key(k) {
                    let i = choose|i: int| 0 <= i < self.entries@.len() && self.entries@[i].0@ == k;
                    assert(ko[i] == k);
                }
                if ko.contains(k) {
                    let i = choose|i: int| 0 <= i < ko.len() && ko[i] == k;
                    assert(self.entries@[i].0@ == k);
                }
            }
        }
        self.entries.len()
    }

    /// Whether there is no key.
    pub fn is_empty(&self) -> (r: bool)
        ensures
            r == (self.view().dom().len() == 0),
    {
        self.len() == 0
    }

    /// The value stored for `key`.
    pub fn get(&self, key: &str) -> (r: Option<String>)
        ensures
            r matches Some(v) ==> self.view().contains_key(key@) && self.view()[key@] == v@,
            r is None ==> !self.view().contains_key(key@),
    {
        proof {
            use_type_invariant(self);
            lemma_pairs_map(self.entries@);
        }
        let mut i: usize = 0;
        while i < self.entries.len()
            invariant
                i <= self.entries@.len(),
                forall|j: int| 0 <= j < i ==> self.entries@[j].0@ != key@,
            decreases self.entries.len() - i,
        {
            if crate::text::same_text(self.entries[i].0.as_str(), key) {
                let v = self.entries[i].1.clone();
                proof {
                    use_type_invariant(self);
                    lemma_pairs_map(self.entries@);
                    assert(self.entries@[i as int].0@ == key@);
                    assert(pairs_map(self.entries@)[self.entries@[i as int].0@] == self.entries@[i as int].1@);
                }
                return Some(v);
            }
            i = i + 1;
        }
        None
    }

    /// The `i`-th key and its value, in the order keys were first stored.
    pub fn entry_at(&self, i: usize) -> (r: (String, String))
        requires
            i < self.view().dom().len(),
        ensures
            r.0@ == self.key_order()[i as int],
            self.view().contains_key(r.0@),
            self.view()[r.0@] == r.1@,
    {
        proof {
            use_type_invariant(self);
            lemma_pairs_map(self.entries@);
            assert(self.entries@[i as int].0@ == self.entries@[i as int].0@);
        }
        (self.entries[i].0.clone(), self.entries[i].1.clone())
    }

    /// Stores `value` for `key`, replacing a value stored before.
    pub fn insert(&mut self, key: String, value: String)
        ensures
            final(self).view() == old(self).view().insert(key@, value@),
    {
        proof {
            use_type_invariant(&*self);
        }
        let mut entries: Vec<(String, String)> = Vec::new();
        std::mem::swap(&mut entries, &mut self.entries);
        let ghost before = entries@;
        let ghost k0 = key@;
        let ghost v0 = value@;
        proof {
            lemma_pairs_map(before);
        }
        let mut i: usize = 0;
        loop
            invariant
                entries@ == before,
                keys_distinct(before),
                k0 == key@,
                i <= before.len(),
                forall|j: int| 0 <= j < i ==> before[j].0@ != k0,
            ensures
                entries@ == before,
                i <= before.len(),
                i < before.len() ==> before[i as int].0@ == k0,
                forall|j: int| 0 <= j < i ==> before[j].0@ != k0,
            decreases entries.len() - i,
        {
            if i >= entries.len() {
                break;
            }
            let same = crate::text::same_text(entries[i].0.as_str(), key.as_str());
            if same {
                break;
            }
            i = i + 1;
        }
        if i < entries.len() {
            entries.set(i, (key, value));
            proof {
                assert(keys_distinct(entries@)) by {
                    assert forall|a: int, b: int| 0 <= a < b < entries@.len() implies entries@[a].0@ != entries@[b].0@ by {
                        if a != i && b != i {
                            assert(entries@[a] == before[a] && entries@[b] == before[b]);
                        } else if a == i {
                            assert(entries@[b] == before[b]);
                        } else {
                            assert(entries@[a] == before[a]);
                        }
                    }
                }
                lemma_pairs_map(entries@);
                assert(pairs_map(entries@) =~= pairs_map(before).insert(k0, v0)) by {
                    assert forall|k: Seq<char>| #[trigger] pairs_map(entries@).contains_key(k) <==> pairs_map(before).insert(k0, v0).contains_key(k) by {
                        if pairs_map(entries@).contains_key(k) {
                            let j = choose|j: int| 0 <= j < entries@.len() && entries@[j].0@ == k;
                            if j != i {
                                assert(before[j].0@ == k);
                            }
                        }
                        if pairs_map(before).contains_key(k) {
                            let j = choose|j: int| 0 <= j < before.len() && before[j].0@ == k;
                            if j != i {
                                assert(entries@[j].0@ == k);
                            }
                        }
                    }
                    assert forall|k: Seq<char>| #[trigger] pairs_map(entries@).contains_key(k) implies pairs_map(entries@)[k] == pairs_map(before).insert(k0, v0)[k] by {
                        let j = choose|j: int| 0 <= j < entries@.len() && entries@[j].0@ == k;
                        if j != i {
                            assert(entries@[j] == before[j]);
                        }
                    }
                }
            }
        } else {
            entries.push((key, value));
            proof {
                let s = entries@;
                assert(s.drop_last() =~= before);
                assert(keys_distinct(s)) by {
                    assert forall|a: int, b: int| 0 <= a < b < s.len() implies s[a].0@ != s[b].0@ by {
                        if b == s.len() - 1 {
                            assert(s[a] == before[a]);
                        } else {
                            assert(s[a] == before[a] && s[b] == before[b]);
                        }
                    }
                }
                assert(s.last().0@ == k0 && s.last().1@ == v0);
            }
        }
        self.entries = entries;
    }

    /// Whether both hold the same keys with the same values.
    pub fn same_entries(&self, other: &Metadata) -> (r: bool)
        ensures
            r == (self.view() == other.view()),
    {
        proof {
            use_type_invariant(self);
            use_type_invariant(other);
            lemma_pairs_map(self.entries@);
            lemma_pairs_map(other.entries@);
        }
        if self.entries.len() != other.entries.len() {
            return false;
        }
        let mut i: usize = 0;
        while i < self.entries.len()
            invariant
                i <= self.entries@.len(),
                keys_distinct(self.entries@),
                self.entries@.len() == other.entries@.len(),
                forall|j: int| 0 <= j < i ==> #[trigger] other.view().contains_key(self.entries@[j].0@)
                    && other.view()[self.entries@[j].0@] == self.entries@[j].1@,
            decreases self.entries.len() - i,
        {
            match other.get(self.entries[i].0.as_str()) {
                Some(v) => {
                    if !crate::text::same_text(v.as_str(), self.entries[i].1.as_str()) {
                        proof {
                            lemma_pairs_map(self.entries@);
                            assert(self.view()[self.entries@[i as int].0@] == self.entries@[i as int].1@);
                        }
                        return false;
                    }
                },
                None => {
                    proof {
                        lemma_pairs_map(self.entries@);
                        assert(self.view().contains_key(self.entries@[i as int].0@));
                    }
                    return false;
                },
            }
            i = i + 1;
        }
        proof {
            lemma_pairs_map(self.entries@);
            lemma_pairs_map(other.entries@);
            let a = self.view();
            let b = other.view();
            assert(a.dom().subset_of(b.dom())) by {
                assert forall|k: Seq<char>| a.dom().contains(k) implies b.dom().contains(k) by {
                    let j = choose|j: int| 0 <= j < self.entries@.len() && self.entries@[j].0@ == k;
                    assert(b.contains_key(self.entries@[j].0@));
                }
            }
            vstd::set_lib::lemma_subset_equality(a.dom(), b.dom());
            assert forall|k: Seq<char>| a.contains_key(k) implies a[k] == b[k] by {
                let j = choose|j: int| 0 <= j < self.entries@.len() && self.entries@[j].0@ == k;
                assert(b.contains_key(self.entries@[j].0@));
            }
            assert(a =~= b);
        }
        true
    }
}

impl Clone for Metadata {
    fn clone(&self) -> (r: Self)
        ensures
            r.view() == self.view(),
            r.key_order() == self.key_order(),
    {
        proof {
            use_type_invariant(self);
        }
        let mut out: Vec<(String, String)> = Vec::new();
        let mut i: usize = 0;
        while i < self.entries.len()
            invariant
                i <= self.entries@.len(),
                keys_distinct(self.entries@),
                out@.len() == i,
                forall|j: int| 0 <= j < i ==> out@[j].0@ == self.entries@[j].0@ && out@[j].1@ == self.entries@[j].1@,
            decreases self.entries.len() - i,
        {
            let k = self.entries[i].0.clone();
            let v = self.entries[i].1.clone();
            out.push((k, v));
            i = i + 1;
        }
        proof {
            assert(keys_distinct(out@)) by {
                assert forall|a: int, b: int| 0 <= a < b < out@.len() implies out@[a].0@ != out@[b].0@ by {
                    assert(self.entries@[a].0@ != self.entries@[b].0@);
                }
            }
            lemma_pairs_map_same_views(out@, self.entries@);
        }
        let r = Metadata { entries: out };
        proof {
            assert(r.key_order() =~= self.key_order());
        }
        r
    }
}

impl PartialEq for Metadata {
    fn eq(&self, other: &Self) -> (r: bool) {
        self.same_entries(other)
    }
}

impl vstd::std_specs::cmp::PartialEqSpecImpl for Metadata {
    open spec fn obeys_eq_spec() -> bool {
        true
    }

    open spec fn eq_spec(&self, other: &Self) -> bool {
        self.view() == other.view()
    }
}

/// What the analysis of a contract's interface found.
#[derive(Debug, Clone, PartialEq)]
pub struct ContractAnalysis {
    pub has_metadata: bool,
    pub has_env_metadata: bool,
    pub env_metadata: Option<EnvMetadata>,
    pub metadata: Option<Metadata>,
    pub functions: Vec<FunctionAnalysis>,
    pub types: Vec<TypeAnalysis>,
}

/// View of a `ContractAnalysis`.
pub struct ContractAnalysisView {
    pub has_metadata: bool,
    pub has_env_metadata: bool,
    pub env_metadata: Option<EnvMetadata>,
    pub metadata: Option<Map<Seq<char>, Seq<char>>>,
    pub functions: Seq<FunctionView>,
    pub types: Seq<TypeView>,
}

impl View for ContractAnalysis {
    type V = ContractAnalysisView;

    open spec fn view(&self) -> ContractAnalysisView {
        ContractAnalysisView {
            has_metadata: self.has_metadata,
            has_env_metadata: self.has_env_metadata,
            env_metadata: self.env_metadata,
            metadata: match self.metadata {
                Some(m) => Some(m.view()),
                None => None,
            },
            functions: functions_view(self.functions@),
            types: types_view(self.types@),
        }
    }
}

/// A copy of a type reference.
pub fn copy_type_ref(t: &TypeRef) -> (r: TypeRef)
    ensures
        r@ == t@,
{
    match t {
        TypeRef::Simple(s) => TypeRef::Simple(s.clone()),
        TypeRef::Complex(s) => TypeRef::Complex(s.clone()),
        TypeRef::Unknown => TypeRef::Unknown,
    }
}

/// A copy of a field.
pub fn copy_field(f: &FieldAnalysis) -> (r: FieldAnalysis)
    ensures
        r@ == f@,
{
    FieldAnalysis { name: f.name.clone(), type_ref: copy_type_ref(&f.type_ref) }
}

/// A copy of a list of fields.
pub fn copy_fields(v: &Vec<FieldAnalysis>) -> (r: Vec<FieldAnalysis>)
    ensures
        fields_view(r@) == fields_view(v@),
{
    let mut out: Vec<FieldAnalysis> = Vec::new();
    let mut i: usize = 0;
    while i < v.len()
        invariant
            i <= v@.len(),
            out@.len() == i,
            forall|j: int| 0 <= j < i ==> #[trigger] out@[j]@ == v@[j]@,
        decreases v.len() - i,
    {
        let f = copy_field(&v[i]);
        out.push(f);
        i = i + 1;
    }
    proof {
        assert(fields_view(out@) =~= fields_view(v@));
    }
    out
}

/// A copy of a list of type references.
pub fn copy_type_refs(v: &Vec<TypeRef>) -> (r: Vec<TypeRef>)
    ensures
        type_refs_view(r@) == type_refs_view(v@),
{
    let mut out: Vec<TypeRef> = Vec::new();
    let mut i: usize = 0;
    while i < v.len()
        invariant
            i <= v@.len(),
            out@.len() == i,
            forall|j: int| 0 <= j < i ==> #[trigger] out@[j]@ == v@[j]@,
        decreases v.len() - i,
    {
        let t = copy_type_ref(&v[i]);
        out.push(t);
        i = i + 1;
    }
    proof {
        assert(type_refs_view(out@) =~= type_refs_view(v@));
    }
    out
}

/// A copy of a function.
pub fn copy_function(f: &FunctionAnalysis) -> (r: FunctionAnalysis)
    ensures
        r@ == f@,
{
    FunctionAnalysis { name: f.name.clone(), inputs: copy_fields(&f.inputs), outputs: copy_type_refs(&f.outputs) }
}

/// A copy of a type.
pub fn copy_type(t: &TypeAnalysis) -> (r: TypeAnalysis)
    ensures
        r@ == t@,
{
    TypeAnalysis { name: t.name.clone(), description: t.description.clone(), fields: copy_fields(&t.fields) }
}

/// Whether two type references are the same.
pub fn same_type_ref(a: &TypeRef, b: &TypeRef) -> (r: bool)
    ensures
        r == (a@ == b@),
{
    match (a, b) {
        (TypeRef::Simple(x), TypeRef::Simple(y)) => *x == *y,
        (TypeRef::Complex(x), TypeRef::Complex(y)) => *x == *y,
        (TypeRef::Unknown, TypeRef::Unknown) => true,
        _ => false,
    }
}

/// Whether two lists of fields are the same.
pub fn same_fields(a: &Vec<FieldAnalysis>, b: &Vec<FieldAnalysis>) -> (r: bool)
    ensures
        r == (fields_view(a@) == fields_view(b@)),
{
    if a.len() != b.len() {
        proof {
            assert(fields_view(a@).len() != fields_view(b@).len());
        }
        return false;
    }
    let mut i: usize = 0;
    while i < a.len()
        invariant
            a@.len() == b@.len(),
            i <= a@.len(),
            forall|j: int| 0 <= j < i ==> a@[j]@ == b@[j]@,
        decreases a.len() - i,
    {
        if !(a[i].name == b[i].name) || !same_type_ref(&a[i].type_ref, &b[i].type_ref) {
            proof {
                assert(fields_view(a@)[i as int] != fields_view(b@)[i as int]);
            }
            return false;
        }
        i = i + 1;
    }
    proof {
        assert(fields_view(a@) =~= fields_view(b@));
    }
    true
}

/// Whether two lists of type references are the same.
pub fn same_type_refs(a: &Vec<TypeRef>, b: &Vec<TypeRef>) -> (r: bool)
    ensures
        r == (type_refs_view(a@) == type_refs_view(b@)),
{
    if a.len() != b.len() {
        proof {
            assert(type_refs_view(a@).len() != type_refs_view(b@).len());
        }
        return false;
    }
    let mut i: usize = 0;
    while i < a.len()
        invariant
            a@.len() == b@.len(),
            i <= a@.len(),
            forall|j: int| 0 <= j < i ==> a@[j]@ == b@[j]@,
        decreases a.len() - i,
    {
        if !same_type_ref(&a[i], &b[i]) {
            proof {
                assert(type_refs_view(a@)[i as int] != type_refs_view(b@)[i as int]);
            }
            return false;
        }
        i = i + 1;
    }
    proof {
        assert(type_refs_view(a@) =~= type_refs_view(b@));
    }
    true
}

/// Whether two functions are the same.
pub fn same_function(a: &FunctionAnalysis, b: &FunctionAnalysis) -> (r: bool)
    ensures
        r == (a@ == b@),
{
    a.name == b.name && same_fields(&a.inputs, &b.inputs) && same_type_refs(&a.outputs, &b.outputs)
}

/// Whether two types are the same.
pub fn same_type(a: &TypeAnalysis, b: &TypeAnalysis) -> (r: bool)
    ensures
        r == (a@ == b@),
{
    a.name == b.name && a.description == b.description && same_fields(&a.fields, &b.fields)
}

impl Clone for TypeRef {
    fn clone(&self) -> (r: Self)
        ensures
            r@ == self@,
    {
        copy_type_ref(self)
    }
}

impl Clone for FieldAnalysis {
    fn clone(&self) -> (r: Self)
        ensures
            r@ == self@,
    {
        copy_field(self)
    }
}

impl Clone for FunctionAnalysis {
    fn clone(&self) -> (r: Self)
        ensures
            r@ == self@,
    {
        copy_function(self)
    }
}

impl Clone for TypeAnalysis {
    fn clone(&self) -> (r: Self)
        ensures
            r@ == self@,
    {
        copy_type(self)
    }
}

} // verus!
