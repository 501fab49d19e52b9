//! Interface differences between two versions of a contract: functions and
//! types added, removed or changed, matched by name.
use vstd::prelude::*;
use crate::analysis::{
    ContractAnalysis, FunctionAnalysis, FunctionView, TypeAnalysis, TypeView, copy_function,
    copy_type, functions_view, same_function, same_type, types_view,
};
use crate::storage::{first_index, lemma_first_index};

verus! {

/// Failure of a comparison.
#[derive(Debug, PartialEq, Eq)]
pub enum DiffError {
    ComparisonError(String),
}

/// What changed in a contract's interface.
#[derive(Debug, PartialEq, Eq)]
pub struct ContractDiff {
    pub added_functions: Vec<FunctionAnalysis>,
    pub removed_functions: Vec<FunctionAnalysis>,
    pub changed_functions: Vec<FunctionAnalysis>,
    pub added_types: Vec<TypeAnalysis>,
    pub removed_types: Vec<TypeAnalysis>,
    pub changed_types: Vec<TypeAnalysis>,
}

/// View of a `ContractDiff`.
pub struct ContractDiffView {
    pub added_functions: Seq<FunctionView>,
    pub removed_functions: Seq<FunctionView>,
    pub changed_functions: Seq<FunctionView>,
    pub added_types: Seq<TypeView>,
    pub removed_types: Seq<TypeView>,
    pub changed_types: Seq<TypeView>,
}

impl View for ContractDiff {
    type V = ContractDiffView;

    open spec fn view(&self) -> ContractDiffView {
        ContractDiffView {
            added_functions: functions_view(self.added_functions@),
            removed_functions: functions_view(self.removed_functions@),
            changed_functions: functions_view(self.changed_functions@),
            added_types: types_view(self.added_types@),
            removed_types: types_view(self.removed_types@),
            changed_types: types_view(self.changed_types@),
        }
    }
}

/// Compares contract interfaces.
pub struct WasmDiff;

/// Something identified by a name.
pub trait Named {
    spec fn key(self) -> Seq<char>;
}

impl Named for FunctionView {
    open spec fn key(self) -> Seq<char> {
        self.name
    }
}

impl Named for TypeView {
    open spec fn key(self) -> Seq<char> {
        self.name
    }
}

/// The names of a list of named items.
pub open spec fn keys_of<T: Named>(s: Seq<T>) -> Seq<Seq<char>> {
    s.map_values(|x: T| x.key())
}

/// No item after position `i` has the name of the item at `i`.
pub open spec fn is_last_of_name<T: Named>(s: Seq<T>, i: int) -> bool {
    forall|j: int| i < j < s.len() ==> #[trigger] s[j].key() != s[i].key()
}

/// The items among the first `n` that are the last of their name in `s`.
pub open spec fn last_of_each_upto<T: Named>(s: Seq<T>, n: int) -> Seq<T>
    decreases n,
{
    if n <= 0 {
        Seq::empty()
    } else {
        let rest = last_of_each_upto(s, n - 1);
        if is_last_of_name(s, n - 1) {
            rest.push(s[n - 1])
        } else {
            rest
        }
    }
}

/// One item per name, the last one of that name, in list order: what
/// collecting the list into a map by name keeps.
pub open spec fn last_of_each<T: Named>(s: Seq<T>) -> Seq<T> {
    last_of_each_upto(s, s.len() as int)
}

/// The items of `s` whose name no item of `others` has, in order.
pub open spec fn without_match<T: Named>(s: Seq<T>, others: Seq<T>) -> Seq<T>
    decreases s.len(),
{
    if s.len() == 0 {
        Seq::empty()
    } else {
        let rest = without_match(s.drop_last(), others);
        if first_index(keys_of(others), s.last().key()) < 0 {
            rest.push(s.last())
        } else {
            rest
        }
    }
}

/// For each old item in order, the new item of its name when that differs.
pub open spec fn replaced_in<T: Named>(olds: Seq<T>, news: Seq<T>) -> Seq<T>
    decreases olds.len(),
{
    if olds.len() == 0 {
        Seq::empty()
    } else {
        let rest = replaced_in(olds.drop_last(), news);
        let k = first_index(keys_of(news), olds.last().key());
        if k >= 0 && news[k] != olds.last() {
            rest.push(news[k])
        } else {
            rest
        }
    }
}

/// The difference between two interfaces, given as function and type lists.
pub open spec fn interface_diff(
    old_functions: Seq<FunctionView>,
    old_types: Seq<TypeView>,
    new_functions: Seq<FunctionView>,
    new_types: Seq<TypeView>,
) -> ContractDiffView {
    let of = last_of_each(old_functions);
    let nf = last_of_each(new_functions);
    let ot = last_of_each(old_types);
    let nt = last_of_each(new_types);
    ContractDiffView {
        added_functions: without_match(nf, of),
        removed_functions: without_match(of, nf),
        changed_functions: replaced_in(of, nf),
        added_types: without_match(nt, ot),
        removed_types: without_match(ot, nt),
        changed_types: replaced_in(ot, nt),
    }
}

/// The functions of `s` that are the last of their name, in order.
fn last_functions(s: &Vec<FunctionAnalysis>) -> (r: Vec<FunctionAnalysis>)
    ensures
        functions_view(r@) == last_of_each(functions_view(s@)),
{
    let ghost v = functions_view(s@);
    let mut out: Vec<FunctionAnalysis> = Vec::new();
    let mut i: usize = 0;
    while i < s.len()
        invariant
            v == functions_view(s@),
            i <= s@.len(),
            functions_view(out@) == last_of_each_upto(v, i as int),
        decreases s.len() - i,
    {
        let mut j: usize = i + 1;
        let mut last = true;
        while j < s.len()
            invariant
                v == functions_view(s@),
                i < s@.len(),
                i + 1 <= j <= s@.len(),
                last == (forall|m: int| i < m < j ==> #[trigger] v[m].key() != v[i as int].key()),
            decreases s.len() - j,
        {
            proof {
                assert(v[j as int] == s@[j as int]@ && v[i as int] == s@[i as int]@);
                assert(v[j as int].key() == s@[j as int].name@ && v[i as int].key() == s@[i as int].name@);
            }
            let ghost was = last;
            if s[j].name == s[i].name {
                last = false;
            }
            proof {
                if last {
                    assert forall|m: int| i < m < j + 1 implies #[trigger] v[m].key() != v[i as int].key() by {
                        if m < j {
                            assert(was);
                        }
                    }
                } else if was {
                    assert(v[j as int].key() == v[i as int].key());
                }
            }
            j = j + 1;
        }
        let ghost prev = functions_view(out@);
        if last {
            let f = copy_function(&s[i]);
            out.push(f);
            proof {
                assert(functions_view(out@) =~= prev.push(v[i as int]));
            }
        }
        i = i + 1;
    }
    out
}

/// The types of `s` that are the last of their name, in order.
fn last_types(s: &Vec<TypeAnalysis>) -> (r: Vec<TypeAnalysis>)
    ensures
        types_view(r@) == last_of_each(types_view(s@)),
{
    let ghost v = types_view(s@);
    let mut out: Vec<TypeAnalysis> = Vec::new();
    let mut i: usize = 0;
    while i < s.len()
        invariant
            v == types_view(s@),
            i <= s@.len(),
            types_view(out@) == last_of_each_upto(v, i as int),
        decreases s.len() - i,
    {
        let mut j: usize = i + 1;
        let mut last = true;
        while j < s.len()
            invariant
                v == types_view(s@),
                i < s@.len(),
                i + 1 <= j <= s@.len(),
                last == (forall|m: int| i < m < j ==> #[trigger] v[m].key() != v[i as int].key()),
            decreases s.len() - j,
        {
            proof {
                assert(v[j as int] == s@[j as int]@ && v[i as int] == s@[i as int]@);
                assert(v[j as int].key() == s@[j as int].name@ && v[i as int].key() == s@[i as int].name@);
            }
            let ghost was = last;
            if s[j].name == s[i].name {
                last = false;
            }
            proof {
                if last {
                    assert forall|m: int| i < m < j + 1 implies #[trigger] v[m].key() != v[i as int].key() by {
                        if m < j {
                            assert(was);
                        }
                    }
                } else if was {
                    assert(v[j as int].key() == v[i as int].key());
                }
            }
            j = j + 1;
        }
        let ghost prev = types_view(out@);
        if last {
            let t = copy_type(&s[i]);
            out.push(t);
            proof {
                assert(types_view(out@) =~= prev.push(v[i as int]));
            }
        }
        i = i + 1;
    }
    out
}

/// Position of the first function called like `f`.
fn find_function(s: &Vec<FunctionAnalysis>, f: &FunctionAnalysis) -> (r: Option<usize>)
    ensures
        ({
            let k = first_index(keys_of(functions_view(s@)), f.name@);
            &&& r is None ==> k < 0
            &&& r matches Some(i) ==> i == k && i < s@.len()
        }),
{
    let ghost keys = keys_of(functions_view(s@));
    let mut i: usize = 0;
    while i < s.len()
        invariant
            keys == keys_of(functions_view(s@)),
            i <= s@.len(),
            forall|j: int| 0 <= j < i ==> keys[j] != f.name@,
        decreases s.len() - i,
    {
        if s[i].name == f.name {
            proof {
                lemma_first_index(keys, f.name@, i as int);
            }
            return Some(i);
        }
        i = i + 1;
    }
    proof {
        lemma_first_index(keys, f.name@, i as int);
    }
    None
}

/// Position of the first type called like `t`.
fn find_type_named(s: &Vec<TypeAnalysis>, t: &TypeAnalysis) -> (r: Option<usize>)
    ensures
        ({
            let k = first_index(keys_of(types_view(s@)), t.name@);
            &&& r is None ==> k < 0
            &&& r matches Some(i) ==> i == k && i < s@.len()
        }),
{
    let ghost keys = keys_of(types_view(s@));
    let mut i: usize = 0;
    while i < s.len()
        invariant
            keys == keys_of(types_view(s@)),
            i <= s@.len(),
            forall|j: int| 0 <= j < i ==> keys[j] != t.name@,
        decreases s.len() - i,
    {
        if s[i].name == t.name {
            proof {
                lemma_first_index(keys, t.name@, i as int);
            }
            return Some(i);
        }
        i = i + 1;
    }
    proof {
        lemma_first_index(keys, t.name@, i as int);
    }
    None
}

impl WasmDiff {
    /// Functions and types are matched by name, the last of each name
    /// counting. Added: the new ones whose name the old list lacks; removed:
    /// the old ones whose name the new list lacks; changed: for an old one
    /// whose name the new list has, the new one where it differs. Each list
    /// follows the order of the last occurrences of the names. Never fails.
    pub fn compare(old: &ContractAnalysis, new: &ContractAnalysis) -> (r: Result<ContractDiff, DiffError>)
        ensures
            r matches Ok(d) && d@ == interface_diff(
                functions_view(old.functions@),
                types_view(old.types@),
                functions_view(new.functions@),
                types_view(new.types@),
            ),
    {
        let old_funcs = last_functions(&old.functions);
        let new_funcs = last_functions(&new.functions);
        let ghost of = functions_view(old_funcs@);
        let ghost nf = functions_view(new_funcs@);

        let mut added_functions: Vec<FunctionAnalysis> = Vec::new();
        let mut removed_functions: Vec<FunctionAnalysis> = Vec::new();
        let mut changed_functions: Vec<FunctionAnalysis> = Vec::new();
        let mut i: usize = 0;
        while i < old_funcs.len()
            invariant
                of == functions_view(old_funcs@),
                nf == functions_view(new_funcs@),
                i <= old_funcs@.len(),
                functions_view(removed_functions@) == without_match(of.subrange(0, i as int), nf),
                functions_view(changed_functions@) == replaced_in(of.subrange(0, i as int), nf),
            decreases old_funcs.len() - i,
        {
            let f = &old_funcs[i];
            proof {
                assert(of.subrange(0, i + 1).drop_last() =~= of.subrange(0, i as int));
                assert(of.subrange(0, i + 1).last() == f@);
            }
            let ghost removed_before = functions_view(removed_functions@);
            let ghost changed_before = functions_view(changed_functions@);
            match find_function(&new_funcs, f) {
                Some(k) => {
                    if !same_function(f, &new_funcs[k]) {
                        let g = copy_function(&new_funcs[k]);
                        changed_functions.push(g);
                        proof {
                            assert(functions_view(changed_functions@) =~= changed_before.push(nf[k as int]));
                        }
                    }
                },
                None => {
                    let g = copy_function(f);
                    removed_functions.push(g);
                    proof {
                        assert(functions_view(removed_functions@) =~= removed_before.push(f@));
                    }
                },
            }
            i = i + 1;
        }
        proof {
            assert(of.subrange(0, i as int) =~= of);
        }
        let mut j: usize = 0;
        while j < new_funcs.len()
            invariant
                of == functions_view(old_funcs@),
                nf == functions_view(new_funcs@),
                j <= new_funcs@.len(),
                functions_view(added_functions@) == without_match(nf.subrange(0, j as int), of),
            decreases new_funcs.len() - j,
        {
            let g = &new_funcs[j];
            proof {
                assert(nf.subrange(0, j + 1).drop_last() =~= nf.subrange(0, j as int));
                assert(nf.subrange(0, j + 1).last() == g@);
            }
            let ghost added_before = functions_view(added_functions@);
            if find_function(&old_funcs, g).is_none() {
                let h = copy_function(g);
                added_functions.push(h);
                proof {
                    assert(functions_view(added_functions@) =~= added_before.push(g@));
                }
            }
            j = j + 1;
        }
        proof {
            assert(nf.subrange(0, j as int) =~= nf);
        }

        let old_types = last_types(&old.types);
        let new_types = last_types(&new.types);
        let ghost ot = types_view(old_types@);
        let ghost nt = types_view(new_types@);

        let mut added_types: Vec<TypeAnalysis> = Vec::new();
        let mut removed_types: Vec<TypeAnalysis> = Vec::new();
        let mut changed_types: Vec<TypeAnalysis> = Vec::new();
        let mut i: usize = 0;
        while i < old_types.len()
            invariant
                ot == types_view(old_types@),
                nt == types_view(new_types@),
                i <= old_types@.len(),
                types_view(removed_types@) == without_match(ot.subrange(0, i as int), nt),
                types_view(changed_types@) == replaced_in(ot.subrange(0, i as int), nt),
            decreases old_types.len() - i,
        {
            let t = &old_types[i];
            proof {
                assert(ot.subrange(0, i + 1).drop_last() =~= ot.subrange(0, i as int));
                assert(ot.subrange(0, i + 1).last() == t@);
            }
            let ghost removed_before = types_view(removed_types@);
            let ghost changed_before = types_view(changed_types@);
            match find_type_named(&new_types, t) {
                Some(k) => {
                    if !same_type(t, &new_types[k]) {
                        let u = copy_type(&new_types[k]);
                        changed_types.push(u);
                        proof {
                            assert(types_view(changed_types@) =~= changed_before.push(nt[k as int]));
                        }
                    }
                },
                None => {
                    let u = copy_type(t);
                    removed_types.push(u);
                    proof {
                        assert(types_view(removed_types@) =~= removed_before.push(t@));
                    }
                },
            }
            i = i + 1;
        }
        proof {
            assert(ot.subrange(0, i as int) =~= ot);
        }
        let mut j: usize = 0;
        while j < new_types.len()
            invariant
                ot == types_view(old_types@),
                nt == types_view(new_types@),
                j <= new_types@.len(),
                types_view(added_types@) == without_match(nt.subrange(0, j as int), ot),
            decreases new_types.len() - j,
        {
            let u = &new_types[j];
            proof {
                assert(nt.subrange(0, j + 1).drop_last() =~= nt.subrange(0, j as int));
                assert(nt.subrange(0, j + 1).last() == u@);
            }
            let ghost added_before = types_view(added_types@);
            if find_type_named(&old_types, u).is_none() {
                let w = copy_type(u);
                added_types.push(w);
                proof {
                    assert(types_view(added_types@) =~= added_before.push(u@));
                }
            }
            j = j + 1;
        }
        proof {
            assert(nt.subrange(0, j as int) =~= nt);
        }

        Ok(ContractDiff {
            added_functions,
            removed_functions,
            changed_functions,
            added_types,
            removed_types,
            changed_types,
        })
    }
}

} // verus!
