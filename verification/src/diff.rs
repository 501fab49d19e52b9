//! Structured comparison of two contract states.
use vstd::prelude::*;
use crate::entry::{
    StateEntry, EntryModel, EntryKey, entries_model, key_order, lemma_key_basic, lemma_key_trans,
    compare_entry_keys, copy_entry,
};
use crate::value::{StateValue, ValueModel, values_equal, copy_value};
use crate::nested::{NestedChange, ChangeModel, changes_model, nested_changes, compute_nested_changes};
use crate::state::{ContractState, ids_strictly_sorted};

verus! {

/// The storage map an entry list denotes: each identity maps to the value of
/// its last entry.
pub open spec fn entry_map(s: Seq<EntryModel>) -> Map<EntryKey, ValueModel>
    decreases s.len(),
{
    if s.len() == 0 {
        Map::empty()
    } else {
        entry_map(s.drop_last()).insert(s.last().id(), s.last().value)
    }
}

/// `q` lists the entries of `m` in strictly increasing identity order.
pub open spec fn lists_map(q: Seq<EntryModel>, m: Map<EntryKey, ValueModel>) -> bool {
    &&& ids_strictly_sorted(q)
    &&& forall|i: int| 0 <= i < q.len() ==> m.contains_key(#[trigger] q[i].id()) && m[q[i].id()] == q[i].value
    &&& forall|k: EntryKey| #[trigger] m.contains_key(k) ==> exists|i: int| 0 <= i < q.len() && q[i].id() == k
}

/// The entries of `m` in increasing identity order.
pub open spec fn canonical_listing(m: Map<EntryKey, ValueModel>) -> Seq<EntryModel> {
    choose|q: Seq<EntryModel>| lists_map(q, m)
}

/// A map has at most one sorted listing.
pub proof fn lemma_listing_unique(q1: Seq<EntryModel>, q2: Seq<EntryModel>, m: Map<EntryKey, ValueModel>)
    requires
        lists_map(q1, m),
        lists_map(q2, m),
    ensures
        q1 == q2,
    decreases q1.len(),
{
    if q1.len() == 0 {
        if q2.len() > 0 {
            assert(m.contains_key(q2[0].id()));
        }
        assert(q1 =~= q2);
    } else {
        let k0 = q1[0].id();
        assert(m.contains_key(k0));
        let i = choose|i: int| 0 <= i < q2.len() && q2[i].id() == k0;
        assert(m.contains_key(q2[0].id()));
        let j = choose|j: int| 0 <= j < q1.len() && q1[j].id() == q2[0].id();
        lemma_key_basic(k0, q2[0].id());
        lemma_key_basic(k0, k0);
        if i > 0 {
            assert(key_order(q2[0].id(), k0) < 0);
            if j > 0 {
                assert(key_order(k0, q2[0].id()) < 0);
            }
        }
        assert(q1[0] == q2[0]);
        let m2 = m.remove(k0);
        let r1 = q1.drop_first();
        let r2 = q2.drop_first();
        assert forall|a: int, b: int| 0 <= a < b < r1.len() implies key_order(#[trigger] r1[a].id(), #[trigger] r1[b].id()) < 0 by {
            assert(r1[a] == q1[a + 1] && r1[b] == q1[b + 1]);
        }
        assert forall|a: int, b: int| 0 <= a < b < r2.len() implies key_order(#[trigger] r2[a].id(), #[trigger] r2[b].id()) < 0 by {
            assert(r2[a] == q2[a + 1] && r2[b] == q2[b + 1]);
        }
        assert forall|a: int| 0 <= a < r1.len() implies m2.contains_key(#[trigger] r1[a].id()) && m2[r1[a].id()] == r1[a].value by {
            assert(r1[a] == q1[a + 1]);
            assert(key_order(q1[0].id(), q1[a + 1].id()) < 0);
            lemma_key_basic(q1[0].id(), q1[a + 1].id());
        }
        assert forall|a: int| 0 <= a < r2.len() implies m2.contains_key(#[trigger] r2[a].id()) && m2[r2[a].id()] == r2[a].value by {
            assert(r2[a] == q2[a + 1]);
            assert(key_order(q2[0].id(), q2[a + 1].id()) < 0);
            lemma_key_basic(q2[0].id(), q2[a + 1].id());
        }
        assert forall|k: EntryKey| #[trigger] m2.contains_key(k) implies exists|a: int| 0 <= a < r1.len() && r1[a].id() == k by {
            let a = choose|a: int| 0 <= a < q1.len() && q1[a].id() == k;
            assert(a > 0);
            assert(r1[a - 1] == q1[a]);
        }
        assert forall|k: EntryKey| #[trigger] m2.contains_key(k) implies exists|a: int| 0 <= a < r2.len() && r2[a].id() == k by {
            let a = choose|a: int| 0 <= a < q2.len() && q2[a].id() == k;
            assert(a > 0);
            assert(r2[a - 1] == q2[a]);
        }
        lemma_listing_unique(r1, r2, m2);
        assert(q1 =~= seq![q1[0]] + r1);
        assert(q2 =~= seq![q2[0]] + r2);
    }
}

/// A listing of `m` is the canonical one.
pub proof fn lemma_listing_canonical(q: Seq<EntryModel>, m: Map<EntryKey, ValueModel>)
    requires
        lists_map(q, m),
    ensures
        canonical_listing(m) == q,
{
    let c = canonical_listing(m);
    assert(lists_map(c, m));
    lemma_listing_unique(c, q, m);
}

pub open spec fn placed_entry(q: Seq<EntryModel>, p: int, e: EntryModel, replaced: bool) -> Seq<EntryModel> {
    if replaced { q.update(p, e) } else { q.insert(p, e) }
}

/// Placing an entry at the position a scan finds keeps `q` a listing of the
/// updated map.
#[verifier::rlimit(40)]
proof fn lemma_place_entry(q: Seq<EntryModel>, m: Map<EntryKey, ValueModel>, p: int, e: EntryModel, replaced: bool)
    requires
        lists_map(q, m),
        0 <= p <= q.len(),
        forall|k: int| 0 <= k < p ==> key_order(#[trigger] q[k].id(), e.id()) < 0,
        p < q.len() ==> key_order(q[p].id(), e.id()) >= 0,
        replaced == (p < q.len() && key_order(q[p].id(), e.id()) == 0),
    ensures
        lists_map(placed_entry(q, p, e, replaced), m.insert(e.id(), e.value)),
{
    let t = placed_entry(q, p, e, replaced);
    let m2 = m.insert(e.id(), e.value);
    if p < q.len() {
        lemma_key_basic(q[p].id(), e.id());
    }
    assert(t[p] == e);
    assert forall|a: int, b: int| 0 <= a < b < t.len() implies key_order(#[trigger] t[a].id(), #[trigger] t[b].id()) < 0 by {
        if replaced {
            if a == p {
                assert(t[b] == q[b]);
            } else if b == p {
                assert(t[a] == q[a]);
            } else {
                assert(t[a] == q[a] && t[b] == q[b]);
            }
        } else {
            if b == p {
                assert(t[a] == q[a]);
            } else if a == p {
                assert(t[b] == q[b - 1]);
                if b - 1 > p {
                    lemma_key_trans(e.id(), q[p].id(), q[b - 1].id());
                }
            } else if a < p && b < p {
                assert(t[a] == q[a] && t[b] == q[b]);
            } else if a < p {
                assert(t[a] == q[a] && t[b] == q[b - 1]);
            } else {
                assert(t[a] == q[a - 1] && t[b] == q[b - 1]);
            }
        }
    }
    assert forall|a: int| 0 <= a < t.len() implies m2.contains_key(#[trigger] t[a].id()) && m2[t[a].id()] == t[a].value by {
        if a != p {
            let qa = if replaced || a < p { a } else { a - 1 };
            assert(t[a] == q[qa]);
            if qa < p {
                lemma_key_basic(q[qa].id(), e.id());
            } else if qa == p {
                lemma_key_basic(q[qa].id(), e.id());
            } else {
                assert(key_order(q[p].id(), q[qa].id()) < 0);
                if replaced {
                    lemma_key_basic(q[p].id(), q[qa].id());
                } else {
                    lemma_key_trans(e.id(), q[p].id(), q[qa].id());
                    lemma_key_basic(e.id(), q[qa].id());
                }
            }
        }
    }
    assert forall|k: EntryKey| #[trigger] m2.contains_key(k) implies exists|a: int| 0 <= a < t.len() && t[a].id() == k by {
        if k == e.id() {
            assert(t[p].id() == k);
        } else {
            assert(m.contains_key(k));
            let a = choose|a: int| 0 <= a < q.len() && q[a].id() == k;
            if replaced || a < p {
                if replaced && a == p {
                    lemma_key_basic(q[p].id(), e.id());
                }
                assert(t[a] == q[a]);
            } else {
                assert(t[a + 1] == q[a]);
            }
        }
    }
}

/// The distinct entries of `entries`, the last one of each identity, in
/// increasing identity order.
fn normalize(entries: &Vec<StateEntry>) -> (r: Vec<StateEntry>)
    ensures
        lists_map(entries_model(r@), entry_map(entries_model(entries@))),
{
    let ghost s = entries_model(entries@);
    let mut out: Vec<StateEntry> = Vec::new();
    proof {
        assert(s.take(0) =~= Seq::<EntryModel>::empty());
        assert(entries_model(out@) =~= Seq::<EntryModel>::empty());
    }
    let mut i: usize = 0;
    while i < entries.len()
        invariant
            s == entries_model(entries@),
            s.len() == entries.len(),
            i <= entries.len(),
            lists_map(entries_model(out@), entry_map(s.take(i as int))),
        decreases entries.len() - i,
    {
        let ghost q = entries_model(out@);
        let ghost m = entry_map(s.take(i as int));
        let e = &entries[i];
        let mut p: usize = 0;
        while p < out.len() && compare_entry_keys(&out[p], e) < 0
            invariant
                p <= out.len(),
                q == entries_model(out@),
                forall|k: int| 0 <= k < p ==> key_order(#[trigger] q[k].id(), e.model().id()) < 0,
            decreases out.len() - p,
        {
            p = p + 1;
        }
        let ghost replaced = p < out.len() && key_order(q[p as int].id(), e.model().id()) == 0;
        if p < out.len() && compare_entry_keys(&out[p], e) == 0 {
            out.set(p, copy_entry(e));
        } else {
            out.insert(p, copy_entry(e));
        }
        proof {
            lemma_place_entry(q, m, p as int, e.model(), replaced);
            assert(entries_model(out@) =~= placed_entry(q, p as int, e.model(), replaced));
            assert(s.take(i + 1).drop_last() =~= s.take(i as int));
            assert(s.take(i + 1).last() == e.model());
        }
        i = i + 1;
    }
    proof {
        assert(s.take(entries.len() as int) =~= s);
    }
    out
}


/// The part of `m` whose entries satisfy `p`.
pub open spec fn restrict(m: Map<EntryKey, ValueModel>, p: spec_fn(EntryModel) -> bool) -> Map<EntryKey, ValueModel> {
    Map::new(
        |k: EntryKey| m.contains_key(k) && p(EntryModel { durability: k.0, key: k.1, value: m[k] }),
        |k: EntryKey| m[k],
    )
}

/// Dropping the greatest entry of a listing lists the map without it.
pub proof fn lemma_listing_drop_last(q: Seq<EntryModel>, m: Map<EntryKey, ValueModel>)
    requires
        lists_map(q, m),
        q.len() > 0,
    ensures
        lists_map(q.drop_last(), m.remove(q.last().id())),
        m.contains_key(q.last().id()),
        m[q.last().id()] == q.last().value,
        m == m.remove(q.last().id()).insert(q.last().id(), q.last().value),
{
    let d = q.drop_last();
    let x = q.last();
    let m2 = m.remove(x.id());
    assert forall|a: int, b: int| 0 <= a < b < d.len() implies key_order(#[trigger] d[a].id(), #[trigger] d[b].id()) < 0 by {
        assert(d[a] == q[a] && d[b] == q[b]);
    }
    assert forall|a: int| 0 <= a < d.len() implies m2.contains_key(#[trigger] d[a].id()) && m2[d[a].id()] == d[a].value by {
        assert(d[a] == q[a]);
        assert(key_order(q[a].id(), x.id()) < 0);
        lemma_key_basic(q[a].id(), x.id());
    }
    assert forall|k: EntryKey| #[trigger] m2.contains_key(k) implies exists|a: int| 0 <= a < d.len() && d[a].id() == k by {
        let a = choose|a: int| 0 <= a < q.len() && q[a].id() == k;
        assert(a < q.len() - 1);
        assert(d[a] == q[a]);
    }
    assert(m =~= m2.insert(x.id(), x.value));
}

/// Appending an entry greater than all listed ones lists the extended map.
pub proof fn lemma_listing_push(q: Seq<EntryModel>, m: Map<EntryKey, ValueModel>, e: EntryModel)
    requires
        lists_map(q, m),
        forall|i: int| 0 <= i < q.len() ==> key_order(#[trigger] q[i].id(), e.id()) < 0,
    ensures
        lists_map(q.push(e), m.insert(e.id(), e.value)),
        !m.contains_key(e.id()),
{
    let t = q.push(e);
    let m2 = m.insert(e.id(), e.value);
    if m.contains_key(e.id()) {
        let a = choose|a: int| 0 <= a < q.len() && q[a].id() == e.id();
        lemma_key_basic(q[a].id(), e.id());
    }
    assert forall|a: int, b: int| 0 <= a < b < t.len() implies key_order(#[trigger] t[a].id(), #[trigger] t[b].id()) < 0 by {
        assert(t[a] == q[a]);
        if b < q.len() {
            assert(t[b] == q[b]);
        }
    }
    assert forall|a: int| 0 <= a < t.len() implies m2.contains_key(#[trigger] t[a].id()) && m2[t[a].id()] == t[a].value by {
        if a < q.len() {
            assert(t[a] == q[a]);
            lemma_key_basic(q[a].id(), e.id());
        }
    }
    assert forall|k: EntryKey| #[trigger] m2.contains_key(k) implies exists|a: int| 0 <= a < t.len() && t[a].id() == k by {
        if k == e.id() {
            assert(t[q.len() as int] == e);
        } else {
            let a = choose|a: int| 0 <= a < q.len() && q[a].id() == k;
            assert(t[a] == q[a]);
        }
    }
}

/// Filtering a listing lists the matching part of the map.
pub proof fn lemma_listing_filter(q: Seq<EntryModel>, m: Map<EntryKey, ValueModel>, p: spec_fn(EntryModel) -> bool)
    requires
        lists_map(q, m),
    ensures
        lists_map(q.filter(p), restrict(m, p)),
    decreases q.len(),
{
    reveal_with_fuel(Seq::filter, 1);
    if q.len() == 0 {
        assert(restrict(m, p) =~= Map::<EntryKey, ValueModel>::empty()) by {
            assert forall|k: EntryKey| !#[trigger] m.contains_key(k) by {
                if m.contains_key(k) {
                    let a = choose|a: int| 0 <= a < q.len() && q[a].id() == k;
                }
            }
        }
        assert(q.filter(p) =~= Seq::<EntryModel>::empty());
    } else {
        let d = q.drop_last();
        let x = q.last();
        let m1 = m.remove(x.id());
        lemma_listing_drop_last(q, m);
        lemma_listing_filter(d, m1, p);
        let fd = d.filter(p);
        assert(x == EntryModel { durability: x.id().0, key: x.id().1, value: m[x.id()] });
        if p(x) {
            assert forall|i: int| 0 <= i < fd.len() implies key_order(#[trigger] fd[i].id(), x.id()) < 0 by {
                assert(fd.contains(fd[i]));
                d.lemma_filter_contains_rev(p, fd[i]);
                let a = choose|a: int| 0 <= a < d.len() && d[a] == fd[i];
                assert(d[a] == q[a]);
            }
            lemma_listing_push(fd, restrict(m1, p), x);
            assert(restrict(m, p) =~= restrict(m1, p).insert(x.id(), x.value));
        } else {
            assert(restrict(m, p) =~= restrict(m1, p));
        }
    }
}

/// A listing is as long as the map's domain, which is finite.
pub proof fn lemma_listing_len(q: Seq<EntryModel>, m: Map<EntryKey, ValueModel>)
    requires
        lists_map(q, m),
    ensures
        m.dom().finite(),
        q.len() == m.dom().len(),
    decreases q.len(),
{
    if q.len() == 0 {
        assert(m.dom() =~= Set::<EntryKey>::empty()) by {
            assert forall|k: EntryKey| !#[trigger] m.dom().contains(k) by {
                if m.contains_key(k) {
                    let a = choose|a: int| 0 <= a < q.len() && q[a].id() == k;
                }
            }
        }
    } else {
        let x = q.last();
        let m1 = m.remove(x.id());
        lemma_listing_drop_last(q, m);
        lemma_listing_len(q.drop_last(), m1);
        assert(m.dom() =~= m1.dom().insert(x.id()));
        assert(!m1.dom().contains(x.id()));
    }
}

/// Number of leading entries of `q` whose identity precedes `e`'s.
pub open spec fn insertion_point(q: Seq<EntryModel>, e: EntryModel) -> int
    decreases q.len(),
{
    if q.len() == 0 {
        0
    } else if key_order(q[0].id(), e.id()) < 0 {
        1 + insertion_point(q.drop_first(), e)
    } else {
        0
    }
}

proof fn lemma_insertion_point(q: Seq<EntryModel>, e: EntryModel)
    ensures
        0 <= insertion_point(q, e) <= q.len(),
        forall|k: int| 0 <= k < insertion_point(q, e) ==> key_order(#[trigger] q[k].id(), e.id()) < 0,
        insertion_point(q, e) < q.len() ==> key_order(q[insertion_point(q, e)].id(), e.id()) >= 0,
    decreases q.len(),
{
    if q.len() > 0 && key_order(q[0].id(), e.id()) < 0 {
        lemma_insertion_point(q.drop_first(), e);
        assert forall|k: int| 0 <= k < insertion_point(q, e) implies key_order(#[trigger] q[k].id(), e.id()) < 0 by {
            if k > 0 {
                assert(q[k] == q.drop_first()[k - 1]);
            }
        }
        if insertion_point(q, e) < q.len() {
            assert(q[insertion_point(q, e)] == q.drop_first()[insertion_point(q.drop_first(), e)]);
        }
    }
}

/// Every entry list's storage map has a sorted listing.
pub proof fn lemma_listing_exists(s: Seq<EntryModel>) -> (q: Seq<EntryModel>)
    ensures
        lists_map(q, entry_map(s)),
        canonical_listing(entry_map(s)) == q,
    decreases s.len(),
{
    if s.len() == 0 {
        let q = Seq::<EntryModel>::empty();
        assert(lists_map(q, entry_map(s)));
        lemma_listing_canonical(q, entry_map(s));
        q
    } else {
        let q0 = lemma_listing_exists(s.drop_last());
        let e = s.last();
        lemma_insertion_point(q0, e);
        let p = insertion_point(q0, e);
        let replaced = p < q0.len() && key_order(q0[p].id(), e.id()) == 0;
        lemma_place_entry(q0, entry_map(s.drop_last()), p, e, replaced);
        let q = placed_entry(q0, p, e, replaced);
        lemma_listing_canonical(q, entry_map(s));
        q
    }
}

/// The result of comparing two contract states.
#[derive(Debug, PartialEq, Eq)]
pub struct StateDiff {
    /// Entries present in the post-state but not in the pre-state.
    pub added: Vec<StateEntry>,
    /// Entries present in the pre-state but not in the post-state.
    pub removed: Vec<StateEntry>,
    /// Entries present in both states with different values.
    pub modified: Vec<ModifiedEntry>,
    /// Entries present in both states with identical values.
    pub unchanged: Vec<StateEntry>,
}

/// An entry present in both states whose value changed.
#[derive(Debug, PartialEq, Eq)]
pub struct ModifiedEntry {
    /// The storage key identifying this entry.
    pub key: StateValue,
    /// The value before migration.
    pub before: StateValue,
    /// The value after migration.
    pub after: StateValue,
    /// Changes inside the value (empty for leaves).
    pub nested_changes: Vec<NestedChange>,
}

/// Model of a modified entry.
pub struct ModifiedModel {
    pub key: ValueModel,
    pub before: ValueModel,
    pub after: ValueModel,
    pub nested_changes: Seq<ChangeModel>,
}

impl ModifiedEntry {
    pub open spec fn model(&self) -> ModifiedModel {
        ModifiedModel {
            key: self.key.model(),
            before: self.before.model(),
            after: self.after.model(),
            nested_changes: changes_model(self.nested_changes@),
        }
    }
}

/// Models of a sequence of modified entries.
pub open spec fn modified_model(s: Seq<ModifiedEntry>) -> Seq<ModifiedModel> {
    s.map_values(|m: ModifiedEntry| m.model())
}

/// Entries whose identity `m` lacks.
pub open spec fn absent_from(m: Map<EntryKey, ValueModel>) -> spec_fn(EntryModel) -> bool {
    |e: EntryModel| !m.contains_key(e.id())
}

/// Entries that `m` holds with the same value.
pub open spec fn same_in(m: Map<EntryKey, ValueModel>) -> spec_fn(EntryModel) -> bool {
    |e: EntryModel| m.contains_key(e.id()) && m[e.id()] == e.value
}

/// Entries that `m` holds with another value.
pub open spec fn changed_in(m: Map<EntryKey, ValueModel>) -> spec_fn(EntryModel) -> bool {
    |e: EntryModel| m.contains_key(e.id()) && m[e.id()] != e.value
}

/// The modification record for an entry whose value in `m` differs.
pub open spec fn modified_of(m: Map<EntryKey, ValueModel>) -> spec_fn(EntryModel) -> ModifiedModel {
    |e: EntryModel| ModifiedModel {
        key: e.key,
        before: e.value,
        after: m[e.id()],
        nested_changes: nested_changes(e.value, m[e.id()]),
    }
}

/// Model of a state diff.
pub struct DiffModel {
    pub added: Seq<EntryModel>,
    pub removed: Seq<EntryModel>,
    pub modified: Seq<ModifiedModel>,
    pub unchanged: Seq<EntryModel>,
}

impl DiffModel {
    pub open spec fn has_changes(self) -> bool {
        self.added.len() > 0 || self.removed.len() > 0 || self.modified.len() > 0
    }
}

/// The diff from the entries `before` to the entries `after`: entries are
/// matched by identity over the storage maps the lists denote, and each
/// category follows the increasing identity order.
pub open spec fn state_diff(before: Seq<EntryModel>, after: Seq<EntryModel>) -> DiffModel {
    let m1 = entry_map(before);
    let m2 = entry_map(after);
    DiffModel {
        added: canonical_listing(m2).filter(absent_from(m1)),
        removed: canonical_listing(m1).filter(absent_from(m2)),
        modified: canonical_listing(m1).filter(changed_in(m2)).map_values(modified_of(m2)),
        unchanged: canonical_listing(m1).filter(same_in(m2)),
    }
}

impl StateDiff {
    /// The diff's lists as models.
    pub open spec fn model(&self) -> DiffModel {
        DiffModel {
            added: entries_model(self.added@),
            removed: entries_model(self.removed@),
            modified: modified_model(self.modified@),
            unchanged: entries_model(self.unchanged@),
        }
    }

    /// Number of entries added in the post-state.
    pub fn added_count(&self) -> (r: usize)
        ensures
            r == self.added@.len(),
    {
        self.added.len()
    }

    /// Number of entries removed from the pre-state.
    pub fn removed_count(&self) -> (r: usize)
        ensures
            r == self.removed@.len(),
    {
        self.removed.len()
    }

    /// Number of entries whose value changed.
    pub fn modified_count(&self) -> (r: usize)
        ensures
            r == self.modified@.len(),
    {
        self.modified.len()
    }

    /// Number of entries that are identical in both states.
    pub fn unchanged_count(&self) -> (r: usize)
        ensures
            r == self.unchanged@.len(),
    {
        self.unchanged.len()
    }

    /// Whether any entry was added, removed or modified.
    pub fn has_changes(&self) -> (r: bool)
        ensures
            r == (self.added@.len() > 0 || self.removed@.len() > 0 || self.modified@.len() > 0),
            r == self.model().has_changes(),
    {
        !self.added.is_empty() || !self.removed.is_empty() || !self.modified.is_empty()
    }
}

/// Position of the entry of `q` with the identity of `e`, if any.
fn find_entry(q: &Vec<StateEntry>, e: &StateEntry) -> (r: Option<usize>)
    ensures
        match r {
            Some(j) => j < q@.len() && entries_model(q@)[j as int].id() == e.model().id(),
            None => forall|j: int| 0 <= j < q@.len() ==> #[trigger] entries_model(q@)[j].id() != e.model().id(),
        },
{
    let mut j: usize = 0;
    while j < q.len()
        invariant
            j <= q.len(),
            forall|k: int| 0 <= k < j ==> #[trigger] entries_model(q@)[k].id() != e.model().id(),
        decreases q.len() - j,
    {
        proof {
            lemma_key_basic(q@[j as int].model().id(), e.model().id());
        }
        if compare_entry_keys(&q[j], e) == 0 {
            return Some(j);
        }
        j = j + 1;
    }
    None
}

/// One more element of `s` either extends the filtered prefix or not.
pub proof fn lemma_filter_step<A>(s: Seq<A>, i: int, p: spec_fn(A) -> bool)
    requires
        0 <= i < s.len(),
    ensures
        s.take(i + 1).filter(p) == if p(s[i]) { s.take(i).filter(p).push(s[i]) } else { s.take(i).filter(p) },
{
    reveal_with_fuel(Seq::filter, 1);
    assert(s.take(i + 1).drop_last() =~= s.take(i));
    assert(s.take(i + 1).last() == s[i]);
}

proof fn lemma_listing_lookup(q: Seq<EntryModel>, m: Map<EntryKey, ValueModel>, k: EntryKey)
    requires
        lists_map(q, m),
    ensures
        (forall|j: int| 0 <= j < q.len() ==> #[trigger] q[j].id() != k) ==> !m.contains_key(k),
        forall|j: int| 0 <= j < q.len() && #[trigger] q[j].id() == k ==> m.contains_key(k) && m[k] == q[j].value,
{
}

impl ContractState {
    /// Compares `self` (before) with `other` (after). Entries are matched by
    /// `(durability, key)`, the last entry of an identity counting; every
    /// category lists its entries in increasing identity order.
    pub fn diff(&self, other: &ContractState) -> (r: StateDiff)
        ensures
            r.model() == state_diff(self.entries_model(), other.entries_model()),
    {
        let ghost m1 = entry_map(self.entries_model());
        let ghost m2 = entry_map(other.entries_model());
        let before = normalize(&self.entries);
        let after = normalize(&other.entries);
        let ghost c1 = entries_model(before@);
        let ghost c2 = entries_model(after@);
        proof {
            lemma_listing_canonical(c1, m1);
            lemma_listing_canonical(c2, m2);
        }
        let mut removed: Vec<StateEntry> = Vec::new();
        let mut added: Vec<StateEntry> = Vec::new();
        let mut modified: Vec<ModifiedEntry> = Vec::new();
        let mut unchanged: Vec<StateEntry> = Vec::new();
        proof {
            assert(c1.take(0) =~= Seq::<EntryModel>::empty());
            assert(c2.take(0) =~= Seq::<EntryModel>::empty());
            assert(entries_model(removed@) =~= Seq::<EntryModel>::empty());
            assert(entries_model(added@) =~= Seq::<EntryModel>::empty());
            assert(entries_model(unchanged@) =~= Seq::<EntryModel>::empty());
            assert(modified_model(modified@) =~= Seq::<ModifiedModel>::empty());
        }
        // Entries only before: removed.
        let mut i: usize = 0;
        while i < before.len()
            invariant
                c1 == entries_model(before@),
                c2 == entries_model(after@),
                lists_map(c2, m2),
                i <= before.len(),
                entries_model(removed@) == c1.take(i as int).filter(absent_from(m2)),
            decreases before.len() - i,
        {
            let ghost prev = entries_model(removed@);
            let found = find_entry(&after, &before[i]);
            proof {
                lemma_listing_lookup(c2, m2, c1[i as int].id());
                lemma_filter_step(c1, i as int, absent_from(m2));
            }
            if found.is_none() {
                removed.push(copy_entry(&before[i]));
                proof {
                    assert(entries_model(removed@) =~= prev.push(c1[i as int]));
                }
            }
            i = i + 1;
        }
        // Entries only after: added.
        let mut j: usize = 0;
        while j < after.len()
            invariant
                c1 == entries_model(before@),
                c2 == entries_model(after@),
                lists_map(c1, m1),
                j <= after.len(),
                entries_model(added@) == c2.take(j as int).filter(absent_from(m1)),
            decreases after.len() - j,
        {
            let ghost prev = entries_model(added@);
            let found = find_entry(&before, &after[j]);
            proof {
                lemma_listing_lookup(c1, m1, c2[j as int].id());
                lemma_filter_step(c2, j as int, absent_from(m1));
            }
            if found.is_none() {
                added.push(copy_entry(&after[j]));
                proof {
                    assert(entries_model(added@) =~= prev.push(c2[j as int]));
                }
            }
            j = j + 1;
        }
        // Entries in both: unchanged or modified.
        let mut k: usize = 0;
        while k < before.len()
            invariant
                c1 == entries_model(before@),
                c2 == entries_model(after@),
                lists_map(c2, m2),
                k <= before.len(),
                entries_model(unchanged@) == c1.take(k as int).filter(same_in(m2)),
                modified_model(modified@) == c1.take(k as int).filter(changed_in(m2)).map_values(modified_of(m2)),
            decreases before.len() - k,
        {
            let ghost prev_u = entries_model(unchanged@);
            let ghost prev_m = modified_model(modified@);
            let found = find_entry(&after, &before[k]);
            proof {
                lemma_listing_lookup(c2, m2, c1[k as int].id());
                lemma_filter_step(c1, k as int, same_in(m2));
                lemma_filter_step(c1, k as int, changed_in(m2));
            }
            match found {
                Some(idx) => {
                    let bv = &before[k].value;
                    let av = &after[idx].value;
                    proof {
                        assert(c2[idx as int].id() == c1[k as int].id());
                        assert(m2[c1[k as int].id()] == av.model());
                    }
                    if values_equal(bv, av) {
                        unchanged.push(copy_entry(&before[k]));
                        proof {
                            assert(entries_model(unchanged@) =~= prev_u.push(c1[k as int]));
                        }
                    } else {
                        let nested = compute_nested_changes(bv, av);
                        let m = ModifiedEntry {
                            key: copy_value(&before[k].key),
                            before: copy_value(bv),
                            after: copy_value(av),
                            nested_changes: nested,
                        };
                        modified.push(m);
                        proof {
                            let f = c1.take(k + 1).filter(changed_in(m2));
                            assert(f == c1.take(k as int).filter(changed_in(m2)).push(c1[k as int]));
                            assert(f.map_values(modified_of(m2)) =~= prev_m.push(modified_of(m2)(c1[k as int])));
                            assert(modified_model(modified@) =~= prev_m.push(modified@.last().model()));
                        }
                    }
                },
                None => {},
            }
            proof {
                if found.is_none() {
                    assert(c1.take(k + 1).filter(changed_in(m2)) == c1.take(k as int).filter(changed_in(m2)));
                } else if entries_model(unchanged@).len() > prev_u.len() {
                    assert(c1.take(k + 1).filter(changed_in(m2)) == c1.take(k as int).filter(changed_in(m2)));
                }
            }
            k = k + 1;
        }
        proof {
            assert(c1.take(before.len() as int) =~= c1);
            assert(c2.take(after.len() as int) =~= c2);
        }
        StateDiff { added, removed, modified, unchanged }
    }
}

} // verus!
