//! The mathematical model of the whole store: the catalog's records and the
//! item directories on disk, with the invariants that tie them together and
//! the transition functions that saving, deleting and evicting follow.

use vstd::prelude::*;
use crate::meta::DirModel;
use crate::meta::MetaModel;
use crate::order::count_id;

verus! {

/// The abstract state of the store: the catalog, the disk, and the byte
/// budget.
#[verifier::ext_equal]
pub struct StoreModel {
    pub index: Seq<MetaModel>,
    pub dirs: Seq<DirModel>,
    pub budget: int,
}

/// How many item directories carry the identifier `id`.
pub open spec fn dir_count(d: Seq<DirModel>, id: Seq<char>) -> int
    decreases d.len(),
{
    if d.len() == 0 {
        0
    } else {
        (if d[0].id == id {
            1int
        } else {
            0int
        }) + dir_count(d.drop_first(), id)
    }
}

/// Total number of bytes held by the item directories.
pub open spec fn dirs_total(d: Seq<DirModel>) -> int
    decreases d.len(),
{
    if d.len() == 0 {
        0
    } else {
        dirs_total(d.drop_last()) + d.last().size_bytes
    }
}

/// Bytes held by the directories carrying `id` (the directory's size, when
/// identifiers are unique).
pub open spec fn dir_size_of(d: Seq<DirModel>, id: Seq<char>) -> int
    decreases d.len(),
{
    if d.len() == 0 {
        0
    } else {
        dir_size_of(d.drop_last(), id) + (if d.last().id == id {
            d.last().size_bytes
        } else {
            0int
        })
    }
}

/// No directory reports a negative size.
pub open spec fn dirs_nonneg(d: Seq<DirModel>) -> bool {
    forall|i: int| 0 <= i < d.len() ==> (#[trigger] d[i]).size_bytes >= 0
}

impl StoreModel {
    /// The store's invariant: identifiers are unique on both sides, the
    /// catalog and the disk hold exactly the same identifiers, sizes are
    /// non-negative, and the total fits in a byte counter.
    pub open spec fn wf(self) -> bool {
        &&& forall|id: Seq<char>| #[trigger] count_id(self.index, id) <= 1
        &&& forall|id: Seq<char>| #[trigger] dir_count(self.dirs, id) <= 1
        &&& forall|id: Seq<char>|
            count_id(self.index, id) > 0 <==> #[trigger] dir_count(self.dirs, id) > 0
        &&& dirs_nonneg(self.dirs)
        &&& dirs_total(self.dirs) <= u64::MAX
        &&& 0 <= self.budget <= u64::MAX
    }
}

/// Replace the first record with the same identifier, or append the record.
pub open spec fn spec_upsert(s: Seq<MetaModel>, m: MetaModel) -> Seq<MetaModel>
    decreases s.len(),
{
    if s.len() == 0 {
        seq![m]
    } else if s[0].id == m.id {
        seq![m] + s.drop_first()
    } else {
        seq![s[0]] + spec_upsert(s.drop_first(), m)
    }
}

/// Saving an item: its record is upserted into the catalog and its directory
/// (re)written on disk with the measured size.
pub open spec fn spec_save(model: StoreModel, m: MetaModel) -> StoreModel {
    StoreModel {
        index: spec_upsert(model.index, m),
        dirs: model.dirs.filter(|e: DirModel| e.id != m.id).push(
            DirModel { id: m.id, size_bytes: m.size_bytes },
        ),
        budget: model.budget,
    }
}

/// Deleting an item: both its catalog record and its directory disappear;
/// deleting an absent identifier changes nothing.
pub open spec fn spec_delete(model: StoreModel, id: Seq<char>) -> StoreModel {
    StoreModel {
        index: model.index.filter(|m: MetaModel| m.id != id),
        dirs: model.dirs.filter(|e: DirModel| e.id != id),
        budget: model.budget,
    }
}

/// The store after the items named in `removed` have been deleted.
pub open spec fn spec_remaining(model: StoreModel, removed: Seq<Seq<char>>) -> StoreModel {
    StoreModel {
        index: model.index.filter(|m: MetaModel| !removed.contains(m.id)),
        dirs: model.dirs.filter(|e: DirModel| !removed.contains(e.id)),
        budget: model.budget,
    }
}

// ---------------------------------------------------------------------------
// Lemmas about counts
// ---------------------------------------------------------------------------

/// A record at a position makes the count of its identifier positive.
pub proof fn lemma_count_id_at(s: Seq<MetaModel>, i: int)
    requires
        0 <= i < s.len(),
    ensures
        count_id(s, s[i].id) >= 1,
    decreases i,
{
    if i == 0 {
        lemma_count_id_nonneg(s.drop_first(), s[0].id);
    } else {
        lemma_count_id_at(s.drop_first(), i - 1);
    }
}

pub proof fn lemma_count_id_nonneg(s: Seq<MetaModel>, id: Seq<char>)
    ensures
        count_id(s, id) >= 0,
    decreases s.len(),
{
    if s.len() > 0 {
        lemma_count_id_nonneg(s.drop_first(), id);
    }
}

/// When no record carries the identifier, the count is zero.
pub proof fn lemma_count_id_zero(s: Seq<MetaModel>, id: Seq<char>)
    requires
        forall|j: int| 0 <= j < s.len() ==> (#[trigger] s[j]).id != id,
    ensures
        count_id(s, id) == 0,
    decreases s.len(),
{
    if s.len() > 0 {
        lemma_count_id_zero(s.drop_first(), id);
    }
}

pub proof fn lemma_count_id_push(s: Seq<MetaModel>, m: MetaModel, id: Seq<char>)
    ensures
        count_id(s.push(m), id) == count_id(s, id) + (if m.id == id {
            1int
        } else {
            0int
        }),
    decreases s.len(),
{
    if s.len() == 0 {
        assert(s.push(m)[0] == m);
        assert(count_id(s.push(m).drop_first(), id) == 0);
    } else {
        lemma_count_id_push(s.drop_first(), m, id);
        assert(s.push(m).drop_first() =~= s.drop_first().push(m));
        assert(s.push(m)[0] == s[0]);
    }
}

pub proof fn lemma_dir_count_nonneg(d: Seq<DirModel>, id: Seq<char>)
    ensures
        dir_count(d, id) >= 0,
    decreases d.len(),
{
    if d.len() > 0 {
        lemma_dir_count_nonneg(d.drop_first(), id);
    }
}

pub proof fn lemma_dir_count_at(d: Seq<DirModel>, i: int)
    requires
        0 <= i < d.len(),
    ensures
        dir_count(d, d[i].id) >= 1,
    decreases i,
{
    if i == 0 {
        lemma_dir_count_nonneg(d.drop_first(), d[0].id);
    } else {
        lemma_dir_count_at(d.drop_first(), i - 1);
    }
}

proof fn lemma_dir_count_drop_last(d: Seq<DirModel>, id: Seq<char>)
    requires
        d.len() > 0,
    ensures
        dir_count(d, id) == dir_count(d.drop_last(), id) + (if d.last().id == id {
            1int
        } else {
            0int
        }),
    decreases d.len(),
{
    if d.len() == 1 {
        assert(d.last() == d[0]);
        assert(dir_count(d.drop_first(), id) == 0);
        assert(dir_count(d.drop_last(), id) == 0);
    } else {
        lemma_dir_count_drop_last(d.drop_first(), id);
        assert(d.drop_first().drop_last() =~= d.drop_last().drop_first());
        assert(d.drop_first().last() == d.last());
        assert(d.drop_last()[0] == d[0]);
        assert(dir_count(d.drop_last(), id) == (if d.drop_last()[0].id == id {
            1int
        } else {
            0int
        }) + dir_count(d.drop_last().drop_first(), id));
    }
}

pub proof fn lemma_dir_count_push(d: Seq<DirModel>, e: DirModel, id: Seq<char>)
    ensures
        dir_count(d.push(e), id) == dir_count(d, id) + (if e.id == id {
            1int
        } else {
            0int
        }),
{
    lemma_dir_count_drop_last(d.push(e), id);
    assert(d.push(e).drop_last() =~= d);
}

// ---------------------------------------------------------------------------
// Lemmas about filtering
// ---------------------------------------------------------------------------

/// Filtering out one identifier zeroes its count and keeps every other.
pub proof fn lemma_filter_count_id(s: Seq<MetaModel>, x: Seq<char>, id: Seq<char>)
    ensures
        count_id(s.filter(|m: MetaModel| m.id != x), id) == (if id == x {
            0int
        } else {
            count_id(s, id)
        }),
    decreases s.len(),
{
    reveal(Seq::filter);
    let pred = |m: MetaModel| m.id != x;
    if s.len() == 0 {
    } else {
        lemma_filter_count_id(s.drop_last(), x, id);
        crate::order::lemma_count_id_drop_last(s, id);
        if pred(s.last()) {
            lemma_count_id_push(s.drop_last().filter(pred), s.last(), id);
        }
    }
}

pub proof fn lemma_filter_dir_count(d: Seq<DirModel>, x: Seq<char>, id: Seq<char>)
    ensures
        dir_count(d.filter(|e: DirModel| e.id != x), id) == (if id == x {
            0int
        } else {
            dir_count(d, id)
        }),
    decreases d.len(),
{
    reveal(Seq::filter);
    let pred = |e: DirModel| e.id != x;
    if d.len() == 0 {
    } else {
        lemma_filter_dir_count(d.drop_last(), x, id);
        lemma_dir_count_drop_last(d, id);
        if pred(d.last()) {
            lemma_dir_count_push(d.drop_last().filter(pred), d.last(), id);
        }
    }
}

/// Removing one identifier's directory frees exactly its bytes.
pub proof fn lemma_dirs_total_remove(d: Seq<DirModel>, x: Seq<char>)
    ensures
        dirs_total(d.filter(|e: DirModel| e.id != x)) == dirs_total(d) - dir_size_of(d, x),
    decreases d.len(),
{
    reveal(Seq::filter);
    let pred = |e: DirModel| e.id != x;
    if d.len() == 0 {
    } else {
        lemma_dirs_total_remove(d.drop_last(), x);
        if pred(d.last()) {
            assert(d.drop_last().filter(pred).push(d.last()).drop_last() =~= d.drop_last().filter(
                pred,
            ));
        }
    }
}

/// Every record of a filtered sequence stands somewhere in the original.
pub proof fn lemma_filter_sub<A>(s: Seq<A>, pred: spec_fn(A) -> bool)
    ensures
        forall|i: int|
            0 <= i < s.filter(pred).len() ==> s.contains(#[trigger] s.filter(pred)[i]),
    decreases s.len(),
{
    reveal(Seq::filter);
    if s.len() > 0 {
        lemma_filter_sub(s.drop_last(), pred);
        assert forall|i: int|
            0 <= i < s.filter(pred).len() implies s.contains(#[trigger] s.filter(pred)[i]) by {
            let f = s.filter(pred);
            let fd = s.drop_last().filter(pred);
            if pred(s.last()) {
                if i < f.len() - 1 {
                    assert(f[i] == fd[i]);
                    assert(s.drop_last().contains(fd[i]));
                    let w = choose|w: int|
                        0 <= w < s.drop_last().len() && s.drop_last()[w] == fd[i];
                    assert(s[w] == f[i]);
                } else {
                    assert(f[i] == s.last());
                    assert(s[s.len() - 1] == s.last());
                }
            } else {
                assert(f[i] == fd[i]);
                assert(s.drop_last().contains(fd[i]));
                let w = choose|w: int| 0 <= w < s.drop_last().len() && s.drop_last()[w] == fd[i];
                assert(s[w] == f[i]);
            }
        }
    }
}

/// Two filters in a row act as one filter by the conjunction.
pub proof fn lemma_filter_filter<A>(s: Seq<A>, p: spec_fn(A) -> bool, q: spec_fn(A) -> bool)
    ensures
        s.filter(p).filter(q) =~= s.filter(|a: A| p(a) && q(a)),
    decreases s.len(),
{
    reveal(Seq::filter);
    if s.len() > 0 {
        lemma_filter_filter(s.drop_last(), p, q);
        if p(s.last()) {
            assert(s.drop_last().filter(p).push(s.last()).drop_last() =~= s.drop_last().filter(p));
        }
    }
}

/// Filters by pointwise-equal predicates agree.
pub proof fn lemma_filter_congruent<A>(s: Seq<A>, p: spec_fn(A) -> bool, q: spec_fn(A) -> bool)
    requires
        forall|a: A| #[trigger] p(a) == #[trigger] q(a),
    ensures
        s.filter(p) =~= s.filter(q),
    decreases s.len(),
{
    reveal(Seq::filter);
    if s.len() > 0 {
        lemma_filter_congruent(s.drop_last(), p, q);
    }
}

/// Filtering by a predicate that holds everywhere changes nothing.
pub proof fn lemma_filter_all<A>(s: Seq<A>, p: spec_fn(A) -> bool)
    requires
        forall|a: A| #[trigger] p(a),
    ensures
        s.filter(p) =~= s,
    decreases s.len(),
{
    reveal(Seq::filter);
    if s.len() > 0 {
        lemma_filter_all(s.drop_last(), p);
    }
}

proof fn lemma_push_contains(s: Seq<Seq<char>>, x: Seq<char>, y: Seq<char>)
    ensures
        s.push(x).contains(y) <==> (s.contains(y) || y == x),
{
    if s.push(x).contains(y) {
        let w = choose|w: int| 0 <= w < s.push(x).len() && s.push(x)[w] == y;
        if w < s.len() {
            assert(s[w] == y);
        }
    }
    if s.contains(y) {
        let w = choose|w: int| 0 <= w < s.len() && s[w] == y;
        assert(s.push(x)[w] == y);
    }
    if y == x {
        assert(s.push(x)[s.len() as int] == x);
    }
}

/// Deleting the items of `removed` and then one more is the same as deleting
/// all of them at once.
pub proof fn lemma_remaining_step(model: StoreModel, removed: Seq<Seq<char>>, x: Seq<char>)
    ensures
        spec_remaining(model, removed.push(x)) == spec_delete(spec_remaining(model, removed), x),
{
    let p1 = |m: MetaModel| !removed.contains(m.id);
    let q1 = |m: MetaModel| m.id != x;
    let r1 = |m: MetaModel| !removed.push(x).contains(m.id);
    assert forall|m: MetaModel| #[trigger] r1(m) == (p1(m) && q1(m)) by {
        lemma_push_contains(removed, x, m.id);
    }
    lemma_filter_filter(model.index, p1, q1);
    lemma_filter_congruent(model.index, r1, |m: MetaModel| p1(m) && q1(m));
    let p2 = |e: DirModel| !removed.contains(e.id);
    let q2 = |e: DirModel| e.id != x;
    let r2 = |e: DirModel| !removed.push(x).contains(e.id);
    assert forall|e: DirModel| #[trigger] r2(e) == (p2(e) && q2(e)) by {
        lemma_push_contains(removed, x, e.id);
    }
    lemma_filter_filter(model.dirs, p2, q2);
    lemma_filter_congruent(model.dirs, r2, |e: DirModel| p2(e) && q2(e));
    assert(spec_remaining(model, removed.push(x)) =~= spec_delete(
        spec_remaining(model, removed),
        x,
    ));
}

/// Deleting nothing leaves the store as it is.
pub proof fn lemma_remaining_empty(model: StoreModel)
    ensures
        spec_remaining(model, Seq::<Seq<char>>::empty()) == model,
{
    let removed = Seq::<Seq<char>>::empty();
    lemma_filter_all(model.index, |m: MetaModel| !removed.contains(m.id));
    lemma_filter_all(model.dirs, |e: DirModel| !removed.contains(e.id));
    assert(spec_remaining(model, removed) =~= model);
}

// ---------------------------------------------------------------------------
// Lemmas about sizes
// ---------------------------------------------------------------------------

pub proof fn lemma_dirs_total_nonneg(d: Seq<DirModel>)
    requires
        dirs_nonneg(d),
    ensures
        dirs_total(d) >= 0,
    decreases d.len(),
{
    if d.len() > 0 {
        assert(dirs_nonneg(d.drop_last())) by {
            assert(forall|i: int| 0 <= i < d.len() - 1 ==> d.drop_last()[i] == d[i]);
        }
        lemma_dirs_total_nonneg(d.drop_last());
        assert(d.last() == d[d.len() - 1]);
    }
}

/// The bytes of one identifier are part of the total.
pub proof fn lemma_dir_size_le_total(d: Seq<DirModel>, id: Seq<char>)
    requires
        dirs_nonneg(d),
    ensures
        0 <= dir_size_of(d, id) <= dirs_total(d),
    decreases d.len(),
{
    if d.len() > 0 {
        assert(dirs_nonneg(d.drop_last())) by {
            assert(forall|i: int| 0 <= i < d.len() - 1 ==> d.drop_last()[i] == d[i]);
        }
        lemma_dir_size_le_total(d.drop_last(), id);
        assert(d.last() == d[d.len() - 1]);
    }
}

pub proof fn lemma_dirs_total_take_step(d: Seq<DirModel>, i: int)
    requires
        0 <= i < d.len(),
    ensures
        dirs_total(d.take(i + 1)) == dirs_total(d.take(i)) + d[i].size_bytes,
{
    assert(d.take(i + 1).drop_last() =~= d.take(i));
    assert(d.take(i + 1).last() == d[i]);
}

/// Partial sums never exceed the full total.
pub proof fn lemma_dirs_total_take_le(d: Seq<DirModel>, i: int)
    requires
        dirs_nonneg(d),
        0 <= i <= d.len(),
    ensures
        dirs_total(d.take(i)) <= dirs_total(d),
    decreases d.len() - i,
{
    if i == d.len() {
        assert(d.take(i) =~= d);
    } else {
        lemma_dirs_total_take_step(d, i);
        lemma_dirs_total_take_le(d, i + 1);
    }
}

/// Deleting an identifier preserves the store's invariant and never grows the
/// disk.
pub proof fn lemma_delete_wf(model: StoreModel, id: Seq<char>)
    requires
        model.wf(),
    ensures
        spec_delete(model, id).wf(),
        dirs_total(spec_delete(model, id).dirs) == dirs_total(model.dirs) - dir_size_of(
            model.dirs,
            id,
        ),
{
    let after = spec_delete(model, id);
    assert forall|i: Seq<char>| #[trigger] count_id(after.index, i) <= 1 by {
        lemma_filter_count_id(model.index, id, i);
        lemma_count_id_nonneg(model.index, i);
    }
    assert forall|i: Seq<char>| #[trigger] dir_count(after.dirs, i) <= 1 by {
        lemma_filter_dir_count(model.dirs, id, i);
        lemma_dir_count_nonneg(model.dirs, i);
    }
    assert forall|i: Seq<char>|
        count_id(after.index, i) > 0 <==> #[trigger] dir_count(after.dirs, i) > 0 by {
        lemma_filter_count_id(model.index, id, i);
        lemma_filter_dir_count(model.dirs, id, i);
    }
    assert(dirs_nonneg(after.dirs)) by {
        lemma_filter_sub(model.dirs, |e: DirModel| e.id != id);
        assert forall|i: int| 0 <= i < after.dirs.len() implies (#[trigger] after.dirs[i]).size_bytes
            >= 0 by {
            assert(model.dirs.contains(after.dirs[i]));
            let w = choose|w: int| 0 <= w < model.dirs.len() && model.dirs[w] == after.dirs[i];
            assert(model.dirs[w].size_bytes >= 0);
        }
    }
    lemma_dirs_total_remove(model.dirs, id);
    lemma_dir_size_le_total(model.dirs, id);
    lemma_dirs_total_nonneg(after.dirs);
}

/// Saving preserves the store's invariant, and the disk afterwards holds the
/// old bytes minus the replaced directory plus the new one.
pub proof fn lemma_save_wf(model: StoreModel, m: MetaModel)
    requires
        model.wf(),
        0 <= m.size_bytes,
        dirs_total(model.dirs) + m.size_bytes <= u64::MAX,
    ensures
        spec_save(model, m).wf(),
        dirs_total(spec_save(model, m).dirs) == dirs_total(model.dirs) - dir_size_of(
            model.dirs,
            m.id,
        ) + m.size_bytes,
{
    let after = spec_save(model, m);
    let kept = model.dirs.filter(|e: DirModel| e.id != m.id);
    let entry = DirModel { id: m.id, size_bytes: m.size_bytes };
    lemma_upsert_counts(model.index, m);
    assert forall|i: Seq<char>| #[trigger] count_id(after.index, i) <= 1 by {
        lemma_count_id_nonneg(model.index, i);
    }
    assert forall|i: Seq<char>| #[trigger] dir_count(after.dirs, i) <= 1 by {
        lemma_filter_dir_count(model.dirs, m.id, i);
        lemma_dir_count_push(kept, entry, i);
        lemma_dir_count_nonneg(model.dirs, i);
    }
    assert forall|i: Seq<char>|
        count_id(after.index, i) > 0 <==> #[trigger] dir_count(after.dirs, i) > 0 by {
        lemma_filter_dir_count(model.dirs, m.id, i);
        lemma_dir_count_push(kept, entry, i);
        lemma_count_id_nonneg(model.index, i);
        lemma_dir_count_nonneg(model.dirs, i);
    }
    assert(dirs_nonneg(after.dirs)) by {
        lemma_filter_sub(model.dirs, |e: DirModel| e.id != m.id);
        assert forall|i: int|
            0 <= i < after.dirs.len() implies (#[trigger] after.dirs[i]).size_bytes >= 0 by {
            if i < kept.len() {
                assert(after.dirs[i] == kept[i]);
                assert(model.dirs.contains(kept[i]));
                let w = choose|w: int| 0 <= w < model.dirs.len() && model.dirs[w] == kept[i];
                assert(model.dirs[w].size_bytes >= 0);
            } else {
                assert(after.dirs[i] == entry);
            }
        }
    }
    lemma_dirs_total_remove(model.dirs, m.id);
    assert(after.dirs.drop_last() =~= kept);
    lemma_dir_size_le_total(model.dirs, m.id);
}

/// Upserting a record: the count of its identifier becomes at least one and
/// at most what it was plus one; every other count is unchanged.
proof fn lemma_upsert_counts(s: Seq<MetaModel>, m: MetaModel)
    requires
        forall|id: Seq<char>| #[trigger] count_id(s, id) <= 1,
    ensures
        forall|id: Seq<char>|
            id != m.id ==> #[trigger] count_id(spec_upsert(s, m), id) == count_id(s, id),
        count_id(spec_upsert(s, m), m.id) == 1,
    decreases s.len(),
{
    let r = spec_upsert(s, m);
    if s.len() == 0 {
        assert forall|id: Seq<char>|
            id != m.id implies #[trigger] count_id(r, id) == count_id(s, id) by {
            assert(r[0] == m);
            assert(count_id(r.drop_first(), id) == 0);
        }
        assert(r[0] == m);
        assert(count_id(r.drop_first(), m.id) == 0);
    } else if s[0].id == m.id {
        assert(r.drop_first() =~= s.drop_first());
        assert(r[0] == m);
        assert forall|id: Seq<char>|
            id != m.id implies #[trigger] count_id(r, id) == count_id(s, id) by {
            assert(count_id(r, id) == count_id(s.drop_first(), id));
        }
        assert(count_id(s, m.id) <= 1);
        lemma_count_id_nonneg(s.drop_first(), m.id);
        assert(count_id(s.drop_first(), m.id) == 0);
        assert(count_id(r, m.id) == 1 + count_id(s.drop_first(), m.id));
    } else {
        assert forall|id: Seq<char>| #[trigger] count_id(s.drop_first(), id) <= 1 by {
            assert(count_id(s, id) <= 1);
            assert(count_id(s, id) == (if s[0].id == id { 1int } else { 0int }) + count_id(
                s.drop_first(),
                id,
            ));
        }
        lemma_upsert_counts(s.drop_first(), m);
        assert(r.drop_first() =~= spec_upsert(s.drop_first(), m));
        assert(r[0] == s[0]);
        assert forall|id: Seq<char>|
            id != m.id implies #[trigger] count_id(r, id) == count_id(s, id) by {
            assert(count_id(r, id) == (if r[0].id == id { 1int } else { 0int }) + count_id(
                r.drop_first(),
                id,
            ));
        }
        assert(count_id(r, m.id) == (if r[0].id == m.id { 1int } else { 0int }) + count_id(
            r.drop_first(),
            m.id,
        ));
    }
}

/// When the identifier occurs first at position `i`, upserting updates that
/// position.
pub proof fn lemma_upsert_at(s: Seq<MetaModel>, m: MetaModel, i: int)
    requires
        0 <= i < s.len(),
        s[i].id == m.id,
        forall|j: int| 0 <= j < i ==> (#[trigger] s[j]).id != m.id,
    ensures
        spec_upsert(s, m) =~= s.update(i, m),
    decreases i,
{
    if i == 0 {
        assert(seq![m] + s.drop_first() =~= s.update(0, m));
    } else {
        assert(s[0].id != m.id);
        lemma_upsert_at(s.drop_first(), m, i - 1);
        assert(seq![s[0]] + s.drop_first().update(i - 1, m) =~= s.update(i, m));
    }
}

/// When the identifier does not occur, upserting appends.
pub proof fn lemma_upsert_absent(s: Seq<MetaModel>, m: MetaModel)
    requires
        forall|j: int| 0 <= j < s.len() ==> (#[trigger] s[j]).id != m.id,
    ensures
        spec_upsert(s, m) =~= s.push(m),
    decreases s.len(),
{
    if s.len() == 0 {
        assert(seq![m] =~= s.push(m));
    } else {
        lemma_upsert_absent(s.drop_first(), m);
        assert(seq![s[0]] + s.drop_first().push(m) =~= s.push(m));
    }
}

/// The store after its `k` oldest items (stably sorted by creation time)
/// have been evicted.
pub open spec fn after_evicting(model: StoreModel, k: int) -> StoreModel {
    spec_remaining(model, crate::order::ids_of(crate::order::spec_sort_asc(model.index).take(k)))
}

/// What budget enforcement returns: it evicted the shortest prefix of the
/// catalog, oldest first, that brings disk usage within the budget — every
/// shorter prefix leaves usage above it.
pub open spec fn is_enforce_result(model: StoreModel, k: int) -> bool {
    &&& 0 <= k <= model.index.len()
    &&& dirs_total(after_evicting(model, k).dirs) <= model.budget
    &&& forall|j: int|
        0 <= j < k ==> dirs_total(#[trigger] after_evicting(model, j).dirs) > model.budget
}

/// Evicting preserves the store's invariant.
pub proof fn lemma_after_evicting_wf(model: StoreModel, j: int)
    requires
        model.wf(),
        0 <= j <= model.index.len(),
    ensures
        after_evicting(model, j).wf(),
    decreases j,
{
    let sorted = crate::order::spec_sort_asc(model.index);
    crate::order::lemma_sort_asc_len(model.index);
    if j == 0 {
        assert(crate::order::ids_of(sorted.take(0)) =~= Seq::<Seq<char>>::empty());
        lemma_remaining_empty(model);
    } else {
        lemma_after_evicting_wf(model, j - 1);
        assert(crate::order::ids_of(sorted.take(j)) =~= crate::order::ids_of(
            sorted.take(j - 1),
        ).push(sorted[j - 1].id));
        lemma_remaining_step(model, crate::order::ids_of(sorted.take(j - 1)), sorted[j - 1].id);
        lemma_delete_wf(after_evicting(model, j - 1), sorted[j - 1].id);
    }
}

/// Evicting one more item never increases usage.
pub proof fn lemma_after_evicting_monotone(model: StoreModel, j: int)
    requires
        model.wf(),
        0 <= j < model.index.len(),
    ensures
        dirs_total(after_evicting(model, j + 1).dirs) <= dirs_total(after_evicting(model, j).dirs),
{
    let sorted = crate::order::spec_sort_asc(model.index);
    crate::order::lemma_sort_asc_len(model.index);
    lemma_after_evicting_wf(model, j);
    assert(crate::order::ids_of(sorted.take(j + 1)) =~= crate::order::ids_of(sorted.take(j)).push(
        sorted[j].id,
    ));
    lemma_remaining_step(model, crate::order::ids_of(sorted.take(j)), sorted[j].id);
    lemma_delete_wf(after_evicting(model, j), sorted[j].id);
    lemma_dir_size_le_total(after_evicting(model, j).dirs, sorted[j].id);
}

/// Two distinct positions sharing an identifier put its count at two or
/// more.
pub proof fn lemma_count_id_two(s: Seq<MetaModel>, i: int, j: int)
    requires
        0 <= i < j < s.len(),
        s[i].id == s[j].id,
    ensures
        count_id(s, s[i].id) >= 2,
    decreases i,
{
    if i == 0 {
        lemma_count_id_at(s.drop_first(), j - 1);
    } else {
        lemma_count_id_two(s.drop_first(), i - 1, j - 1);
    }
}

pub proof fn lemma_dir_count_two(d: Seq<DirModel>, i: int, j: int)
    requires
        0 <= i < j < d.len(),
        d[i].id == d[j].id,
    ensures
        dir_count(d, d[i].id) >= 2,
    decreases i,
{
    if i == 0 {
        lemma_dir_count_at(d.drop_first(), j - 1);
    } else {
        lemma_dir_count_two(d.drop_first(), i - 1, j - 1);
    }
}

/// When no directory carries the identifier, the count is zero.
pub proof fn lemma_dir_count_zero(d: Seq<DirModel>, id: Seq<char>)
    requires
        forall|j: int| 0 <= j < d.len() ==> (#[trigger] d[j]).id != id,
    ensures
        dir_count(d, id) == 0,
    decreases d.len(),
{
    if d.len() > 0 {
        lemma_dir_count_zero(d.drop_first(), id);
    }
}

/// A positive count names a position.
pub proof fn lemma_dir_count_pos(d: Seq<DirModel>, id: Seq<char>)
    requires
        dir_count(d, id) > 0,
    ensures
        exists|j: int| 0 <= j < d.len() && (#[trigger] d[j]).id == id,
    decreases d.len(),
{
    if d.len() > 0 {
        if d[0].id == id {
            assert(d[0].id == id);
        } else {
            lemma_dir_count_pos(d.drop_first(), id);
            let w = choose|w: int| 0 <= w < d.drop_first().len() && (#[trigger] d.drop_first()[w]).id
                == id;
            assert(d[w + 1].id == id);
        }
    }
}

/// Pairwise-distinct identifiers mean every count is at most one.
pub proof fn lemma_unique_ids_count(s: Seq<MetaModel>)
    requires
        forall|i: int, j: int| 0 <= i < j < s.len() ==> (#[trigger] s[i]).id != (#[trigger] s[j]).id,
    ensures
        forall|id: Seq<char>| #[trigger] count_id(s, id) <= 1,
    decreases s.len(),
{
    if s.len() == 0 {
        assert forall|id: Seq<char>| #[trigger] count_id(s, id) <= 1 by {
            assert(count_id(s, id) == 0);
        }
    } else {
        assert forall|i: int, j: int|
            0 <= i < j < s.drop_first().len() implies (#[trigger] s.drop_first()[i]).id != (
        #[trigger] s.drop_first()[j]).id by {
            assert(s[i + 1].id != s[j + 1].id);
        }
        lemma_unique_ids_count(s.drop_first());
        assert forall|id: Seq<char>| #[trigger] count_id(s, id) <= 1 by {
            if s[0].id == id {
                assert forall|j: int|
                    0 <= j < s.drop_first().len() implies (#[trigger] s.drop_first()[j]).id
                    != id by {
                    assert(s[0].id != s[j + 1].id);
                }
                lemma_count_id_zero(s.drop_first(), id);
            } else {
                assert(count_id(s, id) == count_id(s.drop_first(), id));
            }
        }
    }
}

pub proof fn lemma_unique_dirs_count(d: Seq<DirModel>)
    requires
        forall|i: int, j: int| 0 <= i < j < d.len() ==> (#[trigger] d[i]).id != (#[trigger] d[j]).id,
    ensures
        forall|id: Seq<char>| #[trigger] dir_count(d, id) <= 1,
    decreases d.len(),
{
    if d.len() == 0 {
        assert forall|id: Seq<char>| #[trigger] dir_count(d, id) <= 1 by {
            assert(dir_count(d, id) == 0);
        }
    } else {
        assert forall|i: int, j: int|
            0 <= i < j < d.drop_first().len() implies (#[trigger] d.drop_first()[i]).id != (
        #[trigger] d.drop_first()[j]).id by {
            assert(d[i + 1].id != d[j + 1].id);
        }
        lemma_unique_dirs_count(d.drop_first());
        assert forall|id: Seq<char>| #[trigger] dir_count(d, id) <= 1 by {
            if d[0].id == id {
                assert forall|j: int|
                    0 <= j < d.drop_first().len() implies (#[trigger] d.drop_first()[j]).id
                    != id by {
                    assert(d[0].id != d[j + 1].id);
                }
                lemma_dir_count_zero(d.drop_first(), id);
            } else {
                assert(dir_count(d, id) == dir_count(d.drop_first(), id));
            }
        }
    }
}

} // verus!
