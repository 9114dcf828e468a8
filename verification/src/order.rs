//! Stable sorting of catalog records by their `created_at` timestamp.
//!
//! The specification-level sort is an insertion sort, which is stable by
//! construction: records whose timestamps compare equal keep the relative
//! order they had in the catalog. The executable sorts are proved to return
//! exactly the specification-level result.

use vstd::prelude::*;
use crate::meta::MetaModel;
use crate::meta::ScreenshotMeta;
use crate::text::lex_le;
use crate::text::lemma_lex_le_refl;
use crate::text::lemma_lex_le_total;
use crate::text::lemma_lex_le_trans;
use crate::text::str_lex_le;

verus! {

/// The catalog records of a vector of records, as mathematical values.
pub open spec fn models_of(v: Seq<ScreenshotMeta>) -> Seq<MetaModel> {
    v.map_values(|m: ScreenshotMeta| m@)
}

/// `a` was created no later than `b`.
pub open spec fn le_created(a: MetaModel, b: MetaModel) -> bool {
    lex_le(a.created_at, b.created_at)
}

/// Non-decreasing by creation time.
pub open spec fn sorted_asc(s: Seq<MetaModel>) -> bool {
    forall|i: int, j: int| 0 <= i < j < s.len() ==> le_created(#[trigger] s[i], #[trigger] s[j])
}

/// Non-increasing by creation time: most recent first.
pub open spec fn sorted_desc(s: Seq<MetaModel>) -> bool {
    forall|i: int, j: int| 0 <= i < j < s.len() ==> le_created(#[trigger] s[j], #[trigger] s[i])
}

/// Insert `m` after every record created no later than it.
pub open spec fn spec_insert_asc(sorted: Seq<MetaModel>, m: MetaModel) -> Seq<MetaModel>
    decreases sorted.len(),
{
    if sorted.len() == 0 {
        seq![m]
    } else if le_created(sorted[0], m) {
        seq![sorted[0]] + spec_insert_asc(sorted.drop_first(), m)
    } else {
        seq![m] + sorted
    }
}

/// Stable sort, oldest first: the order used to pick eviction victims.
pub open spec fn spec_sort_asc(s: Seq<MetaModel>) -> Seq<MetaModel>
    decreases s.len(),
{
    if s.len() == 0 {
        s
    } else {
        spec_insert_asc(spec_sort_asc(s.drop_last()), s.last())
    }
}

/// Insert `m` after every record created no earlier than it.
pub open spec fn spec_insert_desc(sorted: Seq<MetaModel>, m: MetaModel) -> Seq<MetaModel>
    decreases sorted.len(),
{
    if sorted.len() == 0 {
        seq![m]
    } else if le_created(m, sorted[0]) {
        seq![sorted[0]] + spec_insert_desc(sorted.drop_first(), m)
    } else {
        seq![m] + sorted
    }
}

/// Stable sort, most recent first: the order in which listings are served.
pub open spec fn spec_sort_desc(s: Seq<MetaModel>) -> Seq<MetaModel>
    decreases s.len(),
{
    if s.len() == 0 {
        s
    } else {
        spec_insert_desc(spec_sort_desc(s.drop_last()), s.last())
    }
}

pub proof fn lemma_insert_asc_len(sorted: Seq<MetaModel>, m: MetaModel)
    ensures
        spec_insert_asc(sorted, m).len() == sorted.len() + 1,
    decreases sorted.len(),
{
    if sorted.len() > 0 && le_created(sorted[0], m) {
        lemma_insert_asc_len(sorted.drop_first(), m);
    }
}

pub proof fn lemma_sort_asc_len(s: Seq<MetaModel>)
    ensures
        spec_sort_asc(s).len() == s.len(),
    decreases s.len(),
{
    if s.len() > 0 {
        lemma_sort_asc_len(s.drop_last());
        lemma_insert_asc_len(spec_sort_asc(s.drop_last()), s.last());
    }
}

pub proof fn lemma_insert_desc_len(sorted: Seq<MetaModel>, m: MetaModel)
    ensures
        spec_insert_desc(sorted, m).len() == sorted.len() + 1,
    decreases sorted.len(),
{
    if sorted.len() > 0 && le_created(m, sorted[0]) {
        lemma_insert_desc_len(sorted.drop_first(), m);
    }
}

pub proof fn lemma_sort_desc_len(s: Seq<MetaModel>)
    ensures
        spec_sort_desc(s).len() == s.len(),
    decreases s.len(),
{
    if s.len() > 0 {
        lemma_sort_desc_len(s.drop_last());
        lemma_insert_desc_len(spec_sort_desc(s.drop_last()), s.last());
    }
}

/// Every record of the inserted sequence is the new record or one of the old.
proof fn lemma_insert_asc_elems(sorted: Seq<MetaModel>, m: MetaModel)
    ensures
        forall|i: int|
            0 <= i < spec_insert_asc(sorted, m).len() ==> #[trigger] spec_insert_asc(sorted, m)[i]
                == m || sorted.contains(spec_insert_asc(sorted, m)[i]),
    decreases sorted.len(),
{
    if sorted.len() > 0 && le_created(sorted[0], m) {
        lemma_insert_asc_elems(sorted.drop_first(), m);
        assert forall|i: int| 0 <= i < spec_insert_asc(sorted, m).len() implies #[trigger]
            spec_insert_asc(sorted, m)[i] == m || sorted.contains(spec_insert_asc(sorted, m)[i]) by {
            if i == 0 {
                assert(sorted[0] == sorted[0]);
            } else {
                let tail = spec_insert_asc(sorted.drop_first(), m);
                assert(spec_insert_asc(sorted, m)[i] == tail[i - 1]);
                if tail[i - 1] != m {
                    let w = choose|w: int| 0 <= w < sorted.drop_first().len()
                        && sorted.drop_first()[w] == tail[i - 1];
                    assert(sorted[w + 1] == tail[i - 1]);
                }
            }
        }
    }
}

proof fn lemma_insert_desc_elems(sorted: Seq<MetaModel>, m: MetaModel)
    ensures
        forall|i: int|
            0 <= i < spec_insert_desc(sorted, m).len() ==> #[trigger] spec_insert_desc(sorted, m)[i]
                == m || sorted.contains(spec_insert_desc(sorted, m)[i]),
    decreases sorted.len(),
{
    if sorted.len() > 0 && le_created(m, sorted[0]) {
        lemma_insert_desc_elems(sorted.drop_first(), m);
        assert forall|i: int| 0 <= i < spec_insert_desc(sorted, m).len() implies #[trigger]
            spec_insert_desc(sorted, m)[i] == m || sorted.contains(spec_insert_desc(sorted, m)[i])
            by {
            if i == 0 {
                assert(sorted[0] == sorted[0]);
            } else {
                let tail = spec_insert_desc(sorted.drop_first(), m);
                assert(spec_insert_desc(sorted, m)[i] == tail[i - 1]);
                if tail[i - 1] != m {
                    let w = choose|w: int| 0 <= w < sorted.drop_first().len()
                        && sorted.drop_first()[w] == tail[i - 1];
                    assert(sorted[w + 1] == tail[i - 1]);
                }
            }
        }
    }
}

pub proof fn lemma_insert_asc_sorted(sorted: Seq<MetaModel>, m: MetaModel)
    requires
        sorted_asc(sorted),
    ensures
        sorted_asc(spec_insert_asc(sorted, m)),
    decreases sorted.len(),
{
    let r = spec_insert_asc(sorted, m);
    if sorted.len() == 0 {
    } else if le_created(sorted[0], m) {
        lemma_insert_asc_sorted(sorted.drop_first(), m);
        lemma_insert_asc_elems(sorted.drop_first(), m);
        let tail = spec_insert_asc(sorted.drop_first(), m);
        assert forall|i: int, j: int| 0 <= i < j < r.len() implies le_created(
            #[trigger] r[i],
            #[trigger] r[j],
        ) by {
            if i == 0 {
                assert(r[j] == tail[j - 1]);
                if tail[j - 1] == m {
                } else {
                    let w = choose|w: int| 0 <= w < sorted.drop_first().len()
                        && sorted.drop_first()[w] == tail[j - 1];
                    assert(sorted[w + 1] == tail[j - 1]);
                    assert(le_created(sorted[0], sorted[w + 1]));
                }
            } else {
                assert(r[i] == tail[i - 1]);
                assert(r[j] == tail[j - 1]);
            }
        }
    } else {
        lemma_lex_le_total(sorted[0].created_at, m.created_at);
        assert forall|i: int, j: int| 0 <= i < j < r.len() implies le_created(
            #[trigger] r[i],
            #[trigger] r[j],
        ) by {
            if i == 0 {
                assert(r[j] == sorted[j - 1]);
                if j - 1 > 0 {
                    assert(le_created(sorted[0], sorted[j - 1]));
                } else {
                    lemma_lex_le_refl(sorted[0].created_at);
                }
                lemma_lex_le_trans(m.created_at, sorted[0].created_at, sorted[j - 1].created_at);
            } else {
                assert(r[i] == sorted[i - 1]);
                assert(r[j] == sorted[j - 1]);
            }
        }
    }
}

pub proof fn lemma_sort_asc_sorted(s: Seq<MetaModel>)
    ensures
        sorted_asc(spec_sort_asc(s)),
    decreases s.len(),
{
    if s.len() > 0 {
        lemma_sort_asc_sorted(s.drop_last());
        lemma_insert_asc_sorted(spec_sort_asc(s.drop_last()), s.last());
    }
}

pub proof fn lemma_insert_desc_sorted(sorted: Seq<MetaModel>, m: MetaModel)
    requires
        sorted_desc(sorted),
    ensures
        sorted_desc(spec_insert_desc(sorted, m)),
    decreases sorted.len(),
{
    let r = spec_insert_desc(sorted, m);
    if sorted.len() == 0 {
    } else if le_created(m, sorted[0]) {
        lemma_insert_desc_sorted(sorted.drop_first(), m);
        lemma_insert_desc_elems(sorted.drop_first(), m);
        let tail = spec_insert_desc(sorted.drop_first(), m);
        assert forall|i: int, j: int| 0 <= i < j < r.len() implies le_created(
            #[trigger] r[j],
            #[trigger] r[i],
        ) by {
            if i == 0 {
                assert(r[j] == tail[j - 1]);
                if tail[j - 1] == m {
                } else {
                    let w = choose|w: int| 0 <= w < sorted.drop_first().len()
                        && sorted.drop_first()[w] == tail[j - 1];
                    assert(sorted[w + 1] == tail[j - 1]);
                    assert(le_created(sorted[w + 1], sorted[0]));
                }
            } else {
                assert(r[i] == tail[i - 1]);
                assert(r[j] == tail[j - 1]);
            }
        }
    } else {
        lemma_lex_le_total(m.created_at, sorted[0].created_at);
        assert forall|i: int, j: int| 0 <= i < j < r.len() implies le_created(
            #[trigger] r[j],
            #[trigger] r[i],
        ) by {
            if i == 0 {
                assert(r[j] == sorted[j - 1]);
                if j - 1 > 0 {
                    assert(le_created(sorted[j - 1], sorted[0]));
                } else {
                    lemma_lex_le_refl(sorted[0].created_at);
                }
                lemma_lex_le_trans(sorted[j - 1].created_at, sorted[0].created_at, m.created_at);
            } else {
                assert(r[i] == sorted[i - 1]);
                assert(r[j] == sorted[j - 1]);
            }
        }
    }
}

pub proof fn lemma_sort_desc_sorted(s: Seq<MetaModel>)
    ensures
        sorted_desc(spec_sort_desc(s)),
    decreases s.len(),
{
    if s.len() > 0 {
        lemma_sort_desc_sorted(s.drop_last());
        lemma_insert_desc_sorted(spec_sort_desc(s.drop_last()), s.last());
    }
}

/// How many records of `s` carry the identifier `id`.
pub open spec fn count_id(s: Seq<MetaModel>, id: Seq<char>) -> int
    decreases s.len(),
{
    if s.len() == 0 {
        0
    } else {
        (if s[0].id == id {
            1int
        } else {
            0int
        }) + count_id(s.drop_first(), id)
    }
}

pub proof fn lemma_count_id_drop_last(s: Seq<MetaModel>, id: Seq<char>)
    requires
        s.len() > 0,
    ensures
        count_id(s, id) == count_id(s.drop_last(), id) + (if s.last().id == id {
            1int
        } else {
            0int
        }),
    decreases s.len(),
{
    if s.len() == 1 {
        assert(s.last() == s[0]);
        assert(count_id(s.drop_first(), id) == 0);
        assert(count_id(s.drop_last(), id) == 0);
    } else {
        lemma_count_id_drop_last(s.drop_first(), id);
        assert(s.drop_first().drop_last() =~= s.drop_last().drop_first());
        assert(s.drop_first().last() == s.last());
        assert(s.drop_last()[0] == s[0]);
        assert(count_id(s.drop_last(), id) == (if s.drop_last()[0].id == id {
            1int
        } else {
            0int
        }) + count_id(s.drop_last().drop_first(), id));
    }
}

proof fn lemma_insert_asc_count(sorted: Seq<MetaModel>, m: MetaModel, id: Seq<char>)
    ensures
        count_id(spec_insert_asc(sorted, m), id) == count_id(sorted, id) + (if m.id == id {
            1int
        } else {
            0int
        }),
    decreases sorted.len(),
{
    if sorted.len() == 0 {
        let r = spec_insert_asc(sorted, m);
        assert(r[0] == m);
        assert(count_id(r.drop_first(), id) == 0);
        assert(count_id(r, id) == (if r[0].id == id {
            1int
        } else {
            0int
        }) + count_id(r.drop_first(), id));
    } else if le_created(sorted[0], m) {
        lemma_insert_asc_count(sorted.drop_first(), m, id);
        let r = spec_insert_asc(sorted, m);
        assert(r[0] == sorted[0]);
        assert(r.drop_first() =~= spec_insert_asc(sorted.drop_first(), m));
        assert(count_id(r, id) == (if r[0].id == id {
            1int
        } else {
            0int
        }) + count_id(r.drop_first(), id));
    } else {
        let r = spec_insert_asc(sorted, m);
        assert(r[0] == m);
        assert(r.drop_first() =~= sorted);
        assert(count_id(r, id) == (if r[0].id == id {
            1int
        } else {
            0int
        }) + count_id(r.drop_first(), id));
    }
}

pub proof fn lemma_sort_asc_count(s: Seq<MetaModel>, id: Seq<char>)
    ensures
        count_id(spec_sort_asc(s), id) == count_id(s, id),
    decreases s.len(),
{
    if s.len() > 0 {
        lemma_sort_asc_count(s.drop_last(), id);
        lemma_insert_asc_count(spec_sort_asc(s.drop_last()), s.last(), id);
        lemma_count_id_drop_last(s, id);
    }
}

/// The identifiers of a sequence of records, in order.
pub open spec fn ids_of(s: Seq<MetaModel>) -> Seq<Seq<char>> {
    s.map_values(|m: MetaModel| m.id)
}

/// An identifier occurs in a sequence of records exactly when its count is
/// positive.
pub proof fn lemma_count_id_pos(s: Seq<MetaModel>, id: Seq<char>)
    ensures
        count_id(s, id) > 0 <==> ids_of(s).contains(id),
        count_id(s, id) >= 0,
    decreases s.len(),
{
    if s.len() == 0 {
        assert(!ids_of(s).contains(id));
    } else {
        lemma_count_id_pos(s.drop_first(), id);
        assert(ids_of(s.drop_first()) =~= ids_of(s).drop_first());
        if s[0].id == id {
            assert(ids_of(s)[0] == id);
        } else {
            if ids_of(s).contains(id) {
                let w = choose|w: int| 0 <= w < ids_of(s).len() && ids_of(s)[w] == id;
                assert(ids_of(s).drop_first()[w - 1] == id);
            }
            if ids_of(s).drop_first().contains(id) {
                let w = choose|w: int|
                    0 <= w < ids_of(s).drop_first().len() && ids_of(s).drop_first()[w] == id;
                assert(ids_of(s)[w + 1] == id);
            }
        }
    }
}

/// `spec_insert_asc` inserts at the first position whose record was created
/// strictly later.
pub proof fn lemma_insert_asc_at(sorted: Seq<MetaModel>, m: MetaModel, p: int)
    requires
        0 <= p <= sorted.len(),
        forall|j: int| 0 <= j < p ==> le_created(#[trigger] sorted[j], m),
        p < sorted.len() ==> !le_created(sorted[p], m),
    ensures
        spec_insert_asc(sorted, m) =~= sorted.insert(p, m),
    decreases p,
{
    if p == 0 {
        if sorted.len() > 0 {
            assert(!le_created(sorted[0], m));
        }
    } else {
        assert(le_created(sorted[0], m));
        lemma_insert_asc_at(sorted.drop_first(), m, p - 1);
    }
}

proof fn lemma_insert_desc_at(sorted: Seq<MetaModel>, m: MetaModel, p: int)
    requires
        0 <= p <= sorted.len(),
        forall|j: int| 0 <= j < p ==> le_created(m, #[trigger] sorted[j]),
        p < sorted.len() ==> !le_created(m, sorted[p]),
    ensures
        spec_insert_desc(sorted, m) =~= sorted.insert(p, m),
    decreases p,
{
    if p == 0 {
        if sorted.len() > 0 {
            assert(!le_created(m, sorted[0]));
        }
    } else {
        assert(le_created(m, sorted[0]));
        lemma_insert_desc_at(sorted.drop_first(), m, p - 1);
    }
}

/// Sort records oldest first, stably, as the budget enforcer orders its
/// eviction candidates.
pub fn sort_metas_asc(v: &Vec<ScreenshotMeta>) -> (r: Vec<ScreenshotMeta>)
    ensures
        models_of(r@) == spec_sort_asc(models_of(v@)),
{
    let mut r: Vec<ScreenshotMeta> = Vec::new();
    let mut i: usize = 0;
    while i < v.len()
        invariant
            i <= v.len(),
            models_of(r@) == spec_sort_asc(models_of(v@.take(i as int))),
        decreases v.len() - i,
    {
        let m = v[i].clone();
        let mut p: usize = 0;
        while p < r.len() && str_lex_le(r[p].created_at.as_str(), m.created_at.as_str())
            invariant
                p <= r.len(),
                forall|j: int| 0 <= j < p ==> le_created(#[trigger] models_of(r@)[j], m@),
            decreases r.len() - p,
        {
            assert(models_of(r@)[p as int] == r@[p as int]@);
            p = p + 1;
        }
        proof {
            assert(p < r.len() ==> models_of(r@)[p as int] == r@[p as int]@);
            lemma_insert_asc_at(models_of(r@), m@, p as int);
        }
        let ghost old_r = r@;
        r.insert(p, m);
        proof {
            assert(models_of(r@) =~= models_of(old_r).insert(p as int, m@));
            assert(models_of(v@.take(i + 1)).drop_last() =~= models_of(v@.take(i as int)));
            assert(models_of(v@.take(i + 1)).last() == v@[i as int]@);
        }
        i = i + 1;
    }
    proof {
        assert(v@.take(v@.len() as int) =~= v@);
    }
    r
}

/// Sort records most recent first, stably, as listings are served.
pub fn sort_metas_desc(v: Vec<ScreenshotMeta>) -> (r: Vec<ScreenshotMeta>)
    ensures
        models_of(r@) == spec_sort_desc(models_of(v@)),
{
    let mut r: Vec<ScreenshotMeta> = Vec::new();
    let mut i: usize = 0;
    while i < v.len()
        invariant
            i <= v.len(),
            models_of(r@) == spec_sort_desc(models_of(v@.take(i as int))),
        decreases v.len() - i,
    {
        let m = v[i].clone();
        let mut p: usize = 0;
        while p < r.len() && str_lex_le(m.created_at.as_str(), r[p].created_at.as_str())
            invariant
                p <= r.len(),
                forall|j: int| 0 <= j < p ==> le_created(m@, #[trigger] models_of(r@)[j]),
            decreases r.len() - p,
        {
            assert(models_of(r@)[p as int] == r@[p as int]@);
            p = p + 1;
        }
        proof {
            assert(p < r.len() ==> models_of(r@)[p as int] == r@[p as int]@);
            lemma_insert_desc_at(models_of(r@), m@, p as int);
        }
        let ghost old_r = r@;
        r.insert(p, m);
        proof {
            assert(models_of(r@) =~= models_of(old_r).insert(p as int, m@));
            assert(models_of(v@.take(i + 1)).drop_last() =~= models_of(v@.take(i as int)));
            assert(models_of(v@.take(i + 1)).last() == v@[i as int]@);
        }
        i = i + 1;
    }
    proof {
        assert(v@.take(v@.len() as int) =~= v@);
    }
    r
}

/// Sorting an already ordered sequence leaves it unchanged.
pub proof fn lemma_sort_asc_of_sorted(s: Seq<MetaModel>)
    requires
        sorted_asc(s),
    ensures
        spec_sort_asc(s) == s,
    decreases s.len(),
{
    if s.len() > 0 {
        assert(sorted_asc(s.drop_last())) by {
            assert(forall|i: int| 0 <= i < s.len() - 1 ==> s.drop_last()[i] == s[i]);
        }
        lemma_sort_asc_of_sorted(s.drop_last());
        assert forall|j: int| 0 <= j < s.len() - 1 implies le_created(
            #[trigger] s.drop_last()[j],
            s.last(),
        ) by {
            assert(s.drop_last()[j] == s[j]);
            assert(le_created(s[j], s[s.len() - 1]));
        }
        lemma_insert_asc_at(s.drop_last(), s.last(), s.len() - 1);
        assert(s.drop_last().insert(s.len() - 1, s.last()) =~= s);
    }
}

/// Every record of the sorted sequence stands somewhere in the original.
pub proof fn lemma_sort_desc_elems(s: Seq<MetaModel>)
    ensures
        forall|i: int|
            0 <= i < spec_sort_desc(s).len() ==> s.contains(#[trigger] spec_sort_desc(s)[i]),
    decreases s.len(),
{
    if s.len() > 0 {
        lemma_sort_desc_elems(s.drop_last());
        lemma_insert_desc_elems(spec_sort_desc(s.drop_last()), s.last());
        let q = spec_sort_desc(s);
        let t = spec_sort_desc(s.drop_last());
        assert forall|i: int| 0 <= i < q.len() implies s.contains(#[trigger] q[i]) by {
            if q[i] == s.last() {
                assert(s[s.len() - 1] == s.last());
            } else {
                assert(t.contains(q[i]));
                let w = choose|w: int| 0 <= w < t.len() && t[w] == q[i];
                assert(s.drop_last().contains(t[w]));
                let w2 = choose|w2: int| 0 <= w2 < s.drop_last().len() && s.drop_last()[w2] == t[w];
                assert(s[w2] == q[i]);
            }
        }
    }
}

/// How many records of `s` were created at exactly `ts`.
pub open spec fn count_created(s: Seq<MetaModel>, ts: Seq<char>) -> int
    decreases s.len(),
{
    if s.len() == 0 {
        0
    } else {
        (if s[0].created_at == ts {
            1int
        } else {
            0int
        }) + count_created(s.drop_first(), ts)
    }
}

pub proof fn lemma_count_created_drop_last(s: Seq<MetaModel>, ts: Seq<char>)
    requires
        s.len() > 0,
    ensures
        count_created(s, ts) == count_created(s.drop_last(), ts) + (if s.last().created_at == ts {
            1int
        } else {
            0int
        }),
    decreases s.len(),
{
    if s.len() == 1 {
        assert(s.last() == s[0]);
        assert(count_created(s.drop_first(), ts) == 0);
        assert(count_created(s.drop_last(), ts) == 0);
    } else {
        lemma_count_created_drop_last(s.drop_first(), ts);
        assert(s.drop_first().drop_last() =~= s.drop_last().drop_first());
        assert(s.drop_first().last() == s.last());
        assert(s.drop_last()[0] == s[0]);
        assert(count_created(s.drop_last(), ts) == (if s.drop_last()[0].created_at == ts {
            1int
        } else {
            0int
        }) + count_created(s.drop_last().drop_first(), ts));
    }
}

proof fn lemma_count_created_push(s: Seq<MetaModel>, m: MetaModel, ts: Seq<char>)
    ensures
        count_created(s.push(m), ts) == count_created(s, ts) + (if m.created_at == ts {
            1int
        } else {
            0int
        }),
{
    lemma_count_created_drop_last(s.push(m), ts);
    assert(s.push(m).drop_last() =~= s);
}

proof fn lemma_insert_desc_count_created(sorted: Seq<MetaModel>, m: MetaModel, ts: Seq<char>)
    ensures
        count_created(spec_insert_desc(sorted, m), ts) == count_created(sorted, ts) + (
        if m.created_at == ts {
            1int
        } else {
            0int
        }),
    decreases sorted.len(),
{
    let r = spec_insert_desc(sorted, m);
    if sorted.len() == 0 {
        assert(r[0] == m);
        assert(count_created(r.drop_first(), ts) == 0);
        assert(count_created(r, ts) == (if r[0].created_at == ts {
            1int
        } else {
            0int
        }) + count_created(r.drop_first(), ts));
    } else if le_created(m, sorted[0]) {
        lemma_insert_desc_count_created(sorted.drop_first(), m, ts);
        assert(r[0] == sorted[0]);
        assert(r.drop_first() =~= spec_insert_desc(sorted.drop_first(), m));
        assert(count_created(r, ts) == (if r[0].created_at == ts {
            1int
        } else {
            0int
        }) + count_created(r.drop_first(), ts));
    } else {
        assert(r[0] == m);
        assert(r.drop_first() =~= sorted);
        assert(count_created(r, ts) == (if r[0].created_at == ts {
            1int
        } else {
            0int
        }) + count_created(r.drop_first(), ts));
    }
}

pub proof fn lemma_sort_desc_count_created(s: Seq<MetaModel>, ts: Seq<char>)
    ensures
        count_created(spec_sort_desc(s), ts) == count_created(s, ts),
    decreases s.len(),
{
    if s.len() > 0 {
        lemma_sort_desc_count_created(s.drop_last(), ts);
        lemma_insert_desc_count_created(spec_sort_desc(s.drop_last()), s.last(), ts);
        lemma_count_created_drop_last(s, ts);
    }
}

/// Filtering never increases how many records share a creation time.
pub proof fn lemma_filter_count_created_le(
    s: Seq<MetaModel>,
    pred: spec_fn(MetaModel) -> bool,
    ts: Seq<char>,
)
    ensures
        count_created(s.filter(pred), ts) <= count_created(s, ts),
    decreases s.len(),
{
    reveal(Seq::filter);
    if s.len() > 0 {
        lemma_filter_count_created_le(s.drop_last(), pred, ts);
        lemma_count_created_drop_last(s, ts);
        if pred(s.last()) {
            lemma_count_created_push(s.drop_last().filter(pred), s.last(), ts);
        }
    }
}

/// Two distinct positions sharing a creation time put its count at two or
/// more.
pub proof fn lemma_count_created_two(s: Seq<MetaModel>, i: int, j: int)
    requires
        0 <= i < j < s.len(),
        s[i].created_at == s[j].created_at,
    ensures
        count_created(s, s[i].created_at) >= 2,
    decreases i,
{
    if i == 0 {
        lemma_count_created_at(s.drop_first(), j - 1);
        lemma_count_created_nonneg(s.drop_first(), s[0].created_at);
    } else {
        lemma_count_created_two(s.drop_first(), i - 1, j - 1);
    }
}

proof fn lemma_count_created_at(s: Seq<MetaModel>, i: int)
    requires
        0 <= i < s.len(),
    ensures
        count_created(s, s[i].created_at) >= 1,
    decreases i,
{
    if i == 0 {
        lemma_count_created_nonneg(s.drop_first(), s[0].created_at);
    } else {
        lemma_count_created_at(s.drop_first(), i - 1);
    }
}

proof fn lemma_count_created_nonneg(s: Seq<MetaModel>, ts: Seq<char>)
    ensures
        count_created(s, ts) >= 0,
    decreases s.len(),
{
    if s.len() > 0 {
        lemma_count_created_nonneg(s.drop_first(), ts);
    }
}

proof fn lemma_insert_desc_keeps(sorted: Seq<MetaModel>, m: MetaModel, x: MetaModel)
    requires
        sorted.contains(x) || x == m,
    ensures
        spec_insert_desc(sorted, m).contains(x),
    decreases sorted.len(),
{
    let r = spec_insert_desc(sorted, m);
    if sorted.len() == 0 {
        assert(r[0] == m);
    } else if le_created(m, sorted[0]) {
        let tail = spec_insert_desc(sorted.drop_first(), m);
        if x == sorted[0] {
            assert(r[0] == x);
        } else {
            if x != m {
                let w = choose|w: int| 0 <= w < sorted.len() && sorted[w] == x;
                assert(sorted.drop_first()[w - 1] == x);
            }
            lemma_insert_desc_keeps(sorted.drop_first(), m, x);
            let w2 = choose|w2: int| 0 <= w2 < tail.len() && tail[w2] == x;
            assert(r[w2 + 1] == x);
        }
    } else {
        if x == m {
            assert(r[0] == x);
        } else {
            let w = choose|w: int| 0 <= w < sorted.len() && sorted[w] == x;
            assert(r[w + 1] == x);
        }
    }
}

/// Every record of the original stands somewhere in the sorted sequence.
pub proof fn lemma_sort_desc_keeps(s: Seq<MetaModel>, i: int)
    requires
        0 <= i < s.len(),
    ensures
        spec_sort_desc(s).contains(s[i]),
    decreases s.len(),
{
    if i == s.len() - 1 {
        lemma_insert_desc_keeps(spec_sort_desc(s.drop_last()), s.last(), s.last());
    } else {
        lemma_sort_desc_keeps(s.drop_last(), i);
        assert(s.drop_last()[i] == s[i]);
        lemma_insert_desc_keeps(spec_sort_desc(s.drop_last()), s.last(), s[i]);
    }
}

} // verus!
