//! Laws of the store, stated once and proved over the model that every
//! operation's contract speaks of.

use vstd::prelude::*;
use crate::meta::DirModel;
use crate::meta::MetaModel;
use crate::model::StoreModel;
use crate::model::after_evicting;
use crate::model::dir_count;
use crate::model::dirs_total;
use crate::model::is_enforce_result;
use crate::model::lemma_filter_congruent;
use crate::model::lemma_filter_filter;
use crate::model::lemma_remaining_empty;
use crate::model::spec_delete;
use crate::order::count_created;
use crate::order::count_id;
use crate::order::ids_of;
use crate::order::le_created;
use crate::order::lemma_sort_asc_len;
use crate::order::lemma_sort_asc_of_sorted;
use crate::order::lemma_sort_desc_elems;
use crate::order::lemma_sort_desc_len;
use crate::order::lemma_sort_desc_sorted;
use crate::order::sorted_asc;
use crate::order::sorted_desc;
use crate::order::spec_sort_asc;
use crate::order::spec_sort_desc;
use crate::query::lower_of;
use crate::query::spec_matches;
use crate::query::spec_query;
use crate::text::lemma_lex_le_total;
use crate::text::lemma_lex_le_trans;

verus! {

/// Consistency: in every well-formed store — and every operation returns
/// one — the catalog and the disk hold exactly the same identifiers.
pub proof fn lemma_catalog_disk_consistent(model: StoreModel, id: Seq<char>)
    requires
        model.wf(),
    ensures
        count_id(model.index, id) > 0 <==> dir_count(model.dirs, id) > 0,
{
}

/// Idempotent delete: deleting an identifier twice ends in the same state as
/// deleting it once.
pub proof fn lemma_delete_idempotent(model: StoreModel, id: Seq<char>)
    ensures
        spec_delete(spec_delete(model, id), id) == spec_delete(model, id),
{
    let p = |m: MetaModel| m.id != id;
    let q = |e: DirModel| e.id != id;
    lemma_filter_filter(model.index, p, p);
    lemma_filter_congruent(model.index, |m: MetaModel| p(m) && p(m), p);
    lemma_filter_filter(model.dirs, q, q);
    lemma_filter_congruent(model.dirs, |e: DirModel| q(e) && q(e), q);
    assert(spec_delete(spec_delete(model, id), id) =~= spec_delete(model, id));
}

/// Sort and limit: a listing returns exactly the smaller of the limit and the
/// number of matching records, sorted by creation time, most recent first.
pub proof fn lemma_sort_limit(index: Seq<MetaModel>, search: Option<Seq<char>>, limit: int)
    requires
        limit >= 0,
    ensures
        ({
            let filtered = match search {
                Some(t) => index.filter(|m: MetaModel| spec_matches(m, lower_of(t))),
                None => index,
            };
            let q = spec_query(index, search, limit);
            &&& q.len() == (if limit <= filtered.len() {
                limit
            } else {
                filtered.len() as int
            })
            &&& sorted_desc(q)
        }),
{
    let filtered = match search {
        Some(t) => index.filter(|m: MetaModel| spec_matches(m, lower_of(t))),
        None => index,
    };
    let sorted = spec_sort_desc(filtered);
    let q = spec_query(index, search, limit);
    lemma_sort_desc_len(filtered);
    lemma_sort_desc_sorted(filtered);
    if sorted.len() <= limit {
    } else {
        assert forall|i: int, j: int| 0 <= i < j < q.len() implies le_created(
            #[trigger] q[j],
            #[trigger] q[i],
        ) by {
            assert(q[i] == sorted[i]);
            assert(q[j] == sorted[j]);
        }
    }
}

/// Search correctness, the general half: every record a search returns
/// matches the case-folded term, through its ticket reference or its
/// timestamp text. (A record with neither is never returned; concrete
/// matching values are exercised by tests, since case folding itself is the
/// standard library's.)
pub proof fn lemma_search_matches(index: Seq<MetaModel>, t: Seq<char>, limit: int)
    requires
        limit >= 0,
    ensures
        forall|i: int|
            0 <= i < spec_query(index, Some(t), limit).len() ==> spec_matches(
                #[trigger] spec_query(index, Some(t), limit)[i],
                lower_of(t),
            ),
{
    let pred = |m: MetaModel| spec_matches(m, lower_of(t));
    let filtered = index.filter(pred);
    let sorted = spec_sort_desc(filtered);
    let q = spec_query(index, Some(t), limit);
    lemma_sort_desc_elems(filtered);
    lemma_sort_desc_len(filtered);
    assert forall|i: int| 0 <= i < q.len() implies spec_matches(
        #[trigger] q[i],
        lower_of(t),
    ) by {
        assert(i < sorted.len());
        assert(q[i] == sorted[i]);
        assert(filtered.contains(sorted[i]));
        let w = choose|w: int| 0 <= w < filtered.len() && filtered[w] == sorted[i];
        index.lemma_filter_pred(pred, w);
    }
}

/// Budget convergence and eviction order, for any three items created at
/// strictly increasing times whose total usage exceeds the budget:
/// enforcement evicts the oldest item first; it touches the second only when
/// the first alone was not enough, and the newest only when the other two
/// together were not enough.
pub proof fn lemma_eviction_order(model: StoreModel, k: int)
    requires
        model.wf(),
        model.index.len() == 3,
        !crate::text::lex_le(model.index[1].created_at, model.index[0].created_at),
        !crate::text::lex_le(model.index[2].created_at, model.index[1].created_at),
        dirs_total(model.dirs) > model.budget,
        is_enforce_result(model, k),
    ensures
        k >= 1,
        ids_of(spec_sort_asc(model.index).take(k))[0] == model.index[0].id,
        k >= 2 <==> dirs_total(after_evicting(model, 1).dirs) > model.budget,
        k == 3 <==> dirs_total(after_evicting(model, 2).dirs) > model.budget,
{
    assert(sorted_asc(model.index)) by {
        let c0 = model.index[0].created_at;
        let c1 = model.index[1].created_at;
        let c2 = model.index[2].created_at;
        lemma_lex_le_total(c0, c1);
        lemma_lex_le_total(c1, c2);
        lemma_lex_le_trans(c0, c1, c2);
    }
    lemma_sort_asc_of_sorted(model.index);
    lemma_sort_asc_len(model.index);
    let sorted = spec_sort_asc(model.index);
    assert(k >= 1) by {
        if k == 0 {
            lemma_remaining_empty(model);
            assert(ids_of(sorted.take(0)) =~= Seq::<Seq<char>>::empty());
            assert(after_evicting(model, 0) == model);
        }
    }
    assert(ids_of(sorted.take(k))[0] == sorted[0].id);
    if dirs_total(after_evicting(model, 1).dirs) > model.budget {
        assert(k != 1);
    } else {
        if k >= 2 {
            assert(dirs_total(after_evicting(model, 1).dirs) > model.budget);
        }
    }
    if dirs_total(after_evicting(model, 2).dirs) > model.budget {
        assert(k != 2);
        assert(k != 1) by {
            crate::model::lemma_after_evicting_monotone(model, 1);
        }
    } else {
        if k == 3 {
            assert(dirs_total(after_evicting(model, 2).dirs) > model.budget);
        }
    }
}

/// Eviction order, in general: the identifiers that enforcement hands back
/// follow non-decreasing creation time — the store is never made to give up
/// a newer item before an older one.
pub proof fn lemma_evictions_oldest_first(model: StoreModel, k: int)
    requires
        0 <= k <= model.index.len(),
    ensures
        sorted_asc(spec_sort_asc(model.index).take(k)),
{
    crate::order::lemma_sort_asc_sorted(model.index);
    crate::order::lemma_sort_asc_len(model.index);
    let sorted = spec_sort_asc(model.index);
    assert forall|i: int, j: int| 0 <= i < j < sorted.take(k).len() implies le_created(
        #[trigger] sorted.take(k)[i],
        #[trigger] sorted.take(k)[j],
    ) by {
        assert(sorted.take(k)[i] == sorted[i]);
        assert(sorted.take(k)[j] == sorted[j]);
    }
}

/// Sort and limit, the strict half: when no two catalog records share a
/// creation time, a listing is strictly descending — each entry was created
/// strictly later than the next.
pub proof fn lemma_sort_limit_strict(index: Seq<MetaModel>, search: Option<Seq<char>>, limit: int)
    requires
        limit >= 0,
        forall|ts: Seq<char>| #[trigger] count_created(index, ts) <= 1,
    ensures
        ({
            let q = spec_query(index, search, limit);
            forall|i: int, j: int|
                0 <= i < j < q.len() ==> le_created(#[trigger] q[j], #[trigger] q[i])
                    && q[j].created_at != q[i].created_at
        }),
{
    lemma_sort_limit(index, search, limit);
    let filtered = match search {
        Some(t) => index.filter(|m: MetaModel| spec_matches(m, lower_of(t))),
        None => index,
    };
    let sorted = spec_sort_desc(filtered);
    let q = spec_query(index, search, limit);
    lemma_sort_desc_len(filtered);
    assert forall|i: int, j: int|
        0 <= i < j < q.len() implies le_created(#[trigger] q[j], #[trigger] q[i])
        && q[j].created_at != q[i].created_at by {
        assert(q[i] == sorted[i]);
        assert(q[j] == sorted[j]);
        if sorted[j].created_at == sorted[i].created_at {
            let ts = sorted[i].created_at;
            crate::order::lemma_count_created_two(sorted, i, j);
            crate::order::lemma_sort_desc_count_created(filtered, ts);
            match search {
                Some(t) => {
                    crate::order::lemma_filter_count_created_le(
                        index,
                        |m: MetaModel| spec_matches(m, lower_of(t)),
                        ts,
                    );
                },
                None => {},
            }
            assert(count_created(index, ts) <= 1);
            assert(false);
        }
    }
}

/// Search correctness, the completeness half: when the matching records fit
/// within the limit, every catalog record that matches the case-folded term
/// appears in the listing.
pub proof fn lemma_search_complete(index: Seq<MetaModel>, t: Seq<char>, limit: int, i: int)
    requires
        0 <= i < index.len(),
        spec_matches(index[i], lower_of(t)),
        index.filter(|m: MetaModel| spec_matches(m, lower_of(t))).len() <= limit,
    ensures
        spec_query(index, Some(t), limit).contains(index[i]),
{
    let pred = |m: MetaModel| spec_matches(m, lower_of(t));
    let filtered = index.filter(pred);
    index.lemma_filter_contains(pred, i);
    let w = choose|w: int| 0 <= w < filtered.len() && filtered[w] == index[i];
    crate::order::lemma_sort_desc_keeps(filtered, w);
    lemma_sort_desc_len(filtered);
    assert(spec_query(index, Some(t), limit) == spec_sort_desc(filtered));
}

} // verus!
