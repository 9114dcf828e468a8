//! The query engine: filtered, sorted, limited views of the catalog.
//!
//! A search term matches a record when, after case folding, it occurs in the
//! record's ticket reference or in the literal text of its timestamp. Results
//! are always sorted most recent first and truncated only after sorting.

use vstd::prelude::*;
use crate::meta::MetaModel;
use crate::meta::ScreenshotMeta;
use crate::meta::opt_view;
use crate::order::models_of;
use crate::order::sort_metas_desc;
use crate::order::spec_sort_desc;
use crate::store::HistoryStore;
use crate::text::chars_contains;
use crate::text::chars_vec;
use crate::text::contains_seq;

verus! {

/// What `str::to_lowercase` returns: a function of the characters alone.
pub uninterp spec fn lower_of(s: Seq<char>) -> Seq<char>;

/// Relies on str::to_lowercase for Unicode case folding; the result depends
/// only on the characters of the input.
#[verifier::external_body]
pub(crate) fn to_lowercase(s: &str) -> (r: String)
    ensures
        r@ == lower_of(s@),
{
    s.to_lowercase()
}

/// A record matches a (case-folded) search term: the term occurs in its
/// case-folded ticket reference — a record without one never matches that
/// way — or in its case-folded timestamp text.
pub open spec fn spec_matches(m: MetaModel, term_lower: Seq<char>) -> bool {
    ||| match m.ticket_id {
        Some(t) => contains_seq(lower_of(t), term_lower),
        None => false,
    }
    ||| contains_seq(lower_of(m.created_at), term_lower)
}

/// The first `limit` entries, or all of them when fewer match.
pub open spec fn spec_truncated(s: Seq<MetaModel>, limit: int) -> Seq<MetaModel> {
    if s.len() <= limit {
        s
    } else {
        s.take(limit)
    }
}

/// The limit that applies: the caller's, or twenty by default.
pub open spec fn spec_limit(limit: Option<u32>) -> int {
    match limit {
        Some(n) => n as int,
        None => 20,
    }
}

/// What a listing returns: the matching records — all of them when no term
/// was given — sorted most recent first, then truncated to the limit.
pub open spec fn spec_query(index: Seq<MetaModel>, search: Option<Seq<char>>, limit: int) -> Seq<
    MetaModel,
> {
    let filtered = match search {
        Some(t) => index.filter(|m: MetaModel| spec_matches(m, lower_of(t))),
        None => index,
    };
    spec_truncated(spec_sort_desc(filtered), limit)
}

fn meta_matches(m: &ScreenshotMeta, term_lower: &Vec<char>) -> (r: bool)
    ensures
        r == spec_matches(m@, term_lower@),
{
    let by_ticket = match &m.ticket_id {
        Some(t) => {
            let lt = to_lowercase(t.as_str());
            let ltv = chars_vec(lt.as_str());
            chars_contains(&ltv, term_lower)
        },
        None => false,
    };
    if by_ticket {
        return true;
    }
    let lc = to_lowercase(m.created_at.as_str());
    let lcv = chars_vec(lc.as_str());
    chars_contains(&lcv, term_lower)
}

fn filter_matching(v: &Vec<ScreenshotMeta>, term_lower: &Vec<char>) -> (r: Vec<ScreenshotMeta>)
    ensures
        models_of(r@) == models_of(v@).filter(|m: MetaModel| spec_matches(m, term_lower@)),
{
    let ghost pred = |m: MetaModel| spec_matches(m, term_lower@);
    let mut out: Vec<ScreenshotMeta> = Vec::new();
    let mut i: usize = 0;
    while i < v.len()
        invariant
            i <= v.len(),
            models_of(out@) == models_of(v@.take(i as int)).filter(pred),
            pred == (|m: MetaModel| spec_matches(m, term_lower@)),
        decreases v.len() - i,
    {
        proof {
            reveal(Seq::filter);
            assert(models_of(v@.take(i + 1)).drop_last() =~= models_of(v@.take(i as int)));
            assert(models_of(v@.take(i + 1)).last() == v@[i as int]@);
        }
        if meta_matches(&v[i], term_lower) {
            out.push(v[i].clone());
        }
        i = i + 1;
    }
    proof {
        assert(v@.take(v@.len() as int) =~= v@);
    }
    out
}

fn clone_metas(v: &Vec<ScreenshotMeta>) -> (r: Vec<ScreenshotMeta>)
    ensures
        r@ == v@,
{
    let mut out: Vec<ScreenshotMeta> = Vec::new();
    let mut i: usize = 0;
    while i < v.len()
        invariant
            i <= v.len(),
            out@ == v@.take(i as int),
        decreases v.len() - i,
    {
        out.push(v[i].clone());
        proof {
            assert(out@ =~= v@.take(i + 1));
        }
        i = i + 1;
    }
    proof {
        assert(v@.take(v@.len() as int) =~= v@);
    }
    out
}

impl HistoryStore {
    /// List catalog records: filtered by the search term when one is given,
    /// sorted by creation time, most recent first, and truncated to the
    /// limit (twenty when unspecified) only after sorting.
    pub fn get_history(&self, search: Option<String>, limit: Option<u32>) -> (r: Vec<
        ScreenshotMeta,
    >)
        ensures
            models_of(r@) == spec_query(self@.index, opt_view(search), spec_limit(limit)),
    {
        let limit_n: usize = match limit {
            Some(n) => n as usize,
            None => 20,
        };
        let filtered: Vec<ScreenshotMeta> = match &search {
            Some(t) => {
                let tl = to_lowercase(t.as_str());
                let tlv = chars_vec(tl.as_str());
                filter_matching(self.items(), &tlv)
            },
            None => clone_metas(self.items()),
        };
        let ghost f = models_of(filtered@);
        let mut sorted = sort_metas_desc(filtered);
        let ghost full = models_of(sorted@);
        sorted.truncate(limit_n);
        proof {
            assert(full == spec_sort_desc(f));
            if limit_n <= full.len() {
                assert(models_of(sorted@) =~= full.take(limit_n as int));
                if full.len() <= limit_n as int {
                    assert(full.take(limit_n as int) =~= full);
                }
            } else {
                assert(models_of(sorted@) == full);
            }
            assert(models_of(sorted@) == spec_truncated(full, limit_n as int));
        }
        sorted
    }
}

} // verus!
