//! The store itself: a catalog of screenshot records coupled with the item
//! directories that back them, a byte budget, and the operations the
//! surrounding application drives — recording a saved item, deleting one,
//! reporting usage, and evicting the oldest items once the budget is
//! exceeded.

use vstd::prelude::*;
use crate::meta::DirEntry;
use crate::meta::DirModel;
use crate::meta::MetaModel;
use crate::meta::ScreenshotMeta;
use crate::meta::StorageUsage;
use crate::model::StoreModel;
use crate::model::after_evicting;
use crate::model::dir_count;
use crate::model::dir_size_of;
use crate::model::dirs_nonneg;
use crate::model::dirs_total;
use crate::model::is_enforce_result;
use crate::model::lemma_count_id_at;
use crate::model::lemma_delete_wf;
use crate::model::lemma_dir_count_at;
use crate::model::lemma_dir_size_le_total;
use crate::model::lemma_dirs_total_take_le;
use crate::model::lemma_dirs_total_take_step;
use crate::model::lemma_filter_sub;
use crate::model::lemma_remaining_empty;
use crate::model::lemma_remaining_step;
use crate::model::lemma_save_wf;
use crate::model::spec_delete;
use crate::model::spec_remaining;
use crate::model::spec_save;
use crate::order::count_id;
use crate::order::ids_of;
use crate::order::lemma_count_id_pos;
use crate::order::lemma_sort_asc_count;
use crate::order::models_of;
use crate::order::sort_metas_asc;
use crate::order::spec_sort_asc;

verus! {

/// The item directories of a vector of entries, as mathematical values.
pub open spec fn dir_models_of(v: Seq<DirEntry>) -> Seq<DirModel> {
    v.map_values(|e: DirEntry| e@)
}

/// The screenshot store: the catalog document, the on-disk item directories,
/// and the fixed byte budget.
pub struct HistoryStore {
    index: Vec<ScreenshotMeta>,
    dirs: Vec<DirEntry>,
    budget_bytes: u64,
}

impl View for HistoryStore {
    type V = StoreModel;

    closed spec fn view(&self) -> StoreModel {
        StoreModel {
            index: models_of(self.index@),
            dirs: dir_models_of(self.dirs@),
            budget: self.budget_bytes as int,
        }
    }
}

/// Position of the first record carrying `id`, if any.
fn find_meta_pos(v: &Vec<ScreenshotMeta>, id: &String) -> (r: Option<usize>)
    ensures
        match r {
            Some(p) => {
                &&& p < v@.len()
                &&& models_of(v@)[p as int].id == id@
                &&& forall|j: int| 0 <= j < p ==> (#[trigger] models_of(v@)[j]).id != id@
            },
            None => forall|j: int|
                0 <= j < v@.len() ==> (#[trigger] models_of(v@)[j]).id != id@,
        },
{
    let mut i: usize = 0;
    while i < v.len()
        invariant
            i <= v.len(),
            forall|j: int| 0 <= j < i ==> (#[trigger] models_of(v@)[j]).id != id@,
        decreases v.len() - i,
    {
        if v[i].id == *id {
            proof {
                assert(models_of(v@)[i as int] == v@[i as int]@);
            }
            return Some(i);
        }
        proof {
            assert(models_of(v@)[i as int] == v@[i as int]@);
        }
        i = i + 1;
    }
    None
}

/// Keep only the records whose identifier differs from `id`.
fn filter_metas_keep_not(v: &mut Vec<ScreenshotMeta>, id: &String)
    ensures
        models_of(final(v)@) == models_of(old(v)@).filter(|m: MetaModel| m.id != id@),
{
    let ghost pred = |m: MetaModel| m.id != id@;
    let mut out: Vec<ScreenshotMeta> = Vec::new();
    let mut i: usize = 0;
    while i < v.len()
        invariant
            i <= v.len(),
            models_of(out@) == models_of(v@.take(i as int)).filter(pred),
            pred == (|m: MetaModel| m.id != id@),
        decreases v.len() - i,
    {
        proof {
            reveal(Seq::filter);
            assert(models_of(v@.take(i + 1)).drop_last() =~= models_of(v@.take(i as int)));
            assert(models_of(v@.take(i + 1)).last() == v@[i as int]@);
        }
        if !(v[i].id == *id) {
            out.push(v[i].clone());
        }
        i = i + 1;
    }
    proof {
        assert(v@.take(v@.len() as int) =~= v@);
    }
    *v = out;
}

/// Keep only the directories whose identifier differs from `id`.
fn filter_dirs_keep_not(v: &mut Vec<DirEntry>, id: &String)
    ensures
        dir_models_of(final(v)@) == dir_models_of(old(v)@).filter(|e: DirModel| e.id != id@),
{
    let ghost pred = |e: DirModel| e.id != id@;
    let mut out: Vec<DirEntry> = Vec::new();
    let mut i: usize = 0;
    while i < v.len()
        invariant
            i <= v.len(),
            dir_models_of(out@) == dir_models_of(v@.take(i as int)).filter(pred),
            pred == (|e: DirModel| e.id != id@),
        decreases v.len() - i,
    {
        proof {
            reveal(Seq::filter);
            assert(dir_models_of(v@.take(i + 1)).drop_last() =~= dir_models_of(v@.take(i as int)));
            assert(dir_models_of(v@.take(i + 1)).last() == v@[i as int]@);
        }
        if !(v[i].id == *id) {
            out.push(v[i].clone());
        }
        i = i + 1;
    }
    proof {
        assert(v@.take(v@.len() as int) =~= v@);
    }
    *v = out;
}


fn clone_meta_vec(v: &Vec<ScreenshotMeta>) -> (r: Vec<ScreenshotMeta>)
    ensures
        r@ == v@,
{
    let mut out: Vec<ScreenshotMeta> = Vec::new();
    let mut i: usize = 0;
    while i < v.len()
        invariant
            i <= v.len(),
            out@ == v@.take(i as int),
        decreases v.len() - i,
    {
        out.push(v[i].clone());
        proof {
            assert(out@ =~= v@.take(i + 1));
        }
        i = i + 1;
    }
    proof {
        assert(v@.take(v@.len() as int) =~= v@);
    }
    out
}

fn clone_dir_vec(v: &Vec<DirEntry>) -> (r: Vec<DirEntry>)
    ensures
        r@ == v@,
{
    let mut out: Vec<DirEntry> = Vec::new();
    let mut i: usize = 0;
    while i < v.len()
        invariant
            i <= v.len(),
            out@ == v@.take(i as int),
        decreases v.len() - i,
    {
        out.push(v[i].clone());
        proof {
            assert(out@ =~= v@.take(i + 1));
        }
        i = i + 1;
    }
    proof {
        assert(v@.take(v@.len() as int) =~= v@);
    }
    out
}

/// Total bytes of all item directories; the size accountant's walk over the
/// whole storage root.
fn dirs_total_sum(v: &Vec<DirEntry>) -> (r: u64)
    requires
        dirs_nonneg(dir_models_of(v@)),
        dirs_total(dir_models_of(v@)) <= u64::MAX,
    ensures
        r as int == dirs_total(dir_models_of(v@)),
{
    let ghost d = dir_models_of(v@);
    let mut total: u64 = 0;
    let mut i: usize = 0;
    while i < v.len()
        invariant
            i <= v.len(),
            d == dir_models_of(v@),
            dirs_nonneg(d),
            dirs_total(d) <= u64::MAX,
            total as int == dirs_total(d.take(i as int)),
        decreases v.len() - i,
    {
        proof {
            lemma_dirs_total_take_step(d, i as int);
            lemma_dirs_total_take_le(d, i + 1);
            assert(d[i as int] == v@[i as int]@);
            assert(dirs_nonneg(d.take(i + 1))) by {
                assert(forall|j: int| 0 <= j < i + 1 ==> d.take(i + 1)[j] == d[j]);
            }
            crate::model::lemma_dirs_total_nonneg(d.take(i + 1));
            assert(d.take(i + 1).drop_last() =~= d.take(i as int));
            assert(dirs_nonneg(d.take(i as int))) by {
                assert(forall|j: int| 0 <= j < i ==> d.take(i as int)[j] == d[j]);
            }
            crate::model::lemma_dirs_total_nonneg(d.take(i as int));
        }
        total = total + v[i].size_bytes;
        i = i + 1;
    }
    proof {
        assert(d.take(v@.len() as int) =~= d);
    }
    total
}

/// Bytes held by the directory carrying `id` (zero if there is none); the
/// live re-measurement of one item before it is evicted.
fn dir_size_sum(v: &Vec<DirEntry>, id: &String) -> (r: u64)
    requires
        dirs_nonneg(dir_models_of(v@)),
        dirs_total(dir_models_of(v@)) <= u64::MAX,
    ensures
        r as int == dir_size_of(dir_models_of(v@), id@),
{
    let ghost d = dir_models_of(v@);
    let mut total: u64 = 0;
    let mut i: usize = 0;
    while i < v.len()
        invariant
            i <= v.len(),
            d == dir_models_of(v@),
            dirs_nonneg(d),
            dirs_total(d) <= u64::MAX,
            total as int == dir_size_of(d.take(i as int), id@),
        decreases v.len() - i,
    {
        proof {
            assert(d.take(i + 1).drop_last() =~= d.take(i as int));
            assert(d.take(i + 1).last() == d[i as int]);
            assert(d[i as int] == v@[i as int]@);
            assert(dirs_nonneg(d.take(i + 1))) by {
                assert(forall|j: int| 0 <= j < i + 1 ==> d.take(i + 1)[j] == d[j]);
            }
            lemma_dir_size_le_total(d.take(i + 1), id@);
            lemma_dirs_total_take_le(d, i + 1);
        }
        if v[i].id == *id {
            total = total + v[i].size_bytes;
        }
        i = i + 1;
    }
    proof {
        assert(d.take(v@.len() as int) =~= d);
    }
    total
}

impl HistoryStore {
    /// Whether the store satisfies its invariant.
    pub open spec fn wf(&self) -> bool {
        self@.wf()
    }

    /// An empty store with the given byte budget.
    pub fn new(budget_bytes: u64) -> (s: HistoryStore)
        ensures
            s@ == (StoreModel {
                index: Seq::<MetaModel>::empty(),
                dirs: Seq::<DirModel>::empty(),
                budget: budget_bytes as int,
            }),
            s.wf(),
    {
        let s = HistoryStore { index: Vec::new(), dirs: Vec::new(), budget_bytes };
        proof {
            assert(models_of(s.index@) =~= Seq::<MetaModel>::empty());
            assert(dir_models_of(s.dirs@) =~= Seq::<DirModel>::empty());
            assert forall|id: Seq<char>| #[trigger] count_id(s@.index, id) <= 1 by {
                assert(count_id(s@.index, id) == 0);
            }
            assert forall|id: Seq<char>| #[trigger] dir_count(s@.dirs, id) <= 1 by {
                assert(dir_count(s@.dirs, id) == 0);
            }
        }
        s
    }

    /// The catalog's records, in catalog order.
    pub fn items(&self) -> (r: &Vec<ScreenshotMeta>)
        ensures
            models_of(r@) == self@.index,
    {
        &self.index
    }

    /// The fixed byte budget.
    pub fn budget(&self) -> (r: u64)
        ensures
            r as int == self@.budget,
    {
        self.budget_bytes
    }

    /// Record one saved item: upsert its catalog record and its on-disk
    /// directory, measured at `meta.size_bytes` bytes.
    pub fn record_item(&mut self, meta: ScreenshotMeta)
        requires
            old(self).wf(),
            dirs_total(old(self)@.dirs) + meta.size_bytes as int <= u64::MAX,
        ensures
            final(self)@ == spec_save(old(self)@, meta@),
            final(self).wf(),
    {
        let ghost m0 = self@;
        match find_meta_pos(&self.index, &meta.id) {
            Some(p) => {
                let ghost s = models_of(self.index@);
                self.index.remove(p);
                self.index.insert(p, meta.clone());
                proof {
                    assert(models_of(self.index@) =~= s.update(p as int, meta@));
                    crate::model::lemma_upsert_at(s, meta@, p as int);
                }
            },
            None => {
                let ghost s = models_of(self.index@);
                self.index.push(meta.clone());
                proof {
                    assert(models_of(self.index@) =~= s.push(meta@));
                    crate::model::lemma_upsert_absent(s, meta@);
                }
            },
        }
        let entry = DirEntry { id: meta.id, size_bytes: meta.size_bytes };
        let ghost kept = m0.dirs.filter(|e: DirModel| e.id != meta@.id);
        filter_dirs_keep_not(&mut self.dirs, &entry.id);
        self.dirs.push(entry);
        proof {
            assert(dir_models_of(self.dirs@) =~= kept.push(
                DirModel { id: meta@.id, size_bytes: meta@.size_bytes },
            ));
            assert(self@ =~= spec_save(m0, meta@));
            lemma_save_wf(m0, meta@);
        }
    }

    /// Delete one item: its catalog record and its directory disappear
    /// together; deleting an identifier that is not present is a no-op.
    pub fn delete_from_history(&mut self, id: &String)
        requires
            old(self).wf(),
        ensures
            final(self)@ == spec_delete(old(self)@, id@),
            final(self).wf(),
    {
        let ghost m0 = self@;
        filter_metas_keep_not(&mut self.index, id);
        filter_dirs_keep_not(&mut self.dirs, id);
        proof {
            assert(self@ =~= spec_delete(m0, id@));
            lemma_delete_wf(m0, id@);
        }
    }

    /// Report live usage: bytes re-derived from the item directories, never
    /// from the catalog's cached sizes.
    pub fn get_storage_usage(&self) -> (u: StorageUsage)
        requires
            self.wf(),
        ensures
            u.used_bytes as int == dirs_total(self@.dirs),
            u.budget_bytes as int == self@.budget,
            u.item_count == self@.dirs.len(),
    {
        let used_bytes = dirs_total_sum(&self.dirs);
        StorageUsage { used_bytes, budget_bytes: self.budget_bytes, item_count: self.dirs.len() }
    }

    /// Decide which items budget enforcement would evict, without touching
    /// the store: the shortest prefix of the catalog, stably sorted oldest
    /// first, whose removal brings live usage to or below the budget. The
    /// caller removes each item's directory and only then its catalog entry,
    /// so a failed removal never leaves a record without its blobs.
    pub fn eviction_plan(&self) -> (plan: Vec<String>)
        requires
            self.wf(),
        ensures
            plan@.map_values(|s: String| s@) == ids_of(
                spec_sort_asc(self@.index).take(plan@.len() as int),
            ),
            is_enforce_result(self@, plan@.len() as int),
    {
        let ghost m0 = self@;
        let mut index = clone_meta_vec(&self.index);
        let mut dirs = clone_dir_vec(&self.dirs);
        let total = dirs_total_sum(&dirs);
        let budget = self.budget_bytes;
        let mut plan: Vec<String> = Vec::new();
        proof {
            lemma_remaining_empty(m0);
            assert(ids_of(spec_sort_asc(m0.index).take(0)) =~= Seq::<Seq<char>>::empty());
            assert(plan@.map_values(|s: String| s@) =~= Seq::<Seq<char>>::empty());
        }
        if total <= budget {
            proof {
                crate::order::lemma_sort_asc_len(m0.index);
            }
            return plan;
        }
        let sorted = sort_metas_asc(&index);
        let ghost sm = spec_sort_asc(m0.index);
        let mut current: u64 = total;
        let mut i: usize = 0;
        while i < sorted.len() && current > budget
            invariant
                i <= sorted.len(),
                models_of(sorted@) == sm,
                sm == spec_sort_asc(m0.index),
                m0.wf(),
                plan@.len() == i,
                plan@.map_values(|s: String| s@) == ids_of(sm.take(i as int)),
                models_of(index@) == spec_remaining(m0, ids_of(sm.take(i as int))).index,
                dir_models_of(dirs@) == spec_remaining(m0, ids_of(sm.take(i as int))).dirs,
                spec_remaining(m0, ids_of(sm.take(i as int))).wf(),
                budget as int == m0.budget,
                current as int == dirs_total(dir_models_of(dirs@)),
                forall|j: int|
                    0 <= j < i ==> dirs_total(
                        #[trigger] spec_remaining(m0, ids_of(sm.take(j))).dirs,
                    ) > m0.budget,
            decreases sorted.len() - i,
        {
            let id = sorted[i].id.clone();
            proof {
                assert(sm[i as int] == sorted@[i as int]@);
                assert(id@ == sm[i as int].id);
            }
            let sz = dir_size_sum(&dirs, &id);
            let ghost before = spec_remaining(m0, ids_of(sm.take(i as int)));
            proof {
                lemma_dir_size_le_total(before.dirs, id@);
                lemma_delete_wf(before, id@);
            }
            filter_metas_keep_not(&mut index, &id);
            filter_dirs_keep_not(&mut dirs, &id);
            plan.push(id);
            proof {
                assert(models_of(index@) == spec_delete(before, id@).index);
                assert(dir_models_of(dirs@) == spec_delete(before, id@).dirs);
                assert(ids_of(sm.take(i + 1)) =~= ids_of(sm.take(i as int)).push(sm[i as int].id));
                lemma_remaining_step(m0, ids_of(sm.take(i as int)), sm[i as int].id);
                assert(plan@.map_values(|s: String| s@) =~= ids_of(sm.take(i + 1)));
            }
            current = current - sz;
            i = i + 1;
        }
        proof {
            if current > budget {
                // The loop ran out of items: the plan names everything, so
                // nothing would remain and usage would be zero, below the
                // budget.
                assert(i == sorted.len());
                assert(sm.take(i as int) =~= sm);
                let removed = ids_of(sm);
                let remaining = spec_remaining(m0, removed);
                if remaining.index.len() > 0 {
                    lemma_filter_sub(m0.index, |m: MetaModel| !removed.contains(m.id));
                    let e = remaining.index[0];
                    assert(m0.index.contains(e));
                    let w = choose|w: int| 0 <= w < m0.index.len() && m0.index[w] == e;
                    lemma_count_id_at(m0.index, w);
                    lemma_sort_asc_count(m0.index, e.id);
                    lemma_count_id_pos(sm, e.id);
                    assert(removed.contains(e.id));
                    assert(!removed.contains(e.id));
                }
                if remaining.dirs.len() > 0 {
                    lemma_filter_sub(m0.dirs, |e: DirModel| !removed.contains(e.id));
                    let e = remaining.dirs[0];
                    assert(m0.dirs.contains(e));
                    let w = choose|w: int| 0 <= w < m0.dirs.len() && m0.dirs[w] == e;
                    lemma_dir_count_at(m0.dirs, w);
                    assert(dir_count(m0.dirs, e.id) > 0);
                    assert(count_id(m0.index, e.id) > 0);
                    lemma_sort_asc_count(m0.index, e.id);
                    lemma_count_id_pos(sm, e.id);
                    assert(removed.contains(e.id));
                    assert(!removed.contains(e.id));
                }
                assert(remaining.dirs.len() == 0);
                assert(dirs_total(remaining.dirs) == 0);
                assert(current as int == 0);
            }
            crate::order::lemma_sort_asc_len(m0.index);
        }
        plan
    }

    /// Evict the oldest items, one whole item at a time, until usage is at or
    /// below the budget; returns the evicted identifiers, oldest first.
    ///
    /// The result is the shortest prefix of the catalog sorted by creation
    /// time whose removal brings usage within the budget.
    pub fn enforce_storage_budget(&mut self) -> (evicted: Vec<String>)
        requires
            old(self).wf(),
        ensures
            final(self).wf(),
            evicted@.map_values(|s: String| s@) == ids_of(
                spec_sort_asc(old(self)@.index).take(evicted@.len() as int),
            ),
            final(self)@ == after_evicting(old(self)@, evicted@.len() as int),
            dirs_total(final(self)@.dirs) <= old(self)@.budget,
            is_enforce_result(old(self)@, evicted@.len() as int),
    {
        let ghost m0 = self@;
        let plan = self.eviction_plan();
        let ghost sm = spec_sort_asc(m0.index);
        let ghost k = plan@.len() as int;
        let ghost removed = ids_of(sm.take(k));
        proof {
            lemma_remaining_empty(m0);
            assert(removed.take(0) =~= Seq::<Seq<char>>::empty());
        }
        let mut i: usize = 0;
        while i < plan.len()
            invariant
                plan@.map_values(|s: String| s@) == removed,
                removed == ids_of(sm.take(k)),
                k == plan@.len(),
                sm == spec_sort_asc(m0.index),
                i <= plan@.len(),
                self@ == spec_remaining(m0, removed.take(i as int)),
                self@.wf(),
            decreases plan@.len() - i,
        {
            proof {
                assert(plan@[i as int]@ == removed[i as int]);
            }
            self.delete_from_history(&plan[i]);
            proof {
                assert(removed.take(i + 1) =~= removed.take(i as int).push(removed[i as int]));
                lemma_remaining_step(m0, removed.take(i as int), removed[i as int]);
            }
            i = i + 1;
        }
        proof {
            assert(removed.take(k) =~= removed);
        }
        plan
    }
}


impl HistoryStore {
    /// Rebuild a store from a loaded catalog and the item directories found
    /// on disk, each with its measured size. The parts are accepted exactly
    /// when they satisfy the store's invariant: identifiers unique on both
    /// sides, the same identifiers on both, and a total that a byte counter
    /// can hold.
    pub fn from_parts(index: Vec<ScreenshotMeta>, dirs: Vec<DirEntry>, budget_bytes: u64) -> (r:
        Option<HistoryStore>)
        ensures
            ({
                let model = StoreModel {
                    index: models_of(index@),
                    dirs: dir_models_of(dirs@),
                    budget: budget_bytes as int,
                };
                match r {
                    Some(s) => s@ == model && s.wf(),
                    None => !model.wf(),
                }
            }),
    {
        let ghost ims = models_of(index@);
        let ghost dms = dir_models_of(dirs@);
        proof {
            assert(dirs_nonneg(dms)) by {
                assert(forall|k: int| 0 <= k < dms.len() ==> dms[k] == #[trigger] dirs@[k]@);
            }
        }
        let mut i: usize = 0;
        while i < index.len()
            invariant
                ims == models_of(index@),
                i <= index@.len(),
                forall|a: int, b: int|
                    0 <= a < b < ims.len() && a < i ==> (#[trigger] ims[a]).id != (
                    #[trigger] ims[b]).id,
            decreases index@.len() - i,
        {
            let mut j: usize = i + 1;
            while j < index.len()
                invariant
                    ims == models_of(index@),
                    i < index@.len(),
                    i + 1 <= j <= index@.len(),
                    forall|b: int| i < b < j ==> (#[trigger] ims[b]).id != ims[i as int].id,
                decreases index@.len() - j,
            {
                if index[i].id == index[j].id {
                    proof {
                        assert(ims[i as int] == index@[i as int]@);
                        assert(ims[j as int] == index@[j as int]@);
                        assert(ims[i as int].id == ims[j as int].id);
                        crate::model::lemma_count_id_two(ims, i as int, j as int);
                        assert(count_id(models_of(index@), ims[i as int].id) >= 2);
                        let model = StoreModel {
                            index: models_of(index@),
                            dirs: dir_models_of(dirs@),
                            budget: budget_bytes as int,
                        };
                        assert(!model.wf()) by {
                            if model.wf() {
                                assert(count_id(model.index, ims[i as int].id) <= 1);
                            }
                        }
                    }
                    return None;
                }
                proof {
                    assert(ims[j as int] == index@[j as int]@);
                    assert(ims[i as int] == index@[i as int]@);
                }
                j = j + 1;
            }
            i = i + 1;
        }
        let mut i: usize = 0;
        while i < dirs.len()
            invariant
                dms == dir_models_of(dirs@),
                i <= dirs@.len(),
                forall|a: int, b: int|
                    0 <= a < b < dms.len() && a < i ==> (#[trigger] dms[a]).id != (
                    #[trigger] dms[b]).id,
            decreases dirs@.len() - i,
        {
            let mut j: usize = i + 1;
            while j < dirs.len()
                invariant
                    dms == dir_models_of(dirs@),
                    i < dirs@.len(),
                    i + 1 <= j <= dirs@.len(),
                    forall|b: int| i < b < j ==> (#[trigger] dms[b]).id != dms[i as int].id,
                decreases dirs@.len() - j,
            {
                if dirs[i].id == dirs[j].id {
                    proof {
                        assert(dms[i as int] == dirs@[i as int]@);
                        assert(dms[j as int] == dirs@[j as int]@);
                        assert(dms[i as int].id == dms[j as int].id);
                        crate::model::lemma_dir_count_two(dms, i as int, j as int);
                        assert(dir_count(dir_models_of(dirs@), dms[i as int].id) >= 2);
                    }
                    return None;
                }
                proof {
                    assert(dms[j as int] == dirs@[j as int]@);
                    assert(dms[i as int] == dirs@[i as int]@);
                }
                j = j + 1;
            }
            i = i + 1;
        }
        let mut i: usize = 0;
        while i < index.len()
            invariant
                ims == models_of(index@),
                dms == dir_models_of(dirs@),
                i <= index@.len(),
                forall|a: int| 0 <= a < i ==> dir_count(dms, (#[trigger] ims[a]).id) >= 1,
            decreases index@.len() - i,
        {
            let mut j: usize = 0;
            let mut found = false;
            while j < dirs.len() && !found
                invariant
                    ims == models_of(index@),
                    dms == dir_models_of(dirs@),
                    i < index@.len(),
                    j <= dirs@.len(),
                    !found ==> forall|b: int|
                        0 <= b < j ==> (#[trigger] dms[b]).id != ims[i as int].id,
                    found ==> dir_count(dms, ims[i as int].id) >= 1,
                decreases dirs@.len() - j + (if found {
                    0int
                } else {
                    1int
                }),
            {
                if dirs[j].id == index[i].id {
                    proof {
                        assert(dms[j as int].id == ims[i as int].id);
                        lemma_dir_count_at(dms, j as int);
                    }
                    found = true;
                } else {
                    proof {
                        assert(dms[j as int] == dirs@[j as int]@);
                        assert(ims[i as int] == index@[i as int]@);
                    }
                    j = j + 1;
                }
            }
            if !found {
                proof {
                    crate::model::lemma_dir_count_zero(dms, ims[i as int].id);
                    lemma_count_id_at(ims, i as int);
                }
                return None;
            }
            i = i + 1;
        }
        let mut i: usize = 0;
        while i < dirs.len()
            invariant
                ims == models_of(index@),
                dms == dir_models_of(dirs@),
                i <= dirs@.len(),
                forall|a: int| 0 <= a < i ==> count_id(ims, (#[trigger] dms[a]).id) >= 1,
            decreases dirs@.len() - i,
        {
            let mut j: usize = 0;
            let mut found = false;
            while j < index.len() && !found
                invariant
                    ims == models_of(index@),
                    dms == dir_models_of(dirs@),
                    i < dirs@.len(),
                    j <= index@.len(),
                    !found ==> forall|b: int|
                        0 <= b < j ==> (#[trigger] ims[b]).id != dms[i as int].id,
                    found ==> count_id(ims, dms[i as int].id) >= 1,
                decreases index@.len() - j + (if found {
                    0int
                } else {
                    1int
                }),
            {
                if index[j].id == dirs[i].id {
                    proof {
                        assert(ims[j as int].id == dms[i as int].id);
                        lemma_count_id_at(ims, j as int);
                    }
                    found = true;
                } else {
                    proof {
                        assert(ims[j as int] == index@[j as int]@);
                        assert(dms[i as int] == dirs@[i as int]@);
                    }
                    j = j + 1;
                }
            }
            if !found {
                proof {
                    crate::model::lemma_count_id_zero(ims, dms[i as int].id);
                    lemma_dir_count_at(dms, i as int);
                }
                return None;
            }
            i = i + 1;
        }
        let mut total: u64 = 0;
        let mut i: usize = 0;
        while i < dirs.len()
            invariant
                dms == dir_models_of(dirs@),
                dirs_nonneg(dms),
                i <= dirs@.len(),
                total as int == dirs_total(dms.take(i as int)),
            decreases dirs@.len() - i,
        {
            proof {
                lemma_dirs_total_take_step(dms, i as int);
                assert(dms[i as int] == dirs@[i as int]@);
            }
            match total.checked_add(dirs[i].size_bytes) {
                Some(t) => {
                    total = t;
                },
                None => {
                    proof {
                        lemma_dirs_total_take_le(dms, i + 1);
                    }
                    return None;
                },
            }
            i = i + 1;
        }
        proof {
            assert(dms.take(dirs@.len() as int) =~= dms);
        }
        let store = HistoryStore { index, dirs, budget_bytes };
        proof {
            crate::model::lemma_unique_ids_count(ims);
            crate::model::lemma_unique_dirs_count(dms);
            assert forall|id: Seq<char>|
                count_id(ims, id) > 0 <==> #[trigger] dir_count(dms, id) > 0 by {
                if count_id(ims, id) > 0 {
                    lemma_count_id_pos(ims, id);
                    let w = choose|w: int| 0 <= w < ids_of(ims).len() && ids_of(ims)[w] == id;
                    assert(ims[w].id == id);
                    assert(dir_count(dms, ims[w].id) >= 1);
                }
                if dir_count(dms, id) > 0 {
                    crate::model::lemma_dir_count_pos(dms, id);
                    let w = choose|w: int| 0 <= w < dms.len() && (#[trigger] dms[w]).id == id;
                    assert(count_id(ims, dms[w].id) >= 1);
                }
            }
        }
        Some(store)
    }
}

} // verus!
