//! The save path: a fresh identifier and the artifact paths are fixed first;
//! the caller then writes the blobs and measures the item's size; finally the
//! record is built — timestamped, with the annotation count derived from the
//! annotation document — and committed to the store.

use vstd::prelude::*;
use crate::meta::ScreenshotMeta;
use crate::meta::opt_view;
use crate::model::dirs_total;
use crate::model::spec_save;
use crate::paths::item_dir_path;
use crate::store::HistoryStore;
use vstd::string::StringExecFns;

verus! {

/// Why a save was refused.
#[derive(Debug, Clone, Copy, PartialEq, Eq)]
pub enum HistoryError {
    /// The annotation document is not well-formed structured data.
    InvalidAnnotations,
}

/// Relies on uuid's `Uuid::new_v4` and its hyphenated display form: a random
/// version-4 identifier, always thirty-six characters long.
#[verifier::external_body]
fn fresh_id() -> (r: String)
    ensures
        r@.len() == 36,
{
    uuid::Uuid::new_v4().to_string()
}

/// Relies on chrono's `Utc::now().to_rfc3339()`: a non-empty RFC 3339
/// timestamp in UTC, whose fixed-width text sorts chronologically.
#[verifier::external_body]
fn now_rfc3339() -> (r: String)
    ensures
        r@.len() > 0,
{
    chrono::Utc::now().to_rfc3339()
}

/// What the annotation document yields: nothing when the text is not
/// well-formed JSON; otherwise the length of its top-level array, or zero
/// when the document is not an array.
pub uninterp spec fn annotation_count_of(s: Seq<char>) -> Option<int>;

/// Relies on serde_json's `from_str` and `Value::as_array` for exactly the
/// behaviour named by `annotation_count_of`.
#[verifier::external_body]
fn annotation_count(s: &str) -> (r: Result<usize, ()>)
    ensures
        r is Ok <==> annotation_count_of(s@) is Some,
        r matches Ok(n) ==> annotation_count_of(s@) == Some(n as int),
{
    match serde_json::from_str::<serde_json::Value>(s) {
        Ok(v) => Ok(v.as_array().map(|a| a.len()).unwrap_or(0)),
        Err(_) => Err(()),
    }
}

/// A save that has been assigned an identifier and its artifact paths, but
/// whose blobs the caller has not yet written.
pub struct PendingSave {
    pub id: String,
    pub dir_path: String,
    pub original_dest: String,
    pub annotated_dest: String,
    pub thumbnail_dest: String,
    pub annotations_dest: String,
    pub meta_dest: String,
}

/// Assign a fresh identifier and fix where every artifact of the item will
/// live, inside the item's own directory under the storage root.
pub fn begin_save(history_dir: &str) -> (p: PendingSave)
    ensures
        p.id@.len() == 36,
        p.dir_path@ == history_dir@ + "/"@ + p.id@,
        p.original_dest@ == p.dir_path@ + "/original.png"@,
        p.annotated_dest@ == p.dir_path@ + "/annotated.png"@,
        p.thumbnail_dest@ == p.dir_path@ + "/thumbnail.png"@,
        p.annotations_dest@ == p.dir_path@ + "/annotations.json"@,
        p.meta_dest@ == p.dir_path@ + "/meta.json"@,
{
    let id = fresh_id();
    let dir_path = item_dir_path(history_dir, id.as_str());
    let original_dest = dir_path.clone().concat("/original.png");
    let annotated_dest = dir_path.clone().concat("/annotated.png");
    let thumbnail_dest = dir_path.clone().concat("/thumbnail.png");
    let annotations_dest = dir_path.clone().concat("/annotations.json");
    let meta_dest = dir_path.clone().concat("/meta.json");
    PendingSave {
        id,
        dir_path,
        original_dest,
        annotated_dest,
        thumbnail_dest,
        annotations_dest,
        meta_dest,
    }
}

impl HistoryStore {
    /// Commit one saved item. The caller has written the blobs at the paths
    /// fixed by `begin_save` and measured `size_bytes` from the item's
    /// directory. The record is timestamped here; the annotation count is
    /// derived from the document's top-level array, a malformed document
    /// being refused with the store unchanged. `uploaded_url` is never set
    /// by the save path.
    pub fn save_to_history(
        &mut self,
        p: PendingSave,
        annotated: bool,
        ticket_id: Option<String>,
        annotations_json: &str,
        size_bytes: u64,
    ) -> (r: Result<ScreenshotMeta, HistoryError>)
        requires
            old(self).wf(),
            dirs_total(old(self)@.dirs) + size_bytes as int <= u64::MAX,
        ensures
            r is Ok <==> annotation_count_of(annotations_json@) is Some,
            r is Err ==> final(self)@ == old(self)@ && r == Err::<ScreenshotMeta, HistoryError>(
                HistoryError::InvalidAnnotations,
            ),
            r matches Ok(m) ==> {
                &&& m@.id == p.id@
                &&& m@.original_path == p.original_dest@
                &&& m@.annotated_path == (if annotated {
                    Some(p.annotated_dest@)
                } else {
                    None::<Seq<char>>
                })
                &&& m@.thumbnail_path == p.thumbnail_dest@
                &&& m@.created_at.len() > 0
                &&& m@.ticket_id == opt_view(ticket_id)
                &&& m@.uploaded_url is None
                &&& m@.size_bytes == size_bytes as int
                &&& annotation_count_of(annotations_json@) == Some(m@.annotation_count)
                &&& final(self)@ == spec_save(old(self)@, m@)
                &&& final(self).wf()
            },
    {
        let annotation_count_val = match annotation_count(annotations_json) {
            Ok(n) => n,
            Err(_) => {
                return Err(HistoryError::InvalidAnnotations);
            },
        };
        let created_at = now_rfc3339();
        let annotated_path = if annotated {
            Some(p.annotated_dest)
        } else {
            None
        };
        let meta = ScreenshotMeta {
            id: p.id,
            original_path: p.original_dest,
            annotated_path,
            thumbnail_path: p.thumbnail_dest,
            created_at,
            ticket_id,
            uploaded_url: None,
            size_bytes,
            annotation_count: annotation_count_val,
        };
        let result = meta.clone();
        self.record_item(meta);
        Ok(result)
    }
}

} // verus!
