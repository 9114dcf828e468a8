//! The catalog's data model: one metadata record per stored screenshot, the
//! usage report, and the model of one on-disk item directory.

use vstd::prelude::*;

verus! {

/// Metadata for one stored screenshot, as recorded in the catalog.
#[derive(Debug)]
pub struct ScreenshotMeta {
    pub id: String,
    pub original_path: String,
    pub annotated_path: Option<String>,
    pub thumbnail_path: String,
    pub created_at: String,
    pub ticket_id: Option<String>,
    pub uploaded_url: Option<String>,
    pub size_bytes: u64,
    pub annotation_count: usize,
}

/// Mathematical value of a catalog record.
#[verifier::ext_equal]
pub struct MetaModel {
    pub id: Seq<char>,
    pub original_path: Seq<char>,
    pub annotated_path: Option<Seq<char>>,
    pub thumbnail_path: Seq<char>,
    pub created_at: Seq<char>,
    pub ticket_id: Option<Seq<char>>,
    pub uploaded_url: Option<Seq<char>>,
    pub size_bytes: int,
    pub annotation_count: int,
}

pub open spec fn opt_view(o: Option<String>) -> Option<Seq<char>> {
    match o {
        Some(s) => Some(s@),
        None => None,
    }
}

impl View for ScreenshotMeta {
    type V = MetaModel;

    open spec fn view(&self) -> MetaModel {
        MetaModel {
            id: self.id@,
            original_path: self.original_path@,
            annotated_path: opt_view(self.annotated_path),
            thumbnail_path: self.thumbnail_path@,
            created_at: self.created_at@,
            ticket_id: opt_view(self.ticket_id),
            uploaded_url: opt_view(self.uploaded_url),
            size_bytes: self.size_bytes as int,
            annotation_count: self.annotation_count as int,
        }
    }
}

fn clone_opt_string(o: &Option<String>) -> (r: Option<String>)
    ensures
        r == *o,
{
    match o {
        Some(s) => Some(s.clone()),
        None => None,
    }
}

impl Clone for ScreenshotMeta {
    fn clone(&self) -> (r: Self)
        ensures
            r == *self,
    {
        ScreenshotMeta {
            id: self.id.clone(),
            original_path: self.original_path.clone(),
            annotated_path: clone_opt_string(&self.annotated_path),
            thumbnail_path: self.thumbnail_path.clone(),
            created_at: self.created_at.clone(),
            ticket_id: clone_opt_string(&self.ticket_id),
            uploaded_url: clone_opt_string(&self.uploaded_url),
            size_bytes: self.size_bytes,
            annotation_count: self.annotation_count,
        }
    }
}

/// A live usage report: bytes on disk, the fixed budget, and the number of
/// item directories.
#[derive(Debug)]
pub struct StorageUsage {
    pub used_bytes: u64,
    pub budget_bytes: u64,
    pub item_count: usize,
}

/// Model of one item directory under the storage root: its identifier and its
/// current on-disk size. The size here is the live one, which may drift from
/// the `size_bytes` snapshot in the catalog record.
pub struct DirEntry {
    pub id: String,
    pub size_bytes: u64,
}

/// Mathematical value of an item directory.
#[verifier::ext_equal]
pub struct DirModel {
    pub id: Seq<char>,
    pub size_bytes: int,
}

impl View for DirEntry {
    type V = DirModel;

    open spec fn view(&self) -> DirModel {
        DirModel { id: self.id@, size_bytes: self.size_bytes as int }
    }
}

impl Clone for DirEntry {
    fn clone(&self) -> (r: Self)
        ensures
            r == *self,
    {
        DirEntry { id: self.id.clone(), size_bytes: self.size_bytes }
    }
}

} // verus!
