use screenshot_store::export::base64_decode;
use screenshot_store::paths::get_index_path;
use screenshot_store::paths::is_temp_capture_name;
use screenshot_store::paths::item_dir_path;
use screenshot_store::paths::temp_capture_filename;
use screenshot_store::save::begin_save;
use screenshot_store::save::HistoryError;
use screenshot_store::store::HistoryStore;

#[test]
fn index_document_lives_under_the_storage_root() {
    assert_eq!(get_index_path("/data/history"), "/data/history/index.json");
    assert_eq!(item_dir_path("/data/history", "abc"), "/data/history/abc");
}

#[test]
fn pending_saves_fix_every_artifact_path() {
    let p = begin_save("/data/history");
    assert_eq!(p.id.len(), 36);
    assert_eq!(p.dir_path, format!("/data/history/{}", p.id));
    assert_eq!(p.original_dest, format!("{}/original.png", p.dir_path));
    assert_eq!(p.annotated_dest, format!("{}/annotated.png", p.dir_path));
    assert_eq!(p.thumbnail_dest, format!("{}/thumbnail.png", p.dir_path));
    assert_eq!(p.annotations_dest, format!("{}/annotations.json", p.dir_path));
    assert_eq!(p.meta_dest, format!("{}/meta.json", p.dir_path));
}

#[test]
fn two_pending_saves_get_distinct_identifiers() {
    let p1 = begin_save("/data/history");
    let p2 = begin_save("/data/history");
    assert_ne!(p1.id, p2.id);
}

#[test]
fn saving_counts_top_level_annotations_and_stamps_a_timestamp() {
    let mut store = HistoryStore::new(1 << 30);
    let p = begin_save("/data/history");
    let id = p.id.clone();
    let meta = store
        .save_to_history(p, false, Some("AB-1".to_string()), "[{}, {}, {}]", 1234)
        .unwrap();
    assert_eq!(meta.id, id);
    assert_eq!(meta.annotation_count, 3);
    assert_eq!(meta.size_bytes, 1234);
    assert_eq!(meta.ticket_id.as_deref(), Some("AB-1"));
    assert!(meta.uploaded_url.is_none());
    assert!(meta.annotated_path.is_none());
    assert!(!meta.created_at.is_empty());
    assert_eq!(store.items().len(), 1);
    let usage = store.get_storage_usage();
    assert_eq!(usage.used_bytes, 1234);
}

#[test]
fn a_non_array_annotation_document_counts_as_zero() {
    let mut store = HistoryStore::new(1 << 30);
    let p = begin_save("/data/history");
    let meta = store
        .save_to_history(p, true, None, "{\"kind\": \"freehand\"}", 10)
        .unwrap();
    assert_eq!(meta.annotation_count, 0);
    assert!(meta.annotated_path.is_some());
}

#[test]
fn a_malformed_annotation_document_fails_the_save_and_leaves_the_store_alone() {
    let mut store = HistoryStore::new(1 << 30);
    let p = begin_save("/data/history");
    let err = store
        .save_to_history(p, false, None, "not json at all", 10)
        .unwrap_err();
    assert_eq!(err, HistoryError::InvalidAnnotations);
    assert_eq!(store.items().len(), 0);
    assert_eq!(store.get_storage_usage().item_count, 0);
}

#[test]
fn base64_payloads_decode_with_or_without_a_data_url_header() {
    assert_eq!(base64_decode("aGVsbG8=").unwrap(), b"hello".to_vec());
    assert_eq!(
        base64_decode("data:image/png;base64,aGVsbG8=").unwrap(),
        b"hello".to_vec()
    );
    assert!(base64_decode("!!!not base64!!!").is_err());
    assert_eq!(base64_decode("").unwrap(), Vec::<u8>::new());
}

#[test]
fn temp_capture_files_are_recognised_by_name() {
    assert_eq!(temp_capture_filename("abc"), "sa_abc.png");
    assert!(is_temp_capture_name("sa_abc.png"));
    assert!(is_temp_capture_name(&temp_capture_filename("0af3")));
    assert!(!is_temp_capture_name("other.png"));
    assert!(!is_temp_capture_name("sa_notes.txt"));
    assert!(!is_temp_capture_name("sa_"));
}
