use screenshot_store::meta::DirEntry;
use screenshot_store::meta::ScreenshotMeta;
use screenshot_store::store::HistoryStore;

fn item(id: &str, created_at: &str, ticket: Option<&str>, size: u64) -> ScreenshotMeta {
    ScreenshotMeta {
        id: id.to_string(),
        original_path: format!("/hist/{}/original.png", id),
        annotated_path: None,
        thumbnail_path: format!("/hist/{}/thumbnail.png", id),
        created_at: created_at.to_string(),
        ticket_id: ticket.map(|t| t.to_string()),
        uploaded_url: None,
        size_bytes: size,
        annotation_count: 0,
    }
}

#[test]
fn listing_is_most_recent_first_and_limited() {
    let mut store = HistoryStore::new(1 << 30);
    store.record_item(item("a", "2024-01-01T00:00:00+00:00", Some("A-1"), 10));
    store.record_item(item("b", "2024-01-02T00:00:00+00:00", Some("B-2"), 10));
    store.record_item(item("c", "2024-01-03T00:00:00+00:00", Some("C-3"), 10));
    let listed = store.get_history(None, Some(2));
    assert_eq!(listed.len(), 2);
    assert_eq!(listed[0].ticket_id.as_deref(), Some("C-3"));
    assert_eq!(listed[1].ticket_id.as_deref(), Some("B-2"));
    let all = store.get_history(None, None);
    assert_eq!(all.len(), 3);
    assert_eq!(all[2].ticket_id.as_deref(), Some("A-1"));
}

#[test]
fn listing_without_limit_defaults_to_twenty() {
    let mut store = HistoryStore::new(1 << 30);
    for i in 0..25u32 {
        let id = format!("id-{:02}", i);
        let ts = format!("2024-01-01T00:00:{:02}+00:00", i % 60);
        store.record_item(item(&id, &ts, None, 1));
    }
    assert_eq!(store.get_history(None, None).len(), 20);
    assert_eq!(store.get_history(None, Some(25)).len(), 25);
}

#[test]
fn search_is_case_insensitive_over_ticket_and_timestamp() {
    let mut store = HistoryStore::new(1 << 30);
    store.record_item(item("a", "2024-01-01T00:00:00+00:00", Some("JIRA-42"), 1));
    store.record_item(item("b", "2024-jira-02", None, 1));
    store.record_item(item("c", "2024-01-03T00:00:00+00:00", Some("ZD-7"), 1));
    let hits = store.get_history(Some("jira".to_string()), None);
    assert_eq!(hits.len(), 2);
    assert_eq!(hits[0].id, "b");
    assert_eq!(hits[1].id, "a");
    let none = store.get_history(Some("github".to_string()), None);
    assert_eq!(none.len(), 0);
}

#[test]
fn search_matches_stay_sorted_most_recent_first() {
    let mut store = HistoryStore::new(1 << 30);
    store.record_item(item("a", "2024-01-01T00:00:00+00:00", Some("AB-1"), 1));
    store.record_item(item("b", "2024-01-05T00:00:00+00:00", Some("ab-2"), 1));
    store.record_item(item("c", "2024-01-03T00:00:00+00:00", Some("AB-3"), 1));
    let hits = store.get_history(Some("AB".to_string()), None);
    assert_eq!(hits.len(), 3);
    assert_eq!(hits[0].id, "b");
    assert_eq!(hits[1].id, "c");
    assert_eq!(hits[2].id, "a");
}

#[test]
fn usage_reports_live_totals_and_counts() {
    let mut store = HistoryStore::new(500);
    let before = store.get_storage_usage();
    assert_eq!(before.item_count, 0);
    assert_eq!(before.used_bytes, 0);
    assert_eq!(before.budget_bytes, 500);
    store.record_item(item("a", "2024-01-01T00:00:00+00:00", None, 123));
    let after = store.get_storage_usage();
    assert_eq!(after.item_count, 1);
    assert!(after.used_bytes > 0);
    assert_eq!(after.used_bytes, 123);
    store.delete_from_history(&"a".to_string());
    let gone = store.get_storage_usage();
    assert_eq!(gone.item_count, 0);
    assert_eq!(gone.used_bytes, 0);
}

#[test]
fn deleting_twice_is_the_same_as_deleting_once() {
    let mut store = HistoryStore::new(500);
    store.record_item(item("a", "2024-01-01T00:00:00+00:00", None, 10));
    store.record_item(item("b", "2024-01-02T00:00:00+00:00", None, 20));
    store.delete_from_history(&"a".to_string());
    let once_items: Vec<String> = store.items().iter().map(|m| m.id.clone()).collect();
    let once_usage = store.get_storage_usage();
    store.delete_from_history(&"a".to_string());
    let twice_items: Vec<String> = store.items().iter().map(|m| m.id.clone()).collect();
    let twice_usage = store.get_storage_usage();
    assert_eq!(once_items, twice_items);
    assert_eq!(once_usage.used_bytes, twice_usage.used_bytes);
    assert_eq!(once_usage.item_count, twice_usage.item_count);
}

#[test]
fn saving_the_same_id_again_replaces_the_record() {
    let mut store = HistoryStore::new(1 << 30);
    store.record_item(item("a", "2024-01-01T00:00:00+00:00", None, 10));
    store.record_item(item("a", "2024-01-01T00:00:00+00:00", Some("AB-1"), 30));
    assert_eq!(store.items().len(), 1);
    assert_eq!(store.items()[0].ticket_id.as_deref(), Some("AB-1"));
    let usage = store.get_storage_usage();
    assert_eq!(usage.item_count, 1);
    assert_eq!(usage.used_bytes, 30);
}

#[test]
fn enforcement_evicts_oldest_items_first_until_under_budget() {
    let mut store = HistoryStore::new(100);
    store.record_item(item("old", "2024-01-01T00:00:00+00:00", None, 60));
    store.record_item(item("mid", "2024-01-02T00:00:00+00:00", None, 30));
    store.record_item(item("new", "2024-01-03T00:00:00+00:00", None, 20));
    let evicted = store.enforce_storage_budget();
    assert_eq!(evicted, vec!["old".to_string()]);
    let usage = store.get_storage_usage();
    assert_eq!(usage.item_count, 2);
    assert_eq!(usage.used_bytes, 50);
}

#[test]
fn enforcement_continues_until_usage_is_within_budget() {
    let mut store = HistoryStore::new(7);
    store.record_item(item("t1", "2024-01-01T00:00:00+00:00", None, 5));
    store.record_item(item("t2", "2024-01-02T00:00:00+00:00", None, 5));
    store.record_item(item("t3", "2024-01-03T00:00:00+00:00", None, 5));
    let evicted = store.enforce_storage_budget();
    assert_eq!(evicted, vec!["t1".to_string(), "t2".to_string()]);
    let usage = store.get_storage_usage();
    assert_eq!(usage.item_count, 1);
    assert_eq!(usage.used_bytes, 5);
    assert_eq!(store.items()[0].id, "t3");
}

#[test]
fn a_single_oversized_item_is_itself_evicted() {
    let mut store = HistoryStore::new(10);
    store.record_item(item("big", "2024-01-01T00:00:00+00:00", None, 50));
    let evicted = store.enforce_storage_budget();
    assert_eq!(evicted, vec!["big".to_string()]);
    let usage = store.get_storage_usage();
    assert_eq!(usage.item_count, 0);
    assert_eq!(usage.used_bytes, 0);
}

#[test]
fn enforcement_under_budget_changes_nothing() {
    let mut store = HistoryStore::new(100);
    store.record_item(item("a", "2024-01-01T00:00:00+00:00", None, 40));
    let evicted = store.enforce_storage_budget();
    assert!(evicted.is_empty());
    assert_eq!(store.items().len(), 1);
}

#[test]
fn eviction_order_ignores_catalog_order_and_follows_timestamps() {
    let mut store = HistoryStore::new(50);
    store.record_item(item("newer", "2024-06-01T00:00:00+00:00", None, 30));
    store.record_item(item("older", "2024-01-01T00:00:00+00:00", None, 30));
    let evicted = store.enforce_storage_budget();
    assert_eq!(evicted, vec!["older".to_string()]);
    assert_eq!(store.items()[0].id, "newer");
}

#[test]
fn rebuilding_accepts_only_consistent_parts() {
    let metas = vec![item("a", "2024-01-01T00:00:00+00:00", None, 10)];
    let dirs = vec![DirEntry { id: "a".to_string(), size_bytes: 10 }];
    assert!(HistoryStore::from_parts(metas, dirs, 100).is_some());

    let orphan_record = vec![item("a", "2024-01-01T00:00:00+00:00", None, 10)];
    assert!(HistoryStore::from_parts(orphan_record, Vec::new(), 100).is_none());

    let orphan_dir = vec![DirEntry { id: "a".to_string(), size_bytes: 10 }];
    assert!(HistoryStore::from_parts(Vec::new(), orphan_dir, 100).is_none());

    let dup = vec![
        item("a", "2024-01-01T00:00:00+00:00", None, 10),
        item("a", "2024-01-02T00:00:00+00:00", None, 20),
    ];
    let one_dir = vec![DirEntry { id: "a".to_string(), size_bytes: 30 }];
    assert!(HistoryStore::from_parts(dup, one_dir, 100).is_none());
}

#[test]
fn usage_and_eviction_follow_live_directory_sizes_not_catalog_snapshots() {
    // The catalog remembers 10 bytes; the directory has since grown to 150.
    let metas = vec![
        item("old", "2024-01-01T00:00:00+00:00", None, 10),
        item("new", "2024-01-02T00:00:00+00:00", None, 10),
    ];
    let dirs = vec![
        DirEntry { id: "old".to_string(), size_bytes: 150 },
        DirEntry { id: "new".to_string(), size_bytes: 40 },
    ];
    let mut store = HistoryStore::from_parts(metas, dirs, 100).unwrap();
    assert_eq!(store.items()[0].size_bytes, 10); // the snapshot is never recomputed
    let usage = store.get_storage_usage();
    assert_eq!(usage.used_bytes, 190); // the report is live
    let evicted = store.enforce_storage_budget();
    assert_eq!(evicted, vec!["old".to_string()]);
    assert_eq!(store.get_storage_usage().used_bytes, 40);
}

#[test]
fn the_eviction_plan_names_victims_without_touching_the_store() {
    let mut store = HistoryStore::new(7);
    store.record_item(item("t1", "2024-01-01T00:00:00+00:00", None, 5));
    store.record_item(item("t2", "2024-01-02T00:00:00+00:00", None, 5));
    store.record_item(item("t3", "2024-01-03T00:00:00+00:00", None, 5));
    let plan = store.eviction_plan();
    assert_eq!(plan, vec!["t1".to_string(), "t2".to_string()]);
    assert_eq!(store.items().len(), 3); // planning changed nothing
    let evicted = store.enforce_storage_budget();
    assert_eq!(evicted, plan);
    assert_eq!(store.items().len(), 1);
}

#[test]
fn an_empty_store_lists_nothing_and_needs_no_eviction() {
    let mut store = HistoryStore::new(100);
    assert!(store.get_history(None, None).is_empty());
    assert!(store.get_history(Some("x".to_string()), Some(5)).is_empty());
    assert!(store.enforce_storage_budget().is_empty());
    let usage = store.get_storage_usage();
    assert_eq!(usage.item_count, 0);
    assert_eq!(usage.used_bytes, 0);
}

#[test]
fn records_with_equal_timestamps_keep_their_catalog_order() {
    let mut store = HistoryStore::new(1 << 30);
    let ts = "2024-01-01T00:00:00+00:00";
    store.record_item(item("first", ts, None, 1));
    store.record_item(item("second", ts, None, 1));
    store.record_item(item("third", ts, None, 1));
    let listed = store.get_history(None, None);
    assert_eq!(listed[0].id, "first");
    assert_eq!(listed[1].id, "second");
    assert_eq!(listed[2].id, "third");
    // Eviction is stable too: the tie is broken by catalog order.
    let mut tight = HistoryStore::new(1);
    tight.record_item(item("first", ts, None, 1));
    tight.record_item(item("second", ts, None, 1));
    let evicted = tight.enforce_storage_budget();
    assert_eq!(evicted, vec!["first".to_string()]);
}
