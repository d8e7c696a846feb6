use memory_store::document::{delete_from, load_from, save_into, StoreError, StoredDocument};
use memory_store::order::sort_newest_first;
use memory_store::record::MemoryItem;
use memory_store::store::MemoryStore;

fn item(id: &str, timestamp: u64, agent_type: &str, topic: &str) -> MemoryItem {
    MemoryItem::new(
        id.to_string(),
        timestamp,
        agent_type.to_string(),
        topic.to_string(),
        format!("note {}", id),
        None,
    )
}

fn save_all(items: Vec<MemoryItem>) -> MemoryStore {
    let mut doc = StoredDocument::Missing;
    for m in items {
        doc = StoredDocument::Parsed(save_into(doc, m));
    }
    match doc {
        StoredDocument::Parsed(s) => s,
        _ => MemoryStore::new(),
    }
}

fn ids(v: &[MemoryItem]) -> Vec<String> {
    v.iter().map(|m| m.id.clone()).collect()
}

fn load_all(store: MemoryStore) -> Vec<MemoryItem> {
    match load_from(StoredDocument::Parsed(store), None, None, None) {
        Ok(v) => v,
        Err(_) => panic!("load failed"),
    }
}

#[test]
fn save_then_load_returns_the_record() {
    let mut m = item("a", 42, "robot", "greeting");
    m.tags = Some(vec!["x".to_string(), "y".to_string()]);
    let store = save_all(vec![m.clone()]);
    assert_eq!(load_all(store), vec![m]);
}

#[test]
fn save_keeps_absent_tags_absent() {
    let m = item("a", 1, "robot", "t");
    let store = save_all(vec![m.clone()]);
    let out = load_all(store);
    assert_eq!(out[0].tags, None);
    assert_eq!(out, vec![m]);
}

#[test]
fn upsert_same_id_twice_keeps_latest_values() {
    let first = item("a", 1, "robot", "old");
    let mut second = item("a", 7, "human", "new");
    second.content = "changed".to_string();
    second.tags = Some(vec!["t".to_string()]);
    let store = save_all(vec![item("b", 3, "robot", "x"), first, second.clone()]);
    let out = load_all(store);
    assert_eq!(out.len(), 2);
    assert_eq!(out.iter().filter(|m| m.id == "a").count(), 1);
    assert_eq!(out[0], second);
}

#[test]
fn upsert_moves_updated_record_by_its_new_timestamp() {
    let store = save_all(vec![
        item("a", 10, "r", "t"),
        item("b", 20, "r", "t"),
        item("a", 30, "r", "t"),
    ]);
    assert_eq!(ids(&load_all(store)), vec!["a", "b"]);
}

#[test]
fn load_orders_newest_first() {
    let store = save_all(vec![item("p", 5, "r", "t"), item("q", 20, "r", "t"), item("s", 1, "r", "t")]);
    let out = load_all(store);
    let ts: Vec<u64> = out.iter().map(|m| m.timestamp).collect();
    assert_eq!(ts, vec![20, 5, 1]);
}

#[test]
fn equal_timestamps_keep_their_order() {
    let v = vec![item("a", 5, "r", "t"), item("b", 9, "r", "t"), item("c", 5, "r", "t"), item("d", 5, "r", "t")];
    assert_eq!(ids(&sort_newest_first(v)), vec!["b", "a", "c", "d"]);
}

#[test]
fn sort_of_empty_is_empty() {
    assert!(sort_newest_first(Vec::new()).is_empty());
}

#[test]
fn filters_combine_with_and() {
    let store = save_all(vec![item("1", 3, "A", "X"), item("2", 2, "A", "Y"), item("3", 1, "B", "X")]);
    let out = load_from(StoredDocument::Parsed(store), Some("A".to_string()), Some("X".to_string()), None);
    match out {
        Ok(v) => assert_eq!(ids(&v), vec!["1"]),
        Err(_) => panic!("load failed"),
    }
}

#[test]
fn single_filters_select_by_one_field() {
    let records = || vec![item("1", 3, "A", "X"), item("2", 2, "A", "Y"), item("3", 1, "B", "X")];
    let by_type = save_all(records()).select(Some("A".to_string()), None, None);
    assert_eq!(ids(&by_type), vec!["1", "2"]);
    let by_topic = save_all(records()).select(None, Some("X".to_string()), None);
    assert_eq!(ids(&by_topic), vec!["1", "3"]);
    let none = save_all(records()).select(Some("C".to_string()), None, None);
    assert!(none.is_empty());
}

#[test]
fn limit_keeps_the_most_recent() {
    let store = save_all(vec![
        item("a", 10, "r", "t"),
        item("b", 50, "r", "t"),
        item("c", 30, "r", "t"),
        item("d", 40, "r", "t"),
        item("e", 20, "r", "t"),
    ]);
    let out = store.select(None, None, Some(2));
    assert_eq!(ids(&out), vec!["b", "d"]);
}

#[test]
fn limit_applies_after_filters() {
    let store = save_all(vec![
        item("a", 10, "A", "t"),
        item("b", 50, "B", "t"),
        item("c", 30, "A", "t"),
        item("d", 40, "A", "t"),
    ]);
    let out = store.select(Some("A".to_string()), None, Some(2));
    assert_eq!(ids(&out), vec!["d", "c"]);
}

#[test]
fn limit_zero_and_oversized_limit() {
    let records = || vec![item("a", 1, "r", "t"), item("b", 2, "r", "t")];
    assert!(save_all(records()).select(None, None, Some(0)).is_empty());
    assert_eq!(ids(&save_all(records()).select(None, None, Some(9))), vec!["b", "a"]);
}

#[test]
fn delete_removes_only_the_target() {
    let store = save_all(vec![item("a", 1, "r", "t"), item("b", 2, "r", "t"), item("c", 3, "r", "t")]);
    match delete_from(StoredDocument::Parsed(store), &"b".to_string()) {
        Ok(Some(s)) => assert_eq!(ids(&load_all(s)), vec!["c", "a"]),
        _ => panic!("delete failed"),
    }
}

#[test]
fn delete_of_absent_id_changes_nothing() {
    let before = save_all(vec![item("a", 1, "r", "t"), item("b", 2, "r", "t")]);
    let expected = load_all(save_all(vec![item("a", 1, "r", "t"), item("b", 2, "r", "t")]));
    match delete_from(StoredDocument::Parsed(before), &"zzz".to_string()) {
        Ok(Some(s)) => assert_eq!(load_all(s), expected),
        _ => panic!("delete failed"),
    }
}

#[test]
fn delete_removes_every_duplicate() {
    let mut store = MemoryStore::from_items(vec![item("a", 1, "r", "t"), item("b", 2, "r", "t"), item("a", 3, "r", "t")]);
    store.delete(&"a".to_string());
    assert_eq!(ids(&store.into_items()), vec!["b"]);
}

#[test]
fn delete_without_document_writes_nothing() {
    assert!(matches!(delete_from(StoredDocument::Missing, &"a".to_string()), Ok(None)));
}

#[test]
fn delete_on_malformed_document_is_error() {
    let r = delete_from(StoredDocument::Malformed("bad".to_string()), &"a".to_string());
    match r {
        Err(StoreError::Parse(msg)) => assert_eq!(msg, "bad"),
        _ => panic!("expected a parse error"),
    }
}

#[test]
fn load_without_document_is_empty() {
    match load_from(StoredDocument::Missing, None, None, None) {
        Ok(v) => assert!(v.is_empty()),
        Err(_) => panic!("expected no records"),
    }
}

#[test]
fn load_on_malformed_document_is_error() {
    let r = load_from(StoredDocument::Malformed("eof".to_string()), None, None, Some(3));
    match r {
        Err(StoreError::Parse(msg)) => assert_eq!(msg, "eof"),
        Ok(_) => panic!("expected a parse error"),
    }
}

#[test]
fn save_over_malformed_document_keeps_only_new_record() {
    let m = item("new", 9, "r", "t");
    let store = save_into(StoredDocument::Malformed("garbage".to_string()), m.clone());
    assert_eq!(load_all(store), vec![m]);
}

#[test]
fn save_over_existing_store_keeps_old_records() {
    let existing = MemoryStore::from_items(vec![item("a", 4, "r", "t")]);
    let store = save_into(StoredDocument::Parsed(existing), item("b", 8, "r", "t"));
    assert_eq!(ids(&store.into_items()), vec!["b", "a"]);
}

#[test]
fn upsert_replaces_first_of_duplicate_ids() {
    let mut store = MemoryStore::from_items(vec![item("a", 5, "r", "one"), item("a", 5, "r", "two")]);
    store.upsert(item("a", 5, "r", "three"));
    let topics: Vec<String> = store.into_items().iter().map(|m| m.topic.clone()).collect();
    assert_eq!(topics, vec!["three", "two"]);
}

#[test]
fn saves_with_equal_timestamps_keep_save_order() {
    let store = save_all(vec![item("a", 5, "r", "t"), item("b", 5, "r", "t"), item("c", 6, "r", "t")]);
    assert_eq!(ids(&load_all(store)), vec!["c", "a", "b"]);
}
