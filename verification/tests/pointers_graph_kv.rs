use anttp_store::engine::StorageEngine;
use anttp_store::models::{StoreError, StoreType};

#[test]
fn pointer_create_update_get() {
    let mut engine = StorageEngine::new();
    let addr = engine.store_pointer(StoreType::Memory, "bookmark", "target-1");
    assert_eq!(addr.len(), 64);
    assert_eq!(
        engine.get_pointer(StoreType::Memory, &addr).unwrap(),
        "target-1"
    );
    engine.update_pointer(StoreType::Memory, &addr, "bookmark", "target-2");
    assert_eq!(
        engine.get_pointer(StoreType::Memory, &addr).unwrap(),
        "target-2"
    );
}

#[test]
fn pointer_update_keeps_no_history() {
    let mut engine = StorageEngine::new();
    let addr = engine.store_pointer(StoreType::Memory, "b", "t1");
    let len_before = engine.store_len();
    engine.update_pointer(StoreType::Memory, &addr, "b", "t2");
    assert_eq!(engine.store_len(), len_before);
}

#[test]
fn pointer_missing_address_is_not_found() {
    let engine = StorageEngine::new();
    let addr = "a".repeat(64);
    assert_eq!(
        engine.get_pointer(StoreType::Memory, &addr),
        Err(StoreError::NotFound)
    );
}

#[test]
fn graph_entry_round_trip() {
    let mut engine = StorageEngine::new();
    let addr = engine
        .create_graph_entry(StoreType::Memory, "node-1", "cafe0123")
        .unwrap();
    let (name, content) = engine.get_graph_entry(StoreType::Memory, &addr).unwrap();
    assert_eq!(name, "node-1");
    assert_eq!(content, "cafe0123");
}

#[test]
fn graph_entry_rejects_non_hex() {
    let mut engine = StorageEngine::new();
    assert_eq!(
        engine.create_graph_entry(StoreType::Memory, "n", "xyz!"),
        Err(StoreError::InvalidEncoding)
    );
    assert_eq!(engine.store_len(), 0);
}

#[test]
fn key_value_round_trip() {
    let mut engine = StorageEngine::new();
    let addr = engine
        .create_key_value(StoreType::Memory, "photos", "vacation.jpg", "aW1hZ2U=")
        .unwrap();
    assert_eq!(addr.len(), 64);
    assert_eq!(
        engine
            .get_key_value(StoreType::Memory, "photos", "vacation.jpg")
            .unwrap(),
        "aW1hZ2U="
    );
}

#[test]
fn key_value_rejects_invalid_base64() {
    let mut engine = StorageEngine::new();
    assert_eq!(
        engine.create_key_value(StoreType::Memory, "b", "o", "???"),
        Err(StoreError::InvalidEncoding)
    );
    assert_eq!(engine.store_len(), 0);
}

#[test]
fn key_value_compound_keys_are_distinct() {
    let mut engine = StorageEngine::new();
    engine
        .create_key_value(StoreType::Memory, "bucket1", "obj", "YQ==")
        .unwrap();
    engine
        .create_key_value(StoreType::Memory, "bucket2", "obj", "Yg==")
        .unwrap();
    assert_eq!(
        engine.get_key_value(StoreType::Memory, "bucket1", "obj").unwrap(),
        "YQ=="
    );
    assert_eq!(
        engine.get_key_value(StoreType::Memory, "bucket2", "obj").unwrap(),
        "Yg=="
    );
}

#[test]
fn key_value_separator_in_names_does_not_alias() {
    let mut engine = StorageEngine::new();
    engine
        .create_key_value(StoreType::Memory, "a", "b:c", "YQ==")
        .unwrap();
    // ("a", "b:c") and ("a:b", "c") are distinct pairs: writing one never
    // makes the other appear.
    assert_eq!(
        engine.get_key_value(StoreType::Memory, "a:b", "c"),
        Err(StoreError::NotFound)
    );
    engine
        .create_key_value(StoreType::Memory, "a:b", "c", "Yg==")
        .unwrap();
    assert_eq!(
        engine.get_key_value(StoreType::Memory, "a", "b:c").unwrap(),
        "YQ=="
    );
    assert_eq!(
        engine.get_key_value(StoreType::Memory, "a:b", "c").unwrap(),
        "Yg=="
    );
}

#[test]
fn key_value_missing_is_not_found() {
    let engine = StorageEngine::new();
    assert_eq!(
        engine.get_key_value(StoreType::Memory, "no", "thing"),
        Err(StoreError::NotFound)
    );
}
