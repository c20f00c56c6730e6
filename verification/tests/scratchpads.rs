use anttp_store::engine::StorageEngine;
use anttp_store::models::{StoreError, StoreType};

#[test]
fn public_scratchpad_round_trip() {
    let mut engine = StorageEngine::new();
    let addr = engine
        .create_public_scratchpad(StoreType::Memory, "board", "SGVsbG8=")
        .unwrap();
    let content = engine.get_public_scratchpad(StoreType::Memory, &addr).unwrap();
    assert_eq!(content, "SGVsbG8=");
}

#[test]
fn public_scratchpad_overwrites_in_place() {
    let mut engine = StorageEngine::new();
    let addr = engine
        .create_public_scratchpad(StoreType::Memory, "board", "SGVsbG8=")
        .unwrap();
    let len_before = engine.store_len();
    engine
        .update_public_scratchpad(StoreType::Memory, &addr, "board", "V29ybGQ=")
        .unwrap();
    assert_eq!(
        engine.get_public_scratchpad(StoreType::Memory, &addr).unwrap(),
        "V29ybGQ="
    );
    assert_eq!(engine.store_len(), len_before);
}

#[test]
fn scratchpad_rejects_invalid_base64() {
    let mut engine = StorageEngine::new();
    assert_eq!(
        engine.create_public_scratchpad(StoreType::Memory, "b", "%%%"),
        Err(StoreError::InvalidEncoding)
    );
    assert_eq!(
        engine.create_private_scratchpad(StoreType::Memory, "b", "%%%"),
        Err(StoreError::InvalidEncoding)
    );
    assert_eq!(engine.store_len(), 0);
}

#[test]
fn private_scratchpad_round_trip() {
    let mut engine = StorageEngine::new();
    let addr = engine
        .create_private_scratchpad(StoreType::Memory, "alice", "SGVsbG8=")
        .unwrap();
    let content = engine
        .get_private_scratchpad(StoreType::Memory, &addr, "alice")
        .unwrap();
    assert_eq!(content, "SGVsbG8=");
}

#[test]
fn private_scratchpad_namespaces_are_isolated() {
    let mut engine = StorageEngine::new();
    let addr = "shared-address".to_string();
    engine
        .update_private_scratchpad(StoreType::Memory, &addr, "alice", "YWxpY2U=")
        .unwrap();
    engine
        .update_private_scratchpad(StoreType::Memory, &addr, "bob", "Ym9i")
        .unwrap();
    assert_eq!(
        engine
            .get_private_scratchpad(StoreType::Memory, &addr, "alice")
            .unwrap(),
        "YWxpY2U="
    );
    assert_eq!(
        engine
            .get_private_scratchpad(StoreType::Memory, &addr, "bob")
            .unwrap(),
        "Ym9i"
    );
    // Overwriting one namespace never affects reading the other.
    engine
        .update_private_scratchpad(StoreType::Memory, &addr, "alice", "bmV3")
        .unwrap();
    assert_eq!(
        engine
            .get_private_scratchpad(StoreType::Memory, &addr, "bob")
            .unwrap(),
        "Ym9i"
    );
    assert_eq!(
        engine
            .get_private_scratchpad(StoreType::Memory, &addr, "alice")
            .unwrap(),
        "bmV3"
    );
}

#[test]
fn private_scratchpad_missing_name_is_not_found() {
    let mut engine = StorageEngine::new();
    let addr = engine
        .create_private_scratchpad(StoreType::Memory, "alice", "SGVsbG8=")
        .unwrap();
    assert_eq!(
        engine.get_private_scratchpad(StoreType::Memory, &addr, "bob"),
        Err(StoreError::NotFound)
    );
}
