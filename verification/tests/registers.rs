use anttp_store::engine::StorageEngine;
use anttp_store::models::{StoreError, StoreType};

#[test]
fn register_create_update_history() {
    let mut engine = StorageEngine::new();
    let addr = engine
        .create_register(StoreType::Memory, "r1", "48656c6c6f")
        .expect("hex content must be accepted");
    let current = engine.get_register(StoreType::Memory, &addr).unwrap();
    assert_eq!(current, "48656c6c6f");

    engine
        .update_register(StoreType::Memory, &addr, "r1", "576f726c64")
        .expect("update of a live register must succeed");
    let current = engine.get_register(StoreType::Memory, &addr).unwrap();
    assert_eq!(current, "576f726c64");

    let history = engine.get_register_history(StoreType::Memory, &addr).unwrap();
    assert_eq!(history.len(), 2);
    assert_eq!(history[0].content, "48656c6c6f");
    assert_eq!(history[1].content, "576f726c64");
}

#[test]
fn register_current_value_always_last_history_entry() {
    let mut engine = StorageEngine::new();
    let addr = engine.create_register(StoreType::Memory, "r", "00").unwrap();
    for content in ["01", "02", "03"] {
        engine
            .update_register(StoreType::Memory, &addr, "r", content)
            .unwrap();
        let current = engine.get_register(StoreType::Memory, &addr).unwrap();
        let history = engine.get_register_history(StoreType::Memory, &addr).unwrap();
        assert_eq!(history.last().unwrap().content, current);
    }
    assert_eq!(
        engine
            .get_register_history(StoreType::Memory, &addr)
            .unwrap()
            .len(),
        4
    );
}

#[test]
fn register_rejects_non_hex_content() {
    let mut engine = StorageEngine::new();
    let r = engine.create_register(StoreType::Memory, "r1", "not-hex!!");
    assert_eq!(r, Err(StoreError::InvalidEncoding));
    // The failed create leaves no retrievable key behind.
    assert_eq!(engine.store_len(), 0);
}

#[test]
fn register_rejects_odd_length_hex() {
    let mut engine = StorageEngine::new();
    let r = engine.create_register(StoreType::Memory, "r1", "abc");
    assert_eq!(r, Err(StoreError::InvalidEncoding));
}

#[test]
fn register_update_rejects_non_hex() {
    let mut engine = StorageEngine::new();
    let addr = engine.create_register(StoreType::Memory, "r1", "ab").unwrap();
    let r = engine.update_register(StoreType::Memory, &addr, "r1", "zz");
    assert_eq!(r, Err(StoreError::InvalidEncoding));
    assert_eq!(engine.get_register(StoreType::Memory, &addr).unwrap(), "ab");
}

#[test]
fn register_missing_address_is_not_found() {
    let engine = StorageEngine::new();
    let addr = "f".repeat(64);
    assert_eq!(
        engine.get_register(StoreType::Memory, &addr),
        Err(StoreError::NotFound)
    );
    assert_eq!(
        engine.get_register_history(StoreType::Memory, &addr),
        Err(StoreError::NotFound)
    );
}

#[test]
fn register_same_inputs_same_address() {
    let mut engine1 = StorageEngine::new();
    let mut engine2 = StorageEngine::new();
    let a1 = engine1.create_register(StoreType::Memory, "r1", "ab").unwrap();
    let a2 = engine2.create_register(StoreType::Memory, "r1", "ab").unwrap();
    assert_eq!(a1, a2);
}

#[test]
fn register_reading_a_chunk_address_is_internal() {
    let mut engine = StorageEngine::new();
    let addr = engine.store_chunk(StoreType::Memory, b"raw".to_vec());
    assert_eq!(
        engine.get_register(StoreType::Memory, &addr),
        Err(StoreError::Internal)
    );
}
