use anttp_store::engine::StorageEngine;
use anttp_store::models::{StoreError, StoreType};

#[test]
fn chunk_base64_round_trip() {
    let mut engine = StorageEngine::new();
    let addr = engine
        .create_chunk(StoreType::Memory, "SGVsbG8=")
        .expect("valid base64 must be accepted");
    assert_eq!(addr.len(), 64);
    let content = engine
        .get_chunk(StoreType::Memory, &addr)
        .expect("stored chunk must be retrievable");
    assert_eq!(content, "SGVsbG8=");
}

#[test]
fn chunk_reinsertion_is_idempotent() {
    let mut engine = StorageEngine::new();
    let addr1 = engine.create_chunk(StoreType::Memory, "SGVsbG8=").unwrap();
    let len_after_first = engine.store_len();
    let addr2 = engine.create_chunk(StoreType::Memory, "SGVsbG8=").unwrap();
    assert_eq!(addr1, addr2);
    assert_eq!(engine.store_len(), len_after_first);
}

#[test]
fn chunk_binary_round_trip() {
    let mut engine = StorageEngine::new();
    let data = vec![0u8, 1, 2, 254, 255];
    let addr = engine.store_chunk(StoreType::Memory, data.clone());
    let back = engine
        .get_chunk_bytes(StoreType::Memory, &addr)
        .expect("stored bytes must be retrievable");
    assert_eq!(back, data);
}

#[test]
fn chunk_store_is_deterministic() {
    let mut engine1 = StorageEngine::new();
    let mut engine2 = StorageEngine::new();
    let a1 = engine1.store_chunk(StoreType::Memory, b"same bytes".to_vec());
    let a2 = engine2.store_chunk(StoreType::Memory, b"same bytes".to_vec());
    assert_eq!(a1, a2);
}

#[test]
fn chunk_rejects_invalid_base64() {
    let mut engine = StorageEngine::new();
    let r = engine.create_chunk(StoreType::Memory, "not base64 !!!");
    assert_eq!(r, Err(StoreError::InvalidEncoding));
    assert_eq!(engine.store_len(), 0);
}

#[test]
fn chunk_missing_address_is_not_found() {
    let engine = StorageEngine::new();
    let addr = "0".repeat(64);
    assert_eq!(engine.get_chunk(StoreType::Memory, &addr), Err(StoreError::NotFound));
    assert_eq!(
        engine.get_chunk_bytes(StoreType::Memory, &addr),
        Err(StoreError::NotFound)
    );
}

#[test]
fn network_intent_falls_back_to_memory() {
    let mut engine = StorageEngine::new();
    let addr = engine.store_chunk(StoreType::Network, b"durable?".to_vec());
    // The silent downgrade stores into the same in-memory store.
    let back = engine.get_chunk_bytes(StoreType::Memory, &addr).unwrap();
    assert_eq!(back, b"durable?".to_vec());
}

#[test]
fn public_data_shares_chunk_semantics() {
    let mut engine = StorageEngine::new();
    let addr = engine.store_public_data(StoreType::Disk, vec![9u8, 8, 7]);
    let back = engine.get_public_data(StoreType::Disk, &addr).unwrap();
    assert_eq!(back, vec![9u8, 8, 7]);
    let again = engine.store_public_data(StoreType::Disk, vec![9u8, 8, 7]);
    assert_eq!(addr, again);
}
