use anttp_store::assoc::AssocMap;
use anttp_store::engine::StorageEngine;
use anttp_store::models::{PnrRecord, PnrRecords, StoreError, StoreType};

fn record(address: &str, record_type: &str, ttl: u32) -> PnrRecord {
    PnrRecord {
        address: address.to_string(),
        record_type: record_type.to_string(),
        ttl,
    }
}

fn single(key: &str, r: PnrRecord) -> PnrRecords {
    let mut m: PnrRecords = AssocMap::new();
    m.put(key.to_string(), r);
    m
}

#[test]
fn pnr_merge_append_law() {
    let mut engine = StorageEngine::new();
    engine
        .append_pnr(StoreType::Memory, "site", single("A", record("x", "chunk", 60)))
        .unwrap();
    engine
        .append_pnr(StoreType::Memory, "site", single("B", record("y", "chunk", 60)))
        .unwrap();

    let recs = engine.get_pnr(StoreType::Memory, "site").unwrap();
    assert_eq!(recs.len(), 2);
    assert_eq!(recs.get(&"A".to_string()).unwrap().address, "x");
    assert_eq!(recs.get(&"B".to_string()).unwrap().address, "y");

    // A further append overwrites the colliding key and keeps the other.
    engine
        .append_pnr(StoreType::Memory, "site", single("A", record("z", "chunk", 60)))
        .unwrap();
    let recs = engine.get_pnr(StoreType::Memory, "site").unwrap();
    assert_eq!(recs.len(), 2);
    assert_eq!(recs.get(&"A".to_string()).unwrap().address, "z");
    assert_eq!(recs.get(&"B".to_string()).unwrap().address, "y");
}

#[test]
fn pnr_create_and_get() {
    let mut engine = StorageEngine::new();
    let addr = engine.store_pnr(
        StoreType::Memory,
        "home",
        single("www", record("abc123", "archive", 300)),
    );
    assert_eq!(addr.len(), 64);
    let recs = engine.get_pnr(StoreType::Memory, "home").unwrap();
    let r = recs.get(&"www".to_string()).unwrap();
    assert_eq!(r.address, "abc123");
    assert_eq!(r.record_type, "archive");
    assert_eq!(r.ttl, 300);
}

#[test]
fn pnr_update_replaces_whole_map() {
    let mut engine = StorageEngine::new();
    engine.store_pnr(StoreType::Memory, "n", single("A", record("x", "chunk", 1)));
    engine.update_pnr(StoreType::Memory, "n", single("B", record("y", "chunk", 2)));
    let recs = engine.get_pnr(StoreType::Memory, "n").unwrap();
    assert_eq!(recs.len(), 1);
    assert!(recs.get(&"A".to_string()).is_none());
    assert_eq!(recs.get(&"B".to_string()).unwrap().address, "y");
}

#[test]
fn pnr_missing_name_is_not_found() {
    let engine = StorageEngine::new();
    assert!(matches!(
        engine.get_pnr(StoreType::Memory, "nobody"),
        Err(StoreError::NotFound)
    ));
}

#[test]
fn pnr_names_are_isolated() {
    let mut engine = StorageEngine::new();
    engine
        .append_pnr(StoreType::Memory, "one", single("A", record("x", "chunk", 1)))
        .unwrap();
    engine
        .append_pnr(StoreType::Memory, "two", single("A", record("y", "chunk", 1)))
        .unwrap();
    let one = engine.get_pnr(StoreType::Memory, "one").unwrap();
    let two = engine.get_pnr(StoreType::Memory, "two").unwrap();
    assert_eq!(one.get(&"A".to_string()).unwrap().address, "x");
    assert_eq!(two.get(&"A".to_string()).unwrap().address, "y");
}
