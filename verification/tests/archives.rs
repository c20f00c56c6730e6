use anttp_store::engine::StorageEngine;
use anttp_store::models::{ArchiveFile, StoreError, StoreType};

fn sample_files() -> Vec<ArchiveFile> {
    vec![
        ArchiveFile {
            path: "docs/readme.txt".to_string(),
            content: b"hello".to_vec(),
        },
        ArchiveFile {
            path: "img/logo.png".to_string(),
            content: vec![1u8, 2, 3, 4],
        },
    ]
}

#[test]
fn archive_round_trip() {
    let mut engine = StorageEngine::new();
    let addr = engine.store_archive(StoreType::Memory, sample_files());
    assert_eq!(addr.len(), 64);
    let files = engine.get_archive(StoreType::Memory, &addr).unwrap();
    assert_eq!(files.len(), 2);
    assert_eq!(files[0].path, "docs/readme.txt");
    assert_eq!(files[0].content, b"hello".to_vec());
    assert_eq!(files[1].path, "img/logo.png");
    assert_eq!(files[1].content, vec![1u8, 2, 3, 4]);
}

#[test]
fn archive_address_is_content_derived() {
    let mut engine1 = StorageEngine::new();
    let mut engine2 = StorageEngine::new();
    let a1 = engine1.store_archive(StoreType::Memory, sample_files());
    let a2 = engine2.store_archive(StoreType::Memory, sample_files());
    assert_eq!(a1, a2);
}

#[test]
fn archive_file_lookup() {
    let mut engine = StorageEngine::new();
    let addr = engine.store_archive(StoreType::Memory, sample_files());
    let content = engine
        .get_archive_file(StoreType::Memory, &addr, &"img/logo.png".to_string())
        .unwrap();
    assert_eq!(content, vec![1u8, 2, 3, 4]);
    assert_eq!(
        engine.get_archive_file(StoreType::Memory, &addr, &"missing".to_string()),
        Err(StoreError::NotFound)
    );
}

#[test]
fn archive_missing_address_is_not_found() {
    let engine = StorageEngine::new();
    let addr = "b".repeat(64);
    assert_eq!(
        engine.get_archive(StoreType::Memory, &addr),
        Err(StoreError::NotFound)
    );
}

#[test]
fn tarchive_has_its_own_address() {
    let mut engine = StorageEngine::new();
    let a1 = engine.store_archive(StoreType::Memory, sample_files());
    let a2 = engine.store_tarchive(StoreType::Memory, sample_files());
    // Same files, different archive kinds: distinct serialized units.
    assert_ne!(a1, a2);
}

#[test]
fn archive_reading_wrong_kind_is_internal() {
    let mut engine = StorageEngine::new();
    let addr = engine.store_tarchive(StoreType::Memory, sample_files());
    assert_eq!(
        engine.get_archive(StoreType::Memory, &addr),
        Err(StoreError::Internal)
    );
}

#[test]
fn empty_archive_round_trip() {
    let mut engine = StorageEngine::new();
    let addr = engine.store_archive(StoreType::Memory, Vec::new());
    let files = engine.get_archive(StoreType::Memory, &addr).unwrap();
    assert!(files.is_empty());
}
