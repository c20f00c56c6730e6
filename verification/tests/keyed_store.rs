use anttp_store::assoc::AssocMap;

#[test]
fn keyed_store_put_and_get() {
    let mut store: AssocMap<Vec<u8>> = AssocMap::new();
    assert_eq!(store.len(), 0);
    store.put("alpha".to_string(), vec![1u8, 2]);
    store.put("beta".to_string(), vec![3u8]);
    assert_eq!(store.len(), 2);
    assert!(store.contains(&"alpha".to_string()));
    assert_eq!(store.get(&"alpha".to_string()), Some(&vec![1u8, 2]));
    assert_eq!(store.get(&"beta".to_string()), Some(&vec![3u8]));
    assert_eq!(store.get(&"gamma".to_string()), None);
}

#[test]
fn keyed_store_overwrites_without_growing() {
    let mut store: AssocMap<Vec<u8>> = AssocMap::new();
    store.put("key".to_string(), vec![1u8]);
    store.put("key".to_string(), vec![2u8]);
    assert_eq!(store.len(), 1);
    assert_eq!(store.get(&"key".to_string()), Some(&vec![2u8]));
}

#[test]
fn keyed_store_merge_prefers_new_values() {
    let mut base: AssocMap<Vec<u8>> = AssocMap::new();
    base.put("a".to_string(), vec![1u8]);
    base.put("b".to_string(), vec![2u8]);
    let mut overlay: AssocMap<Vec<u8>> = AssocMap::new();
    overlay.put("b".to_string(), vec![20u8]);
    overlay.put("c".to_string(), vec![30u8]);
    base.merge_from(overlay);
    assert_eq!(base.get(&"a".to_string()), Some(&vec![1u8]));
    assert_eq!(base.get(&"b".to_string()), Some(&vec![20u8]));
    assert_eq!(base.get(&"c".to_string()), Some(&vec![30u8]));
    assert_eq!(base.len(), 3);
}
