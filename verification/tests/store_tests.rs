use vole_arc::{MemoryTagStore, TagStore};

#[test]
fn memory_store_accepts_each_pair_once() {
    let mut store = MemoryTagStore::default();
    assert!(store.is_empty());
    assert_eq!(store.insert_if_absent([1u8; 32], [2u8; 32]), Ok(true));
    assert_eq!(store.insert_if_absent([1u8; 32], [2u8; 32]), Ok(false));
    assert_eq!(store.insert_if_absent([1u8; 32], [3u8; 32]), Ok(true));
    assert_eq!(store.insert_if_absent([4u8; 32], [2u8; 32]), Ok(true));
    assert_eq!(store.len(), 3);
    assert!(!store.is_empty());
    assert!(store.contains(&[1u8; 32], &[3u8; 32]));
    assert!(!store.contains(&[3u8; 32], &[1u8; 32]));
}

#[test]
fn memory_store_len_counts_fresh_inserts() {
    let mut store = MemoryTagStore::new();
    let keys: [(u8, u8); 7] = [(1, 1), (1, 2), (1, 1), (2, 1), (1, 2), (2, 1), (3, 3)];
    let mut fresh: usize = 0;
    for (scope, tag) in keys {
        if store.insert_if_absent([scope; 32], [tag; 32]) == Ok(true) {
            fresh += 1;
        }
    }
    assert_eq!(fresh, 4);
    assert_eq!(store.len(), fresh);
    for (scope, tag) in keys {
        assert!(store.contains(&[scope; 32], &[tag; 32]));
    }
}

