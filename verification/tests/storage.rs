use massa::block::BlockId;
use massa::storage::{Storage, StoredBlock};

fn id(b: u8) -> BlockId {
    BlockId::from_bytes(&[b; 32])
}

#[test]
fn store_then_retrieve() {
    let mut s: Storage<StoredBlock<String>> = Storage::new();
    assert!(s.retrieve_block(&id(1)).is_none());
    s.store_block(id(1), "one".to_string(), vec![1, 2]);
    let stored = s.retrieve_block(&id(1)).unwrap();
    assert_eq!(stored.block, "one");
    assert_eq!(stored.serialized, vec![1, 2]);
    assert_eq!(stored.serialized_header, None);
    assert!(s.retrieve_block(&id(2)).is_none());
}

#[test]
fn store_replaces_block() {
    let mut s: Storage<StoredBlock<u32>> = Storage::default();
    s.store_block(id(1), 10, vec![1]);
    s.retrieve_block_mut(&id(1)).unwrap().serialized_header = Some(vec![9]);
    s.store_block(id(1), 20, vec![2]);
    let stored = s.retrieve_block(&id(1)).unwrap();
    assert_eq!(stored.block, 20);
    assert_eq!(stored.serialized, vec![2]);
    assert_eq!(stored.serialized_header, None);
}

#[test]
fn store_entry_replaces_entry() {
    let mut s: Storage<u8> = Storage::new();
    s.store(id(1), 1);
    s.store(id(2), 2);
    s.store(id(1), 3);
    assert_eq!(s.retrieve_block(&id(1)), Some(&3));
    assert_eq!(s.retrieve_block(&id(2)), Some(&2));
}

#[test]
fn remove_blocks_removes_listed_only() {
    let mut s: Storage<StoredBlock<u32>> = Storage::new();
    for b in 1..=4u8 {
        s.store_block(id(b), b as u32, vec![b]);
    }
    s.remove_blocks(&[id(2), id(9), id(4), id(2)]);
    assert!(s.retrieve_block(&id(2)).is_none());
    assert!(s.retrieve_block(&id(4)).is_none());
    assert_eq!(s.retrieve_block(&id(1)).unwrap().block, 1);
    assert_eq!(s.retrieve_block(&id(3)).unwrap().block, 3);
    s.remove_blocks(&[]);
    assert_eq!(s.retrieve_block(&id(3)).unwrap().block, 3);
}

#[test]
fn header_written_in_place() {
    let mut s: Storage<StoredBlock<u32>> = Storage::new();
    s.store_block(id(5), 5, vec![5]);
    assert!(s.retrieve_block_mut(&id(6)).is_none());
    s.retrieve_block_mut(&id(5)).unwrap().serialized_header = Some(vec![7, 7]);
    assert_eq!(s.retrieve_block(&id(5)).unwrap().serialized_header, Some(vec![7, 7]));
    assert_eq!(s.retrieve_block(&id(5)).unwrap().block, 5);
}

#[test]
fn block_id_bytes_and_comparison() {
    let a = id(3);
    assert_eq!(a.to_bytes(), [3u8; 32]);
    assert!(a.same_as(&id(3)));
    assert!(!a.same_as(&id(4)));
}
