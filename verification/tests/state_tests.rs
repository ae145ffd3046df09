use imprint::state::{State, Table};
use imprint::types;
use imprint::types::FileMetadata;

fn hash(fill: u8) -> types::Hash {
    types::Hash::from_bytes([fill; 32])
}

fn record(size: u64, fill: u8) -> FileMetadata {
    FileMetadata { size, modified: 1_700_000_000 + size, hash: hash(fill) }
}

#[test]
fn a_new_store_is_empty() {
    let state = State::new();
    assert_eq!(state.file(b"/a"), None);
    assert!(!state.is_inode_vaulted(0));
    assert_eq!(state.cas_refcount(&hash(1)), None);
    assert!(state.files().entries().is_empty());
    assert!(state.refcounts().entries().is_empty());
    assert!(state.vaulted_inodes().is_empty());
}

#[test]
fn upsert_overwrites_the_record_of_a_path() {
    let mut state = State::new();
    state.upsert_file(b"/a", record(1, 1));
    state.upsert_file(b"/b", record(2, 2));
    assert_eq!(state.file(b"/a"), Some(record(1, 1)));
    state.upsert_file(b"/a", record(3, 3));
    assert_eq!(state.file(b"/a"), Some(record(3, 3)));
    assert_eq!(state.file(b"/b"), Some(record(2, 2)));
    assert_eq!(state.file(b"/c"), None);
    assert_eq!(state.files().entries().len(), 2);
}

#[test]
fn upsert_touches_no_other_table() {
    let mut state = State::new();
    state.mark_inode_vaulted(5);
    state.set_cas_refcount(&hash(1), 4);
    state.upsert_file(b"/a", record(1, 1));
    assert!(state.is_inode_vaulted(5));
    assert_eq!(state.cas_refcount(&hash(1)), Some(4));
}

#[test]
fn marking_an_inode_is_idempotent() {
    let mut state = State::new();
    state.mark_inode_vaulted(42);
    state.mark_inode_vaulted(42);
    state.mark_inode_vaulted(7);
    assert!(state.is_inode_vaulted(42));
    assert!(state.is_inode_vaulted(7));
    assert!(!state.is_inode_vaulted(8));
    let mut inodes = state.vaulted_inodes();
    inodes.sort();
    assert_eq!(inodes, vec![7, 42]);
}

#[test]
fn refcount_is_overwritten_and_may_be_zero() {
    let mut state = State::new();
    state.set_cas_refcount(&hash(1), 3);
    assert_eq!(state.cas_refcount(&hash(1)), Some(3));
    state.set_cas_refcount(&hash(1), 0);
    assert_eq!(state.cas_refcount(&hash(1)), Some(0));
    state.set_cas_refcount(&hash(2), u64::MAX);
    assert_eq!(state.cas_refcount(&hash(2)), Some(u64::MAX));
    assert_eq!(state.cas_refcount(&hash(3)), None);
    assert_eq!(state.refcounts().entries().len(), 2);
    assert_eq!(state.refcounts().get(&[1u8; 32]), Some(0));
}

#[test]
fn a_table_written_out_and_read_back_is_the_same_table() {
    let mut table: Table<u64> = Table::new();
    table.put(b"one", 1);
    table.put(b"two", 2);
    table.put(b"one", 11);
    let mut copy: Table<u64> = Table::new();
    for (key, value) in table.entries() {
        copy.put(key, *value);
    }
    for key in [&b"one"[..], b"two", b"three"] {
        assert_eq!(copy.get(key), table.get(key));
    }
    assert_eq!(table.get(b"one"), Some(11));
    assert_eq!(table.get(b""), None);
}

#[test]
fn keys_that_share_a_prefix_are_told_apart() {
    let mut table: Table<u64> = Table::new();
    table.put(b"/a", 1);
    table.put(b"/a/b", 2);
    table.put(b"", 3);
    assert_eq!(table.get(b"/a"), Some(1));
    assert_eq!(table.get(b"/a/b"), Some(2));
    assert_eq!(table.get(b""), Some(3));
    assert_eq!(table.get(b"/a/"), None);
}
