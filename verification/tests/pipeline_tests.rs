use imprint::pipeline::{
    crowded_groups, display_name, duplicate_candidates, duplicate_groups, full_groups, group_by_hash,
    is_temp_file, sparse_candidates, sparse_groups, FullyHashed, HashGroup, Hashed, Probe, ScanPhase,
    ScanReply, ScanRequest, ScanRun,
};
use imprint::scanner::{ScannedFile, SizeBucket};
use imprint::state::State;
use imprint::types;
use imprint::types::FileMetadata;

fn p(text: &str) -> Vec<u8> {
    text.as_bytes().to_vec()
}

fn ps(texts: &[&str]) -> Vec<Vec<u8>> {
    texts.iter().map(|t| p(t)).collect()
}

fn hash(fill: u8) -> types::Hash {
    types::Hash::from_bytes([fill; 32])
}

fn hashed(fill: u8, path: &str) -> Hashed {
    Hashed { hash: hash(fill), path: p(path) }
}

fn full(path: &str, size: u64, fill: u8) -> FullyHashed {
    FullyHashed { path: p(path), metadata: FileMetadata { size, modified: 99, hash: hash(fill) } }
}

fn probe(path: &str, inode: u64) -> Probe {
    Probe { path: p(path), inode }
}

#[test]
fn group_by_hash_keeps_first_seen_order_of_groups_and_paths() {
    let items = vec![hashed(2, "/a"), hashed(1, "/b"), hashed(2, "/c"), hashed(3, "/d"), hashed(1, "/e")];
    assert_eq!(
        group_by_hash(&items),
        vec![
            HashGroup { hash: hash(2), paths: ps(&["/a", "/c"]) },
            HashGroup { hash: hash(1), paths: ps(&["/b", "/e"]) },
            HashGroup { hash: hash(3), paths: ps(&["/d"]) },
        ]
    );
    assert_eq!(group_by_hash(&vec![]), vec![]);
}

#[test]
fn hashes_that_differ_in_one_byte_are_different_groups() {
    let mut near = [7u8; 32];
    near[31] = 8;
    let items = vec![
        Hashed { hash: hash(7), path: p("/a") },
        Hashed { hash: types::Hash::from_bytes(near), path: p("/b") },
    ];
    assert_eq!(group_by_hash(&items).len(), 2);
}

#[test]
fn singleton_size_buckets_are_discarded() {
    let buckets = vec![
        SizeBucket { size: 1, paths: ps(&["/a"]) },
        SizeBucket { size: 2, paths: ps(&["/b", "/c"]) },
        SizeBucket { size: 3, paths: ps(&[]) },
        SizeBucket { size: 4, paths: ps(&["/d", "/e", "/f"]) },
    ];
    assert_eq!(duplicate_candidates(buckets), vec![ps(&["/b", "/c"]), ps(&["/d", "/e", "/f"])]);
    assert_eq!(duplicate_candidates(vec![]), Vec::<Vec<Vec<u8>>>::new());
}

#[test]
fn vaulted_inodes_are_skipped_at_the_sparse_stage() {
    let mut store = State::new();
    store.mark_inode_vaulted(11);
    let probes = vec![probe("/a", 10), probe("/b", 11), probe("/c", 12), probe("/d", 11)];
    assert_eq!(sparse_candidates(&store, probes), ps(&["/a", "/c"]));
}

#[test]
fn a_bucket_that_collapses_to_one_path_is_not_hashed() {
    let mut store = State::new();
    store.mark_inode_vaulted(11);
    assert_eq!(sparse_candidates(&store, vec![probe("/a", 10), probe("/b", 11)]), ps(&[]));
    assert_eq!(sparse_candidates(&store, vec![probe("/b", 11), probe("/c", 11)]), ps(&[]));
    assert_eq!(sparse_candidates(&store, vec![]), ps(&[]));
    assert_eq!(sparse_candidates(&store, vec![probe("/a", 1), probe("/b", 2)]), ps(&["/a", "/b"]));
}

#[test]
fn sparse_groups_keep_only_groups_of_two_or_more() {
    let items = vec![hashed(1, "/a"), hashed(2, "/b"), hashed(1, "/c"), hashed(3, "/d"), hashed(3, "/e")];
    assert_eq!(sparse_groups(&items), vec![ps(&["/a", "/c"]), ps(&["/d", "/e"])]);
    assert_eq!(sparse_groups(&vec![hashed(1, "/a"), hashed(2, "/b")]), Vec::<Vec<Vec<u8>>>::new());
}

#[test]
fn crowded_groups_drop_the_hashes() {
    let groups = vec![
        HashGroup { hash: hash(1), paths: ps(&["/a"]) },
        HashGroup { hash: hash(2), paths: ps(&["/b", "/c"]) },
    ];
    assert_eq!(crowded_groups(groups), vec![ps(&["/b", "/c"])]);
}

#[test]
fn the_full_stage_records_files_groups_them_and_counts_duplicates() {
    let mut store = State::new();
    store.mark_inode_vaulted(3);
    let files = vec![full("/a", 5, 1), full("/b", 5, 2), full("/c", 5, 1), full("/d", 5, 1)];
    let groups = full_groups(&mut store, &files, false);
    assert_eq!(
        groups,
        vec![
            HashGroup { hash: hash(1), paths: ps(&["/a", "/c", "/d"]) },
            HashGroup { hash: hash(2), paths: ps(&["/b"]) },
        ]
    );
    for file in &files {
        assert_eq!(store.file(&file.path), Some(file.metadata));
    }
    assert_eq!(store.cas_refcount(&hash(1)), Some(3));
    assert_eq!(store.cas_refcount(&hash(2)), None);
    assert!(store.is_inode_vaulted(3));
    assert_eq!(duplicate_groups(&groups), 1);
}

#[test]
fn the_full_stage_overwrites_older_records_and_counts() {
    let mut store = State::new();
    store.upsert_file(b"/a", FileMetadata { size: 1, modified: 1, hash: hash(9) });
    store.set_cas_refcount(&hash(1), 77);
    let files = vec![full("/a", 5, 1), full("/b", 5, 1)];
    full_groups(&mut store, &files, false);
    assert_eq!(store.file(b"/a"), Some(files[0].metadata));
    assert_eq!(store.cas_refcount(&hash(1)), Some(2));
}

#[test]
fn a_dry_run_of_the_full_stage_leaves_the_store_alone() {
    let mut store = State::new();
    store.set_cas_refcount(&hash(1), 77);
    let files = vec![full("/a", 5, 1), full("/b", 5, 1)];
    let groups = full_groups(&mut store, &files, true);
    assert_eq!(groups, vec![HashGroup { hash: hash(1), paths: ps(&["/a", "/b"]) }]);
    assert_eq!(store.file(b"/a"), None);
    assert_eq!(store.file(b"/b"), None);
    assert_eq!(store.cas_refcount(&hash(1)), Some(77));
    assert!(store.files().entries().is_empty());
}

#[test]
fn duplicate_groups_counts_groups_of_two_or_more() {
    assert_eq!(duplicate_groups(&vec![]), 0);
    let groups = vec![
        HashGroup { hash: hash(1), paths: ps(&["/a"]) },
        HashGroup { hash: hash(2), paths: ps(&["/b", "/c"]) },
        HashGroup { hash: hash(3), paths: ps(&[]) },
        HashGroup { hash: hash(4), paths: ps(&["/d", "/e", "/f"]) },
    ];
    assert_eq!(duplicate_groups(&groups), 2);
}

#[test]
fn temp_files_are_those_that_end_in_the_suffix() {
    assert!(is_temp_file(b"/d/a.bin.imprint_tmp"));
    assert!(is_temp_file(b".imprint_tmp"));
    assert!(!is_temp_file(b"/d/a.bin"));
    assert!(!is_temp_file(b"/d/a.imprint_tmp.bin"));
    assert!(!is_temp_file(b"imprint_tmp"));
    assert!(!is_temp_file(b"/d/a.imprint_tmq"));
    assert!(!is_temp_file(b"/d/a.Imprint_tmp"));
    assert!(!is_temp_file(b""));
    assert!(is_temp_file(&imprint::dedupe::temp_path(b"/any/target")));
}

#[test]
fn display_name_is_the_last_component() {
    assert_eq!(display_name(b"/data/photos/a.bin"), p("a.bin"));
    assert_eq!(display_name(b"a.bin"), p("a.bin"));
    assert_eq!(display_name(b"/a.bin"), p("a.bin"));
    assert_eq!(display_name(b"dir/"), p("dir/"));
    assert_eq!(display_name(b"/"), p("/"));
    assert_eq!(display_name(b""), p(""));
}

#[test]
fn a_scan_asks_bucket_by_bucket_then_group_by_group() {
    let files: Vec<ScannedFile> = [("/a", 5u64), ("/b", 7), ("/c", 5), ("/d", 9), ("/e", 7), ("/f", 5)]
        .iter()
        .map(|(path, size)| ScannedFile { path: p(path), size: *size })
        .collect();
    let mut store = State::new();
    store.mark_inode_vaulted(66);
    let run = ScanRun::start(&files, false, &mut store);
    assert_eq!(run.phase(), ScanPhase::Probing);
    assert_eq!(run.pending(), Some(ScanRequest::Inodes(&ps(&["/a", "/c", "/f"]))));
    let run = run.advance(
        ScanReply::Inodes(vec![probe("/a", 1), probe("/c", 66), probe("/f", 3)]),
        &mut store,
    );
    assert_eq!(run.pending(), Some(ScanRequest::SparseHashes(&ps(&["/a", "/f"]))));
    let run = run.advance(ScanReply::SparseHashes(vec![hashed(1, "/a"), hashed(1, "/f")]), &mut store);
    assert_eq!(run.pending(), Some(ScanRequest::Inodes(&ps(&["/b", "/e"]))));
    let run = run.advance(ScanReply::Inodes(vec![probe("/b", 4), probe("/e", 5)]), &mut store);
    assert_eq!(run.pending(), Some(ScanRequest::SparseHashes(&ps(&["/b", "/e"]))));
    let run = run.advance(ScanReply::SparseHashes(vec![hashed(2, "/b"), hashed(3, "/e")]), &mut store);
    assert_eq!(run.phase(), ScanPhase::Full);
    assert_eq!(run.pending(), Some(ScanRequest::FullHashes(&ps(&["/a", "/f"]))));
    assert!(store.files().entries().is_empty());
    let run = run.advance(ScanReply::FullHashes(vec![full("/a", 5, 8), full("/f", 5, 8)]), &mut store);
    assert_eq!(run.phase(), ScanPhase::Done);
    assert_eq!(run.pending(), None);
    assert_eq!(store.cas_refcount(&hash(8)), Some(2));
    assert_eq!(store.files().entries().len(), 2);
    assert_eq!(run.into_groups(), vec![HashGroup { hash: hash(8), paths: ps(&["/a", "/f"]) }]);
}

#[test]
fn a_scan_with_nothing_to_compare_is_done_at_once() {
    let mut store = State::new();
    let files = vec![ScannedFile { path: p("/a"), size: 1 }, ScannedFile { path: p("/b"), size: 2 }];
    let run = ScanRun::start(&files, false, &mut store);
    assert_eq!(run.phase(), ScanPhase::Done);
    assert_eq!(run.pending(), None);
    assert!(run.into_groups().is_empty());
    let run = ScanRun::start(&vec![], false, &mut store);
    assert_eq!(run.phase(), ScanPhase::Done);
}

#[test]
fn a_scan_skips_a_bucket_whose_files_are_all_in_the_vault_or_unreadable() {
    let mut store = State::new();
    store.mark_inode_vaulted(1);
    let files: Vec<ScannedFile> = ["/a", "/b", "/c", "/d"]
        .iter()
        .enumerate()
        .map(|(i, path)| ScannedFile { path: p(path), size: 1 + (i as u64) / 2 })
        .collect();
    let run = ScanRun::start(&files, false, &mut store);
    let run = run.advance(ScanReply::Inodes(vec![probe("/a", 1), probe("/b", 1)]), &mut store);
    assert_eq!(run.pending(), Some(ScanRequest::Inodes(&ps(&["/c", "/d"]))));
    let run = run.advance(ScanReply::Inodes(vec![probe("/c", 2)]), &mut store);
    assert_eq!(run.phase(), ScanPhase::Done);
    let run = run.advance(ScanReply::FullHashes(vec![full("/x", 1, 1)]), &mut store);
    assert!(run.into_groups().is_empty());
    assert!(store.files().entries().is_empty());
}

#[test]
fn a_dry_scan_leaves_the_store_alone() {
    let mut store = State::new();
    let files = vec![ScannedFile { path: p("/a"), size: 1 }, ScannedFile { path: p("/b"), size: 1 }];
    let run = ScanRun::start(&files, true, &mut store);
    let run = run.advance(ScanReply::Inodes(vec![probe("/a", 1), probe("/b", 2)]), &mut store);
    let run = run.advance(ScanReply::SparseHashes(vec![hashed(1, "/a"), hashed(1, "/b")]), &mut store);
    let run = run.advance(ScanReply::FullHashes(vec![full("/a", 1, 5), full("/b", 1, 5)]), &mut store);
    assert_eq!(run.into_groups(), vec![HashGroup { hash: hash(5), paths: ps(&["/a", "/b"]) }]);
    assert!(store.files().entries().is_empty());
    assert!(store.refcounts().entries().is_empty());
}
