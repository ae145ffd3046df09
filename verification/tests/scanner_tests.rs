use imprint::scanner::{group_by_size, visit, EntryKind, ScannedFile, SizeBucket, Visit};

fn file(path: &str, size: u64) -> ScannedFile {
    ScannedFile { path: path.as_bytes().to_vec(), size }
}

fn bucket(size: u64, paths: &[&str]) -> SizeBucket {
    SizeBucket { size, paths: paths.iter().map(|p| p.as_bytes().to_vec()).collect() }
}

#[test]
fn only_non_empty_regular_files_are_recorded() {
    assert_eq!(visit(EntryKind::File, 1), Visit::Record);
    assert_eq!(visit(EntryKind::File, u64::MAX), Visit::Record);
    assert_eq!(visit(EntryKind::File, 0), Visit::Skip);
}

#[test]
fn directories_are_descended_and_the_rest_is_skipped() {
    assert_eq!(visit(EntryKind::Directory, 0), Visit::Descend);
    assert_eq!(visit(EntryKind::Directory, 4096), Visit::Descend);
    assert_eq!(visit(EntryKind::Symlink, 10), Visit::Skip);
    assert_eq!(visit(EntryKind::Other, 10), Visit::Skip);
}

#[test]
fn no_files_no_buckets() {
    assert_eq!(group_by_size(&vec![]), vec![]);
}

#[test]
fn buckets_come_in_order_of_first_appearance() {
    let files = vec![file("/a", 10), file("/b", 20), file("/c", 10), file("/d", 30), file("/e", 20), file("/f", 10)];
    assert_eq!(
        group_by_size(&files),
        vec![bucket(10, &["/a", "/c", "/f"]), bucket(20, &["/b", "/e"]), bucket(30, &["/d"])]
    );
}

#[test]
fn every_file_lands_in_exactly_one_bucket() {
    let files: Vec<ScannedFile> = (0..500u64).map(|i| file(&format!("/f{i}"), i % 37 + 1)).collect();
    let buckets = group_by_size(&files);
    assert_eq!(buckets.len(), 37);
    assert_eq!(buckets.iter().map(|b| b.paths.len()).sum::<usize>(), 500);
    for bucket in &buckets {
        for path in &bucket.paths {
            let at = files.iter().position(|f| &f.path == path).unwrap();
            assert_eq!(files[at].size, bucket.size);
        }
    }
}

#[test]
fn the_same_path_listed_twice_is_kept_twice() {
    let files = vec![file("/a", 10), file("/a", 10)];
    assert_eq!(group_by_size(&files), vec![bucket(10, &["/a", "/a"])]);
}
