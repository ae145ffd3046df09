//! The scanner: which directory entries count, and how the files found are
//! bucketed by size.
//!
//! Walking the tree is the caller's part. Only regular files are recorded;
//! directories are descended into; symbolic links are not followed; sockets,
//! devices and pipes are ignored. Empty files are left out as well: linking
//! them saves nothing, and many are markers that are meant to stay apart.

use vstd::prelude::*;
use std::collections::HashMap;
use crate::grouping::{grouped, keys_in_order, lemma_grouped_push, lemma_keys_in_order, views};

verus! {

broadcast use vstd::std_specs::hash::group_hash_axioms;

/// What a directory entry is, without following symbolic links.
#[derive(Debug, Clone, Copy, PartialEq, Eq, Structural)]
pub enum EntryKind {
    File,
    Directory,
    Symlink,
    Other,
}

/// What the walk does with a directory entry.
#[derive(Debug, Clone, Copy, PartialEq, Eq, Structural)]
pub enum Visit {
    /// A candidate: record its path and size.
    Record,
    /// A directory: walk its entries too.
    Descend,
    /// Neither: pass over it.
    Skip,
}

/// What the walk does with an entry of the given kind and size.
pub open spec fn visit_of(kind: EntryKind, size: u64) -> Visit {
    match kind {
        EntryKind::File => if size > 0 {
            Visit::Record
        } else {
            Visit::Skip
        },
        EntryKind::Directory => Visit::Descend,
        EntryKind::Symlink | EntryKind::Other => Visit::Skip,
    }
}

/// Decides what the walk does with a directory entry.
pub fn visit(kind: EntryKind, size: u64) -> (action: Visit)
    ensures
        action == visit_of(kind, size),
{
    match kind {
        EntryKind::File => if size > 0 {
            Visit::Record
        } else {
            Visit::Skip
        },
        EntryKind::Directory => Visit::Descend,
        EntryKind::Symlink | EntryKind::Other => Visit::Skip,
    }
}

/// A regular file that the walk has recorded.
#[derive(Debug, PartialEq, Eq)]
pub struct ScannedFile {
    pub path: Vec<u8>,
    pub size: u64,
}

/// The paths of all recorded files of one size.
#[derive(Debug, PartialEq, Eq)]
pub struct SizeBucket {
    pub size: u64,
    pub paths: Vec<Vec<u8>>,
}

impl View for SizeBucket {
    type V = (u64, Seq<Seq<u8>>);

    open spec fn view(&self) -> (u64, Seq<Seq<u8>>) {
        (self.size, views(self.paths@))
    }
}

/// A list of buckets as plain values.
pub open spec fn bucket_views(buckets: Seq<SizeBucket>) -> Seq<(u64, Seq<Seq<u8>>)> {
    Seq::new(buckets.len(), |i: int| buckets[i]@)
}

/// The recorded files as pairs of size and path.
pub open spec fn sized(files: Seq<ScannedFile>) -> Seq<(u64, Seq<u8>)> {
    Seq::new(files.len(), |i: int| (files[i].size, files[i].path@))
}

/// Buckets the recorded files by size. Buckets come in the order in which
/// their sizes are first met, and the paths of a bucket in the order in
/// which they were recorded.
pub fn group_by_size(files: &Vec<ScannedFile>) -> (buckets: Vec<SizeBucket>)
    ensures
        bucket_views(buckets@) == grouped(sized(files@)),
{
    let mut buckets: Vec<SizeBucket> = Vec::new();
    let mut index: HashMap<u64, usize> = HashMap::new();
    let mut n: usize = 0;
    assert(sized(files@).take(0) =~= Seq::<(u64, Seq<u8>)>::empty());
    assert(bucket_views(buckets@) =~= grouped(sized(files@).take(0)));
    while n < files.len()
        invariant
            n <= files.len(),
            bucket_views(buckets@) == grouped(sized(files@).take(n as int)),
            forall|i: int|
                0 <= i < buckets@.len() ==> index@.contains_key((#[trigger] buckets@[i]).size)
                    && index@[buckets@[i].size] == i,
            forall|size: u64| #[trigger]
                index@.contains_key(size) ==> index@[size] < buckets@.len()
                    && buckets@[index@[size] as int].size == size,
        decreases files.len() - n,
    {
        let file = &files[n];
        let ghost seen = sized(files@).take(n as int);
        let ghost item = (file.size, file.path@);
        let ghost before = bucket_views(buckets@);
        proof {
            assert(sized(files@).take(n + 1) =~= seen.push(item));
            lemma_grouped_push(seen, item);
            lemma_keys_in_order(seen);
            assert(before.len() == keys_in_order(seen).len());
            assert forall|i: int| 0 <= i < buckets@.len() implies buckets@[i].size
                == keys_in_order(seen)[i] by {
                assert(before[i] == buckets@[i]@);
            }
        }
        match index.get(&file.size) {
            Some(at) => {
                let at = *at;
                proof {
                    assert(keys_in_order(seen)[at as int] == file.size);
                    assert(keys_in_order(seen).contains(file.size));
                    assert(keys_in_order(seen).index_of(file.size) == at);
                }
                buckets[at].paths.push(file.path.clone());
                proof {
                    assert(views(buckets@[at as int].paths@) =~= before[at as int].1.push(
                        file.path@,
                    ));
                    assert forall|i: int| 0 <= i < buckets@.len() && i != at implies (
                    #[trigger] buckets@[i])@ == before[i] by {}
                    assert(bucket_views(buckets@) =~= before.update(
                        at as int,
                        (file.size, before[at as int].1.push(file.path@)),
                    ));
                }
            },
            None => {
                proof {
                    if keys_in_order(seen).contains(file.size) {
                        let i = keys_in_order(seen).index_of(file.size);
                        assert(index@.contains_key(buckets@[i].size));
                    }
                }
                index.insert(file.size, buckets.len());
                let mut paths: Vec<Vec<u8>> = Vec::new();
                paths.push(file.path.clone());
                assert(views(paths@) =~= seq![file.path@]);
                buckets.push(SizeBucket { size: file.size, paths });
                assert(bucket_views(buckets@) =~= before.push((file.size, seq![file.path@])));
            },
        }
        n += 1;
    }
    assert(sized(files@).take(n as int) =~= sized(files@));
    buckets
}

} // verus!
