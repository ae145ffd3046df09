//! The state store: what the engine remembers from one run to the next.
//!
//! Three tables are kept: for each path that has been hashed in full, its
//! record; the inodes known to be hard links into the vault; and for each
//! content hash the number of paths that stand for it. The store speeds up
//! later runs. It is never consulted to learn what is on disk.

use vstd::prelude::*;
use vstd::slice::slice_to_vec;
use vstd::std_specs::hash::spec_hash_keys_iter;
use vstd::std_specs::iter::IteratorSpec;
use std::collections::HashSet;
use crate::dedupe::bytes_equal;
use crate::types;
use crate::types::FileMetadata;

verus! {

broadcast use vstd::std_specs::hash::group_hash_axioms;

/// The map that a list of key-value entries stands for: a later entry with
/// the same key replaces an earlier one.
pub open spec fn table_of<V>(entries: Seq<(Vec<u8>, V)>) -> Map<Seq<u8>, V>
    decreases entries.len(),
{
    if entries.len() == 0 {
        Map::empty()
    } else {
        table_of(entries.drop_last()).insert(entries.last().0@, entries.last().1)
    }
}

/// The key of the entry at a position.
pub open spec fn key_at<V>(entries: Seq<(Vec<u8>, V)>, i: int) -> Seq<u8> {
    entries[i].0@
}

/// A key that no entry has is not in the table.
pub proof fn lemma_table_absent<V>(entries: Seq<(Vec<u8>, V)>, key: Seq<u8>)
    requires
        forall|j: int| 0 <= j < entries.len() ==> #[trigger] key_at(entries, j) != key,
    ensures
        !table_of(entries).dom().contains(key),
    decreases entries.len(),
{
    if entries.len() > 0 {
        let front = entries.drop_last();
        assert forall|j: int| 0 <= j < front.len() implies #[trigger] key_at(front, j) != key by {
            assert(key_at(entries, j) != key);
        }
        lemma_table_absent(front, key);
        assert(key_at(entries, entries.len() - 1) != key);
    }
}

/// A key is in the table with the value of the last entry that has it.
pub proof fn lemma_table_present<V>(entries: Seq<(Vec<u8>, V)>, key: Seq<u8>, i: int)
    requires
        0 <= i < entries.len(),
        key_at(entries, i) == key,
        forall|j: int| i < j < entries.len() ==> #[trigger] key_at(entries, j) != key,
    ensures
        table_of(entries).dom().contains(key),
        table_of(entries)[key] == entries[i].1,
    decreases entries.len(),
{
    let front = entries.drop_last();
    if i < entries.len() - 1 {
        assert(key_at(front, i) == key);
        assert forall|j: int| i < j < front.len() implies #[trigger] key_at(front, j) != key by {
            assert(key_at(entries, j) != key);
        }
        lemma_table_present(front, key, i);
        assert(key_at(entries, entries.len() - 1) != key);
    }
}

/// Replacing the last entry that has a key by an entry with the same key
/// and a new value has the effect of an insertion.
pub proof fn lemma_table_replace<V>(entries: Seq<(Vec<u8>, V)>, i: int, entry: (Vec<u8>, V))
    requires
        0 <= i < entries.len(),
        key_at(entries, i) == entry.0@,
        forall|j: int| i < j < entries.len() ==> #[trigger] key_at(entries, j) != entry.0@,
    ensures
        table_of(entries.update(i, entry)) == table_of(entries).insert(entry.0@, entry.1),
    decreases entries.len(),
{
    let updated = entries.update(i, entry);
    let front = entries.drop_last();
    if i == entries.len() - 1 {
        assert(updated.drop_last() =~= front);
        assert(table_of(updated) =~= table_of(entries).insert(entry.0@, entry.1));
    } else {
        assert(updated.drop_last() =~= front.update(i, entry));
        assert(updated.last() == entries.last());
        assert(key_at(entries, entries.len() - 1) != entry.0@);
        assert(key_at(front, i) == entry.0@);
        assert forall|j: int| i < j < front.len() implies #[trigger] key_at(front, j)
            != entry.0@ by {
            assert(key_at(entries, j) != entry.0@);
        }
        lemma_table_replace(front, i, entry);
        assert(table_of(updated) =~= table_of(entries).insert(entry.0@, entry.1));
    }
}

/// A table from byte-string keys to values, held as a list of entries.
#[derive(Debug)]
pub struct Table<V> {
    entries: Vec<(Vec<u8>, V)>,
}

impl<V: Copy> View for Table<V> {
    type V = Map<Seq<u8>, V>;

    closed spec fn view(&self) -> Map<Seq<u8>, V> {
        table_of(self.entries@)
    }
}

impl<V: Copy> Table<V> {
    /// The empty table.
    pub fn new() -> (table: Table<V>)
        ensures
            table@ == Map::<Seq<u8>, V>::empty(),
    {
        Table { entries: Vec::new() }
    }

    fn position(&self, key: &[u8]) -> (found: Option<usize>)
        ensures
            match found {
                Some(i) => {
                    &&& i < self.entries@.len()
                    &&& key_at(self.entries@, i as int) == key@
                    &&& forall|j: int|
                        i < j < self.entries@.len() ==> #[trigger] key_at(self.entries@, j) != key@
                },
                None => forall|j: int|
                    0 <= j < self.entries@.len() ==> #[trigger] key_at(self.entries@, j) != key@,
            },
    {
        let mut i = self.entries.len();
        while i > 0
            invariant
                i <= self.entries@.len(),
                forall|j: int|
                    i <= j < self.entries@.len() ==> #[trigger] key_at(self.entries@, j) != key@,
            decreases i,
        {
            i -= 1;
            if bytes_equal(self.entries[i].0.as_slice(), key) {
                return Some(i);
            }
        }
        None
    }

    /// The value stored under a key, if any.
    pub fn get(&self, key: &[u8]) -> (value: Option<V>)
        ensures
            value == if self@.dom().contains(key@) {
                Some(self@[key@])
            } else {
                None
            },
    {
        match self.position(key) {
            Some(i) => {
                proof {
                    lemma_table_present(self.entries@, key@, i as int);
                }
                Some(self.entries[i].1)
            },
            None => {
                proof {
                    lemma_table_absent(self.entries@, key@);
                }
                None
            },
        }
    }

    /// The entries behind the table, oldest first, for writing the table
    /// out. Reading them back in with [`Table::put`], in order, gives the
    /// same table.
    pub fn entries(&self) -> (entries: &Vec<(Vec<u8>, V)>)
        ensures
            table_of(entries@) == self@,
    {
        &self.entries
    }

    /// Stores a value under a key, replacing any value stored there before.
    pub fn put(&mut self, key: &[u8], value: V)
        ensures
            final(self)@ == old(self)@.insert(key@, value),
    {
        let entry = (slice_to_vec(key), value);
        match self.position(key) {
            Some(i) => {
                proof {
                    lemma_table_replace(self.entries@, i as int, entry);
                }
                self.entries.set(i, entry);
            },
            None => {
                self.entries.push(entry);
                assert(self.entries@.drop_last() =~= old(self).entries@);
            },
        }
    }
}

/// What a [`State`] holds.
pub struct StateView {
    /// The record of each path that has been hashed in full.
    pub files: Map<Seq<u8>, FileMetadata>,
    /// The inodes known to be hard links into the vault.
    pub vaulted: Set<u64>,
    /// For each content hash, the number of paths that stand for it.
    pub refcounts: Map<Seq<u8>, u64>,
}

/// The state store, in memory.
#[derive(Debug)]
pub struct State {
    files: Table<FileMetadata>,
    vaulted: HashSet<u64>,
    refcounts: Table<u64>,
}

impl View for State {
    type V = StateView;

    closed spec fn view(&self) -> StateView {
        StateView { files: self.files@, vaulted: self.vaulted@, refcounts: self.refcounts@ }
    }
}

impl State {
    /// A store with nothing in it.
    pub fn new() -> (state: State)
        ensures
            state@.files == Map::<Seq<u8>, FileMetadata>::empty(),
            state@.vaulted == Set::<u64>::empty(),
            state@.refcounts == Map::<Seq<u8>, u64>::empty(),
    {
        State { files: Table::new(), vaulted: HashSet::new(), refcounts: Table::new() }
    }

    /// Records a path's metadata, overwriting what was recorded for it.
    pub fn upsert_file(&mut self, path: &[u8], metadata: FileMetadata)
        ensures
            final(self)@.files == old(self)@.files.insert(path@, metadata),
            final(self)@.vaulted == old(self)@.vaulted,
            final(self)@.refcounts == old(self)@.refcounts,
    {
        self.files.put(path, metadata);
    }

    /// The metadata recorded for a path, if any.
    pub fn file(&self, path: &[u8]) -> (metadata: Option<FileMetadata>)
        ensures
            metadata == if self@.files.dom().contains(path@) {
                Some(self@.files[path@])
            } else {
                None
            },
    {
        self.files.get(path)
    }

    /// Whether an inode is known to be a hard link into the vault.
    pub fn is_inode_vaulted(&self, inode: u64) -> (vaulted: bool)
        ensures
            vaulted == self@.vaulted.contains(inode),
    {
        self.vaulted.contains(&inode)
    }

    /// Notes that an inode is a hard link into the vault. Noting it again
    /// changes nothing.
    pub fn mark_inode_vaulted(&mut self, inode: u64)
        ensures
            final(self)@.vaulted == old(self)@.vaulted.insert(inode),
            final(self)@.files == old(self)@.files,
            final(self)@.refcounts == old(self)@.refcounts,
    {
        self.vaulted.insert(inode);
    }

    /// Sets the reference count of a content hash, overwriting the count
    /// kept for it. The count may be zero.
    pub fn set_cas_refcount(&mut self, hash: &types::Hash, count: u64)
        ensures
            final(self)@.refcounts == old(self)@.refcounts.insert(hash@, count),
            final(self)@.files == old(self)@.files,
            final(self)@.vaulted == old(self)@.vaulted,
    {
        self.refcounts.put(hash.as_bytes().as_slice(), count);
    }

    /// Sets the reference count kept under the raw bytes of a hash, as read
    /// back from a store that was written out.
    pub fn put_refcount(&mut self, key: &[u8], count: u64)
        ensures
            final(self)@.refcounts == old(self)@.refcounts.insert(key@, count),
            final(self)@.files == old(self)@.files,
            final(self)@.vaulted == old(self)@.vaulted,
    {
        self.refcounts.put(key, count);
    }

    /// The reference count kept for a content hash, if any.
    pub fn cas_refcount(&self, hash: &types::Hash) -> (count: Option<u64>)
        ensures
            count == if self@.refcounts.dom().contains(hash@) {
                Some(self@.refcounts[hash@])
            } else {
                None
            },
    {
        self.refcounts.get(hash.as_bytes().as_slice())
    }

    /// The file table, for writing the store out.
    pub fn files(&self) -> (files: &Table<FileMetadata>)
        ensures
            files@ == self@.files,
    {
        &self.files
    }

    /// The reference counts, keyed by the bytes of the hash, for writing
    /// the store out.
    pub fn refcounts(&self) -> (refcounts: &Table<u64>)
        ensures
            refcounts@ == self@.refcounts,
    {
        &self.refcounts
    }

    /// The vaulted inodes, each once, in no particular order, for writing
    /// the store out.
    pub fn vaulted_inodes(&self) -> (inodes: Vec<u64>)
        ensures
            inodes@.to_set() == self@.vaulted,
            inodes@.no_duplicates(),
    {
        let mut inodes: Vec<u64> = Vec::new();
        for inode in iter: self.vaulted.iter()
            invariant
                iter.seq() == spec_hash_keys_iter(&self.vaulted).remaining(),
                inodes@.len() == iter.index(),
                forall|i: int| 0 <= i < inodes@.len() ==> inodes@[i] == *iter.seq()[i],
        {
            inodes.push(*inode);
        }
        proof {
            let keys = spec_hash_keys_iter(&self.vaulted).remaining();
            assert(inodes@ =~= keys.unref());
            assert forall|i: int, j: int|
                0 <= i < inodes@.len() && 0 <= j < inodes@.len() && i != j implies inodes@[i]
                != inodes@[j] by {
                assert(keys[i] != keys[j]);
            }
        }
        inodes
    }
}

} // verus!
