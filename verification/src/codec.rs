//! Writing the state store out as bytes and reading it back.
//!
//! The store is written as a run of records, one per table entry. A record
//! starts with a tag byte; numbers are eight bytes, least significant
//! first; paths and keys are preceded by their length.

use vstd::prelude::*;
use vstd::bytes::{
    lemma_auto_spec_u64_to_from_le_bytes,
    spec_u64_from_le_bytes,
    spec_u64_to_le_bytes,
    u64_from_le_bytes,
    u64_to_le_bytes,
};
use vstd::slice::slice_subrange;
use crate::state::{State, StateView, table_of};
use crate::types;
use crate::types::FileMetadata;

verus! {

/// Tag of a file record.
pub const TAG_FILE: u8 = 1;

/// Tag of a vaulted-inode record.
pub const TAG_INODE: u8 = 2;

/// Tag of a reference-count record.
pub const TAG_REFCOUNT: u8 = 3;

/// One entry of the store.
pub enum Record {
    /// A path and what was learnt of it.
    File { path: Seq<u8>, metadata: FileMetadata },
    /// An inode known to be in the vault.
    Inode { inode: u64 },
    /// The bytes of a content hash and its reference count.
    Refcount { key: Seq<u8>, count: u64 },
}

/// Whether a record can be written: whether its path or key is short enough
/// for its length to be written.
pub open spec fn writable(record: Record) -> bool {
    match record {
        Record::File { path, metadata } => path.len() <= u64::MAX,
        Record::Inode { inode } => true,
        Record::Refcount { key, count } => key.len() <= u64::MAX,
    }
}

/// The bytes of one record.
pub open spec fn record_bytes(record: Record) -> Seq<u8> {
    match record {
        Record::File { path, metadata } => seq![TAG_FILE] + spec_u64_to_le_bytes(path.len() as u64)
            + path + spec_u64_to_le_bytes(metadata.size) + spec_u64_to_le_bytes(metadata.modified)
            + metadata.hash@,
        Record::Inode { inode } => seq![TAG_INODE] + spec_u64_to_le_bytes(inode),
        Record::Refcount { key, count } => seq![TAG_REFCOUNT] + spec_u64_to_le_bytes(
            key.len() as u64,
        ) + key + spec_u64_to_le_bytes(count),
    }
}

/// The bytes of a run of records.
pub open spec fn encoded(records: Seq<Record>) -> Seq<u8>
    decreases records.len(),
{
    if records.len() == 0 {
        Seq::empty()
    } else {
        record_bytes(records[0]) + encoded(records.drop_first())
    }
}

/// The record that some bytes start with, and its length; `None` if they
/// start with no whole record.
pub open spec fn parse_record(bytes: Seq<u8>) -> Option<(Record, int)> {
    if bytes.len() < 9 {
        None
    } else if bytes[0] == TAG_FILE {
        let n = spec_u64_from_le_bytes(bytes.subrange(1, 9)) as int;
        if bytes.len() < 57 + n {
            None
        } else {
            Some(
                (
                    Record::File {
                        path: bytes.subrange(9, 9 + n),
                        metadata: FileMetadata {
                            size: spec_u64_from_le_bytes(bytes.subrange(9 + n, 17 + n)),
                            modified: spec_u64_from_le_bytes(bytes.subrange(17 + n, 25 + n)),
                            hash: types::Hash::of(bytes.subrange(25 + n, 57 + n)),
                        },
                    },
                    57 + n,
                ),
            )
        }
    } else if bytes[0] == TAG_INODE {
        Some((Record::Inode { inode: spec_u64_from_le_bytes(bytes.subrange(1, 9)) }, 9))
    } else if bytes[0] == TAG_REFCOUNT {
        let n = spec_u64_from_le_bytes(bytes.subrange(1, 9)) as int;
        if bytes.len() < 17 + n {
            None
        } else {
            Some(
                (
                    Record::Refcount {
                        key: bytes.subrange(9, 9 + n),
                        count: spec_u64_from_le_bytes(bytes.subrange(9 + n, 17 + n)),
                    },
                    17 + n,
                ),
            )
        }
    } else {
        None
    }
}

/// A run of records in front of what may be more records.
pub open spec fn prepend(done: Seq<Record>, more: Option<Seq<Record>>) -> Option<Seq<Record>> {
    match more {
        Some(more) => Some(done + more),
        None => None,
    }
}

/// The records that some bytes are made of; `None` if they are not a run of
/// whole records.
pub open spec fn decoded(bytes: Seq<u8>) -> Option<Seq<Record>>
    decreases bytes.len(),
{
    if bytes.len() == 0 {
        Some(Seq::empty())
    } else {
        match parse_record(bytes) {
            Some((record, length)) => if 0 < length <= bytes.len() {
                prepend(seq![record], decoded(bytes.subrange(length, bytes.len() as int)))
            } else {
                None
            },
            None => None,
        }
    }
}

/// A store with one more record entered.
pub open spec fn entered(store: StateView, record: Record) -> StateView {
    match record {
        Record::File { path, metadata } => StateView {
            files: store.files.insert(path, metadata),
            ..store
        },
        Record::Inode { inode } => StateView { vaulted: store.vaulted.insert(inode), ..store },
        Record::Refcount { key, count } => StateView {
            refcounts: store.refcounts.insert(key, count),
            ..store
        },
    }
}

/// A store with a run of records entered, in order.
pub open spec fn applied(store: StateView, records: Seq<Record>) -> StateView
    decreases records.len(),
{
    if records.len() == 0 {
        store
    } else {
        entered(applied(store, records.drop_last()), records.last())
    }
}

/// The store with nothing in it.
pub open spec fn empty_store() -> StateView {
    StateView { files: Map::empty(), vaulted: Set::empty(), refcounts: Map::empty() }
}

/// A record is read back from its own bytes, whatever follows them.
pub proof fn lemma_parse_record(record: Record, tail: Seq<u8>)
    requires
        writable(record),
    ensures
        parse_record(record_bytes(record) + tail) == Some(
            (record, record_bytes(record).len() as int),
        ),
        record_bytes(record).len() >= 9,
{
    lemma_auto_spec_u64_to_from_le_bytes();
    let bytes = record_bytes(record) + tail;
    match record {
        Record::File { path, metadata } => {
            let n = path.len() as int;
            metadata.hash.lemma_view();
            assert(bytes.subrange(1, 9) =~= spec_u64_to_le_bytes(path.len() as u64));
            assert(bytes.subrange(9, 9 + n) =~= path);
            assert(bytes.subrange(9 + n, 17 + n) =~= spec_u64_to_le_bytes(metadata.size));
            assert(bytes.subrange(17 + n, 25 + n) =~= spec_u64_to_le_bytes(metadata.modified));
            assert(bytes.subrange(25 + n, 57 + n) =~= metadata.hash@);
            types::Hash::lemma_of(metadata.hash@);
            metadata.hash.lemma_ext_equal(types::Hash::of(metadata.hash@));
        },
        Record::Inode { inode } => {
            assert(bytes.subrange(1, 9) =~= spec_u64_to_le_bytes(inode));
        },
        Record::Refcount { key, count } => {
            let n = key.len() as int;
            assert(bytes.subrange(1, 9) =~= spec_u64_to_le_bytes(key.len() as u64));
            assert(bytes.subrange(9, 9 + n) =~= key);
            assert(bytes.subrange(9 + n, 17 + n) =~= spec_u64_to_le_bytes(count));
        },
    }
}

/// Reading is the inverse of writing: the bytes of a run of writable
/// records are read back as that run.
pub proof fn lemma_decoded_encoded(records: Seq<Record>)
    requires
        forall|i: int| 0 <= i < records.len() ==> writable(#[trigger] records[i]),
    ensures
        decoded(encoded(records)) == Some(records),
    decreases records.len(),
{
    if records.len() > 0 {
        let first = records[0];
        let rest = records.drop_first();
        let bytes = encoded(records);
        lemma_parse_record(first, encoded(rest));
        assert forall|i: int| 0 <= i < rest.len() implies writable(#[trigger] rest[i]) by {
            assert(rest[i] == records[i + 1]);
        }
        lemma_decoded_encoded(rest);
        let length = record_bytes(first).len() as int;
        assert(bytes.subrange(length, bytes.len() as int) =~= encoded(rest));
        assert(seq![first] + rest =~= records);
    }
}

/// Writing one more record appends its bytes.
pub proof fn lemma_encoded_push(records: Seq<Record>, record: Record)
    ensures
        encoded(records.push(record)) == encoded(records) + record_bytes(record),
    decreases records.len(),
{
    let more = records.push(record);
    if records.len() == 0 {
        assert(more.drop_first() =~= Seq::<Record>::empty());
        assert(more[0] == record);
        assert(encoded(more.drop_first()) =~= Seq::<u8>::empty());
        assert(encoded(records) =~= Seq::<u8>::empty());
        assert(encoded(more) =~= record_bytes(record));
    } else {
        assert(more.drop_first() =~= records.drop_first().push(record));
        lemma_encoded_push(records.drop_first(), record);
        assert(encoded(more) =~= encoded(records) + record_bytes(record));
    }
}

fn push_number(bytes: &mut Vec<u8>, number: u64)
    ensures
        final(bytes)@ == old(bytes)@ + spec_u64_to_le_bytes(number),
{
    let digits = u64_to_le_bytes(number);
    bytes.extend_from_slice(digits.as_slice());
    assert(bytes@ =~= old(bytes)@ + spec_u64_to_le_bytes(number));
}

fn push_bytes(bytes: &mut Vec<u8>, more: &[u8])
    ensures
        final(bytes)@ == old(bytes)@ + more@,
{
    bytes.extend_from_slice(more);
    assert(bytes@ =~= old(bytes)@ + more@);
}

/// Writes the store out. Reading the bytes back with [`decode`] gives a
/// store that holds the same.
pub fn encode(state: &State) -> (bytes: Vec<u8>)
    ensures
        decoded(bytes@) matches Some(records) && applied(empty_store(), records) == state@,
{
    let mut bytes: Vec<u8> = Vec::new();
    let ghost mut records: Seq<Record> = Seq::empty();
    let files = state.files().entries();
    let mut i: usize = 0;
    assert(files@.take(0) =~= Seq::<(Vec<u8>, FileMetadata)>::empty());
    while i < files.len()
        invariant
            i <= files@.len(),
            bytes@ == encoded(records),
            forall|k: int| 0 <= k < records.len() ==> writable(#[trigger] records[k]),
            applied(empty_store(), records) == (StateView {
                files: table_of(files@.take(i as int)),
                ..empty_store()
            }),
        decreases files@.len() - i,
    {
        let path = &files[i].0;
        let metadata = files[i].1;
        let ghost record = Record::File { path: path@, metadata };
        proof {
            lemma_encoded_push(records, record);
            metadata.hash.lemma_view();
            assert(records.push(record).drop_last() =~= records);
            assert(files@.take(i + 1).drop_last() =~= files@.take(i as int));
        }
        bytes.push(TAG_FILE);
        push_number(&mut bytes, path.len() as u64);
        push_bytes(&mut bytes, path.as_slice());
        push_number(&mut bytes, metadata.size);
        push_number(&mut bytes, metadata.modified);
        push_bytes(&mut bytes, metadata.hash.as_bytes().as_slice());
        proof {
            assert(bytes@ =~= encoded(records) + record_bytes(record));
            records = records.push(record);
        }
        i += 1;
    }
    assert(files@.take(i as int) =~= files@);
    let inodes = state.vaulted_inodes();
    let mut j: usize = 0;
    assert(inodes@.take(0).to_set() =~= Set::<u64>::empty());
    while j < inodes.len()
        invariant
            j <= inodes@.len(),
            bytes@ == encoded(records),
            forall|k: int| 0 <= k < records.len() ==> writable(#[trigger] records[k]),
            applied(empty_store(), records) == (StateView {
                files: state@.files,
                vaulted: inodes@.take(j as int).to_set(),
                ..empty_store()
            }),
        decreases inodes@.len() - j,
    {
        let inode = inodes[j];
        let ghost record = Record::Inode { inode };
        proof {
            lemma_encoded_push(records, record);
            assert(records.push(record).drop_last() =~= records);
            let grown = inodes@.take(j + 1);
            assert(grown.drop_last() =~= inodes@.take(j as int));
            assert(grown.last() == inode);
            assert(grown.drop_last().to_set().insert(grown.last()) =~= grown.to_set());
        }
        bytes.push(TAG_INODE);
        push_number(&mut bytes, inode);
        proof {
            assert(bytes@ =~= encoded(records) + record_bytes(record));
            records = records.push(record);
        }
        j += 1;
    }
    assert(inodes@.take(j as int) =~= inodes@);
    let counts = state.refcounts().entries();
    let mut k: usize = 0;
    assert(counts@.take(0) =~= Seq::<(Vec<u8>, u64)>::empty());
    while k < counts.len()
        invariant
            k <= counts@.len(),
            bytes@ == encoded(records),
            forall|n: int| 0 <= n < records.len() ==> writable(#[trigger] records[n]),
            applied(empty_store(), records) == (StateView {
                files: state@.files,
                vaulted: state@.vaulted,
                refcounts: table_of(counts@.take(k as int)),
            }),
        decreases counts@.len() - k,
    {
        let key = &counts[k].0;
        let count = counts[k].1;
        let ghost record = Record::Refcount { key: key@, count };
        proof {
            lemma_encoded_push(records, record);
            assert(records.push(record).drop_last() =~= records);
            assert(counts@.take(k + 1).drop_last() =~= counts@.take(k as int));
        }
        bytes.push(TAG_REFCOUNT);
        push_number(&mut bytes, key.len() as u64);
        push_bytes(&mut bytes, key.as_slice());
        push_number(&mut bytes, count);
        proof {
            assert(bytes@ =~= encoded(records) + record_bytes(record));
            records = records.push(record);
        }
        k += 1;
    }
    proof {
        assert(counts@.take(k as int) =~= counts@);
        lemma_decoded_encoded(records);
    }
    bytes
}

/// Reads a store back from bytes: the store with every record entered, in
/// order, or `None` if the bytes are not a run of whole records.
pub fn decode(bytes: &[u8]) -> (state: Option<State>)
    ensures
        match decoded(bytes@) {
            Some(records) => state matches Some(state) && state@ == applied(empty_store(), records),
            None => state is None,
        },
{
    let mut state = State::new();
    let mut at: usize = 0;
    let ghost mut done: Seq<Record> = Seq::empty();
    let ghost all = bytes@;
    assert(all.subrange(0, all.len() as int) =~= all);
    assert(state@ == empty_store());
    while at < bytes.len()
        invariant
            at <= bytes@.len(),
            all == bytes@,
            state@ == applied(empty_store(), done),
            decoded(all) == prepend(done, decoded(all.subrange(at as int, all.len() as int))),
        decreases bytes@.len() - at,
    {
        let ghost rest = all.subrange(at as int, all.len() as int);
        let left = bytes.len() - at;
        if left < 9 {
            return None;
        }
        let tag = bytes[at];
        assert(rest[0] == tag);
        let first = u64_from_le_bytes(slice_subrange(bytes, at + 1, at + 9));
        assert(all.subrange(at + 1, at + 9) =~= rest.subrange(1, 9));
        let room = (left - 9) as u64;
        if tag == TAG_FILE {
            if first > room || room - first < 48 {
                return None;
            }
            let n = first as usize;
            let path = slice_subrange(bytes, at + 9, at + 9 + n);
            let size = u64_from_le_bytes(slice_subrange(bytes, at + 9 + n, at + 17 + n));
            let modified = u64_from_le_bytes(slice_subrange(bytes, at + 17 + n, at + 25 + n));
            let hash = match types::Hash::from_slice(slice_subrange(bytes, at + 25 + n, at + 57 + n)) {
                Some(hash) => hash,
                None => {
                    return None;
                },
            };
            let metadata = FileMetadata { size, modified, hash };
            proof {
                assert(all.subrange(at + 9, at + 9 + n) =~= rest.subrange(9, 9 + n));
                assert(all.subrange(at + 9 + n, at + 17 + n) =~= rest.subrange(9 + n, 17 + n));
                assert(all.subrange(at + 17 + n, at + 25 + n) =~= rest.subrange(17 + n, 25 + n));
                assert(all.subrange(at + 25 + n, at + 57 + n) =~= rest.subrange(25 + n, 57 + n));
                let record = Record::File { path: path@, metadata };
                assert(parse_record(rest) == Some((record, 57 + n)));
                assert(rest.subrange(57 + n, rest.len() as int) =~= all.subrange(
                    at + 57 + n,
                    all.len() as int,
                ));
                assert(done + (seq![record] + decoded(
                    all.subrange(at + 57 + n, all.len() as int),
                ).unwrap_or(Seq::empty())) =~= done.push(record) + decoded(
                    all.subrange(at + 57 + n, all.len() as int),
                ).unwrap_or(Seq::empty()));
                assert(done.push(record).drop_last() =~= done);
                done = done.push(record);
            }
            state.upsert_file(path, metadata);
            at = at + 57 + n;
        } else if tag == TAG_INODE {
            proof {
                let record = Record::Inode { inode: first };
                assert(parse_record(rest) == Some((record, 9int)));
                assert(rest.subrange(9, rest.len() as int) =~= all.subrange(
                    at + 9,
                    all.len() as int,
                ));
                assert(done + (seq![record] + decoded(
                    all.subrange(at + 9, all.len() as int),
                ).unwrap_or(Seq::empty())) =~= done.push(record) + decoded(
                    all.subrange(at + 9, all.len() as int),
                ).unwrap_or(Seq::empty()));
                assert(done.push(record).drop_last() =~= done);
                done = done.push(record);
            }
            state.mark_inode_vaulted(first);
            at = at + 9;
        } else if tag == TAG_REFCOUNT {
            if first > room || room - first < 8 {
                return None;
            }
            let n = first as usize;
            let key = slice_subrange(bytes, at + 9, at + 9 + n);
            let count = u64_from_le_bytes(slice_subrange(bytes, at + 9 + n, at + 17 + n));
            proof {
                assert(all.subrange(at + 9, at + 9 + n) =~= rest.subrange(9, 9 + n));
                assert(all.subrange(at + 9 + n, at + 17 + n) =~= rest.subrange(9 + n, 17 + n));
                let record = Record::Refcount { key: key@, count };
                assert(parse_record(rest) == Some((record, 17 + n)));
                assert(rest.subrange(17 + n, rest.len() as int) =~= all.subrange(
                    at + 17 + n,
                    all.len() as int,
                ));
                assert(done + (seq![record] + decoded(
                    all.subrange(at + 17 + n, all.len() as int),
                ).unwrap_or(Seq::empty())) =~= done.push(record) + decoded(
                    all.subrange(at + 17 + n, all.len() as int),
                ).unwrap_or(Seq::empty()));
                assert(done.push(record).drop_last() =~= done);
                done = done.push(record);
            }
            state.put_refcount(key, count);
            at = at + 17 + n;
        } else {
            return None;
        }
    }
    proof {
        assert(all.subrange(at as int, all.len() as int) =~= Seq::<u8>::empty());
        assert(done + Seq::<Record>::empty() =~= done);
    }
    Some(state)
}

} // verus!
