//! The scan phase of the pipeline.
//!
//! The scan narrows the files found to groups of equal content in three
//! tiers: equal size, equal sparse hash, equal full hash. Each tier is
//! only paid for by the files that the tier before could not tell apart.
//! What is done with the groups is the matter of [`crate::linking`].

use vstd::prelude::*;
use vstd::slice::slice_to_vec;
use crate::dedupe::{temp_of, TEMP_SUFFIX};
use crate::grouping::{
    crowded,
    grouped,
    keys_in_order,
    lemma_grouped_push,
    lemma_keys_in_order,
    list_views,
    views,
};
use crate::scanner::{bucket_views, group_by_size, ScannedFile, SizeBucket, sized};
use crate::state::{State, StateView};
use crate::types;
use crate::types::FileMetadata;
use crate::vault::SEPARATOR;

verus! {

/// The paths found to share one hash.
#[derive(Debug, PartialEq, Eq)]
pub struct HashGroup {
    pub hash: types::Hash,
    pub paths: Vec<Vec<u8>>,
}

impl View for HashGroup {
    type V = (Seq<u8>, Seq<Seq<u8>>);

    open spec fn view(&self) -> (Seq<u8>, Seq<Seq<u8>>) {
        (self.hash@, views(self.paths@))
    }
}

/// A list of groups as plain values.
pub open spec fn group_views(groups: Seq<HashGroup>) -> Seq<(Seq<u8>, Seq<Seq<u8>>)> {
    Seq::new(groups.len(), |i: int| groups[i]@)
}

/// A path with the hash computed for it.
#[derive(Debug, PartialEq, Eq)]
pub struct Hashed {
    pub hash: types::Hash,
    pub path: Vec<u8>,
}

/// Hashed paths as pairs of hash and path.
pub open spec fn hashed(items: Seq<Hashed>) -> Seq<(Seq<u8>, Seq<u8>)> {
    Seq::new(items.len(), |i: int| (items[i].hash@, items[i].path@))
}

fn find_group(groups: &Vec<HashGroup>, hash: &types::Hash) -> (found: Option<usize>)
    ensures
        match found {
            Some(at) => at < groups@.len() && groups@[at as int].hash@ == hash@,
            None => forall|i: int| 0 <= i < groups@.len() ==> (#[trigger] groups@[i]).hash@ != hash@,
        },
{
    let mut i: usize = 0;
    while i < groups.len()
        invariant
            i <= groups@.len(),
            forall|j: int| 0 <= j < i ==> (#[trigger] groups@[j]).hash@ != hash@,
        decreases groups.len() - i,
    {
        if groups[i].hash == *hash {
            return Some(i);
        }
        i += 1;
    }
    None
}

/// Groups hashed paths by hash. Groups come in the order in which their
/// hashes are first met, and the paths of a group in the order given; the
/// first path of a group is its candidate master.
pub fn group_by_hash(items: &Vec<Hashed>) -> (groups: Vec<HashGroup>)
    ensures
        group_views(groups@) == grouped(hashed(items@)),
{
    let mut groups: Vec<HashGroup> = Vec::new();
    let mut n: usize = 0;
    assert(hashed(items@).take(0) =~= Seq::<(Seq<u8>, Seq<u8>)>::empty());
    assert(group_views(groups@) =~= grouped(hashed(items@).take(0)));
    while n < items.len()
        invariant
            n <= items.len(),
            group_views(groups@) == grouped(hashed(items@).take(n as int)),
        decreases items.len() - n,
    {
        let item = &items[n];
        let ghost seen = hashed(items@).take(n as int);
        let ghost pair = (item.hash@, item.path@);
        let ghost before = group_views(groups@);
        proof {
            assert(hashed(items@).take(n + 1) =~= seen.push(pair));
            lemma_grouped_push(seen, pair);
            lemma_keys_in_order(seen);
            assert(before.len() == keys_in_order(seen).len());
            assert forall|i: int| 0 <= i < groups@.len() implies groups@[i].hash@
                == keys_in_order(seen)[i] by {
                assert(before[i] == groups@[i]@);
            }
        }
        match find_group(&groups, &item.hash) {
            Some(at) => {
                proof {
                    assert(keys_in_order(seen)[at as int] == item.hash@);
                    assert(keys_in_order(seen).contains(item.hash@));
                    assert(keys_in_order(seen).index_of(item.hash@) == at);
                }
                groups[at].paths.push(item.path.clone());
                proof {
                    assert(views(groups@[at as int].paths@) =~= before[at as int].1.push(
                        item.path@,
                    ));
                    assert forall|i: int| 0 <= i < groups@.len() && i != at implies (
                    #[trigger] groups@[i])@ == before[i] by {}
                    assert(group_views(groups@) =~= before.update(
                        at as int,
                        (item.hash@, before[at as int].1.push(item.path@)),
                    ));
                }
            },
            None => {
                proof {
                    if keys_in_order(seen).contains(item.hash@) {
                        let i = keys_in_order(seen).index_of(item.hash@);
                        assert(groups@[i].hash@ == item.hash@);
                    }
                }
                let mut paths: Vec<Vec<u8>> = Vec::new();
                paths.push(item.path.clone());
                assert(views(paths@) =~= seq![item.path@]);
                groups.push(HashGroup { hash: item.hash, paths });
                assert(group_views(groups@) =~= before.push((item.hash@, seq![item.path@])));
            },
        }
        n += 1;
    }
    assert(hashed(items@).take(n as int) =~= hashed(items@));
    groups
}

/// The size buckets that can hold duplicates: those with more than one
/// path.
pub fn duplicate_candidates(buckets: Vec<SizeBucket>) -> (candidates: Vec<Vec<Vec<u8>>>)
    ensures
        list_views(candidates@) == crowded(bucket_views(buckets@)),
{
    let mut candidates: Vec<Vec<Vec<u8>>> = Vec::new();
    let ghost all = bucket_views(buckets@);
    assert(all.take(0) =~= Seq::<(u64, Seq<Seq<u8>>)>::empty());
    assert(list_views(candidates@) =~= crowded(all.take(0)));
    for bucket in iter: buckets
        invariant
            iter.seq() == buckets@,
            all == bucket_views(buckets@),
            list_views(candidates@) == crowded(all.take(iter.index())),
    {
        let ghost n = iter.index();
        let ghost before = list_views(candidates@);
        assert(all.take(n + 1).drop_last() =~= all.take(n));
        assert(all.take(n + 1).last() == bucket@);
        if bucket.paths.len() > 1 {
            candidates.push(bucket.paths);
            assert(list_views(candidates@) =~= before.push(bucket@.1));
        }
    }
    assert(all.take(buckets@.len() as int) =~= all);
    candidates
}

/// A path with the inode that it names.
#[derive(Debug, PartialEq, Eq)]
pub struct Probe {
    pub path: Vec<u8>,
    pub inode: u64,
}

/// The probed paths whose inode is not known to be in the vault, in order.
pub open spec fn unvaulted(vaulted: Set<u64>, probes: Seq<Probe>) -> Seq<Seq<u8>>
    decreases probes.len(),
{
    if probes.len() == 0 {
        Seq::empty()
    } else if vaulted.contains(probes.last().inode) {
        unvaulted(vaulted, probes.drop_last())
    } else {
        unvaulted(vaulted, probes.drop_last()).push(probes.last().path@)
    }
}

/// The paths of a size bucket that are worth a sparse hash: those not yet
/// in the vault, unless fewer than two of them are left.
pub open spec fn worth_hashing(vaulted: Set<u64>, probes: Seq<Probe>) -> Seq<Seq<u8>> {
    if unvaulted(vaulted, probes).len() > 1 {
        unvaulted(vaulted, probes)
    } else {
        Seq::empty()
    }
}

/// Idempotence of the sparse stage. Paths whose inodes are all known to be
/// in the vault, as they are once each has been replaced by a hard link and
/// its inode reported, are not hashed again: a second run over them finds
/// nothing to link.
pub proof fn lemma_vaulted_are_skipped(vaulted: Set<u64>, probes: Seq<Probe>)
    requires
        forall|i: int| 0 <= i < probes.len() ==> vaulted.contains((#[trigger] probes[i]).inode),
    ensures
        unvaulted(vaulted, probes) == Seq::<Seq<u8>>::empty(),
        worth_hashing(vaulted, probes) == Seq::<Seq<u8>>::empty(),
    decreases probes.len(),
{
    if probes.len() > 0 {
        assert(vaulted.contains(probes[probes.len() - 1].inode));
        lemma_vaulted_are_skipped(vaulted, probes.drop_last());
    }
}

/// Picks the paths of a size bucket that are to be sparse-hashed.
pub fn sparse_candidates(store: &State, probes: Vec<Probe>) -> (paths: Vec<Vec<u8>>)
    ensures
        views(paths@) == worth_hashing(store@.vaulted, probes@),
{
    let mut paths: Vec<Vec<u8>> = Vec::new();
    assert(probes@.take(0) =~= Seq::<Probe>::empty());
    assert(views(paths@) =~= unvaulted(store@.vaulted, probes@.take(0)));
    for probe in iter: probes
        invariant
            iter.seq() == probes@,
            views(paths@) == unvaulted(store@.vaulted, probes@.take(iter.index())),
    {
        let ghost n = iter.index();
        let ghost before = views(paths@);
        assert(probes@.take(n + 1).drop_last() =~= probes@.take(n));
        assert(probes@.take(n + 1).last() == probe);
        if !store.is_inode_vaulted(probe.inode) {
            paths.push(probe.path);
            assert(views(paths@) =~= before.push(probe.path@));
        }
    }
    assert(probes@.take(probes@.len() as int) =~= probes@);
    if paths.len() > 1 {
        paths
    } else {
        let none: Vec<Vec<u8>> = Vec::new();
        assert(views(none@) =~= Seq::<Seq<u8>>::empty());
        none
    }
}

/// The hash groups that hold more than one path, as path lists.
pub fn crowded_groups(groups: Vec<HashGroup>) -> (lists: Vec<Vec<Vec<u8>>>)
    ensures
        list_views(lists@) == crowded(group_views(groups@)),
{
    let mut lists: Vec<Vec<Vec<u8>>> = Vec::new();
    let ghost all = group_views(groups@);
    assert(all.take(0) =~= Seq::<(Seq<u8>, Seq<Seq<u8>>)>::empty());
    assert(list_views(lists@) =~= crowded(all.take(0)));
    for group in iter: groups
        invariant
            iter.seq() == groups@,
            all == group_views(groups@),
            list_views(lists@) == crowded(all.take(iter.index())),
    {
        let ghost n = iter.index();
        let ghost before = list_views(lists@);
        assert(all.take(n + 1).drop_last() =~= all.take(n));
        assert(all.take(n + 1).last() == group@);
        if group.paths.len() > 1 {
            lists.push(group.paths);
            assert(list_views(lists@) =~= before.push(group@.1));
        }
    }
    assert(all.take(groups@.len() as int) =~= all);
    lists
}

/// Regroups the sparse-hashed paths of one size bucket by sparse hash and
/// keeps the groups that are worth a full hash: those with more than one
/// path.
pub fn sparse_groups(items: &Vec<Hashed>) -> (lists: Vec<Vec<Vec<u8>>>)
    ensures
        list_views(lists@) == crowded(grouped(hashed(items@))),
{
    crowded_groups(group_by_hash(items))
}

/// A path that has been hashed in full, with what was learnt of it.
#[derive(Debug, PartialEq, Eq)]
pub struct FullyHashed {
    pub path: Vec<u8>,
    pub metadata: FileMetadata,
}

/// Fully hashed files as pairs of hash and path.
pub open spec fn by_full_hash(files: Seq<FullyHashed>) -> Seq<(Seq<u8>, Seq<u8>)> {
    Seq::new(files.len(), |i: int| (files[i].metadata.hash@, files[i].path@))
}

/// The file table after the records of `files` have been written to it, in
/// order.
pub open spec fn recorded(table: Map<Seq<u8>, FileMetadata>, files: Seq<FullyHashed>) -> Map<
    Seq<u8>,
    FileMetadata,
>
    decreases files.len(),
{
    if files.len() == 0 {
        table
    } else {
        recorded(table, files.drop_last()).insert(files.last().path@, files.last().metadata)
    }
}

/// The reference counts after each group with more than one path has had
/// its count set to the number of its paths.
pub open spec fn counted(refcounts: Map<Seq<u8>, u64>, groups: Seq<(Seq<u8>, Seq<Seq<u8>>)>) -> Map<
    Seq<u8>,
    u64,
>
    decreases groups.len(),
{
    if groups.len() == 0 {
        refcounts
    } else if groups.last().1.len() > 1 {
        counted(refcounts, groups.drop_last()).insert(
            groups.last().0,
            groups.last().1.len() as u64,
        )
    } else {
        counted(refcounts, groups.drop_last())
    }
}

/// What the store holds after the full-hash stage: unchanged in a dry run;
/// otherwise with a record for every file hashed and a count for every
/// group that holds duplicates.
pub open spec fn after_full_stage(before: StateView, files: Seq<FullyHashed>, dry_run: bool) -> StateView {
    if dry_run {
        before
    } else {
        StateView {
            files: recorded(before.files, files),
            vaulted: before.vaulted,
            refcounts: counted(before.refcounts, grouped(by_full_hash(files))),
        }
    }
}

/// Closes the scan phase: records every fully hashed file in the store,
/// regroups all of them by full hash, and sets the reference count of each
/// group of two or more to its size. Returns all groups, those of one path
/// included. In a dry run the store is left alone.
pub fn full_groups(store: &mut State, files: &Vec<FullyHashed>, dry_run: bool) -> (groups: Vec<
    HashGroup,
>)
    ensures
        group_views(groups@) == grouped(by_full_hash(files@)),
        final(store)@ == after_full_stage(old(store)@, files@, dry_run),
{
    let mut items: Vec<Hashed> = Vec::new();
    let mut n: usize = 0;
    assert(files@.take(0) =~= Seq::<FullyHashed>::empty());
    while n < files.len()
        invariant
            n <= files.len(),
            items@.len() == n,
            forall|i: int|
                0 <= i < n ==> (#[trigger] items@[i]).hash@ == files@[i].metadata.hash@
                    && items@[i].path@ == files@[i].path@,
            store@.vaulted == old(store)@.vaulted,
            store@.refcounts == old(store)@.refcounts,
            store@.files == if dry_run {
                old(store)@.files
            } else {
                recorded(old(store)@.files, files@.take(n as int))
            },
        decreases files.len() - n,
    {
        let file = &files[n];
        assert(files@.take(n + 1).drop_last() =~= files@.take(n as int));
        assert(files@.take(n + 1).last() == files@[n as int]);
        if !dry_run {
            store.upsert_file(file.path.as_slice(), file.metadata);
        }
        items.push(Hashed { hash: file.metadata.hash, path: file.path.clone() });
        n += 1;
    }
    assert(files@.take(n as int) =~= files@);
    assert(hashed(items@) =~= by_full_hash(files@));
    let groups = group_by_hash(&items);
    let ghost all = group_views(groups@);
    let mut g: usize = 0;
    assert(all.take(0) =~= Seq::<(Seq<u8>, Seq<Seq<u8>>)>::empty());
    while g < groups.len()
        invariant
            g <= groups.len(),
            all == group_views(groups@),
            store@.vaulted == old(store)@.vaulted,
            store@.files == if dry_run {
                old(store)@.files
            } else {
                recorded(old(store)@.files, files@)
            },
            store@.refcounts == if dry_run {
                old(store)@.refcounts
            } else {
                counted(old(store)@.refcounts, all.take(g as int))
            },
        decreases groups.len() - g,
    {
        let group = &groups[g];
        assert(all.take(g + 1).drop_last() =~= all.take(g as int));
        assert(all.take(g + 1).last() == group@);
        if !dry_run && group.paths.len() > 1 {
            store.set_cas_refcount(&group.hash, group.paths.len() as u64);
        }
        g += 1;
    }
    assert(all.take(g as int) =~= all);
    groups
}

/// Where a scan stands.
#[derive(Debug, Clone, Copy, PartialEq, Eq, Structural)]
pub enum ScanPhase {
    /// Looking up the inodes of the current size bucket.
    Probing,
    /// Sparse-hashing what is left of the current size bucket.
    Sparse,
    /// Hashing the current sparse group in full.
    Full,
    /// The groups are known.
    Done,
}

/// What a scan asks its caller to do next. The caller answers for as many
/// of the paths as it can; a path that it cannot read is left out of the
/// answer and thereby out of the scan.
#[derive(Debug, PartialEq, Eq)]
pub enum ScanRequest<'a> {
    /// Look up the inode of each path.
    Inodes(&'a Vec<Vec<u8>>),
    /// Compute the sparse hash of each path.
    SparseHashes(&'a Vec<Vec<u8>>),
    /// Compute the full hash of each path, and look up its size and
    /// modification time.
    FullHashes(&'a Vec<Vec<u8>>),
}

/// [`ScanRequest`] over plain byte strings.
pub enum ScanRequestView {
    Inodes(Seq<Seq<u8>>),
    SparseHashes(Seq<Seq<u8>>),
    FullHashes(Seq<Seq<u8>>),
}

impl<'a> View for ScanRequest<'a> {
    type V = ScanRequestView;

    open spec fn view(&self) -> ScanRequestView {
        match self {
            ScanRequest::Inodes(paths) => ScanRequestView::Inodes(views(paths@)),
            ScanRequest::SparseHashes(paths) => ScanRequestView::SparseHashes(views(paths@)),
            ScanRequest::FullHashes(paths) => ScanRequestView::FullHashes(views(paths@)),
        }
    }
}

/// The caller's answer to a [`ScanRequest`].
#[derive(Debug)]
pub enum ScanReply {
    Inodes(Vec<Probe>),
    SparseHashes(Vec<Hashed>),
    FullHashes(Vec<FullyHashed>),
}

/// The paths that a reply leaves to be sparse-hashed; none if the reply is
/// of another kind.
pub open spec fn probed(reply: ScanReply, vaulted: Set<u64>) -> Seq<Seq<u8>> {
    match reply {
        ScanReply::Inodes(probes) => worth_hashing(vaulted, probes@),
        _ => Seq::empty(),
    }
}

/// The sparse groups that a reply gives rise to; none if the reply is of
/// another kind.
pub open spec fn sparsely_grouped(reply: ScanReply) -> Seq<Seq<Seq<u8>>> {
    match reply {
        ScanReply::SparseHashes(items) => crowded(grouped(hashed(items@))),
        _ => Seq::empty(),
    }
}

/// The fully hashed files that a reply brings; none if the reply is of
/// another kind.
pub open spec fn fully_hashed(reply: ScanReply) -> Seq<FullyHashed> {
    match reply {
        ScanReply::FullHashes(files) => files@,
        _ => Seq::empty(),
    }
}

/// A scan as plain values.
pub struct ScanRunView {
    pub dry_run: bool,
    /// The size buckets that can hold duplicates.
    pub buckets: Seq<Seq<Seq<u8>>>,
    pub phase: ScanPhase,
    /// The position of the current size bucket or sparse group.
    pub at: int,
    /// The paths of the current size bucket that are to be sparse-hashed.
    pub asked: Seq<Seq<u8>>,
    /// The sparse groups found so far.
    pub sparse: Seq<Seq<Seq<u8>>>,
    /// The files hashed in full so far.
    pub fully: Seq<FullyHashed>,
    /// The groups by full hash, once the scan is done.
    pub groups: Seq<(Seq<u8>, Seq<Seq<u8>>)>,
}

/// The scan on reaching the sparse group at `at`: done, with everything
/// hashed in full grouped by hash, if there is no such group.
pub open spec fn to_group(v: ScanRunView, at: int) -> ScanRunView {
    if 0 <= at < v.sparse.len() {
        ScanRunView {
            phase: ScanPhase::Full,
            at,
            asked: Seq::empty(),
            groups: Seq::empty(),
            ..v
        }
    } else {
        ScanRunView {
            phase: ScanPhase::Done,
            at,
            asked: Seq::empty(),
            groups: grouped(by_full_hash(v.fully)),
            ..v
        }
    }
}

/// The scan on reaching the size bucket at `at`: on to the sparse groups if
/// there is no such bucket.
pub open spec fn to_bucket(v: ScanRunView, at: int) -> ScanRunView {
    if 0 <= at < v.buckets.len() {
        ScanRunView {
            phase: ScanPhase::Probing,
            at,
            asked: Seq::empty(),
            groups: Seq::empty(),
            ..v
        }
    } else {
        to_group(v, 0)
    }
}

/// The scan at its start, over the files that the walk recorded.
pub open spec fn scan_started(files: Seq<ScannedFile>, dry_run: bool) -> ScanRunView {
    to_bucket(
        ScanRunView {
            dry_run,
            buckets: crowded(grouped(sized(files))),
            phase: ScanPhase::Done,
            at: 0,
            asked: Seq::empty(),
            sparse: Seq::empty(),
            fully: Seq::empty(),
            groups: Seq::empty(),
        },
        0,
    )
}

/// What the scan asks for.
pub open spec fn scan_request_at(v: ScanRunView) -> Option<ScanRequestView> {
    match v.phase {
        ScanPhase::Probing => Some(ScanRequestView::Inodes(v.buckets[v.at])),
        ScanPhase::Sparse => Some(ScanRequestView::SparseHashes(v.asked)),
        ScanPhase::Full => Some(ScanRequestView::FullHashes(v.sparse[v.at])),
        ScanPhase::Done => None,
    }
}

/// The scan after a reply to its pending request, given the inodes known to
/// be in the vault.
pub open spec fn scan_advanced(v: ScanRunView, reply: ScanReply, vaulted: Set<u64>) -> ScanRunView {
    match v.phase {
        ScanPhase::Probing => if probed(reply, vaulted).len() == 0 {
            to_bucket(v, v.at + 1)
        } else {
            ScanRunView { phase: ScanPhase::Sparse, asked: probed(reply, vaulted), ..v }
        },
        ScanPhase::Sparse => to_bucket(
            ScanRunView { sparse: v.sparse + sparsely_grouped(reply), ..v },
            v.at + 1,
        ),
        ScanPhase::Full => to_group(
            ScanRunView { fully: v.fully + fully_hashed(reply), ..v },
            v.at + 1,
        ),
        ScanPhase::Done => v,
    }
}

/// What the store holds after a reply: what it held before, until the reply
/// that ends the scan; then the records and counts of the full-hash stage.
pub open spec fn scan_store_after(v: ScanRunView, reply: ScanReply, store: StateView) -> StateView {
    let next = scan_advanced(v, reply, store.vaulted);
    if next.phase is Done && !(v.phase is Done) {
        after_full_stage(store, next.fully, v.dry_run)
    } else {
        store
    }
}

/// The scan phase, step by step: size buckets are probed and sparse-hashed
/// one after the other, then the sparse groups are hashed in full one after
/// the other, and at the end everything hashed in full is grouped.
#[derive(Debug)]
pub struct ScanRun {
    dry_run: bool,
    buckets: Vec<Vec<Vec<u8>>>,
    phase: ScanPhase,
    at: usize,
    asked: Vec<Vec<u8>>,
    sparse: Vec<Vec<Vec<u8>>>,
    fully: Vec<FullyHashed>,
    groups: Vec<HashGroup>,
}

impl View for ScanRun {
    type V = ScanRunView;

    closed spec fn view(&self) -> ScanRunView {
        ScanRunView {
            dry_run: self.dry_run,
            buckets: list_views(self.buckets@),
            phase: self.phase,
            at: self.at as int,
            asked: views(self.asked@),
            sparse: list_views(self.sparse@),
            fully: self.fully@,
            groups: group_views(self.groups@),
        }
    }
}

impl ScanRun {
    #[verifier::type_invariant]
    spec fn in_range(self) -> bool {
        match self.phase {
            ScanPhase::Probing | ScanPhase::Sparse => self.at < self.buckets@.len(),
            ScanPhase::Full => self.at < self.sparse@.len(),
            ScanPhase::Done => true,
        }
    }

    fn group_at(
        dry_run: bool,
        buckets: Vec<Vec<Vec<u8>>>,
        sparse: Vec<Vec<Vec<u8>>>,
        fully: Vec<FullyHashed>,
        at: usize,
        store: &mut State,
    ) -> (next: ScanRun)
        ensures
            next@ == to_group(
                ScanRunView {
                    dry_run,
                    buckets: list_views(buckets@),
                    phase: ScanPhase::Done,
                    at: 0,
                    asked: Seq::empty(),
                    sparse: list_views(sparse@),
                    fully: fully@,
                    groups: Seq::empty(),
                },
                at as int,
            ),
            final(store)@ == if at < sparse@.len() {
                old(store)@
            } else {
                after_full_stage(old(store)@, fully@, dry_run)
            },
    {
        let asked: Vec<Vec<u8>> = Vec::new();
        assert(views(asked@) =~= Seq::<Seq<u8>>::empty());
        if at < sparse.len() {
            let groups: Vec<HashGroup> = Vec::new();
            assert(group_views(groups@) =~= Seq::<(Seq<u8>, Seq<Seq<u8>>)>::empty());
            ScanRun { dry_run, buckets, phase: ScanPhase::Full, at, asked, sparse, fully, groups }
        } else {
            let groups = full_groups(store, &fully, dry_run);
            ScanRun { dry_run, buckets, phase: ScanPhase::Done, at, asked, sparse, fully, groups }
        }
    }

    fn bucket_at(
        dry_run: bool,
        buckets: Vec<Vec<Vec<u8>>>,
        sparse: Vec<Vec<Vec<u8>>>,
        fully: Vec<FullyHashed>,
        at: usize,
        store: &mut State,
    ) -> (next: ScanRun)
        ensures
            next@ == to_bucket(
                ScanRunView {
                    dry_run,
                    buckets: list_views(buckets@),
                    phase: ScanPhase::Done,
                    at: 0,
                    asked: Seq::empty(),
                    sparse: list_views(sparse@),
                    fully: fully@,
                    groups: Seq::empty(),
                },
                at as int,
            ),
            final(store)@ == if at < buckets@.len() || 0 < sparse@.len() {
                old(store)@
            } else {
                after_full_stage(old(store)@, fully@, dry_run)
            },
    {
        if at < buckets.len() {
            let asked: Vec<Vec<u8>> = Vec::new();
            assert(views(asked@) =~= Seq::<Seq<u8>>::empty());
            let groups: Vec<HashGroup> = Vec::new();
            assert(group_views(groups@) =~= Seq::<(Seq<u8>, Seq<Seq<u8>>)>::empty());
            ScanRun { dry_run, buckets, phase: ScanPhase::Probing, at, asked, sparse, fully, groups }
        } else {
            ScanRun::group_at(dry_run, buckets, sparse, fully, 0, store)
        }
    }

    /// Begins a scan over the files that the walk recorded. If no two of
    /// them have the same size, the scan is over at once. The store is left
    /// as it is.
    pub fn start(files: &Vec<ScannedFile>, dry_run: bool, store: &mut State) -> (run: ScanRun)
        ensures
            run@ == scan_started(files@, dry_run),
            final(store)@ == old(store)@,
            scan_sound(run@),
    {
        proof {
            lemma_scan_started_sound(files@, dry_run);
        }
        let buckets = duplicate_candidates(group_by_size(files));
        let sparse: Vec<Vec<Vec<u8>>> = Vec::new();
        assert(list_views(sparse@) =~= Seq::<Seq<Seq<u8>>>::empty());
        let fully: Vec<FullyHashed> = Vec::new();
        proof {
            assert(by_full_hash(fully@) =~= Seq::<(Seq<u8>, Seq<u8>)>::empty());
            assert(grouped(by_full_hash(fully@)) =~= Seq::<(Seq<u8>, Seq<Seq<u8>>)>::empty());
            assert(after_full_stage(store@, fully@, dry_run) == store@);
        }
        ScanRun::bucket_at(dry_run, buckets, sparse, fully, 0, store)
    }

    /// What is to be done next, or `None` when the scan is done.
    pub fn pending(&self) -> (request: Option<ScanRequest<'_>>)
        ensures
            match request {
                Some(request) => scan_request_at(self@) == Some(request@),
                None => scan_request_at(self@) is None,
            },
    {
        proof {
            use_type_invariant(self);
        }
        match self.phase {
            ScanPhase::Probing => Some(ScanRequest::Inodes(&self.buckets[self.at])),
            ScanPhase::Sparse => Some(ScanRequest::SparseHashes(&self.asked)),
            ScanPhase::Full => Some(ScanRequest::FullHashes(&self.sparse[self.at])),
            ScanPhase::Done => None,
        }
    }

    /// Where the scan stands.
    pub fn phase(&self) -> (phase: ScanPhase)
        ensures
            phase == self@.phase,
    {
        self.phase
    }

    /// Takes the reply to the pending request and moves on. The reply that
    /// ends the scan has the store updated, unless the run is a dry one.
    pub fn advance(self, reply: ScanReply, store: &mut State) -> (next: ScanRun)
        ensures
            next@ == scan_advanced(self@, reply, old(store)@.vaulted),
            final(store)@ == scan_store_after(self@, reply, old(store)@),
            scan_sound(self@) ==> scan_sound(next@),
    {
        proof {
            if scan_sound(self@) {
                lemma_scan_advanced_sound(self@, reply, store@);
            }
        }
        proof {
            use_type_invariant(&self);
        }
        let ghost before = self@;
        let ScanRun { dry_run, buckets, phase, at, asked, mut sparse, mut fully, groups } = self;
        let count = buckets.len();
        let found = sparse.len();
        match phase {
            ScanPhase::Probing => {
                let candidates = match reply {
                    ScanReply::Inodes(probes) => sparse_candidates(store, probes),
                    _ => {
                        let none: Vec<Vec<u8>> = Vec::new();
                        assert(views(none@) =~= Seq::<Seq<u8>>::empty());
                        none
                    },
                };
                if candidates.len() == 0 {
                    proof {
                        let from = ScanRunView {
                            phase: ScanPhase::Done,
                            at: 0,
                            asked: Seq::empty(),
                            groups: Seq::empty(),
                            ..before
                        };
                        assert(to_bucket(from, at + 1) == to_bucket(before, at + 1));
                    }
                    ScanRun::bucket_at(dry_run, buckets, sparse, fully, at + 1, store)
                } else {
                    ScanRun {
                        dry_run,
                        buckets,
                        phase: ScanPhase::Sparse,
                        at,
                        asked: candidates,
                        sparse,
                        fully,
                        groups,
                    }
                }
            },
            ScanPhase::Sparse => {
                let mut more = match reply {
                    ScanReply::SparseHashes(items) => sparse_groups(&items),
                    _ => {
                        let none: Vec<Vec<Vec<u8>>> = Vec::new();
                        assert(list_views(none@) =~= Seq::<Seq<Seq<u8>>>::empty());
                        none
                    },
                };
                let ghost added = list_views(more@);
                sparse.append(&mut more);
                assert(list_views(sparse@) =~= before.sparse + added);
                proof {
                    let grown = ScanRunView { sparse: before.sparse + added, ..before };
                    let from = ScanRunView {
                        phase: ScanPhase::Done,
                        at: 0,
                        asked: Seq::empty(),
                        groups: Seq::empty(),
                        ..grown
                    };
                    assert(to_bucket(from, at + 1) == to_bucket(grown, at + 1));
                }
                ScanRun::bucket_at(dry_run, buckets, sparse, fully, at + 1, store)
            },
            ScanPhase::Full => {
                let mut more = match reply {
                    ScanReply::FullHashes(files) => files,
                    _ => Vec::new(),
                };
                let ghost added = more@;
                fully.append(&mut more);
                proof {
                    let grown = ScanRunView { fully: before.fully + added, ..before };
                    let from = ScanRunView {
                        phase: ScanPhase::Done,
                        at: 0,
                        asked: Seq::empty(),
                        groups: Seq::empty(),
                        ..grown
                    };
                    assert(to_group(from, at + 1) == to_group(grown, at + 1));
                }
                ScanRun::group_at(dry_run, buckets, sparse, fully, at + 1, store)
            },
            ScanPhase::Done => ScanRun {
                dry_run,
                buckets,
                phase: ScanPhase::Done,
                at,
                asked,
                sparse,
                fully,
                groups,
            },
        }
    }

    /// The groups by full hash that the scan found, those of a single path
    /// included; none while the scan is under way.
    pub fn into_groups(self) -> (groups: Vec<HashGroup>)
        ensures
            group_views(groups@) == self@.groups,
    {
        self.groups
    }
}

/// What holds of a scan at every moment: the current position lies within
/// the buckets or groups being worked on; only buckets that are worth it
/// are sparse-hashed; and the groups are those of everything hashed in full
/// once the scan is done, and withheld until then.
pub open spec fn scan_sound(v: ScanRunView) -> bool {
    match v.phase {
        ScanPhase::Probing => 0 <= v.at < v.buckets.len() && v.groups.len() == 0,
        ScanPhase::Sparse => 0 <= v.at < v.buckets.len() && v.asked.len() > 1 && v.groups.len()
            == 0,
        ScanPhase::Full => 0 <= v.at < v.sparse.len() && v.groups.len() == 0,
        ScanPhase::Done => v.groups == grouped(by_full_hash(v.fully)),
    }
}

/// How far a scan is from its end: first by the stage it is in, then by
/// what is left of that stage.
pub open spec fn scan_rank(v: ScanRunView) -> (int, int) {
    match v.phase {
        ScanPhase::Probing => (2, 2 * (v.buckets.len() - v.at)),
        ScanPhase::Sparse => (2, 2 * (v.buckets.len() - v.at) - 1),
        ScanPhase::Full => (1, v.sparse.len() - v.at),
        ScanPhase::Done => (0, 0),
    }
}

/// A scan is sound when it starts.
pub proof fn lemma_scan_started_sound(files: Seq<ScannedFile>, dry_run: bool)
    ensures
        scan_sound(scan_started(files, dry_run)),
        scan_started(files, dry_run).buckets == crowded(grouped(sized(files))),
{
}

/// A sound scan stays sound whatever the reply, and only ever moves on: its
/// buckets stay as they are, what it has found is never taken back, and
/// every reply to a pending request brings it closer to its end. The store
/// is left alone until the reply that ends the scan, and altogether in a
/// dry run.
pub proof fn lemma_scan_advanced_sound(v: ScanRunView, reply: ScanReply, store: StateView)
    requires
        scan_sound(v),
    ensures
        scan_sound(scan_advanced(v, reply, store.vaulted)),
        scan_advanced(v, reply, store.vaulted).buckets == v.buckets,
        scan_advanced(v, reply, store.vaulted).dry_run == v.dry_run,
        v.sparse.is_prefix_of(scan_advanced(v, reply, store.vaulted).sparse),
        v.fully.is_prefix_of(scan_advanced(v, reply, store.vaulted).fully),
        scan_request_at(v) is Some <==> !(v.phase is Done),
        scan_rank(v).0 >= 0 && scan_rank(v).1 >= 0,
        !(v.phase is Done) ==> {
            let next = scan_rank(scan_advanced(v, reply, store.vaulted));
            next.0 < scan_rank(v).0 || (next.0 == scan_rank(v).0 && next.1 < scan_rank(v).1)
        },
        v.phase is Done ==> scan_advanced(v, reply, store.vaulted) == v,
        !(scan_advanced(v, reply, store.vaulted).phase is Done) || v.phase is Done || v.dry_run
            ==> scan_store_after(v, reply, store) == store,
{
    let w = scan_advanced(v, reply, store.vaulted);
    assert(v.sparse =~= w.sparse.subrange(0, v.sparse.len() as int));
    assert(v.fully =~= w.fully.subrange(0, v.fully.len() as int));
}

/// Whether a scan has found nothing so far and is not hashing anything.
pub open spec fn quiet(v: ScanRunView) -> bool {
    &&& v.sparse.len() == 0
    &&& v.fully.len() == 0
    &&& v.phase is Probing || v.phase is Done
}

/// Idempotence. A scan that only meets files whose inodes are known to be
/// in the vault, as the files of a group are once each has been replaced by
/// a hard link and its inode reported, never asks for a hash, ends without
/// a group, so that nothing is linked again, and leaves the store as it is.
pub proof fn lemma_rescan_stays_quiet(v: ScanRunView, reply: ScanReply, store: StateView)
    requires
        scan_sound(v),
        quiet(v),
        reply matches ScanReply::Inodes(probes) ==> forall|i: int|
            0 <= i < probes@.len() ==> store.vaulted.contains((#[trigger] probes@[i]).inode),
    ensures
        quiet(scan_advanced(v, reply, store.vaulted)),
        scan_advanced(v, reply, store.vaulted).phase is Done ==> scan_advanced(
            v,
            reply,
            store.vaulted,
        ).groups.len() == 0,
        scan_store_after(v, reply, store) == store,
{
    if let ScanReply::Inodes(probes) = reply {
        lemma_vaulted_are_skipped(store.vaulted, probes@);
    }
    let next = scan_advanced(v, reply, store.vaulted);
    assert(by_full_hash(next.fully) =~= Seq::<(Seq<u8>, Seq<u8>)>::empty());
    assert(grouped(by_full_hash(next.fully)) =~= Seq::<(Seq<u8>, Seq<Seq<u8>>)>::empty());
    if next.phase is Done && !(v.phase is Done) && !v.dry_run {
        assert(recorded(store.files, next.fully) == store.files);
        assert(counted(store.refcounts, grouped(by_full_hash(next.fully))) == store.refcounts);
    }
}

/// The number of groups that hold duplicates: those with more than one
/// path.
pub fn duplicate_groups(groups: &Vec<HashGroup>) -> (count: usize)
    ensures
        count == crowded(group_views(groups@)).len(),
{
    let mut count: usize = 0;
    let ghost all = group_views(groups@);
    let mut g: usize = 0;
    assert(all.take(0) =~= Seq::<(Seq<u8>, Seq<Seq<u8>>)>::empty());
    while g < groups.len()
        invariant
            g <= groups.len(),
            all == group_views(groups@),
            count == crowded(all.take(g as int)).len(),
            count <= g,
        decreases groups.len() - g,
    {
        assert(all.take(g + 1).drop_last() =~= all.take(g as int));
        assert(all.take(g + 1).last() == groups@[g as int]@);
        if groups[g].paths.len() > 1 {
            count += 1;
        }
        g += 1;
    }
    assert(all.take(g as int) =~= all);
    count
}

/// Whether a path names a temporary file of the engine: whether it ends in
/// `.imprint_tmp`.
pub open spec fn is_temp(path: Seq<u8>) -> bool {
    path.len() >= 12 && path.subrange(path.len() - 12, path.len() as int) == TEMP_SUFFIX@
}

/// Tells whether a path names a temporary file of the engine. Such paths
/// are kept out of what the user is shown.
pub fn is_temp_file(path: &[u8]) -> (temp: bool)
    ensures
        temp == is_temp(path@),
{
    let len = path.len();
    if len < 12 {
        return false;
    }
    let start = len - 12;
    let mut i: usize = 0;
    while i < 12
        invariant
            i <= 12,
            len == path@.len(),
            start == len - 12,
            forall|j: int| 0 <= j < i ==> path@[start + j] == TEMP_SUFFIX@[j],
        decreases 12 - i,
    {
        if path[start + i] != TEMP_SUFFIX[i] {
            assert(path@.subrange(len - 12, len as int)[i as int] != TEMP_SUFFIX@[i as int]);
            return false;
        }
        i += 1;
    }
    assert(path@.subrange(len - 12, len as int) =~= TEMP_SUFFIX@);
    true
}

/// The temporary sibling of any path is recognised as a temporary file.
pub proof fn lemma_temp_path_is_temp(target: Seq<u8>)
    ensures
        is_temp(temp_of(target)),
{
    let temp = temp_of(target);
    assert(temp.subrange(temp.len() - 12, temp.len() as int) =~= TEMP_SUFFIX@);
}

/// Where the last component of a path starts: just after the last
/// separator, or at the front if there is none.
pub open spec fn name_start(path: Seq<u8>) -> int
    decreases path.len(),
{
    if path.len() == 0 {
        0
    } else if path.last() == SEPARATOR {
        path.len() as int
    } else {
        name_start(path.drop_last())
    }
}

/// The name a path is shown under: its last component, or the whole path
/// if that would be empty.
pub open spec fn name_of(path: Seq<u8>) -> Seq<u8> {
    if name_start(path) == path.len() {
        path
    } else {
        path.subrange(name_start(path), path.len() as int)
    }
}

/// The last component starts where a separator is followed by none.
pub proof fn lemma_name_start(path: Seq<u8>, start: int)
    requires
        0 <= start <= path.len(),
        start == 0 || path[start - 1] == SEPARATOR,
        forall|j: int| start <= j < path.len() ==> path[j] != SEPARATOR,
    ensures
        name_start(path) == start,
    decreases path.len(),
{
    if path.len() > 0 && path.last() != SEPARATOR {
        lemma_name_start(path.drop_last(), start);
    }
}

/// Computes the name a path is shown under.
pub fn display_name(path: &[u8]) -> (name: Vec<u8>)
    ensures
        name@ == name_of(path@),
{
    let mut start = path.len();
    while start > 0 && path[start - 1] != SEPARATOR
        invariant
            start <= path@.len(),
            forall|j: int| start <= j < path@.len() ==> path@[j] != SEPARATOR,
        decreases start,
    {
        start -= 1;
    }
    proof {
        lemma_name_start(path@, start as int);
    }
    if start == path.len() {
        slice_to_vec(path)
    } else {
        slice_to_vec(vstd::slice::slice_subrange(path, start, path.len()))
    }
}

} // verus!
