//! The vault: a directory tree in which the one kept copy of each content
//! lives under a path derived from its hash.

use vstd::prelude::*;
use vstd::slice::slice_to_vec;
use crate::dedupe::{temp_of, temp_path, TEMP_SUFFIX};
use crate::ops::{Disk, FsOp, FsOpView, performs, read, Report};
use crate::types;
use crate::types::{hash_to_hex, hex_digit, hex_of};

verus! {

/// ASCII code of the path separator `/`.
pub const SEPARATOR: u8 = 0x2f;

/// The path of the vault object for a hash, below `root`:
/// `<root>/<hex[0..2]>/<hex[2..4]>/<hex>`, where `hex` is the lowercase
/// hexadecimal rendering of the hash.
pub open spec fn shard_of(root: Seq<u8>, hash: Seq<u8>) -> Seq<u8> {
    let hex = hex_of(hash);
    root + seq![SEPARATOR] + hex.subrange(0, 2) + seq![SEPARATOR] + hex.subrange(2, 4)
        + seq![SEPARATOR] + hex
}

/// Computes the path of the vault object for a hash.
pub fn shard_path(root: &[u8], hash: &types::Hash) -> (path: Vec<u8>)
    ensures
        path@ == shard_of(root@, hash@),
{
    let hex = hash_to_hex(hash);
    proof {
        hash.lemma_view();
    }
    let mut path = slice_to_vec(root);
    path.push(SEPARATOR);
    path.push(hex[0]);
    path.push(hex[1]);
    path.push(SEPARATOR);
    path.push(hex[2]);
    path.push(hex[3]);
    path.push(SEPARATOR);
    let ghost stem = path@;
    assert(stem =~= root@ + seq![SEPARATOR] + hex@.subrange(0, 2) + seq![SEPARATOR]
        + hex@.subrange(2, 4) + seq![SEPARATOR]);
    let mut i: usize = 0;
    while i < hex.len()
        invariant
            i <= hex.len(),
            path@ == stem + hex@.subrange(0, i as int),
        decreases hex.len() - i,
    {
        path.push(hex[i]);
        assert(path@ =~= stem + hex@.subrange(0, i + 1));
        i += 1;
    }
    assert(hex@.subrange(0, hex.len() as int) =~= hex@);
    path
}

/// A vault path is never the temporary sibling of any path: it ends in a
/// hexadecimal digit, a temporary path in the letter `p`. So a vault object
/// is never mistaken for, or removed as, a leftover temporary file.
pub proof fn lemma_vault_path_is_no_temp(root: Seq<u8>, hash: types::Hash, target: Seq<u8>)
    ensures
        shard_of(root, hash@) != temp_of(target),
{
    hash.lemma_view();
    let hex = hex_of(hash@);
    let path = shard_of(root, hash@);
    let temp = temp_of(target);
    assert(path.len() == root.len() + 71);
    assert(path[path.len() - 1] == hex[63]);
    assert(hex[63] == hex_digit(hash@[31] % 16));
    assert(temp[temp.len() - 1] == TEMP_SUFFIX@[11]);
    assert(TEMP_SUFFIX@[11] == 0x70);
}

/// Two hexadecimal digits are the same only if their values are.
proof fn lemma_hex_digit_injective(a: u8, b: u8)
    requires
        a < 16,
        b < 16,
        hex_digit(a) == hex_digit(b),
    ensures
        a == b,
{
}

/// Content addressing: different hashes never share a vault path.
pub proof fn lemma_vault_paths_differ(root: Seq<u8>, first: types::Hash, second: types::Hash)
    requires
        first@ != second@,
    ensures
        shard_of(root, first@) != shard_of(root, second@),
{
    first.lemma_view();
    second.lemma_view();
    let a = shard_of(root, first@);
    let b = shard_of(root, second@);
    if a == b {
        assert forall|i: int| 0 <= i < 32 implies first@[i] == second@[i] by {
            let x = first@[i];
            let y = second@[i];
            assert(a[root.len() + 7 + 2 * i] == hex_of(first@)[2 * i]);
            assert(b[root.len() + 7 + 2 * i] == hex_of(second@)[2 * i]);
            assert(a[root.len() + 7 + 2 * i + 1] == hex_of(first@)[2 * i + 1]);
            assert(b[root.len() + 7 + 2 * i + 1] == hex_of(second@)[2 * i + 1]);
            assert(hex_of(first@)[2 * i] == hex_digit(x / 16));
            assert(hex_of(second@)[2 * i] == hex_digit(y / 16));
            assert(hex_of(first@)[2 * i + 1] == hex_digit(x % 16));
            assert(hex_of(second@)[2 * i + 1] == hex_digit(y % 16));
            lemma_hex_digit_injective(x / 16, y / 16);
            lemma_hex_digit_injective(x % 16, y % 16);
        }
        assert(first@ =~= second@);
    }
}

/// Why a promotion was given up.
#[derive(Debug, Clone, Copy, PartialEq, Eq, Structural)]
pub enum PromoteError {
    /// The directories above the vault object could not be created.
    CreateParents,
    /// The source could not be renamed into the vault.
    Move,
    /// The source could not be copied next to the vault object.
    Copy,
    /// The copy could not be renamed into place.
    Install,
    /// The source could not be removed after it had been copied.
    RemoveSource,
}

/// Where a promotion stands.
#[derive(Debug, Clone, Copy, PartialEq, Eq, Structural)]
pub enum PromoteStage {
    /// Looking whether the vault object exists already.
    Probe,
    /// Creating the directories above the vault object.
    MakeRoom,
    /// Renaming the source into the vault.
    Move,
    /// Copying the source next to the vault object, across devices.
    CopyOver,
    /// Renaming the copy into place.
    Install,
    /// Removing the source that has been copied.
    Retire,
    /// Removing the copy after a failure.
    Abort(PromoteError),
    /// Finished: the vault object was there already; the source is as it
    /// was.
    Kept,
    /// Finished: the source has become the vault object and is gone from
    /// its old path.
    Moved,
    /// Finished: the promotion was given up.
    Failed(PromoteError),
}

/// Whether nothing is left to do at a stage.
pub open spec fn promoted(stage: PromoteStage) -> bool {
    stage is Kept || stage is Moved || stage is Failed
}

/// The stage that follows `stage` once its operation has been reported on.
pub open spec fn next_promote_stage(stage: PromoteStage, report: Report) -> PromoteStage {
    let succeeded = report is Succeeded;
    match stage {
        PromoteStage::Probe => if succeeded {
            PromoteStage::Kept
        } else {
            PromoteStage::MakeRoom
        },
        PromoteStage::MakeRoom => if succeeded {
            PromoteStage::Move
        } else {
            PromoteStage::Failed(PromoteError::CreateParents)
        },
        PromoteStage::Move => match report {
            Report::Succeeded => PromoteStage::Moved,
            Report::CrossDevice => PromoteStage::CopyOver,
            Report::Failed => PromoteStage::Failed(PromoteError::Move),
        },
        PromoteStage::CopyOver => if succeeded {
            PromoteStage::Install
        } else {
            PromoteStage::Abort(PromoteError::Copy)
        },
        PromoteStage::Install => if succeeded {
            PromoteStage::Retire
        } else {
            PromoteStage::Abort(PromoteError::Install)
        },
        PromoteStage::Retire => if succeeded {
            PromoteStage::Moved
        } else {
            PromoteStage::Failed(PromoteError::RemoveSource)
        },
        PromoteStage::Abort(error) => PromoteStage::Failed(error),
        done => done,
    }
}

/// The operation to perform at a stage of promoting `source` to the vault
/// path `object`.
pub open spec fn promote_op_at(stage: PromoteStage, source: Seq<u8>, object: Seq<u8>) -> Option<
    FsOpView,
> {
    match stage {
        PromoteStage::Probe => Some(FsOpView::Probe { path: object }),
        PromoteStage::MakeRoom => Some(FsOpView::CreateParents { path: object }),
        PromoteStage::Move => Some(FsOpView::Rename { from: source, to: object }),
        PromoteStage::CopyOver => Some(FsOpView::Copy { from: source, to: temp_of(object) }),
        PromoteStage::Install => Some(FsOpView::Rename { from: temp_of(object), to: object }),
        PromoteStage::Retire => Some(FsOpView::RemoveIfPresent { path: source }),
        PromoteStage::Abort(_) => Some(FsOpView::RemoveIfPresent { path: temp_of(object) }),
        PromoteStage::Kept | PromoteStage::Moved | PromoteStage::Failed(_) => None,
    }
}

/// What a stage reports to the caller of the promotion: nothing while it is
/// under way, then the vault path or the reason for giving up.
pub open spec fn promote_outcome_at(stage: PromoteStage, object: Seq<u8>) -> Option<
    Result<Seq<u8>, PromoteError>,
> {
    match stage {
        PromoteStage::Kept | PromoteStage::Moved => Some(Ok(object)),
        PromoteStage::Failed(error) => Some(Err(error)),
        _ => None,
    }
}

/// Whether a copy may exist next to the vault object that has to be removed
/// should the promotion be abandoned at this stage.
pub open spec fn promote_owes_cleanup(stage: PromoteStage) -> bool {
    stage is CopyOver || stage is Install || stage is Abort
}

/// The promotion of one file into the vault, step by step.
#[derive(Debug)]
pub struct Promotion {
    source: Vec<u8>,
    object: Vec<u8>,
    stage: PromoteStage,
}

impl Promotion {
    /// The file that is promoted.
    pub closed spec fn source(&self) -> Seq<u8> {
        self.source@
    }

    /// The vault path that the content is to live under.
    pub closed spec fn object(&self) -> Seq<u8> {
        self.object@
    }

    /// Where the promotion stands.
    pub closed spec fn stage(&self) -> PromoteStage {
        self.stage
    }

    /// Where the promotion stands.
    pub fn current_stage(&self) -> (stage: PromoteStage)
        ensures
            stage == self.stage(),
    {
        self.stage
    }

    /// The vault path that the content is to live under.
    pub fn vault_path(&self) -> (path: &Vec<u8>)
        ensures
            path@ == self.object(),
    {
        &self.object
    }

    /// The operation to perform now, or `None` when the promotion has
    /// finished.
    pub fn pending(&self) -> (op: Option<FsOp>)
        ensures
            match op {
                Some(op) => promote_op_at(self.stage(), self.source(), self.object()) == Some(op@),
                None => promote_op_at(self.stage(), self.source(), self.object()) is None,
            },
    {
        match self.stage {
            PromoteStage::Probe => Some(FsOp::Probe { path: self.object.clone() }),
            PromoteStage::MakeRoom => Some(FsOp::CreateParents { path: self.object.clone() }),
            PromoteStage::Move => Some(
                FsOp::Rename { from: self.source.clone(), to: self.object.clone() },
            ),
            PromoteStage::CopyOver => Some(
                FsOp::Copy { from: self.source.clone(), to: temp_path(self.object.as_slice()) },
            ),
            PromoteStage::Install => Some(
                FsOp::Rename { from: temp_path(self.object.as_slice()), to: self.object.clone() },
            ),
            PromoteStage::Retire => Some(FsOp::RemoveIfPresent { path: self.source.clone() }),
            PromoteStage::Abort(_) => Some(
                FsOp::RemoveIfPresent { path: temp_path(self.object.as_slice()) },
            ),
            PromoteStage::Kept | PromoteStage::Moved | PromoteStage::Failed(_) => None,
        }
    }

    /// Takes the report on the pending operation and moves on.
    pub fn advance(self, report: Report) -> (next: Promotion)
        ensures
            next.stage() == next_promote_stage(self.stage(), report),
            next.source() == self.source(),
            next.object() == self.object(),
    {
        let succeeded = match report {
            Report::Succeeded => true,
            _ => false,
        };
        let stage = match self.stage {
            PromoteStage::Probe => if succeeded {
                PromoteStage::Kept
            } else {
                PromoteStage::MakeRoom
            },
            PromoteStage::MakeRoom => if succeeded {
                PromoteStage::Move
            } else {
                PromoteStage::Failed(PromoteError::CreateParents)
            },
            PromoteStage::Move => match report {
                Report::Succeeded => PromoteStage::Moved,
                Report::CrossDevice => PromoteStage::CopyOver,
                Report::Failed => PromoteStage::Failed(PromoteError::Move),
            },
            PromoteStage::CopyOver => if succeeded {
                PromoteStage::Install
            } else {
                PromoteStage::Abort(PromoteError::Copy)
            },
            PromoteStage::Install => if succeeded {
                PromoteStage::Retire
            } else {
                PromoteStage::Abort(PromoteError::Install)
            },
            PromoteStage::Retire => if succeeded {
                PromoteStage::Moved
            } else {
                PromoteStage::Failed(PromoteError::RemoveSource)
            },
            PromoteStage::Abort(error) => PromoteStage::Failed(error),
            done => done,
        };
        Promotion { source: self.source, object: self.object, stage }
    }

    /// The copy that has to be removed if the promotion is abandoned right
    /// now, as when the caller unwinds.
    pub fn abandon(&self) -> (doomed: Option<Vec<u8>>)
        ensures
            match doomed {
                Some(path) => promote_owes_cleanup(self.stage()) && path@ == temp_of(self.object()),
                None => !promote_owes_cleanup(self.stage()),
            },
    {
        match self.stage {
            PromoteStage::CopyOver | PromoteStage::Install | PromoteStage::Abort(_) => Some(
                temp_path(self.object.as_slice()),
            ),
            _ => None,
        }
    }

    /// How the promotion ended, or `None` while it is under way. On success
    /// this is the vault path, whether the content was moved there now or
    /// had been there before.
    pub fn outcome(&self) -> (outcome: Option<Result<&Vec<u8>, PromoteError>>)
        ensures
            match outcome {
                Some(Ok(path)) => promote_outcome_at(self.stage(), self.object()) == Some(
                    Ok::<Seq<u8>, PromoteError>(path@),
                ),
                Some(Err(error)) => promote_outcome_at(self.stage(), self.object()) == Some(
                    Err::<Seq<u8>, PromoteError>(error),
                ),
                None => promote_outcome_at(self.stage(), self.object()) is None,
            },
    {
        match self.stage {
            PromoteStage::Kept | PromoteStage::Moved => Some(Ok(&self.object)),
            PromoteStage::Failed(error) => Some(Err(error)),
            _ => None,
        }
    }
}

/// Begins the promotion of `source`, whose content has the given hash, into
/// the vault below `root`.
pub fn ensure_in_vault(root: &[u8], hash: &types::Hash, source: &[u8]) -> (run: Promotion)
    ensures
        run.source() == source@,
        run.object() == shard_of(root@, hash@),
        run.stage() == PromoteStage::Probe,
{
    Promotion {
        source: slice_to_vec(source),
        object: shard_path(root, hash),
        stage: PromoteStage::Probe,
    }
}

/// An upper bound on the number of operations still to be performed from a
/// stage on.
pub open spec fn promote_ops_left(stage: PromoteStage) -> nat {
    match stage {
        PromoteStage::Probe => 6,
        PromoteStage::MakeRoom => 5,
        PromoteStage::Move => 4,
        PromoteStage::CopyOver => 3,
        PromoteStage::Install => 2,
        PromoteStage::Retire | PromoteStage::Abort(_) => 1,
        PromoteStage::Kept | PromoteStage::Moved | PromoteStage::Failed(_) => 0,
    }
}

/// Every promotion finishes: each report brings an unfinished promotion
/// strictly closer to its end, at most six operations are ever asked for,
/// an operation is pending exactly while the promotion is unfinished, and a
/// finished promotion stays as it is.
pub proof fn lemma_promotion_finishes(
    stage: PromoteStage,
    source: Seq<u8>,
    object: Seq<u8>,
    report: Report,
)
    ensures
        promote_ops_left(stage) <= 6,
        promoted(stage) <==> promote_ops_left(stage) == 0,
        promoted(stage) <==> promote_op_at(stage, source, object) is None,
        promoted(stage) <==> promote_outcome_at(stage, object) is Some,
        !promoted(stage) ==> promote_ops_left(next_promote_stage(stage, report))
            < promote_ops_left(stage),
        promoted(stage) ==> next_promote_stage(stage, report) == stage,
{
}

/// What is true of the disk throughout the promotion of `source` to the
/// vault path `object`, where `start` is the disk before the first
/// operation and `now` the disk at `stage`:
///
/// - every path other than the source, the vault object and the object's
///   temporary sibling shows what it showed at the start;
/// - a vault object that was there at the start is never touched: the
///   promotion then ends as `Kept` with the disk as it was;
/// - otherwise no file is at the vault path until the content is renamed
///   into place, whole: on `Moved` the vault object shows the source's
///   bytes and the source is gone;
/// - until then, and whenever the promotion fails, the source shows what it
///   showed at the start.
pub open spec fn promoting(
    stage: PromoteStage,
    source: Seq<u8>,
    object: Seq<u8>,
    start: Disk,
    now: Disk,
) -> bool {
    let temp = temp_of(object);
    &&& forall|path: Seq<u8>|
        path != source && path != object && path != temp ==> #[trigger] read(now, path) == read(
            start,
            path,
        )
    &&& match stage {
        PromoteStage::Probe => now == start,
        PromoteStage::Kept => now == start && start.dom().contains(object),
        PromoteStage::MakeRoom | PromoteStage::Move | PromoteStage::CopyOver => {
            &&& !start.dom().contains(object)
            &&& !now.dom().contains(object)
            &&& read(now, source) == read(start, source)
        },
        PromoteStage::Abort(error) => {
            &&& error != PromoteError::RemoveSource
            &&& !start.dom().contains(object)
            &&& !now.dom().contains(object)
            &&& read(now, source) == read(start, source)
        },
        PromoteStage::Install => {
            &&& !start.dom().contains(object)
            &&& !now.dom().contains(object)
            &&& read(now, source) == read(start, source)
            &&& start.dom().contains(source)
            &&& read(now, temp) == read(start, source)
        },
        PromoteStage::Retire => {
            &&& !start.dom().contains(object)
            &&& start.dom().contains(source)
            &&& read(now, object) == read(start, source)
            &&& read(now, source) == read(start, source)
        },
        PromoteStage::Moved => {
            &&& !start.dom().contains(object)
            &&& start.dom().contains(source)
            &&& read(now, object) == read(start, source)
            &&& !now.dom().contains(source)
        },
        PromoteStage::Failed(error) => {
            &&& !start.dom().contains(object)
            &&& read(now, source) == read(start, source)
            &&& if error == PromoteError::RemoveSource {
                read(now, object) == read(start, source)
            } else {
                !now.dom().contains(object)
            }
        },
    }
}

/// The invariant [`promoting`] is true before the first operation.
pub proof fn lemma_promoting_at_start(source: Seq<u8>, object: Seq<u8>, start: Disk)
    ensures
        promoting(PromoteStage::Probe, source, object, start, start),
{
}

/// The invariant [`promoting`] survives every operation of the promotion,
/// however the operation goes, as long as the source is neither the vault
/// object nor the object's temporary sibling.
pub proof fn lemma_promoting_after_step(
    stage: PromoteStage,
    source: Seq<u8>,
    object: Seq<u8>,
    start: Disk,
    now: Disk,
    report: Report,
    after: Disk,
)
    requires
        source != object,
        source != temp_of(object),
        promoting(stage, source, object, start, now),
        promote_op_at(stage, source, object) matches Some(op) && performs(now, op, report, after),
    ensures
        promoting(next_promote_stage(stage, report), source, object, start, after),
{
    let temp = temp_of(object);
    crate::dedupe::lemma_temp_is_not_target(object);
    assert forall|path: Seq<u8>|
        path != temp && now.remove(temp) == after.remove(temp) implies #[trigger] read(
        after,
        path,
    ) == read(now, path) by {
        assert(now.remove(temp).dom().contains(path) == now.dom().contains(path));
        assert(after.remove(temp).dom().contains(path) == after.dom().contains(path));
        if now.dom().contains(path) {
            assert(now.remove(temp)[path] == now[path]);
            assert(after.remove(temp)[path] == after[path]);
        }
    }
    if now.remove(temp) == after.remove(temp) {
        assert(read(after, object) == read(now, object));
        assert(read(after, source) == read(now, source));
    }
    assert forall|path: Seq<u8>|
        path != source && path != object && path != temp implies #[trigger] read(after, path)
        == read(start, path) by {
        assert(read(now, path) == read(start, path));
    }
    match stage {
        PromoteStage::Probe | PromoteStage::MakeRoom => {},
        PromoteStage::Move => {},
        PromoteStage::CopyOver => {},
        PromoteStage::Install => {},
        PromoteStage::Retire => {},
        PromoteStage::Abort(_) => {},
        PromoteStage::Kept | PromoteStage::Moved | PromoteStage::Failed(_) => {},
    }
}

} // verus!
