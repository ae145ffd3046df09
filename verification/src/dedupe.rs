//! Replacing a file with a link to its master copy.
//!
//! The replacement never writes to the target in place. A link to the
//! master is first made under a temporary name next to the target, and then
//! renamed over the target in one step. This module decides which
//! filesystem operation comes next; the caller performs it and reports
//! whether it succeeded.

use vstd::prelude::*;
use vstd::slice::slice_to_vec;
use crate::ops::{Disk, FsOp, FsOpView, performs, read, Report};

verus! {

/// How a duplicate was tied to its master copy.
#[derive(Debug, Clone, Copy, PartialEq, Eq, Structural)]
pub enum LinkType {
    /// A copy-on-write clone with an inode of its own.
    Reflink,
    /// A second directory entry for the master's inode.
    HardLink,
}

/// The bytes `.imprint_tmp`, appended to a target's path to name its
/// temporary sibling.
pub const TEMP_SUFFIX: [u8; 12] = [0x2e, 0x69, 0x6d, 0x70, 0x72, 0x69, 0x6e, 0x74, 0x5f, 0x74, 0x6d, 0x70];

/// The temporary path used while `target` is being replaced.
pub open spec fn temp_of(target: Seq<u8>) -> Seq<u8> {
    target + TEMP_SUFFIX@
}

/// Whether two byte strings are the same.
pub fn bytes_equal(a: &[u8], b: &[u8]) -> (same: bool)
    ensures
        same == (a@ == b@),
{
    if a.len() != b.len() {
        return false;
    }
    let mut i: usize = 0;
    while i < a.len()
        invariant
            i <= a.len(),
            a.len() == b.len(),
            forall|j: int| 0 <= j < i ==> a@[j] == b@[j],
        decreases a.len() - i,
    {
        if a[i] != b[i] {
            return false;
        }
        i += 1;
    }
    assert(a@ =~= b@);
    true
}

/// Computes the temporary path for a target.
pub fn temp_path(target: &[u8]) -> (temp: Vec<u8>)
    ensures
        temp@ == temp_of(target@),
{
    let mut temp = slice_to_vec(target);
    let mut i: usize = 0;
    while i < 12
        invariant
            i <= 12,
            temp@ == target@ + TEMP_SUFFIX@.subrange(0, i as int),
        decreases 12 - i,
    {
        temp.push(TEMP_SUFFIX[i]);
        assert(temp@ =~= target@ + TEMP_SUFFIX@.subrange(0, i + 1));
        i += 1;
    }
    assert(TEMP_SUFFIX@.subrange(0, 12) =~= TEMP_SUFFIX@);
    temp
}

/// A byte-for-byte comparison of two files that are read side by side, a
/// piece of each at a time.
///
/// As long as the pieces are fed in step, that is, each pair starting at
/// the same offset in both files, the verdict tells whether everything
/// read so far is the same on both sides.
pub struct Comparison {
    same: bool,
    left: Ghost<Seq<u8>>,
    right: Ghost<Seq<u8>>,
    in_step: Ghost<bool>,
}

impl Comparison {
    #[verifier::type_invariant]
    spec fn faithful(self) -> bool {
        self.in_step@ ==> (self.same <==> self.left@ == self.right@)
    }

    /// What has been read of the first file.
    pub closed spec fn left(&self) -> Seq<u8> {
        self.left@
    }

    /// What has been read of the second file.
    pub closed spec fn right(&self) -> Seq<u8> {
        self.right@
    }

    /// Whether every pair of pieces so far started at the same offset in
    /// both files.
    pub closed spec fn in_step(&self) -> bool {
        self.in_step@
    }

    /// A comparison that has read nothing yet.
    pub fn new() -> (comparison: Comparison)
        ensures
            comparison.left() == Seq::<u8>::empty(),
            comparison.right() == Seq::<u8>::empty(),
            comparison.in_step(),
    {
        Comparison {
            same: true,
            left: Ghost(Seq::empty()),
            right: Ghost(Seq::empty()),
            in_step: Ghost(true),
        }
    }

    /// Takes in the next piece of each file.
    pub fn feed(&mut self, left: &[u8], right: &[u8])
        ensures
            final(self).left() == old(self).left() + left@,
            final(self).right() == old(self).right() + right@,
            final(self).in_step() == (old(self).in_step() && old(self).left().len() == old(
                self,
            ).right().len()),
    {
        proof {
            use_type_invariant(&*self);
        }
        let same = self.same && bytes_equal(left, right);
        let ghost old_left = self.left@;
        let ghost old_right = self.right@;
        let ghost in_step = self.in_step@ && old_left.len() == old_right.len();
        proof {
            if in_step {
                if old_left + left@ == old_right + right@ {
                    assert(old_left =~= (old_left + left@).subrange(0, old_left.len() as int));
                    assert(old_right =~= (old_right + right@).subrange(0, old_left.len() as int));
                    assert(left@ =~= (old_left + left@).subrange(
                        old_left.len() as int,
                        (old_left + left@).len() as int,
                    ));
                    assert(right@ =~= (old_right + right@).subrange(
                        old_left.len() as int,
                        (old_left + left@).len() as int,
                    ));
                }
            }
        }
        *self = Comparison {
            same,
            left: Ghost(old_left + left@),
            right: Ghost(old_right + right@),
            in_step: Ghost(in_step),
        };
    }

    /// Whether the two files are the same as far as they have been read.
    pub fn verdict(&self) -> (same: bool)
        ensures
            self.in_step() ==> (same <==> self.left() == self.right()),
    {
        proof {
            use_type_invariant(self);
        }
        self.same
    }
}

/// Ownership of a temporary file that must not outlive a failed
/// replacement.
///
/// While armed, whoever lets go of the value has to remove the file at its
/// path, if one is there. Once the temporary file has been renamed onto the
/// target the value is disarmed, so that the target is not removed.
#[derive(Debug)]
pub struct TempCleanup {
    path: Vec<u8>,
    armed: bool,
}

impl TempCleanup {
    /// The path that is watched.
    pub closed spec fn guarded(&self) -> Seq<u8> {
        self.path@
    }

    /// Whether the file at the path is still to be removed.
    pub closed spec fn armed(&self) -> bool {
        self.armed
    }

    /// Takes charge of `path`, armed.
    pub fn new(path: Vec<u8>) -> (cleanup: TempCleanup)
        ensures
            cleanup.guarded() == path@,
            cleanup.armed(),
    {
        TempCleanup { path, armed: true }
    }

    /// Gives up the duty to remove the file.
    pub fn disarm(&mut self)
        ensures
            !final(self).armed(),
            final(self).guarded() == old(self).guarded(),
    {
        self.armed = false;
    }

    /// The path that is watched.
    pub fn path(&self) -> (path: &Vec<u8>)
        ensures
            path@ == self.guarded(),
    {
        &self.path
    }

    /// Gives the path back, and with it any duty to remove the file.
    pub fn into_path(self) -> (path: Vec<u8>)
        ensures
            path@ == self.guarded(),
    {
        self.path
    }

    /// Whether the file at the path is still to be removed.
    pub fn is_armed(&self) -> (armed: bool)
        ensures
            armed == self.armed(),
    {
        self.armed
    }

    /// What letting go of the value asks for: the path to remove if a file
    /// exists there, or nothing once disarmed.
    pub fn release(&self) -> (doomed: Option<&Vec<u8>>)
        ensures
            match doomed {
                Some(path) => self.armed() && path@ == self.guarded(),
                None => !self.armed(),
            },
    {
        if self.armed {
            Some(&self.path)
        } else {
            None
        }
    }
}

/// Why a replacement was given up. The target is untouched in every case.
#[derive(Debug, Clone, Copy, PartialEq, Eq, Structural)]
pub enum ReplaceError {
    /// A stale temporary file could not be removed.
    RemoveStaleTemp,
    /// Neither a reflink nor a hard link could be created.
    CreateHardLink,
    /// The reflink could not be renamed over the target.
    SwapReflink,
    /// The hard link could not be renamed over the target.
    SwapHardLink,
}

/// Where a replacement stands.
#[derive(Debug, Clone, Copy, PartialEq, Eq, Structural)]
pub enum Stage {
    /// Removing a temporary file left over from an earlier run.
    ClearStale,
    /// Creating the reflink under the temporary name.
    MakeReflink,
    /// Removing what a failed reflink may have left behind.
    ClearPartial,
    /// Creating the hard link under the temporary name.
    MakeHardLink,
    /// Renaming the reflink over the target.
    SwapReflink,
    /// Renaming the hard link over the target.
    SwapHardLink,
    /// Removing the temporary file after a failure.
    Abort(ReplaceError),
    /// Finished: master and target are the same path, nothing was done.
    Unchanged,
    /// Finished: the target is now a link to the master.
    Replaced(LinkType),
    /// Finished: the replacement was given up.
    Failed(ReplaceError),
}

/// Whether nothing is left to do at a stage.
pub open spec fn finished(stage: Stage) -> bool {
    stage is Unchanged || stage is Replaced || stage is Failed
}

/// What a stage reports to the caller of the replacement: nothing while it
/// is under way; `Ok(None)` when there was nothing to do.
pub open spec fn outcome_at(stage: Stage) -> Option<Result<Option<LinkType>, ReplaceError>> {
    match stage {
        Stage::Unchanged => Some(Ok(None)),
        Stage::Replaced(link) => Some(Ok(Some(link))),
        Stage::Failed(error) => Some(Err(error)),
        _ => None,
    }
}

/// The stage that follows `stage` once its operation has been performed
/// and has succeeded or failed.
pub open spec fn next_stage(stage: Stage, succeeded: bool) -> Stage {
    match stage {
        Stage::ClearStale => if succeeded {
            Stage::MakeReflink
        } else {
            Stage::Failed(ReplaceError::RemoveStaleTemp)
        },
        Stage::MakeReflink => if succeeded {
            Stage::SwapReflink
        } else {
            Stage::ClearPartial
        },
        Stage::ClearPartial => Stage::MakeHardLink,
        Stage::MakeHardLink => if succeeded {
            Stage::SwapHardLink
        } else {
            Stage::Abort(ReplaceError::CreateHardLink)
        },
        Stage::SwapReflink => if succeeded {
            Stage::Replaced(LinkType::Reflink)
        } else {
            Stage::Abort(ReplaceError::SwapReflink)
        },
        Stage::SwapHardLink => if succeeded {
            Stage::Replaced(LinkType::HardLink)
        } else {
            Stage::Abort(ReplaceError::SwapHardLink)
        },
        Stage::Abort(error) => Stage::Failed(error),
        done => done,
    }
}

/// Whether a temporary file may exist that has to be removed should the
/// replacement be abandoned at this stage.
pub open spec fn owes_cleanup(stage: Stage) -> bool {
    match stage {
        Stage::ClearStale | Stage::Unchanged | Stage::Replaced(_) | Stage::Failed(_) => false,
        _ => true,
    }
}

/// The operation to perform at a stage of replacing `target` with a link to
/// `master`.
pub open spec fn op_at(stage: Stage, master: Seq<u8>, target: Seq<u8>) -> Option<FsOpView> {
    let temp = temp_of(target);
    match stage {
        Stage::ClearStale | Stage::ClearPartial | Stage::Abort(_) => Some(
            FsOpView::RemoveIfPresent { path: temp },
        ),
        Stage::MakeReflink => Some(FsOpView::Reflink { from: master, to: temp }),
        Stage::MakeHardLink => Some(FsOpView::HardLink { from: master, to: temp }),
        Stage::SwapReflink | Stage::SwapHardLink => Some(FsOpView::Rename { from: temp, to: target }),
        Stage::Unchanged | Stage::Replaced(_) | Stage::Failed(_) => None,
    }
}

/// The stage a replacement starts in: nothing is to be done when master and
/// target are the same path.
pub open spec fn first_stage(master: Seq<u8>, target: Seq<u8>) -> Stage {
    if master == target {
        Stage::Unchanged
    } else {
        Stage::ClearStale
    }
}

/// The replacement of one target by a link to a master, step by step.
#[derive(Debug)]
pub struct Replacement {
    master: Vec<u8>,
    target: Vec<u8>,
    cleanup: TempCleanup,
    stage: Stage,
}

impl Replacement {
    #[verifier::type_invariant]
    spec fn consistent(self) -> bool {
        &&& self.cleanup.guarded() == temp_of(self.target@)
        &&& self.cleanup.armed() == owes_cleanup(self.stage)
    }

    /// The path that is linked to.
    pub closed spec fn master(&self) -> Seq<u8> {
        self.master@
    }

    /// The path that is replaced.
    pub closed spec fn target(&self) -> Seq<u8> {
        self.target@
    }

    /// Where the replacement stands.
    pub closed spec fn stage(&self) -> Stage {
        self.stage
    }

    /// Where the replacement stands.
    pub fn current_stage(&self) -> (stage: Stage)
        ensures
            stage == self.stage(),
    {
        self.stage
    }

    /// The operation to perform now, or `None` when the replacement has
    /// finished.
    pub fn pending(&self) -> (op: Option<FsOp>)
        ensures
            match op {
                Some(op) => op_at(self.stage(), self.master(), self.target()) == Some(op@),
                None => op_at(self.stage(), self.master(), self.target()) is None,
            },
    {
        proof {
            use_type_invariant(self);
        }
        match self.stage {
            Stage::ClearStale | Stage::ClearPartial | Stage::Abort(_) => Some(
                FsOp::RemoveIfPresent { path: self.cleanup.path().clone() },
            ),
            Stage::MakeReflink => Some(
                FsOp::Reflink { from: self.master.clone(), to: self.cleanup.path().clone() },
            ),
            Stage::MakeHardLink => Some(
                FsOp::HardLink { from: self.master.clone(), to: self.cleanup.path().clone() },
            ),
            Stage::SwapReflink | Stage::SwapHardLink => Some(
                FsOp::Rename { from: self.cleanup.path().clone(), to: self.target.clone() },
            ),
            Stage::Unchanged | Stage::Replaced(_) | Stage::Failed(_) => None,
        }
    }

    /// Takes the report on the pending operation and moves on.
    pub fn advance(self, report: Report) -> (next: Replacement)
        ensures
            next.stage() == next_stage(self.stage(), report is Succeeded),
            next.master() == self.master(),
            next.target() == self.target(),
    {
        proof {
            use_type_invariant(&self);
        }
        let succeeded = match report {
            Report::Succeeded => true,
            _ => false,
        };
        let Replacement { master, target, cleanup, stage } = self;
        let stage = match stage {
            Stage::ClearStale => if succeeded {
                Stage::MakeReflink
            } else {
                Stage::Failed(ReplaceError::RemoveStaleTemp)
            },
            Stage::MakeReflink => if succeeded {
                Stage::SwapReflink
            } else {
                Stage::ClearPartial
            },
            Stage::ClearPartial => Stage::MakeHardLink,
            Stage::MakeHardLink => if succeeded {
                Stage::SwapHardLink
            } else {
                Stage::Abort(ReplaceError::CreateHardLink)
            },
            Stage::SwapReflink => if succeeded {
                Stage::Replaced(LinkType::Reflink)
            } else {
                Stage::Abort(ReplaceError::SwapReflink)
            },
            Stage::SwapHardLink => if succeeded {
                Stage::Replaced(LinkType::HardLink)
            } else {
                Stage::Abort(ReplaceError::SwapHardLink)
            },
            Stage::Abort(error) => Stage::Failed(error),
            done => done,
        };
        let cleanup = match stage {
            Stage::MakeReflink => TempCleanup::new(cleanup.into_path()),
            Stage::Unchanged | Stage::Replaced(_) | Stage::Failed(_) => {
                let mut spent = cleanup;
                spent.disarm();
                spent
            },
            _ => cleanup,
        };
        Replacement { master, target, cleanup, stage }
    }

    /// How the replacement ended, or `None` while it is under way. `Ok(None)`
    /// means that master and target were the same path and nothing was done.
    pub fn outcome(&self) -> (outcome: Option<Result<Option<LinkType>, ReplaceError>>)
        ensures
            outcome == outcome_at(self.stage()),
    {
        match self.stage {
            Stage::Unchanged => Some(Ok(None)),
            Stage::Replaced(link) => Some(Ok(Some(link))),
            Stage::Failed(error) => Some(Err(error)),
            _ => None,
        }
    }

    /// The temporary file that has to be removed if the replacement is
    /// abandoned right now, as when the caller unwinds.
    pub fn abandon(&self) -> (doomed: Option<&Vec<u8>>)
        ensures
            match doomed {
                Some(path) => owes_cleanup(self.stage()) && path@ == temp_of(self.target()),
                None => !owes_cleanup(self.stage()),
            },
    {
        proof {
            use_type_invariant(self);
        }
        self.cleanup.release()
    }
}

/// An upper bound on the number of operations still to be performed from a
/// stage on.
pub open spec fn ops_left(stage: Stage) -> nat {
    match stage {
        Stage::ClearStale => 6,
        Stage::MakeReflink => 5,
        Stage::ClearPartial => 4,
        Stage::MakeHardLink => 3,
        Stage::SwapReflink | Stage::SwapHardLink => 2,
        Stage::Abort(_) => 1,
        Stage::Unchanged | Stage::Replaced(_) | Stage::Failed(_) => 0,
    }
}

/// Every replacement finishes: each report brings an unfinished replacement
/// strictly closer to its end, at most six operations are ever asked for,
/// an operation is pending exactly while the replacement is unfinished, and
/// a finished replacement stays as it is.
pub proof fn lemma_replacement_finishes(
    stage: Stage,
    master: Seq<u8>,
    target: Seq<u8>,
    succeeded: bool,
)
    ensures
        ops_left(stage) <= 6,
        finished(stage) <==> ops_left(stage) == 0,
        finished(stage) <==> op_at(stage, master, target) is None,
        finished(stage) <==> outcome_at(stage) is Some,
        !finished(stage) ==> ops_left(next_stage(stage, succeeded)) < ops_left(stage),
        finished(stage) ==> next_stage(stage, succeeded) == stage,
{
}

/// The temporary path of a target is never the target itself.
pub proof fn lemma_temp_is_not_target(target: Seq<u8>)
    ensures
        temp_of(target) != target,
{
    assert(temp_of(target).len() == target.len() + 12);
}

/// What is true of the disk throughout the replacement of `target` by a
/// link to `master`, where `start` is the disk before the first operation
/// and `now` the disk at `stage`:
///
/// - every path other than the target and its temporary sibling shows what
///   it showed at the start;
/// - the target shows what it showed at the start, until the replacement
///   has succeeded, from when on it shows the whole of what the master
///   showed at the start;
/// - when the rename is about to happen, the temporary file holds the
///   master's bytes.
pub open spec fn holds(
    stage: Stage,
    master: Seq<u8>,
    target: Seq<u8>,
    start: Disk,
    now: Disk,
) -> bool {
    let temp = temp_of(target);
    &&& forall|path: Seq<u8>|
        path != temp && path != target ==> #[trigger] read(now, path) == read(start, path)
    &&& if stage is Replaced {
        start.dom().contains(master) && read(now, target) == read(start, master)
    } else {
        read(now, target) == read(start, target)
    }
    &&& (stage is SwapReflink || stage is SwapHardLink) ==> start.dom().contains(master) && read(
        now,
        temp,
    ) == read(start, master)
}

/// The invariant [`holds`] is true before the first operation.
pub proof fn lemma_holds_at_start(master: Seq<u8>, target: Seq<u8>, start: Disk)
    ensures
        holds(first_stage(master, target), master, target, start, start),
{
}

/// The invariant [`holds`] survives every operation of the replacement,
/// however the operation goes, as long as the master is not the target's
/// temporary sibling. So stopping after any number of operations leaves
/// every path but the temporary one with its old bytes or, for the target
/// after the final rename, with the master's.
pub proof fn lemma_holds_after_step(
    stage: Stage,
    master: Seq<u8>,
    target: Seq<u8>,
    start: Disk,
    now: Disk,
    report: Report,
    after: Disk,
)
    requires
        master != temp_of(target),
        holds(stage, master, target, start, now),
        op_at(stage, master, target) matches Some(op) && performs(now, op, report, after),
    ensures
        holds(next_stage(stage, report is Succeeded), master, target, start, after),
{
    let temp = temp_of(target);
    let next = next_stage(stage, report is Succeeded);
    lemma_temp_is_not_target(target);
    assert forall|path: Seq<u8>|
        path != temp && now.remove(temp) == after.remove(temp) implies #[trigger] read(
        after,
        path,
    ) == read(now, path) by {
        assert(now.remove(temp).dom().contains(path) == now.dom().contains(path));
        assert(after.remove(temp).dom().contains(path) == after.dom().contains(path));
        if now.dom().contains(path) {
            assert(now.remove(temp)[path] == now[path]);
            assert(after.remove(temp)[path] == after[path]);
        }
    }
    if master != target {
        assert(read(now, master) == read(start, master));
    }
    assert(holds(next, master, target, start, after));
}

/// Content preservation: if master and target showed the same bytes at the
/// start, then throughout the replacement every path other than the
/// temporary one shows what it showed at the start.
pub proof fn lemma_contents_preserved(
    stage: Stage,
    master: Seq<u8>,
    target: Seq<u8>,
    start: Disk,
    now: Disk,
)
    requires
        holds(stage, master, target, start, now),
        read(start, master) == read(start, target),
    ensures
        forall|path: Seq<u8>|
            path != temp_of(target) ==> #[trigger] read(now, path) == read(start, path),
{
}

/// Begins the replacement of `target` by a link to `master`.
pub fn replace_with_link(master: &[u8], target: &[u8]) -> (run: Replacement)
    ensures
        run.master() == master@,
        run.target() == target@,
        run.stage() == first_stage(master@, target@),
{
    let mut cleanup = TempCleanup::new(temp_path(target));
    cleanup.disarm();
    let stage = if bytes_equal(master, target) {
        Stage::Unchanged
    } else {
        Stage::ClearStale
    };
    Replacement { master: slice_to_vec(master), target: slice_to_vec(target), cleanup, stage }
}

} // verus!
