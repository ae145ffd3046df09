//! The filesystem operations that the engine asks its caller to perform,
//! and a model of what they do to the files on disk.

use vstd::prelude::*;

verus! {

/// A filesystem operation that the caller is asked to perform.
#[derive(Debug, PartialEq, Eq)]
pub enum FsOp {
    /// Check that a file exists at `path`. Succeeds if one does.
    Probe { path: Vec<u8> },
    /// Create the directory that holds `path`, and any missing ancestor.
    CreateParents { path: Vec<u8> },
    /// Remove the file at `path` if one exists; succeed if none does.
    RemoveIfPresent { path: Vec<u8> },
    /// Create `to`, which must not exist, as a copy-on-write clone of `from`.
    Reflink { from: Vec<u8>, to: Vec<u8> },
    /// Create `to`, which must not exist, as a hard link to `from`.
    HardLink { from: Vec<u8>, to: Vec<u8> },
    /// Copy the bytes of `from` into a new file `to`.
    Copy { from: Vec<u8>, to: Vec<u8> },
    /// Rename `from` to `to`, replacing `to` in one step if it exists.
    Rename { from: Vec<u8>, to: Vec<u8> },
}

/// [`FsOp`] over plain byte strings.
pub enum FsOpView {
    Probe { path: Seq<u8> },
    CreateParents { path: Seq<u8> },
    RemoveIfPresent { path: Seq<u8> },
    Reflink { from: Seq<u8>, to: Seq<u8> },
    HardLink { from: Seq<u8>, to: Seq<u8> },
    Copy { from: Seq<u8>, to: Seq<u8> },
    Rename { from: Seq<u8>, to: Seq<u8> },
}

impl View for FsOp {
    type V = FsOpView;

    open spec fn view(&self) -> FsOpView {
        match self {
            FsOp::Probe { path } => FsOpView::Probe { path: path@ },
            FsOp::CreateParents { path } => FsOpView::CreateParents { path: path@ },
            FsOp::RemoveIfPresent { path } => FsOpView::RemoveIfPresent { path: path@ },
            FsOp::Reflink { from, to } => FsOpView::Reflink { from: from@, to: to@ },
            FsOp::HardLink { from, to } => FsOpView::HardLink { from: from@, to: to@ },
            FsOp::Copy { from, to } => FsOpView::Copy { from: from@, to: to@ },
            FsOp::Rename { from, to } => FsOpView::Rename { from: from@, to: to@ },
        }
    }
}

/// How an operation went.
#[derive(Debug, Clone, Copy, PartialEq, Eq, Structural)]
pub enum Report {
    /// The operation did what it says.
    Succeeded,
    /// The operation failed.
    Failed,
    /// The operation failed because its two paths are on different devices.
    CrossDevice,
}

/// The regular files on disk: each path that names one, with the bytes read
/// through it. Hard links and clones appear as paths with equal bytes; no
/// operation of the engine writes into an existing file, so they never
/// diverge.
pub type Disk = Map<Seq<u8>, Seq<u8>>;

/// The bytes visible at a path, if a file is there.
pub open spec fn read(disk: Disk, path: Seq<u8>) -> Option<Seq<u8>> {
    if disk.dom().contains(path) {
        Some(disk[path])
    } else {
        None
    }
}

/// Whether two disks show the same at every path but `path`.
pub open spec fn same_elsewhere(before: Disk, after: Disk, path: Seq<u8>) -> bool {
    before.remove(path) == after.remove(path)
}

/// Whether `after` is a state in which an operation may leave the disk
/// `before`, given how the operation is reported to have gone.
///
/// This is what the engine takes a filesystem to do, and what its laws
/// about the disk rest on: every operation happens in one step and touches
/// nothing but the paths it names; a successful operation does exactly what
/// it says; a failed operation changes nothing, except that a failed clone
/// or copy may leave a file of any content at its destination; and nobody
/// else changes the disk meanwhile.
pub open spec fn performs(before: Disk, op: FsOpView, report: Report, after: Disk) -> bool {
    let succeeded = report is Succeeded;
    match op {
        FsOpView::Probe { path } => after == before && (succeeded <==> before.dom().contains(path)),
        FsOpView::CreateParents { path } => after == before,
        FsOpView::RemoveIfPresent { path } => if succeeded {
            after == before.remove(path)
        } else {
            after == before
        },
        FsOpView::Reflink { from, to } | FsOpView::Copy { from, to } => if succeeded {
            before.dom().contains(from) && after == before.insert(to, before[from])
        } else {
            same_elsewhere(before, after, to)
        },
        FsOpView::HardLink { from, to } => if succeeded {
            before.dom().contains(from) && after == before.insert(to, before[from])
        } else {
            after == before
        },
        FsOpView::Rename { from, to } => if succeeded {
            before.dom().contains(from) && after == before.remove(from).insert(to, before[from])
        } else {
            after == before
        },
    }
}

} // verus!
