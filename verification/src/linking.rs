//! The dedup phase, one group at a time.
//!
//! The first path of a group is its master. It is promoted into the vault,
//! and then every path of the group, the master first, is replaced by a
//! link to the vault object. In paranoid mode no existing file is replaced
//! before its bytes have been compared with the vault object's. When all
//! paths have been dealt with, the number of paths actually linked is
//! written to the store as the reference count of the group's hash.
//!
//! A [`GroupRun`] decides what is to be done next; the caller does it and
//! replies.

use vstd::prelude::*;
use vstd::slice::slice_to_vec;
use vstd::string::StringSliceAdditionalSpecFns;
use crate::dedupe::{
    bytes_equal,
    finished,
    LinkType,
    next_stage,
    op_at,
    ops_left,
    owes_cleanup,
    replace_with_link,
    ReplaceError,
    Replacement,
    Stage,
    temp_of,
};
use crate::ops::{FsOp, FsOpView, Report};
use crate::pipeline::{HashGroup, is_temp, is_temp_file};
use crate::grouping::views;
use crate::state::{State, StateView};
use crate::types;
use crate::vault::{
    ensure_in_vault,
    next_promote_stage,
    promote_op_at,
    promote_ops_left,
    promote_owes_cleanup,
    promoted,
    PromoteError,
    PromoteStage,
    Promotion,
    shard_of,
    shard_path,
};

verus! {

/// How a run treats the files it works on.
#[derive(Debug, Clone, Copy, PartialEq, Eq, Structural)]
pub struct Mode {
    /// Compare bytes with the vault object before any file is replaced.
    pub paranoid: bool,
    /// Change nothing, on disk or in the store; only say what would be done.
    pub dry_run: bool,
}

/// What a byte-for-byte comparison of two files found.
#[derive(Debug, Clone, Copy, PartialEq, Eq, Structural)]
pub enum Verdict {
    /// Both files hold the same bytes.
    Same,
    /// The files differ.
    Differ,
    /// The comparison could not be carried out.
    Unreadable,
}

/// What the dedup phase asks its caller to do next.
#[derive(Debug, PartialEq, Eq)]
pub enum Request {
    /// Perform a filesystem operation and report how it went.
    Disk(FsOp),
    /// Compare the bytes of two files.
    Compare { left: Vec<u8>, right: Vec<u8> },
    /// Look up the inode that a path names.
    Inode { path: Vec<u8> },
}

/// [`Request`] over plain byte strings.
pub enum RequestView {
    Disk(FsOpView),
    Compare { left: Seq<u8>, right: Seq<u8> },
    Inode { path: Seq<u8> },
}

impl View for Request {
    type V = RequestView;

    open spec fn view(&self) -> RequestView {
        match self {
            Request::Disk(op) => RequestView::Disk(op@),
            Request::Compare { left, right } => RequestView::Compare { left: left@, right: right@ },
            Request::Inode { path } => RequestView::Inode { path: path@ },
        }
    }
}

/// The caller's answer to a [`Request`].
#[derive(Debug, Clone, Copy, PartialEq, Eq, Structural)]
pub enum Reply {
    /// How a filesystem operation went.
    Disk(Report),
    /// What a comparison found.
    Compared(Verdict),
    /// The inode asked for, or `None` if it could not be looked up.
    Inode(Option<u64>),
}

/// Something the user is to be told.
#[derive(Debug, PartialEq, Eq)]
pub enum Notice {
    /// Dry run: the master would be moved into the vault.
    WouldMoveMaster { master: Vec<u8>, vault_path: Vec<u8> },
    /// Dry run: nothing can be compared, the master not being in the vault.
    SkippingVerification,
    /// Dry run: the path would be replaced by a link to the vault object.
    WouldDedupe { path: Vec<u8>, vault_path: Vec<u8> },
    /// Dry run: the store would be updated for the hash.
    WouldUpdateState { hash: types::Hash },
    /// The path has been replaced by a link. `verified` tells whether its
    /// bytes had been compared with the vault object's first; `shown`
    /// whether the user is told, which is not so for temporary files.
    Linked { path: Vec<u8>, link: LinkType, verified: bool, shown: bool },
    /// The path's bytes differ from the vault object's although the hashes
    /// agree: a hash collision or bit rot. The path was not touched.
    Collision { path: Vec<u8> },
    /// The path could not be compared with the vault object and was
    /// skipped.
    VerifyFailed { path: Vec<u8> },
    /// The master could not be promoted into the vault; its group was
    /// skipped.
    PromotionFailed { master: Vec<u8>, error: PromoteError },
    /// The path could not be replaced by a link and was skipped.
    LinkFailed { path: Vec<u8>, cause: ReplaceError },
}

/// [`Notice`] over plain byte strings.
pub enum NoticeView {
    WouldMoveMaster { master: Seq<u8>, vault_path: Seq<u8> },
    SkippingVerification,
    WouldDedupe { path: Seq<u8>, vault_path: Seq<u8> },
    WouldUpdateState { hash: Seq<u8> },
    Linked { path: Seq<u8>, link: LinkType, verified: bool, shown: bool },
    Collision { path: Seq<u8> },
    VerifyFailed { path: Seq<u8> },
    PromotionFailed { master: Seq<u8>, error: PromoteError },
    LinkFailed { path: Seq<u8>, cause: ReplaceError },
}

impl View for Notice {
    type V = NoticeView;

    open spec fn view(&self) -> NoticeView {
        match self {
            Notice::WouldMoveMaster { master, vault_path } => NoticeView::WouldMoveMaster {
                master: master@,
                vault_path: vault_path@,
            },
            Notice::SkippingVerification => NoticeView::SkippingVerification,
            Notice::WouldDedupe { path, vault_path } => NoticeView::WouldDedupe {
                path: path@,
                vault_path: vault_path@,
            },
            Notice::WouldUpdateState { hash } => NoticeView::WouldUpdateState { hash: hash@ },
            Notice::Linked { path, link, verified, shown } => NoticeView::Linked {
                path: path@,
                link: *link,
                verified: *verified,
                shown: *shown,
            },
            Notice::Collision { path } => NoticeView::Collision { path: path@ },
            Notice::VerifyFailed { path } => NoticeView::VerifyFailed { path: path@ },
            Notice::PromotionFailed { master, error } => NoticeView::PromotionFailed {
                master: master@,
                error: *error,
            },
            Notice::LinkFailed { path, cause } => NoticeView::LinkFailed {
                path: path@,
                cause: *cause,
            },
        }
    }
}

/// A list of notices as plain values.
pub open spec fn notice_views(notices: Seq<Notice>) -> Seq<NoticeView> {
    Seq::new(notices.len(), |i: int| notices[i]@)
}

/// Where the work on a group stands.
#[derive(Debug, Clone, Copy, PartialEq, Eq, Structural)]
pub enum Phase {
    /// Promoting the master into the vault.
    Promoting(PromoteStage),
    /// Looking whether the master's path still names a file.
    ProbingMaster,
    /// Comparing the current path with the vault object.
    Verifying,
    /// Replacing the current path by a link to the vault object.
    Linking(Stage),
    /// Looking up the inode of the current path, now a hard link.
    Numbering,
    /// Every path has been dealt with.
    Finished,
    /// The group was passed over or given up; no count was written.
    Dropped,
}

/// The work on one group of paths with the same full hash, as plain values.
pub struct GroupRunView {
    pub mode: Mode,
    /// The hash that the paths share.
    pub hash: Seq<u8>,
    /// The paths of the group; the first is the master.
    pub paths: Seq<Seq<u8>>,
    /// Where the group's content lives in the vault.
    pub vault_path: Seq<u8>,
    pub phase: Phase,
    /// The position of the path being worked on.
    pub index: int,
    /// Whether the current path was compared with the vault object and found
    /// the same.
    pub verified: bool,
    /// Whether the current path was found to name no file.
    pub absent: bool,
    /// The number of paths replaced by a link so far.
    pub linked: int,
    /// What there is to tell the user so far.
    pub notices: Seq<NoticeView>,
}

/// The report that a reply carries; a reply of another kind counts as a
/// failure.
pub open spec fn report_of(reply: Reply) -> Report {
    match reply {
        Reply::Disk(report) => report,
        _ => Report::Failed,
    }
}

/// The verdict that a reply carries; a reply of another kind counts as an
/// unreadable file.
pub open spec fn verdict_of(reply: Reply) -> Verdict {
    match reply {
        Reply::Compared(verdict) => verdict,
        _ => Verdict::Unreadable,
    }
}

/// The inode that a reply carries, if any.
pub open spec fn inode_of(reply: Reply) -> Option<u64> {
    match reply {
        Reply::Inode(inode) => inode,
        _ => None,
    }
}

/// The run with one more notice.
pub open spec fn noting(v: GroupRunView, notice: NoticeView) -> GroupRunView {
    GroupRunView { notices: v.notices.push(notice), ..v }
}

/// The run after its current path has been replaced by a link of the given
/// kind: the link is counted and noted.
pub open spec fn counting(v: GroupRunView, link: LinkType) -> GroupRunView {
    GroupRunView {
        linked: v.linked + 1,
        notices: v.notices.push(
            NoticeView::Linked {
                path: v.paths[v.index],
                link,
                verified: v.verified,
                shown: !is_temp(v.paths[v.index]),
            },
        ),
        ..v
    }
}

/// The run on arriving at the path at `index`: finished if there is no such
/// path; otherwise the path is compared first in paranoid mode and linked
/// at once in any other.
pub open spec fn arrive(v: GroupRunView, index: int) -> GroupRunView
    decreases v.paths.len() - index, 1int,
{
    let at = GroupRunView { phase: Phase::Finished, index, verified: false, absent: false, ..v };
    if index < 0 || index >= v.paths.len() {
        GroupRunView { phase: Phase::Finished, ..at }
    } else if v.mode.paranoid {
        GroupRunView { phase: Phase::Verifying, ..at }
    } else {
        begin_link(at)
    }
}

/// The run on starting to link its current path. A path that is the vault
/// object itself needs no link and is passed by.
pub open spec fn begin_link(v: GroupRunView) -> GroupRunView
    decreases v.paths.len() - v.index, 0int,
{
    if v.index < 0 || v.index >= v.paths.len() {
        GroupRunView { phase: Phase::Finished, ..v }
    } else if v.paths[v.index] == v.vault_path {
        arrive(v, v.index + 1)
    } else {
        GroupRunView { phase: Phase::Linking(Stage::ClearStale), ..v }
    }
}

/// The run after its current path could not be confirmed: the whole group
/// is dropped if the path is the master, the path alone is skipped if not.
pub open spec fn unconfirmed(v: GroupRunView) -> GroupRunView {
    if v.index == 0 {
        GroupRunView { phase: Phase::Dropped, ..v }
    } else {
        arrive(v, v.index + 1)
    }
}

/// The run after a reply to its pending request.
pub open spec fn advanced(v: GroupRunView, reply: Reply) -> GroupRunView {
    match v.phase {
        Phase::Promoting(stage) => match next_promote_stage(stage, report_of(reply)) {
            PromoteStage::Failed(error) => GroupRunView {
                phase: Phase::Dropped,
                ..noting(v, NoticeView::PromotionFailed { master: v.paths[0], error })
            },
            PromoteStage::Kept | PromoteStage::Moved => if v.mode.paranoid {
                GroupRunView { phase: Phase::ProbingMaster, ..v }
            } else {
                begin_link(v)
            },
            next => GroupRunView { phase: Phase::Promoting(next), ..v },
        },
        Phase::ProbingMaster => if report_of(reply) is Succeeded {
            GroupRunView { phase: Phase::Verifying, ..v }
        } else {
            begin_link(GroupRunView { absent: true, ..v })
        },
        Phase::Verifying => match verdict_of(reply) {
            Verdict::Same => begin_link(GroupRunView { verified: true, ..v }),
            Verdict::Differ => unconfirmed(
                noting(v, NoticeView::Collision { path: v.paths[v.index] }),
            ),
            Verdict::Unreadable => unconfirmed(
                noting(v, NoticeView::VerifyFailed { path: v.paths[v.index] }),
            ),
        },
        Phase::Linking(stage) => match next_stage(stage, report_of(reply) is Succeeded) {
            Stage::Replaced(LinkType::Reflink) => arrive(
                counting(v, LinkType::Reflink),
                v.index + 1,
            ),
            Stage::Replaced(LinkType::HardLink) => GroupRunView { phase: Phase::Numbering, ..v },
            Stage::Failed(cause) => arrive(
                noting(v, NoticeView::LinkFailed { path: v.paths[v.index], cause }),
                v.index + 1,
            ),
            Stage::Unchanged => arrive(v, v.index + 1),
            next => GroupRunView { phase: Phase::Linking(next), ..v },
        },
        Phase::Numbering => arrive(counting(v, LinkType::HardLink), v.index + 1),
        Phase::Finished | Phase::Dropped => v,
    }
}

/// What the run asks for.
pub open spec fn request_at(v: GroupRunView) -> Option<RequestView> {
    match v.phase {
        Phase::Promoting(stage) => match promote_op_at(stage, v.paths[0], v.vault_path) {
            Some(op) => Some(RequestView::Disk(op)),
            None => None,
        },
        Phase::ProbingMaster => Some(RequestView::Disk(FsOpView::Probe { path: v.paths[0] })),
        Phase::Verifying => Some(
            RequestView::Compare { left: v.vault_path, right: v.paths[v.index] },
        ),
        Phase::Linking(stage) => match op_at(stage, v.vault_path, v.paths[v.index]) {
            Some(op) => Some(RequestView::Disk(op)),
            None => None,
        },
        Phase::Numbering => Some(RequestView::Inode { path: v.paths[v.index] }),
        Phase::Finished | Phase::Dropped => None,
    }
}

/// The temporary file that has to be removed if the run is abandoned at
/// this moment.
pub open spec fn owed_at(v: GroupRunView) -> Option<Seq<u8>> {
    match v.phase {
        Phase::Promoting(stage) => if promote_owes_cleanup(stage) {
            Some(temp_of(v.vault_path))
        } else {
            None
        },
        Phase::Linking(stage) => if owes_cleanup(stage) {
            Some(temp_of(v.paths[v.index]))
        } else {
            None
        },
        _ => None,
    }
}

/// The line that reports a file whose bytes differ from the vault object's
/// although the hashes agree.
pub open spec fn collision_text(path: Seq<u8>) -> Seq<u8> {
    "HASH COLLISION OR BIT ROT DETECTED: ".spec_bytes() + path
}

/// Writes the line that reports a collision at `path`.
pub fn collision_diagnostic(path: &[u8]) -> (line: Vec<u8>)
    ensures
        line@ == collision_text(path@),
{
    let mut line = slice_to_vec("HASH COLLISION OR BIT ROT DETECTED: ".as_bytes());
    line.extend_from_slice(path);
    assert(line@ =~= collision_text(path@));
    line
}

/// What the store holds after a reply: an inode reported for a fresh hard
/// link is marked as vaulted, and when the reply finishes the group, the
/// number of paths linked becomes the reference count of the group's hash.
pub open spec fn store_after(v: GroupRunView, reply: Reply, store: StateView) -> StateView {
    let marked = if v.phase is Numbering && inode_of(reply) is Some {
        StateView { vaulted: store.vaulted.insert(inode_of(reply)->0), ..store }
    } else {
        store
    };
    if advanced(v, reply).phase is Finished && !(v.phase is Finished) {
        StateView {
            refcounts: marked.refcounts.insert(v.hash, advanced(v, reply).linked as u64),
            ..marked
        }
    } else {
        marked
    }
}

#[derive(Debug)]
enum Step {
    Promoting(Promotion),
    ProbingMaster,
    Verifying,
    Linking(Replacement),
    Numbering,
    Finished,
    Dropped,
}

impl Step {
    spec fn phase(self) -> Phase {
        match self {
            Step::Promoting(promotion) => Phase::Promoting(promotion.stage()),
            Step::ProbingMaster => Phase::ProbingMaster,
            Step::Verifying => Phase::Verifying,
            Step::Linking(replacement) => Phase::Linking(replacement.stage()),
            Step::Numbering => Phase::Numbering,
            Step::Finished => Phase::Finished,
            Step::Dropped => Phase::Dropped,
        }
    }
}

/// What a run takes along from path to path.
#[derive(Debug)]
struct Carried {
    mode: Mode,
    hash: types::Hash,
    paths: Vec<Vec<u8>>,
    vault_path: Vec<u8>,
    linked: u64,
    notices: Vec<Notice>,
}

impl Carried {
    /// The run that takes this along, seen when it is over.
    spec fn at_rest(self) -> GroupRunView {
        GroupRunView {
            mode: self.mode,
            hash: self.hash@,
            paths: views(self.paths@),
            vault_path: self.vault_path@,
            phase: Phase::Finished,
            index: 0,
            verified: false,
            absent: false,
            linked: self.linked as int,
            notices: notice_views(self.notices@),
        }
    }

    fn note(self, notice: Notice) -> (noted: Carried)
        ensures
            noted.at_rest() == noting(self.at_rest(), notice@),
            noted.linked == self.linked,
            noted.paths@ == self.paths@,
    {
        let mut noted = self;
        noted.notices.push(notice);
        assert(notice_views(noted.notices@) =~= notice_views(self.notices@).push(notice@));
        noted
    }

    fn count(self, index: usize, link: LinkType, verified: bool) -> (counted: Carried)
        requires
            index < self.paths@.len(),
            self.linked <= index,
        ensures
            counted.at_rest() == (GroupRunView {
                index: 0,
                verified: false,
                ..counting(GroupRunView { index: index as int, verified, ..self.at_rest() }, link)
            }),
            counted.linked == self.linked + 1,
            counted.paths@ == self.paths@,
    {
        let mut counted = self;
        assert(index < counted.paths.len());
        let shown = !is_temp_file(counted.paths[index].as_slice());
        let notice = Notice::Linked { path: counted.paths[index].clone(), link, verified, shown };
        counted.notices.push(notice);
        assert(notice_views(counted.notices@) =~= notice_views(self.notices@).push(notice@));
        counted.linked = counted.linked + 1;
        counted
    }
}

/// The work on one group of paths with the same full hash.
#[derive(Debug)]
pub struct GroupRun {
    carried: Carried,
    step: Step,
    index: usize,
    verified: bool,
    absent: bool,
}

impl View for GroupRun {
    type V = GroupRunView;

    closed spec fn view(&self) -> GroupRunView {
        GroupRunView {
            phase: self.step.phase(),
            index: self.index as int,
            verified: self.verified,
            absent: self.absent,
            ..self.carried.at_rest()
        }
    }
}

impl GroupRun {
    #[verifier::type_invariant]
    spec fn coherent(self) -> bool {
        let paths = self.carried.paths@;
        &&& self.index <= paths.len()
        &&& self.carried.linked <= self.index
        &&& match self.step {
            Step::Promoting(promotion) => {
                &&& paths.len() > 0
                &&& self.index == 0
                &&& promotion.source() == paths[0]@
                &&& promotion.object() == self.carried.vault_path@
                &&& !promoted(promotion.stage())
            },
            Step::ProbingMaster => paths.len() > 0 && self.index == 0,
            Step::Verifying | Step::Numbering => self.index < paths.len(),
            Step::Linking(replacement) => {
                &&& self.index < paths.len()
                &&& replacement.master() == self.carried.vault_path@
                &&& replacement.target() == paths[self.index as int]@
                &&& !finished(replacement.stage())
            },
            Step::Finished | Step::Dropped => true,
        }
    }

    /// Arrives at the path at `index`, passing by every path that needs no
    /// link.
    fn arrive_at(carried: Carried, index: usize) -> (next: GroupRun)
        requires
            index <= carried.paths@.len(),
            carried.linked <= index,
        ensures
            next@ == arrive(carried.at_rest(), index as int),
            next.carried.hash@ == carried.hash@,
            next.carried.linked == carried.linked,
    {
        let ghost from = carried.at_rest();
        let mut at = index;
        while at < carried.paths.len() && !carried.mode.paranoid && bytes_equal(
            carried.paths[at].as_slice(),
            carried.vault_path.as_slice(),
        )
            invariant
                index <= at <= carried.paths@.len(),
                from == carried.at_rest(),
                arrive(from, at as int) == arrive(from, index as int),
            decreases carried.paths@.len() - at,
        {
            proof {
                let here = GroupRunView { index: at as int, ..from };
                assert(arrive(from, at as int) == begin_link(here));
                assert(begin_link(here) == arrive(here, at + 1));
                assert(arrive(here, at + 1) == arrive(from, at + 1));
            }
            at += 1;
        }
        if at >= carried.paths.len() {
            GroupRun { carried, step: Step::Finished, index: at, verified: false, absent: false }
        } else if carried.mode.paranoid {
            GroupRun { carried, step: Step::Verifying, index: at, verified: false, absent: false }
        } else {
            let replacement = replace_with_link(
                carried.vault_path.as_slice(),
                carried.paths[at].as_slice(),
            );
            proof {
                let here = GroupRunView { index: at as int, ..from };
                assert(arrive(from, at as int) == begin_link(here));
            }
            GroupRun {
                carried,
                step: Step::Linking(replacement),
                index: at,
                verified: false,
                absent: false,
            }
        }
    }

    /// Starts to link the path at `index`, or passes it by if it needs no
    /// link.
    fn link_from(carried: Carried, index: usize, verified: bool, absent: bool) -> (next: GroupRun)
        requires
            index < carried.paths@.len(),
            carried.linked <= index,
        ensures
            next@ == begin_link(
                GroupRunView { index: index as int, verified, absent, ..carried.at_rest() },
            ),
            next.carried.hash@ == carried.hash@,
            next.carried.linked == carried.linked,
    {
        assert(index < carried.paths.len());
        if bytes_equal(carried.paths[index].as_slice(), carried.vault_path.as_slice()) {
            proof {
                let from = carried.at_rest();
                let here = GroupRunView { index: index as int, verified, absent, ..from };
                assert(begin_link(here) == arrive(here, index + 1));
                assert(arrive(here, index + 1) == arrive(from, index + 1));
            }
            GroupRun::arrive_at(carried, index + 1)
        } else {
            let replacement = replace_with_link(
                carried.vault_path.as_slice(),
                carried.paths[index].as_slice(),
            );
            GroupRun { carried, step: Step::Linking(replacement), index, verified, absent }
        }
    }

    /// Begins the work on a group, for a vault below `root`.
    pub fn start(mode: Mode, root: &[u8], group: HashGroup) -> (run: GroupRun)
        ensures
            run@ == started(mode, root@, group@.0, group@.1),
            sound(run@),
    {
        proof {
            lemma_started_sound(mode, root@, group@.0, group@.1);
        }
        let HashGroup { hash, paths } = group;
        let vault_path = shard_path(root, &hash);
        let mut notices: Vec<Notice> = Vec::new();
        assert(notice_views(notices@) =~= Seq::<NoticeView>::empty());
        if paths.len() < 2 {
            let carried = Carried { mode, hash, paths, vault_path, linked: 0, notices };
            return GroupRun {
                carried,
                step: Step::Dropped,
                index: 0,
                verified: false,
                absent: false,
            };
        }
        if !mode.dry_run {
            let promotion = ensure_in_vault(root, &hash, paths[0].as_slice());
            let carried = Carried { mode, hash, paths, vault_path, linked: 0, notices };
            return GroupRun {
                carried,
                step: Step::Promoting(promotion),
                index: 0,
                verified: false,
                absent: false,
            };
        }
        let ghost all = views(paths@);
        notices.push(
            Notice::WouldMoveMaster { master: paths[0].clone(), vault_path: vault_path.clone() },
        );
        if mode.paranoid {
            notices.push(Notice::SkippingVerification);
        }
        let ghost opening = notice_views(notices@);
        assert(opening =~= seq![
            NoticeView::WouldMoveMaster { master: all[0], vault_path: vault_path@ },
        ] + (if mode.paranoid {
            seq![NoticeView::SkippingVerification]
        } else {
            Seq::empty()
        }));
        let mut i: usize = 0;
        while i < paths.len()
            invariant
                i <= paths@.len(),
                all == views(paths@),
                notice_views(notices@) == opening + Seq::new(
                    i as nat,
                    |j: int| NoticeView::WouldDedupe { path: all[j], vault_path: vault_path@ },
                ),
            decreases paths@.len() - i,
        {
            let ghost told = notice_views(notices@);
            let notice = Notice::WouldDedupe {
                path: paths[i].clone(),
                vault_path: vault_path.clone(),
            };
            assert(notice@ == NoticeView::WouldDedupe {
                path: all[i as int],
                vault_path: vault_path@,
            });
            notices.push(notice);
            assert(notice_views(notices@) =~= told.push(notice@));
            i += 1;
            assert(told.push(notice@) =~= opening + Seq::new(
                i as nat,
                |j: int| NoticeView::WouldDedupe { path: all[j], vault_path: vault_path@ },
            ));
        }
        let ghost told = notice_views(notices@);
        notices.push(Notice::WouldUpdateState { hash });
        assert(notice_views(notices@) =~= told.push(NoticeView::WouldUpdateState { hash: hash@ }));
        assert(notice_views(notices@) =~= dry_notices(mode, hash@, all, vault_path@));
        let index = paths.len();
        let carried = Carried { mode, hash, paths, vault_path, linked: 0, notices };
        GroupRun { carried, step: Step::Finished, index, verified: false, absent: false }
    }

    /// What is to be done next, or `None` when the work on the group is
    /// over.
    pub fn pending(&self) -> (request: Option<Request>)
        ensures
            match request {
                Some(request) => request_at(self@) == Some(request@),
                None => request_at(self@) is None,
            },
    {
        proof {
            use_type_invariant(self);
        }
        let paths = &self.carried.paths;
        match &self.step {
            Step::Promoting(promotion) => match promotion.pending() {
                Some(op) => Some(Request::Disk(op)),
                None => None,
            },
            Step::ProbingMaster => Some(Request::Disk(FsOp::Probe { path: paths[0].clone() })),
            Step::Verifying => Some(
                Request::Compare {
                    left: self.carried.vault_path.clone(),
                    right: paths[self.index].clone(),
                },
            ),
            Step::Linking(replacement) => match replacement.pending() {
                Some(op) => Some(Request::Disk(op)),
                None => None,
            },
            Step::Numbering => Some(Request::Inode { path: paths[self.index].clone() }),
            Step::Finished | Step::Dropped => None,
        }
    }

    /// The temporary file that has to be removed if the run is abandoned
    /// right now, as when the caller unwinds.
    pub fn abandon(&self) -> (doomed: Option<Vec<u8>>)
        ensures
            match doomed {
                Some(path) => owed_at(self@) == Some(path@),
                None => owed_at(self@) is None,
            },
    {
        proof {
            use_type_invariant(self);
        }
        match &self.step {
            Step::Promoting(promotion) => promotion.abandon(),
            Step::Linking(replacement) => match replacement.abandon() {
                Some(path) => Some(path.clone()),
                None => None,
            },
            _ => None,
        }
    }

    /// Where the work on the group stands.
    pub fn phase(&self) -> (phase: Phase)
        ensures
            phase == self@.phase,
    {
        match &self.step {
            Step::Promoting(promotion) => Phase::Promoting(promotion.current_stage()),
            Step::ProbingMaster => Phase::ProbingMaster,
            Step::Verifying => Phase::Verifying,
            Step::Linking(replacement) => Phase::Linking(replacement.current_stage()),
            Step::Numbering => Phase::Numbering,
            Step::Finished => Phase::Finished,
            Step::Dropped => Phase::Dropped,
        }
    }

    /// What there is to tell the user so far, oldest first.
    pub fn notices(&self) -> (notices: &Vec<Notice>)
        ensures
            notice_views(notices@) == self@.notices,
    {
        &self.carried.notices
    }

    /// The number of paths replaced by a link so far.
    pub fn linked(&self) -> (linked: u64)
        ensures
            linked == self@.linked,
    {
        self.carried.linked
    }

    /// Where the group's content lives in the vault.
    pub fn vault_path(&self) -> (path: &Vec<u8>)
        ensures
            path@ == self@.vault_path,
    {
        &self.carried.vault_path
    }

    /// The step after a reply that tells how an operation of the promotion
    /// went.
    fn promoted_on(
        carried: Carried,
        promotion: Promotion,
        verified: bool,
        absent: bool,
        report: Report,
    ) -> (next: GroupRun)
        requires
            carried.paths@.len() > 0,
            carried.linked == 0,
            promotion.source() == carried.paths@[0]@,
            promotion.object() == carried.vault_path@,
            !promoted(promotion.stage()),
        ensures
            next@ == advanced(
                GroupRunView {
                    phase: Phase::Promoting(promotion.stage()),
                    verified,
                    absent,
                    ..carried.at_rest()
                },
                Reply::Disk(report),
            ),
            next.carried.hash@ == carried.hash@,
    {
        let ghost from = carried.at_rest();
        let ghost before = GroupRunView {
            phase: Phase::Promoting(promotion.stage()),
            verified,
            absent,
            ..from
        };
        let promotion = promotion.advance(report);
        match promotion.current_stage() {
            PromoteStage::Failed(error) => {
                assert(0 < carried.paths.len());
                let master = carried.paths[0].clone();
                let carried = carried.note(Notice::PromotionFailed { master, error });
                GroupRun { carried, step: Step::Dropped, index: 0, verified, absent }
            },
            PromoteStage::Kept | PromoteStage::Moved => if carried.mode.paranoid {
                GroupRun { carried, step: Step::ProbingMaster, index: 0, verified, absent }
            } else {
                assert(begin_link(GroupRunView { verified, absent, ..from }) == begin_link(before));
                GroupRun::link_from(carried, 0, verified, absent)
            },
            _ => GroupRun { carried, step: Step::Promoting(promotion), index: 0, verified, absent },
        }
    }

    /// The step after a reply that tells what the comparison of the current
    /// path with the vault object found.
    fn verified_on(
        carried: Carried,
        index: usize,
        verified: bool,
        absent: bool,
        verdict: Verdict,
    ) -> (next: GroupRun)
        requires
            index < carried.paths@.len(),
            carried.linked <= index,
        ensures
            next@ == advanced(
                GroupRunView {
                    phase: Phase::Verifying,
                    index: index as int,
                    verified,
                    absent,
                    ..carried.at_rest()
                },
                Reply::Compared(verdict),
            ),
            next.carried.hash@ == carried.hash@,
    {
        let ghost from = carried.at_rest();
        let ghost before = GroupRunView {
            phase: Phase::Verifying,
            index: index as int,
            verified,
            absent,
            ..from
        };
        assert(index < carried.paths.len());
        match verdict {
            Verdict::Same => {
                assert(begin_link(
                    GroupRunView { index: index as int, verified: true, absent, ..from },
                ) == begin_link(GroupRunView { verified: true, ..before }));
                GroupRun::link_from(carried, index, true, absent)
            },
            _ => {
                let path = carried.paths[index].clone();
                let notice = match verdict {
                    Verdict::Differ => Notice::Collision { path },
                    _ => Notice::VerifyFailed { path },
                };
                let ghost noted = noting(before, notice@);
                let carried = carried.note(notice);
                if index == 0 {
                    GroupRun { carried, step: Step::Dropped, index, verified, absent }
                } else {
                    assert(arrive(carried.at_rest(), index + 1) == arrive(noted, index + 1));
                    GroupRun::arrive_at(carried, index + 1)
                }
            },
        }
    }

    /// The step after a reply that tells how an operation of the
    /// replacement of the current path went.
    fn linked_on(
        carried: Carried,
        replacement: Replacement,
        index: usize,
        verified: bool,
        absent: bool,
        report: Report,
    ) -> (next: GroupRun)
        requires
            index < carried.paths@.len(),
            carried.linked <= index,
            replacement.master() == carried.vault_path@,
            replacement.target() == carried.paths@[index as int]@,
            !finished(replacement.stage()),
        ensures
            next@ == advanced(
                GroupRunView {
                    phase: Phase::Linking(replacement.stage()),
                    index: index as int,
                    verified,
                    absent,
                    ..carried.at_rest()
                },
                Reply::Disk(report),
            ),
            next.carried.hash@ == carried.hash@,
    {
        let ghost from = carried.at_rest();
        let ghost before = GroupRunView {
            phase: Phase::Linking(replacement.stage()),
            index: index as int,
            verified,
            absent,
            ..from
        };
        assert(index < carried.paths.len());
        let replacement = replacement.advance(report);
        match replacement.current_stage() {
            Stage::Replaced(LinkType::Reflink) => {
                let ghost counted = counting(before, LinkType::Reflink);
                let carried = carried.count(index, LinkType::Reflink, verified);
                assert(arrive(carried.at_rest(), index + 1) == arrive(counted, index + 1));
                GroupRun::arrive_at(carried, index + 1)
            },
            Stage::Replaced(LinkType::HardLink) => GroupRun {
                carried,
                step: Step::Numbering,
                index,
                verified,
                absent,
            },
            Stage::Failed(cause) => {
                let path = carried.paths[index].clone();
                let ghost noted = noting(before, NoticeView::LinkFailed { path: path@, cause });
                let carried = carried.note(Notice::LinkFailed { path, cause });
                assert(arrive(carried.at_rest(), index + 1) == arrive(noted, index + 1));
                GroupRun::arrive_at(carried, index + 1)
            },
            Stage::Unchanged => {
                assert(arrive(from, index + 1) == arrive(before, index + 1));
                GroupRun::arrive_at(carried, index + 1)
            },
            _ => GroupRun { carried, step: Step::Linking(replacement), index, verified, absent },
        }
    }

    /// The run after a reply, the store left aside.
    fn moved_on(self, reply: Reply) -> (next: GroupRun)
        ensures
            next@ == advanced(self@, reply),
            next.carried.hash@ == self.carried.hash@,
    {
        proof {
            use_type_invariant(&self);
        }
        let ghost before = self@;
        let GroupRun { carried, step, index, verified, absent } = self;
        let ghost from = carried.at_rest();
        match step {
            Step::Promoting(promotion) => {
                let report = match reply {
                    Reply::Disk(report) => report,
                    _ => Report::Failed,
                };
                assert(advanced(before, reply) == advanced(before, Reply::Disk(report)));
                GroupRun::promoted_on(carried, promotion, verified, absent, report)
            },
            Step::ProbingMaster => {
                let present = match reply {
                    Reply::Disk(Report::Succeeded) => true,
                    _ => false,
                };
                if present {
                    GroupRun { carried, step: Step::Verifying, index, verified, absent }
                } else {
                    assert(begin_link(
                        GroupRunView { index: index as int, verified, absent: true, ..from },
                    ) == begin_link(GroupRunView { absent: true, ..before }));
                    GroupRun::link_from(carried, index, verified, true)
                }
            },
            Step::Verifying => {
                let verdict = match reply {
                    Reply::Compared(verdict) => verdict,
                    _ => Verdict::Unreadable,
                };
                assert(advanced(before, reply) == advanced(before, Reply::Compared(verdict)));
                GroupRun::verified_on(carried, index, verified, absent, verdict)
            },
            Step::Linking(replacement) => {
                let report = match reply {
                    Reply::Disk(report) => report,
                    _ => Report::Failed,
                };
                assert(advanced(before, reply) == advanced(before, Reply::Disk(report)));
                GroupRun::linked_on(carried, replacement, index, verified, absent, report)
            },
            Step::Numbering => {
                let ghost counted = counting(before, LinkType::HardLink);
                assert(index < carried.paths.len());
                let carried = carried.count(index, LinkType::HardLink, verified);
                assert(arrive(carried.at_rest(), index + 1) == arrive(counted, index + 1));
                GroupRun::arrive_at(carried, index + 1)
            },
            Step::Finished => GroupRun { carried, step: Step::Finished, index, verified, absent },
            Step::Dropped => GroupRun { carried, step: Step::Dropped, index, verified, absent },
        }
    }

    /// Takes the reply to the pending request, updates the store where the
    /// reply calls for it, and moves on.
    pub fn advance(self, reply: Reply, store: &mut State) -> (next: GroupRun)
        ensures
            next@ == advanced(self@, reply),
            final(store)@ == store_after(self@, reply, old(store)@),
            sound(self@) ==> sound(next@),
    {
        let ghost before = self@;
        let was = self.phase();
        match (was, reply) {
            (Phase::Numbering, Reply::Inode(Some(inode))) => {
                store.mark_inode_vaulted(inode);
            },
            _ => {},
        }
        let ghost marked = store@;
        let next = self.moved_on(reply);
        let finishes = match (was, next.phase()) {
            (Phase::Finished, _) => false,
            (_, Phase::Finished) => true,
            _ => false,
        };
        if finishes {
            store.set_cas_refcount(&next.carried.hash, next.carried.linked);
            assert(store@ == StateView {
                refcounts: marked.refcounts.insert(before.hash, next@.linked as u64),
                ..marked
            });
        }
        proof {
            if sound(before) {
                lemma_advanced_sound(before, reply);
            }
        }
        next
    }
}

/// What a dry run says of a group: that the master would be moved, that
/// nothing can be compared if comparing was asked for, that each path would
/// be replaced by a link, and that the store would be updated.
pub open spec fn dry_notices(
    mode: Mode,
    hash: Seq<u8>,
    paths: Seq<Seq<u8>>,
    vault_path: Seq<u8>,
) -> Seq<NoticeView> {
    seq![NoticeView::WouldMoveMaster { master: paths[0], vault_path }] + (if mode.paranoid {
        seq![NoticeView::SkippingVerification]
    } else {
        Seq::empty()
    }) + Seq::new(paths.len(), |i: int| NoticeView::WouldDedupe { path: paths[i], vault_path })
        + seq![NoticeView::WouldUpdateState { hash }]
}

/// The run on a group at its start, for a vault below `root`. A group of
/// fewer than two paths holds no duplicate and is passed over. A dry run is
/// over at once, with everything it has to say.
pub open spec fn started(mode: Mode, root: Seq<u8>, hash: Seq<u8>, paths: Seq<Seq<u8>>) -> GroupRunView {
    let vault_path = shard_of(root, hash);
    let idle = GroupRunView {
        mode,
        hash,
        paths,
        vault_path,
        phase: Phase::Dropped,
        index: 0,
        verified: false,
        absent: false,
        linked: 0,
        notices: Seq::empty(),
    };
    if paths.len() < 2 {
        idle
    } else if mode.dry_run {
        GroupRunView {
            phase: Phase::Finished,
            index: paths.len() as int,
            notices: dry_notices(mode, hash, paths, vault_path),
            ..idle
        }
    } else {
        GroupRunView { phase: Phase::Promoting(PromoteStage::Probe), ..idle }
    }
}

/// The number of links that a list of notices tells of.
pub open spec fn links_noted(notices: Seq<NoticeView>) -> int
    decreases notices.len(),
{
    if notices.len() == 0 {
        0
    } else if notices.last() is Linked {
        links_noted(notices.drop_last()) + 1
    } else {
        links_noted(notices.drop_last())
    }
}

/// Notices that tell of no link count for none.
pub proof fn lemma_no_links_noted(notices: Seq<NoticeView>)
    requires
        forall|i: int| 0 <= i < notices.len() ==> !(#[trigger] notices[i] is Linked),
    ensures
        links_noted(notices) == 0,
    decreases notices.len(),
{
    if notices.len() > 0 {
        assert(!(notices[notices.len() - 1] is Linked));
        lemma_no_links_noted(notices.drop_last());
    }
}

/// One more notice adds one link if it tells of one, and none if not.
pub proof fn lemma_links_noted_push(notices: Seq<NoticeView>, notice: NoticeView)
    ensures
        links_noted(notices.push(notice)) == links_noted(notices) + if notice is Linked {
            1int
        } else {
            0int
        },
{
    assert(notices.push(notice).drop_last() =~= notices);
}

/// What holds of a run at every moment:
///
/// - the current position lies within the group, and each path before it
///   has been linked at most once;
/// - the count of links is the number of links noted;
/// - requests are only pending outside a dry run, and for a group of at
///   least two paths;
/// - the master's path is only found absent at the first position;
/// - in paranoid mode, a path is under replacement only if it was compared
///   with the vault object and found the same, or was found to name no
///   file at all.
pub open spec fn sound(v: GroupRunView) -> bool {
    &&& 0 <= v.index <= v.paths.len()
    &&& 0 <= v.linked <= v.index
    &&& v.linked == links_noted(v.notices)
    &&& v.absent ==> v.index == 0
    &&& match v.phase {
        Phase::Promoting(stage) => {
            &&& v.index == 0
            &&& v.paths.len() >= 2
            &&& !v.mode.dry_run
            &&& !promoted(stage)
        },
        Phase::ProbingMaster => {
            &&& v.index == 0
            &&& v.paths.len() >= 2
            &&& !v.mode.dry_run
            &&& v.mode.paranoid
        },
        Phase::Verifying => {
            &&& v.index < v.paths.len()
            &&& !v.mode.dry_run
            &&& v.mode.paranoid
        },
        Phase::Linking(stage) => {
            &&& v.index < v.paths.len()
            &&& !v.mode.dry_run
            &&& !finished(stage)
            &&& v.paths[v.index] != v.vault_path
            &&& v.mode.paranoid ==> v.verified || v.absent
        },
        Phase::Numbering => {
            &&& v.index < v.paths.len()
            &&& !v.mode.dry_run
            &&& v.mode.paranoid ==> v.verified || v.absent
        },
        Phase::Finished => v.index == v.paths.len(),
        Phase::Dropped => true,
    }
}

/// Whether `w` is a later moment of the run `v`: the same group in the same
/// mode, no further back in its paths, with no link uncounted and no notice
/// withdrawn.
pub open spec fn follows(v: GroupRunView, w: GroupRunView) -> bool {
    &&& w.mode == v.mode
    &&& w.hash == v.hash
    &&& w.paths == v.paths
    &&& w.vault_path == v.vault_path
    &&& w.index >= v.index
    &&& w.linked >= v.linked
    &&& w.notices.len() >= v.notices.len()
    &&& w.notices.take(v.notices.len() as int) == v.notices
}

/// An upper bound on the number of requests that a run will still make.
pub open spec fn work_left(v: GroupRunView) -> int {
    match v.phase {
        Phase::Promoting(stage) => 8 * v.paths.len() + 1 + promote_ops_left(stage) as int,
        Phase::ProbingMaster => 8 * v.paths.len() + 1int,
        Phase::Verifying => 8 * (v.paths.len() - v.index),
        Phase::Linking(stage) => 8 * (v.paths.len() - v.index) - 7 + ops_left(stage) as int,
        Phase::Numbering => 8 * (v.paths.len() - v.index) - 7,
        Phase::Finished | Phase::Dropped => 0,
    }
}

/// Arriving at a path keeps a run sound and moves it no further back; it
/// ends in a comparison, in a link about to be made, or at the end of the
/// group.
pub proof fn lemma_arrive(v: GroupRunView, index: int)
    requires
        0 <= index <= v.paths.len(),
        0 <= v.linked <= index,
        v.linked == links_noted(v.notices),
        !v.mode.dry_run,
    ensures
        sound(arrive(v, index)),
        arrive(v, index).mode == v.mode,
        arrive(v, index).hash == v.hash,
        arrive(v, index).paths == v.paths,
        arrive(v, index).vault_path == v.vault_path,
        arrive(v, index).linked == v.linked,
        arrive(v, index).notices == v.notices,
        arrive(v, index).index >= index,
        !arrive(v, index).verified,
        !arrive(v, index).absent,
        !(arrive(v, index).phase is Linking && v.mode.paranoid),
        work_left(arrive(v, index)) <= 8 * (v.paths.len() - index),
        arrive(v, index).phase is Finished || arrive(v, index).phase is Verifying || arrive(
            v,
            index,
        ).phase == Phase::Linking(Stage::ClearStale),
    decreases v.paths.len() - index,
{
    let at = GroupRunView { phase: Phase::Finished, index, verified: false, absent: false, ..v };
    if index < v.paths.len() && !v.mode.paranoid && v.paths[index] == v.vault_path {
        lemma_arrive(at, index + 1);
        assert(arrive(v, index) == arrive(at, index + 1));
    }
}

/// Starting to link the current path keeps a run sound.
pub proof fn lemma_begin_link(v: GroupRunView)
    requires
        0 <= v.index < v.paths.len(),
        0 <= v.linked <= v.index,
        v.linked == links_noted(v.notices),
        !v.mode.dry_run,
        v.absent ==> v.index == 0,
        v.mode.paranoid ==> v.verified || v.absent,
    ensures
        sound(begin_link(v)),
        follows(v, begin_link(v)),
        begin_link(v).linked == v.linked,
        begin_link(v).notices == v.notices,
        work_left(begin_link(v)) <= 8 * (v.paths.len() - v.index) - 1,
        begin_link(v).verified ==> v.verified && begin_link(v).index == v.index,
        begin_link(v).absent ==> v.absent && begin_link(v).index == v.index,
{
    if v.paths[v.index] == v.vault_path {
        lemma_arrive(v, v.index + 1);
    }
    assert(begin_link(v).notices.take(v.notices.len() as int) =~= v.notices);
}

/// A run is sound when it starts.
pub proof fn lemma_started_sound(mode: Mode, root: Seq<u8>, hash: Seq<u8>, paths: Seq<Seq<u8>>)
    ensures
        sound(started(mode, root, hash, paths)),
{
    let vault_path = shard_of(root, hash);
    if paths.len() >= 2 && mode.dry_run {
        lemma_no_links_noted(dry_notices(mode, hash, paths, vault_path));
    }
}

/// A sound run stays sound whatever the reply, and only ever moves on: it
/// keeps its group and mode, never steps back to an earlier path, never
/// takes back a notice, and counts at most one more link. Every reply to a
/// pending request brings it strictly closer to its end, so that a group of
/// `n` paths is done after at most `8 * n + 7` requests.
pub proof fn lemma_advanced_sound(v: GroupRunView, reply: Reply)
    requires
        sound(v),
    ensures
        sound(advanced(v, reply)),
        follows(v, advanced(v, reply)),
        advanced(v, reply).linked <= v.linked + 1,
        0 <= work_left(v) <= 8 * v.paths.len() + 7,
        request_at(v) is Some <==> work_left(v) > 0,
        request_at(v) is Some ==> work_left(advanced(v, reply)) < work_left(v),
        request_at(v) is None ==> advanced(v, reply) == v,
{
    let w = advanced(v, reply);
    match v.phase {
        Phase::Promoting(stage) => {
            crate::vault::lemma_promotion_finishes(
                stage,
                v.paths[0],
                v.vault_path,
                report_of(reply),
            );
            match next_promote_stage(stage, report_of(reply)) {
                PromoteStage::Failed(error) => {
                    lemma_links_noted_push(
                        v.notices,
                        NoticeView::PromotionFailed { master: v.paths[0], error },
                    );
                },
                PromoteStage::Kept | PromoteStage::Moved => {
                    if !v.mode.paranoid {
                        lemma_begin_link(v);
                    }
                },
                _ => {},
            }
        },
        Phase::ProbingMaster => {
            if !(report_of(reply) is Succeeded) {
                lemma_begin_link(GroupRunView { absent: true, ..v });
            }
        },
        Phase::Verifying => {
            match verdict_of(reply) {
                Verdict::Same => {
                    lemma_begin_link(GroupRunView { verified: true, ..v });
                },
                Verdict::Differ => {
                    let noted = noting(v, NoticeView::Collision { path: v.paths[v.index] });
                    lemma_links_noted_push(
                        v.notices,
                        NoticeView::Collision { path: v.paths[v.index] },
                    );
                    if v.index != 0 {
                        lemma_arrive(noted, v.index + 1);
                    }
                },
                Verdict::Unreadable => {
                    let noted = noting(v, NoticeView::VerifyFailed { path: v.paths[v.index] });
                    lemma_links_noted_push(
                        v.notices,
                        NoticeView::VerifyFailed { path: v.paths[v.index] },
                    );
                    if v.index != 0 {
                        lemma_arrive(noted, v.index + 1);
                    }
                },
            }
        },
        Phase::Linking(stage) => {
            crate::dedupe::lemma_replacement_finishes(
                stage,
                v.vault_path,
                v.paths[v.index],
                report_of(reply) is Succeeded,
            );
            match next_stage(stage, report_of(reply) is Succeeded) {
                Stage::Replaced(LinkType::Reflink) => {
                    let counted = counting(v, LinkType::Reflink);
                    lemma_links_noted_push(v.notices, counted.notices.last());
                    lemma_arrive(counted, v.index + 1);
                },
                Stage::Replaced(LinkType::HardLink) => {},
                Stage::Failed(cause) => {
                    let noted = noting(
                        v,
                        NoticeView::LinkFailed { path: v.paths[v.index], cause },
                    );
                    lemma_links_noted_push(
                        v.notices,
                        NoticeView::LinkFailed { path: v.paths[v.index], cause },
                    );
                    lemma_arrive(noted, v.index + 1);
                },
                Stage::Unchanged => {
                    lemma_arrive(v, v.index + 1);
                },
                _ => {},
            }
        },
        Phase::Numbering => {
            let counted = counting(v, LinkType::HardLink);
            lemma_links_noted_push(v.notices, counted.notices.last());
            lemma_arrive(counted, v.index + 1);
        },
        Phase::Finished | Phase::Dropped => {},
    }
    assert(w.notices.take(v.notices.len() as int) =~= v.notices);
}

/// Paranoid safety. A path only comes to count as confirmed through a
/// comparison with the vault object that found the same bytes, and as
/// absent through a probe of the master that found no file; both are
/// forgotten as soon as the run moves to another path. Together with
/// [`sound`], which lets a path be under replacement in paranoid mode only
/// if it is confirmed or absent, this means that in paranoid mode no
/// existing file is replaced unless it was first found byte for byte the
/// same as the vault object.
pub proof fn lemma_confirmed_by_comparison(v: GroupRunView, reply: Reply)
    requires
        sound(v),
    ensures
        advanced(v, reply).verified ==> advanced(v, reply).index == v.index && (v.verified || (
            v.phase is Verifying && reply == Reply::Compared(Verdict::Same))),
        advanced(v, reply).absent ==> advanced(v, reply).index == v.index && (v.absent || (
            v.phase is ProbingMaster && !(report_of(reply) is Succeeded))),
        advanced(v, reply).index != v.index ==> !advanced(v, reply).verified && !advanced(
            v,
            reply,
        ).absent,
{
    match v.phase {
        Phase::Promoting(stage) => {
            if !v.mode.paranoid {
                lemma_begin_link(v);
            }
        },
        Phase::ProbingMaster => {
            if !(report_of(reply) is Succeeded) {
                lemma_begin_link(GroupRunView { absent: true, ..v });
            }
        },
        Phase::Verifying => {
            match verdict_of(reply) {
                Verdict::Same => {
                    lemma_begin_link(GroupRunView { verified: true, ..v });
                },
                Verdict::Differ => {
                    lemma_links_noted_push(
                        v.notices,
                        NoticeView::Collision { path: v.paths[v.index] },
                    );
                    if v.index != 0 {
                        lemma_arrive(
                            noting(v, NoticeView::Collision { path: v.paths[v.index] }),
                            v.index + 1,
                        );
                    }
                },
                Verdict::Unreadable => {
                    lemma_links_noted_push(
                        v.notices,
                        NoticeView::VerifyFailed { path: v.paths[v.index] },
                    );
                    if v.index != 0 {
                        lemma_arrive(
                            noting(v, NoticeView::VerifyFailed { path: v.paths[v.index] }),
                            v.index + 1,
                        );
                    }
                },
            }
        },
        Phase::Linking(stage) => {
            match next_stage(stage, report_of(reply) is Succeeded) {
                Stage::Replaced(LinkType::Reflink) => {
                    let counted = counting(v, LinkType::Reflink);
                    lemma_links_noted_push(v.notices, counted.notices.last());
                    lemma_arrive(counted, v.index + 1);
                },
                Stage::Failed(cause) => {
                    lemma_links_noted_push(
                        v.notices,
                        NoticeView::LinkFailed { path: v.paths[v.index], cause },
                    );
                    lemma_arrive(
                        noting(v, NoticeView::LinkFailed { path: v.paths[v.index], cause }),
                        v.index + 1,
                    );
                },
                Stage::Unchanged => {
                    lemma_arrive(v, v.index + 1);
                },
                _ => {},
            }
        },
        Phase::Numbering => {
            let counted = counting(v, LinkType::HardLink);
            lemma_links_noted_push(v.notices, counted.notices.last());
            lemma_arrive(counted, v.index + 1);
        },
        Phase::Finished | Phase::Dropped => {},
    }
}

/// Dry-run purity. A dry run asks for nothing and changes nothing: from
/// its start on no request is pending, and no reply alters the run or the
/// store.
pub proof fn lemma_dry_run_is_pure(v: GroupRunView, reply: Reply, store: StateView)
    requires
        sound(v),
        v.mode.dry_run,
    ensures
        request_at(v) is None,
        advanced(v, reply) == v,
        store_after(v, reply, store) == store,
{
}

/// Refcount accuracy. The reference count of the group's hash is written
/// once, by the reply that finishes the group, and is then the number of
/// paths of the group that were replaced by a link. No other reply
/// touches the reference counts, and an inode is marked only on the reply
/// that reports it for a fresh hard link.
pub proof fn lemma_refcount_counts_links(v: GroupRunView, reply: Reply, store: StateView)
    requires
        sound(v),
    ensures
        store_after(v, reply, store).files == store.files,
        (advanced(v, reply).phase is Finished && !(v.phase is Finished)) ==> store_after(
            v,
            reply,
            store,
        ).refcounts == store.refcounts.insert(
            v.hash,
            links_noted(advanced(v, reply).notices) as u64,
        ) && links_noted(advanced(v, reply).notices) <= v.paths.len(),
        !(advanced(v, reply).phase is Finished && !(v.phase is Finished)) ==> store_after(
            v,
            reply,
            store,
        ).refcounts == store.refcounts,
        store_after(v, reply, store).vaulted == if v.phase is Numbering && inode_of(reply) is Some {
            store.vaulted.insert(inode_of(reply)->0)
        } else {
            store.vaulted
        },
{
    lemma_advanced_sound(v, reply);
}

} // verus!
