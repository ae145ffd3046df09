//! What the dedup phase does to the files on disk.
//!
//! The laws here follow one group through the dedup phase, request by
//! request, on the model of the disk in [`crate::ops`]. They show that
//! throughout, and however each operation goes, every path that is not a
//! temporary file shows the bytes it showed at the start, with one
//! exception: the master of the group, once it has been moved into the
//! vault, names no file until it has been linked back.

use vstd::prelude::*;
use crate::dedupe::{
    holds,
    lemma_holds_after_step,
    lemma_holds_at_start,
    lemma_temp_is_not_target,
    LinkType,
    next_stage,
    Stage,
    temp_of,
};
use crate::linking::{
    advanced,
    arrive,
    begin_link,
    counting,
    GroupRunView,
    Mode,
    NoticeView,
    noting,
    Phase,
    Reply,
    report_of,
    request_at,
    RequestView,
    sound,
    started,
    Verdict,
    verdict_of,
};
use crate::ops::{Disk, performs, read};
use crate::pipeline::{is_temp, lemma_temp_path_is_temp};
use crate::types;
use crate::vault::{
    lemma_promoting_after_step,
    lemma_vault_path_is_no_temp,
    next_promote_stage,
    PromoteStage,
    promoting,
};

verus! {

/// Whether `after` is a state in which answering a request may leave the
/// disk `before`, given the reply. Filesystem operations do what
/// [`performs`] says; a comparison finds two files the same exactly if both
/// exist and show the same bytes; comparisons and inode lookups change
/// nothing.
pub open spec fn answers(before: Disk, request: RequestView, reply: Reply, after: Disk) -> bool {
    match request {
        RequestView::Disk(op) => reply is Disk && performs(before, op, report_of(reply), after),
        RequestView::Compare { left, right } => {
            &&& after == before
            &&& reply is Compared
            &&& verdict_of(reply) is Same <==> before.dom().contains(left) && read(before, left)
                == read(before, right)
        },
        RequestView::Inode { path } => after == before && reply is Inode,
    }
}

/// Whether the group keeps clear of temporary files and of the vault: none
/// of its paths ends in the temporary suffix or is the vault object, and
/// neither does the vault path end in the suffix.
pub open spec fn apart(v: GroupRunView) -> bool {
    &&& !is_temp(v.vault_path)
    &&& forall|i: int|
        0 <= i < v.paths.len() ==> !is_temp(#[trigger] v.paths[i]) && v.paths[i] != v.vault_path
}

/// Whether the paths of the group really hold the same content on the disk
/// `start`, and the vault object, if there is one, holds it too. This is
/// what equal full hashes are taken to mean outside paranoid mode.
pub open spec fn alike(v: GroupRunView, start: Disk) -> bool {
    &&& forall|i: int|
        0 <= i < v.paths.len() ==> read(start, #[trigger] v.paths[i]) == read(start, v.paths[0])
    &&& start.dom().contains(v.vault_path) ==> read(start, v.vault_path) == read(
        start,
        v.paths[0],
    )
}

/// What the dedup of a group leaves as it was, where `start` is the disk
/// before the first request and `now` the disk at some later moment:
///
/// - every path that is neither a temporary file, nor the vault object, nor
///   the master shows what it showed at the start;
/// - the master shows what it showed at the start, or names no file while
///   the vault object shows what the master showed;
/// - the vault object is as it was at the start, or shows what the master
///   showed.
pub open spec fn kept(v: GroupRunView, start: Disk, now: Disk) -> bool {
    let master = v.paths[0];
    let object = v.vault_path;
    &&& forall|path: Seq<u8>|
        !is_temp(path) && path != object && path != master ==> #[trigger] read(now, path) == read(
            start,
            path,
        )
    &&& read(now, master) == read(start, master) || (!now.dom().contains(master) && read(
        now,
        object,
    ) == read(start, master))
    &&& read(now, object) == read(start, object) || read(now, object) == read(start, master)
}

/// Whether a path may be replaced by a link to the vault object on the disk
/// `base`: it shows the same bytes as the vault object, or it is the master
/// and names no file.
pub open spec fn cleared(v: GroupRunView, base: Disk) -> bool {
    let target = v.paths[v.index];
    read(base, target) == read(base, v.vault_path) || (target == v.paths[0] && !base.dom().contains(
        target,
    ))
}

/// What holds of the disk at every moment of the dedup of a group, where
/// `start` is the disk before the first request, `now` the disk at this
/// moment and, while a path is being replaced, `base` the disk when its
/// replacement began: [`kept`] outside of promotions and replacements, and
/// within them the invariants of [`promoting`] and [`holds`]. From the end
/// of the promotion on the vault object exists, so that no count is ever
/// written for a hash whose content is not in the vault.
pub open spec fn secure(v: GroupRunView, start: Disk, base: Disk, now: Disk) -> bool {
    match v.phase {
        Phase::Promoting(stage) => promoting(stage, v.paths[0], v.vault_path, start, now),
        Phase::ProbingMaster | Phase::Verifying | Phase::Numbering => kept(v, start, now)
            && now.dom().contains(v.vault_path),
        Phase::Linking(stage) => {
            &&& kept(v, start, base)
            &&& base.dom().contains(v.vault_path)
            &&& cleared(v, base)
            &&& holds(stage, v.vault_path, v.paths[v.index], base, now)
        },
        Phase::Finished => kept(v, start, now) && (v.mode.dry_run || now.dom().contains(
            v.vault_path,
        )),
        Phase::Dropped => kept(v, start, now),
    }
}

/// The disk from which the replacement under way after a reply set out: the
/// same as before the reply while one replacement goes on, the disk after
/// the reply when a new one begins.
pub open spec fn base_after(v: GroupRunView, reply: Reply, base: Disk, after: Disk) -> Disk {
    if v.phase is Linking && advanced(v, reply).phase is Linking && advanced(v, reply).index
        == v.index {
        base
    } else {
        after
    }
}

/// A path that ends in the temporary suffix is the temporary sibling of
/// what is in front of the suffix.
pub proof fn lemma_temp_is_sibling(path: Seq<u8>)
    requires
        is_temp(path),
    ensures
        path == temp_of(path.subrange(0, path.len() - 12)),
{
    assert(path =~= temp_of(path.subrange(0, path.len() - 12)));
}

/// Where a run that keeps apart from the vault stands on arriving at a
/// path: at the end of the group if there is no such path, else at that
/// path, about to compare it in paranoid mode and about to link it in any
/// other.
pub proof fn lemma_arrive_apart(v: GroupRunView, index: int)
    requires
        apart(v),
        0 <= index <= v.paths.len(),
    ensures
        arrive(v, index).paths == v.paths,
        arrive(v, index).vault_path == v.vault_path,
        arrive(v, index).mode == v.mode,
        arrive(v, index).index == index,
        arrive(v, index).phase == if index == v.paths.len() {
            Phase::Finished
        } else if v.mode.paranoid {
            Phase::Verifying
        } else {
            Phase::Linking(Stage::ClearStale)
        },
{
}

/// A disk on which nothing of the group has been disturbed stays secure
/// when the run arrives at its next path.
pub proof fn lemma_secure_arrive(v: GroupRunView, start: Disk, now: Disk, index: int)
    requires
        apart(v),
        v.mode.paranoid || alike(v, start),
        0 <= index <= v.paths.len(),
        kept(v, start, now),
        now.dom().contains(v.vault_path),
    ensures
        secure(arrive(v, index), start, now, now),
{
    lemma_arrive_apart(v, index);
    let w = arrive(v, index);
    if index < v.paths.len() && !v.mode.paranoid {
        let target = v.paths[index];
        lemma_holds_at_start(v.vault_path, target, now);
        assert(!is_temp(target) && target != v.vault_path);
        assert(read(start, target) == read(start, v.paths[0]));
        assert(kept(w, start, now));
        assert(cleared(w, now));
    } else {
        assert(kept(w, start, now));
    }
}

/// A disk on which nothing of the group has been disturbed stays secure
/// when the run starts to link a path that may be linked.
pub proof fn lemma_secure_begin_link(v: GroupRunView, start: Disk, now: Disk)
    requires
        apart(v),
        0 <= v.index < v.paths.len(),
        kept(v, start, now),
        now.dom().contains(v.vault_path),
        cleared(v, now),
    ensures
        secure(begin_link(v), start, now, now),
        begin_link(v).phase == Phase::Linking(Stage::ClearStale),
        begin_link(v).index == v.index,
{
    lemma_holds_at_start(v.vault_path, v.paths[v.index], now);
    let w = begin_link(v);
    assert(kept(w, start, now));
    assert(cleared(w, now));
}

/// What a finished or unfinished replacement leaves of [`kept`]: if the
/// disk was undisturbed when the replacement of a cleared path began, it is
/// undisturbed at every stage of the replacement.
pub proof fn lemma_kept_through_replacement(v: GroupRunView, start: Disk, base: Disk, now: Disk)
    requires
        apart(v),
        0 <= v.index < v.paths.len(),
        v.phase is Linking,
        start.dom().contains(v.paths[0]),
        secure(v, start, base, now),
    ensures
        kept(v, start, now),
        now.dom().contains(v.vault_path),
{
    let target = v.paths[v.index];
    let object = v.vault_path;
    let master = v.paths[0];
    let temp = temp_of(target);
    lemma_temp_path_is_temp(target);
    assert(!is_temp(target) && target != object);
    assert(!is_temp(master) && master != object);
    assert(read(now, object) == read(base, object));
    assert forall|path: Seq<u8>|
        !is_temp(path) && path != object && path != master implies #[trigger] read(now, path)
        == read(start, path) by {
        assert(read(base, path) == read(start, path));
        if path != target {
            assert(path != temp) by {
                lemma_temp_path_is_temp(target);
            }
            assert(read(now, path) == read(base, path));
        } else {
            assert(read(base, target) == read(base, object));
        }
    }
    if target != master {
        assert(read(now, master) == read(base, master));
    } else if v.phase->Linking_0 is Replaced {
        assert(read(now, master) == read(base, object));
        if read(base, master) != read(base, object) {
            assert(!base.dom().contains(master));
            assert(read(base, object) == read(start, master));
        }
    } else {
        assert(read(now, master) == read(base, master));
    }
}

/// The dedup of a group starts out secure.
pub proof fn lemma_secure_at_start(v: GroupRunView, start: Disk)
    requires
        (v.phase is Finished && v.mode.dry_run) || v.phase is Dropped || v.phase
            == Phase::Promoting(PromoteStage::Probe),
    ensures
        secure(v, start, start, start),
{
}

/// A run as [`started`] is secure, and its vault path does not end in the
/// temporary suffix; so it keeps [`apart`] if its paths are no temporary
/// files and lie outside the vault.
pub proof fn lemma_started_secure(
    mode: Mode,
    root: Seq<u8>,
    hash: types::Hash,
    paths: Seq<Seq<u8>>,
    start: Disk,
)
    ensures
        secure(started(mode, root, hash@, paths), start, start, start),
        !is_temp(started(mode, root, hash@, paths).vault_path),
{
    let v = started(mode, root, hash@, paths);
    lemma_secure_at_start(v, start);
    if is_temp(v.vault_path) {
        lemma_temp_is_sibling(v.vault_path);
        lemma_vault_path_is_no_temp(
            root,
            hash,
            v.vault_path.subrange(0, v.vault_path.len() - 12),
        );
    }
}

/// Content preservation and atomicity. Whatever is asked of the disk and
/// however it goes, the dedup of a group stays [`secure`], provided that the
/// group keeps [`apart`] from temporary files and the vault, that its
/// master names a file at the start, and that the run is paranoid or the
/// files of the group are really [`alike`].
///
/// So at every moment, be it the last or one at which the process is
/// stopped, [`kept`] is true of every path that is not under replacement,
/// and [`holds`] of the one that is: each path that is not a temporary file
/// shows exactly the bytes it showed at the start, except that the master
/// names no file from when it is moved into the vault until it is linked
/// back. In paranoid mode this is so even when files of the group differ
/// in content.
pub proof fn lemma_secure_after_reply(
    v: GroupRunView,
    start: Disk,
    base: Disk,
    now: Disk,
    reply: Reply,
    after: Disk,
)
    requires
        sound(v),
        apart(v),
        v.mode.paranoid || alike(v, start),
        start.dom().contains(v.paths[0]),
        secure(v, start, base, now),
        request_at(v) matches Some(request) && answers(now, request, reply, after),
    ensures
        secure(advanced(v, reply), start, base_after(v, reply, base, after), after),
        apart(advanced(v, reply)),
        advanced(v, reply).paths == v.paths,
{
    match v.phase {
        Phase::Promoting(stage) => {
            lemma_secure_promoting(v, start, now, reply, after);
        },
        Phase::ProbingMaster => {
            lemma_secure_probing(v, start, now, reply, after);
        },
        Phase::Verifying => {
            lemma_secure_verifying(v, start, now, reply, after);
        },
        Phase::Linking(stage) => {
            lemma_secure_linking(v, start, base, now, reply, after);
        },
        Phase::Numbering => {
            let counted = counting(v, LinkType::HardLink);
            assert(kept(counted, start, after));
            lemma_secure_arrive(counted, start, after, v.index + 1);
            lemma_arrive_apart(counted, v.index + 1);
        },
        Phase::Finished | Phase::Dropped => {},
    }
}

proof fn lemma_secure_promoting(
    v: GroupRunView,
    start: Disk,
    now: Disk,
    reply: Reply,
    after: Disk,
)
    requires
        sound(v),
        apart(v),
        v.mode.paranoid || alike(v, start),
        v.phase is Promoting,
        secure(v, start, now, now),
        request_at(v) matches Some(request) && answers(now, request, reply, after),
    ensures
        secure(advanced(v, reply), start, after, after),
        apart(advanced(v, reply)),
{
    let stage = v.phase->Promoting_0;
    let master = v.paths[0];
    let object = v.vault_path;
    let next = next_promote_stage(stage, report_of(reply));
    assert(!is_temp(master) && master != object);
    lemma_temp_path_is_temp(object);
    lemma_temp_is_not_target(object);
    lemma_promoting_after_step(stage, master, object, start, now, report_of(reply), after);
    let w = advanced(v, reply);
    match next {
        PromoteStage::Failed(error) => {
            assert(kept(w, start, after));
        },
        PromoteStage::Kept | PromoteStage::Moved => {
            assert(kept(v, start, after));
            assert(after.dom().contains(object));
            if v.mode.paranoid {
                assert(kept(w, start, after));
            } else {
                assert(read(start, master) == read(start, v.paths[0]));
                assert(cleared(v, after));
                lemma_secure_begin_link(v, start, after);
            }
        },
        _ => {},
    }
}

proof fn lemma_secure_probing(v: GroupRunView, start: Disk, now: Disk, reply: Reply, after: Disk)
    requires
        sound(v),
        apart(v),
        v.phase is ProbingMaster,
        secure(v, start, now, now),
        request_at(v) matches Some(request) && answers(now, request, reply, after),
    ensures
        secure(advanced(v, reply), start, after, after),
        apart(advanced(v, reply)),
{
    let w = advanced(v, reply);
    if report_of(reply) is Succeeded {
        assert(kept(w, start, after));
    } else {
        let gone = GroupRunView { absent: true, ..v };
        assert(kept(gone, start, after));
        assert(cleared(gone, after));
        lemma_secure_begin_link(gone, start, after);
    }
}

proof fn lemma_secure_verifying(
    v: GroupRunView,
    start: Disk,
    now: Disk,
    reply: Reply,
    after: Disk,
)
    requires
        sound(v),
        apart(v),
        v.phase is Verifying,
        secure(v, start, now, now),
        request_at(v) matches Some(request) && answers(now, request, reply, after),
    ensures
        secure(advanced(v, reply), start, after, after),
        apart(advanced(v, reply)),
{
    let w = advanced(v, reply);
    match verdict_of(reply) {
        Verdict::Same => {
            let same = GroupRunView { verified: true, ..v };
            assert(kept(same, start, after));
            assert(cleared(same, after));
            lemma_secure_begin_link(same, start, after);
        },
        Verdict::Differ => {
            let noted = noting(v, NoticeView::Collision { path: v.paths[v.index] });
            assert(kept(noted, start, after));
            if v.index != 0 {
                lemma_secure_arrive(noted, start, after, v.index + 1);
                lemma_arrive_apart(noted, v.index + 1);
            } else {
                assert(kept(w, start, after));
            }
        },
        Verdict::Unreadable => {
            let noted = noting(v, NoticeView::VerifyFailed { path: v.paths[v.index] });
            assert(kept(noted, start, after));
            if v.index != 0 {
                lemma_secure_arrive(noted, start, after, v.index + 1);
                lemma_arrive_apart(noted, v.index + 1);
            } else {
                assert(kept(w, start, after));
            }
        },
    }
}

proof fn lemma_secure_linking(
    v: GroupRunView,
    start: Disk,
    base: Disk,
    now: Disk,
    reply: Reply,
    after: Disk,
)
    requires
        sound(v),
        apart(v),
        v.mode.paranoid || alike(v, start),
        v.phase is Linking,
        start.dom().contains(v.paths[0]),
        secure(v, start, base, now),
        request_at(v) matches Some(request) && answers(now, request, reply, after),
    ensures
        secure(advanced(v, reply), start, base_after(v, reply, base, after), after),
        apart(advanced(v, reply)),
{
    let stage = v.phase->Linking_0;
    let target = v.paths[v.index];
    let object = v.vault_path;
    let next = next_stage(stage, report_of(reply) is Succeeded);
    assert(!is_temp(target) && target != object);
    if object == temp_of(target) {
        lemma_temp_path_is_temp(target);
    }
    lemma_holds_after_step(stage, object, target, base, now, report_of(reply), after);
    let moved = GroupRunView { phase: Phase::Linking(next), ..v };
    assert(secure(moved, start, base, after));
    lemma_kept_through_replacement(moved, start, base, after);
    let w = advanced(v, reply);
    match next {
        Stage::Replaced(LinkType::Reflink) => {
            let counted = counting(v, LinkType::Reflink);
            assert(kept(counted, start, after));
            lemma_secure_arrive(counted, start, after, v.index + 1);
            lemma_arrive_apart(counted, v.index + 1);
        },
        Stage::Replaced(LinkType::HardLink) => {
            assert(kept(w, start, after));
        },
        Stage::Failed(cause) => {
            let noted = noting(v, NoticeView::LinkFailed { path: target, cause });
            assert(kept(noted, start, after));
            lemma_secure_arrive(noted, start, after, v.index + 1);
            lemma_arrive_apart(noted, v.index + 1);
        },
        Stage::Unchanged => {
            assert(kept(v, start, after));
            lemma_secure_arrive(v, start, after, v.index + 1);
            lemma_arrive_apart(v, v.index + 1);
        },
        _ => {
            assert(w == moved);
        },
    }
}

} // verus!
