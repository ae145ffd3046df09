use imprint::dedupe::{LinkType, ReplaceError, Stage};
use imprint::linking::{GroupRun, Mode, Notice, Phase, Reply, Request, Verdict};
use imprint::ops::{FsOp, Report};
use imprint::pipeline::HashGroup;
use imprint::state::State;
use imprint::types;
use imprint::vault::{shard_path, PromoteError, PromoteStage};

fn p(text: &str) -> Vec<u8> {
    text.as_bytes().to_vec()
}

fn hash() -> types::Hash {
    types::Hash::from_bytes([0x5a; 32])
}

fn group(paths: &[&str]) -> HashGroup {
    HashGroup { hash: hash(), paths: paths.iter().map(|t| p(t)).collect() }
}

fn object() -> Vec<u8> {
    shard_path(b"/vault", &hash())
}

const NORMAL: Mode = Mode { paranoid: false, dry_run: false };
const PARANOID: Mode = Mode { paranoid: true, dry_run: false };

fn ok() -> Reply {
    Reply::Disk(Report::Succeeded)
}

fn failed() -> Reply {
    Reply::Disk(Report::Failed)
}

/// Feeds replies until the run asks for nothing more; returns what was asked.
fn drive(mut run: GroupRun, store: &mut State, replies: &[Reply]) -> (GroupRun, Vec<Request>) {
    let mut asked = Vec::new();
    let mut replies = replies.iter();
    while let Some(request) = run.pending() {
        asked.push(request);
        run = run.advance(*replies.next().expect("a reply for every request"), store);
    }
    assert!(replies.next().is_none(), "every reply was consumed");
    (run, asked)
}

/// The replies of a filesystem on which the vault object is new and every
/// reflink works, for one path.
fn reflink_replies() -> Vec<Reply> {
    vec![ok(), ok(), ok()]
}

fn promote_moved() -> Vec<Reply> {
    vec![failed(), ok(), ok()]
}

#[test]
fn a_group_of_one_is_passed_over() {
    let mut store = State::new();
    let run = GroupRun::start(NORMAL, b"/vault", group(&["/a"]));
    assert_eq!(run.phase(), Phase::Dropped);
    assert_eq!(run.pending(), None);
    assert!(run.notices().is_empty());
    let run = run.advance(ok(), &mut store);
    assert_eq!(run.phase(), Phase::Dropped);
    assert_eq!(store.cas_refcount(&hash()), None);
    let run = GroupRun::start(NORMAL, b"/vault", group(&[]));
    assert_eq!(run.phase(), Phase::Dropped);
}

#[test]
fn master_is_promoted_then_every_path_is_linked_master_first() {
    let mut store = State::new();
    let mut replies = promote_moved();
    replies.extend(reflink_replies());
    replies.extend(reflink_replies());
    let (run, asked) = drive(GroupRun::start(NORMAL, b"/vault", group(&["/a", "/b"])), &mut store, &replies);
    assert_eq!(
        asked,
        vec![
            Request::Disk(FsOp::Probe { path: object() }),
            Request::Disk(FsOp::CreateParents { path: object() }),
            Request::Disk(FsOp::Rename { from: p("/a"), to: object() }),
            Request::Disk(FsOp::RemoveIfPresent { path: p("/a.imprint_tmp") }),
            Request::Disk(FsOp::Reflink { from: object(), to: p("/a.imprint_tmp") }),
            Request::Disk(FsOp::Rename { from: p("/a.imprint_tmp"), to: p("/a") }),
            Request::Disk(FsOp::RemoveIfPresent { path: p("/b.imprint_tmp") }),
            Request::Disk(FsOp::Reflink { from: object(), to: p("/b.imprint_tmp") }),
            Request::Disk(FsOp::Rename { from: p("/b.imprint_tmp"), to: p("/b") }),
        ]
    );
    assert_eq!(run.phase(), Phase::Finished);
    assert_eq!(run.linked(), 2);
    assert_eq!(run.vault_path(), &object());
    assert_eq!(
        run.notices(),
        &vec![
            Notice::Linked { path: p("/a"), link: LinkType::Reflink, verified: false, shown: true },
            Notice::Linked { path: p("/b"), link: LinkType::Reflink, verified: false, shown: true },
        ]
    );
    assert_eq!(store.cas_refcount(&hash()), Some(2));
    assert!(store.vaulted_inodes().is_empty());
}

#[test]
fn a_hard_link_has_its_inode_marked_as_vaulted() {
    let mut store = State::new();
    let hard = |inode: u64| vec![ok(), failed(), ok(), ok(), ok(), Reply::Inode(Some(inode))];
    let mut replies = vec![ok()];
    replies.extend(hard(70));
    replies.extend(hard(70));
    let (run, asked) = drive(GroupRun::start(NORMAL, b"/vault", group(&["/a", "/b"])), &mut store, &replies);
    assert_eq!(asked[6], Request::Inode { path: p("/a") });
    assert_eq!(asked[12], Request::Inode { path: p("/b") });
    assert_eq!(run.linked(), 2);
    assert!(store.is_inode_vaulted(70));
    assert_eq!(store.vaulted_inodes(), vec![70]);
    assert_eq!(store.cas_refcount(&hash()), Some(2));
    assert_eq!(
        run.notices()[1],
        Notice::Linked { path: p("/b"), link: LinkType::HardLink, verified: false, shown: true }
    );
}

#[test]
fn the_count_is_not_written_before_the_last_path_is_done() {
    let mut store = State::new();
    let mut run = GroupRun::start(NORMAL, b"/vault", group(&["/a", "/b"]));
    let mut replies = promote_moved();
    replies.extend(reflink_replies());
    replies.extend(vec![ok(), ok()]);
    for reply in replies {
        run = run.advance(reply, &mut store);
        assert_eq!(store.cas_refcount(&hash()), None);
    }
    assert_eq!(run.phase(), Phase::Linking(Stage::SwapReflink));
    run = run.advance(ok(), &mut store);
    assert_eq!(run.phase(), Phase::Finished);
    assert_eq!(store.cas_refcount(&hash()), Some(2));
}

#[test]
fn an_inode_that_cannot_be_looked_up_is_not_marked_but_the_link_counts() {
    let mut store = State::new();
    let mut replies = vec![ok()];
    replies.extend(vec![ok(), failed(), ok(), ok(), ok(), Reply::Inode(None)]);
    replies.extend(reflink_replies());
    let (run, _) = drive(GroupRun::start(NORMAL, b"/vault", group(&["/a", "/b"])), &mut store, &replies);
    assert_eq!(run.linked(), 2);
    assert!(store.vaulted_inodes().is_empty());
}

#[test]
fn a_failed_promotion_drops_the_group() {
    let mut store = State::new();
    let (run, asked) =
        drive(GroupRun::start(NORMAL, b"/vault", group(&["/a", "/b"])), &mut store, &[failed(), failed()]);
    assert_eq!(asked.len(), 2);
    assert_eq!(run.phase(), Phase::Dropped);
    assert_eq!(
        run.notices(),
        &vec![Notice::PromotionFailed { master: p("/a"), error: PromoteError::CreateParents }]
    );
    assert_eq!(store.cas_refcount(&hash()), None);
    assert_eq!(run.linked(), 0);
}

#[test]
fn a_path_that_cannot_be_linked_is_skipped_and_not_counted() {
    let mut store = State::new();
    let mut replies = vec![ok()];
    replies.extend(reflink_replies());
    // Second path: reflink and hard link both fail.
    replies.extend(vec![ok(), failed(), ok(), failed(), ok()]);
    replies.extend(reflink_replies());
    let (run, _) =
        drive(GroupRun::start(NORMAL, b"/vault", group(&["/a", "/b", "/c"])), &mut store, &replies);
    assert_eq!(run.phase(), Phase::Finished);
    assert_eq!(run.linked(), 2);
    assert_eq!(store.cas_refcount(&hash()), Some(2));
    assert_eq!(
        run.notices()[1],
        Notice::LinkFailed { path: p("/b"), cause: ReplaceError::CreateHardLink }
    );
}

#[test]
fn when_nothing_can_be_linked_the_count_is_zero() {
    let mut store = State::new();
    let mut replies = vec![ok()];
    replies.push(failed());
    replies.push(failed());
    let (run, _) = drive(GroupRun::start(NORMAL, b"/vault", group(&["/a", "/b"])), &mut store, &replies);
    assert_eq!(run.phase(), Phase::Finished);
    assert_eq!(store.cas_refcount(&hash()), Some(0));
}

#[test]
fn paranoid_mode_compares_before_it_links() {
    let mut store = State::new();
    let mut replies = vec![ok()];
    // Master still exists: probe, compare, link.
    replies.push(ok());
    replies.push(Reply::Compared(Verdict::Same));
    replies.extend(reflink_replies());
    replies.push(Reply::Compared(Verdict::Same));
    replies.extend(reflink_replies());
    let (run, asked) =
        drive(GroupRun::start(PARANOID, b"/vault", group(&["/a", "/b"])), &mut store, &replies);
    assert_eq!(asked[1], Request::Disk(FsOp::Probe { path: p("/a") }));
    assert_eq!(asked[2], Request::Compare { left: object(), right: p("/a") });
    assert_eq!(asked[6], Request::Compare { left: object(), right: p("/b") });
    assert_eq!(
        run.notices(),
        &vec![
            Notice::Linked { path: p("/a"), link: LinkType::Reflink, verified: true, shown: true },
            Notice::Linked { path: p("/b"), link: LinkType::Reflink, verified: true, shown: true },
        ]
    );
    assert_eq!(store.cas_refcount(&hash()), Some(2));
}

#[test]
fn a_master_that_was_moved_into_the_vault_is_relinked_without_comparison() {
    let mut store = State::new();
    let mut replies = promote_moved();
    replies.push(failed());
    replies.extend(reflink_replies());
    replies.push(Reply::Compared(Verdict::Same));
    replies.extend(reflink_replies());
    let (run, asked) =
        drive(GroupRun::start(PARANOID, b"/vault", group(&["/a", "/b"])), &mut store, &replies);
    assert_eq!(asked[3], Request::Disk(FsOp::Probe { path: p("/a") }));
    assert_eq!(asked[4], Request::Disk(FsOp::RemoveIfPresent { path: p("/a.imprint_tmp") }));
    assert_eq!(
        run.notices()[0],
        Notice::Linked { path: p("/a"), link: LinkType::Reflink, verified: false, shown: true }
    );
    assert_eq!(run.linked(), 2);
}

#[test]
fn a_duplicate_that_differs_is_left_alone_and_the_group_goes_on() {
    let mut store = State::new();
    let mut replies = promote_moved();
    replies.push(failed());
    replies.extend(reflink_replies());
    replies.push(Reply::Compared(Verdict::Differ));
    replies.push(Reply::Compared(Verdict::Same));
    replies.extend(reflink_replies());
    let (run, asked) =
        drive(GroupRun::start(PARANOID, b"/vault", group(&["/a", "/b", "/c"])), &mut store, &replies);
    assert!(asked.iter().all(|request| match request {
        Request::Disk(FsOp::Rename { to, .. }) => to != &p("/b"),
        Request::Disk(FsOp::RemoveIfPresent { path }) => path != &p("/b"),
        _ => true,
    }));
    assert_eq!(run.notices()[1], Notice::Collision { path: p("/b") });
    assert_eq!(run.linked(), 2);
    assert_eq!(store.cas_refcount(&hash()), Some(2));
    assert_eq!(run.phase(), Phase::Finished);
}

#[test]
fn a_duplicate_that_cannot_be_read_is_skipped() {
    let mut store = State::new();
    let mut replies = promote_moved();
    replies.push(failed());
    replies.extend(reflink_replies());
    replies.push(Reply::Compared(Verdict::Unreadable));
    let (run, _) = drive(GroupRun::start(PARANOID, b"/vault", group(&["/a", "/b"])), &mut store, &replies);
    assert_eq!(run.notices()[1], Notice::VerifyFailed { path: p("/b") });
    assert_eq!(run.linked(), 1);
    assert_eq!(store.cas_refcount(&hash()), Some(1));
}

#[test]
fn a_master_that_differs_from_the_vault_object_drops_the_group() {
    let mut store = State::new();
    let replies = vec![ok(), ok(), Reply::Compared(Verdict::Differ)];
    let (run, asked) =
        drive(GroupRun::start(PARANOID, b"/vault", group(&["/a", "/b"])), &mut store, &replies);
    assert_eq!(asked.len(), 3);
    assert_eq!(run.phase(), Phase::Dropped);
    assert_eq!(run.notices(), &vec![Notice::Collision { path: p("/a") }]);
    assert_eq!(store.cas_refcount(&hash()), None);
}

#[test]
fn a_master_that_cannot_be_read_drops_the_group() {
    let mut store = State::new();
    let replies = vec![ok(), ok(), Reply::Compared(Verdict::Unreadable)];
    let (run, _) = drive(GroupRun::start(PARANOID, b"/vault", group(&["/a", "/b"])), &mut store, &replies);
    assert_eq!(run.phase(), Phase::Dropped);
    assert_eq!(run.notices(), &vec![Notice::VerifyFailed { path: p("/a") }]);
}

#[test]
fn a_reply_of_the_wrong_kind_counts_as_a_failure() {
    let mut store = State::new();
    let run = GroupRun::start(PARANOID, b"/vault", group(&["/a", "/b"]));
    let run = run.advance(ok(), &mut store).advance(ok(), &mut store);
    assert_eq!(run.phase(), Phase::Verifying);
    let run = run.advance(ok(), &mut store);
    assert_eq!(run.phase(), Phase::Dropped);
    assert_eq!(run.notices(), &vec![Notice::VerifyFailed { path: p("/a") }]);
    let run = GroupRun::start(NORMAL, b"/vault", group(&["/a", "/b"]));
    let run = run.advance(Reply::Inode(Some(1)), &mut store);
    assert_eq!(run.phase(), Phase::Promoting(PromoteStage::MakeRoom));
}

#[test]
fn a_path_that_is_the_vault_object_itself_is_passed_by() {
    let mut store = State::new();
    let object_text = String::from_utf8(object()).unwrap();
    let mut replies = vec![ok()];
    replies.extend(reflink_replies());
    let (run, asked) =
        drive(GroupRun::start(NORMAL, b"/vault", group(&[&object_text, "/b"])), &mut store, &replies);
    assert_eq!(asked.len(), 4);
    assert_eq!(asked[1], Request::Disk(FsOp::RemoveIfPresent { path: p("/b.imprint_tmp") }));
    assert_eq!(run.linked(), 1);
    assert_eq!(store.cas_refcount(&hash()), Some(1));
}

#[test]
fn links_of_temp_files_are_counted_but_not_shown() {
    let mut store = State::new();
    let mut replies = vec![ok()];
    replies.extend(reflink_replies());
    replies.extend(reflink_replies());
    let (run, _) = drive(
        GroupRun::start(NORMAL, b"/vault", group(&["/a", "/old.imprint_tmp"])),
        &mut store,
        &replies,
    );
    assert_eq!(
        run.notices()[1],
        Notice::Linked { path: p("/old.imprint_tmp"), link: LinkType::Reflink, verified: false, shown: false }
    );
    assert_eq!(run.linked(), 2);
}

#[test]
fn a_dry_run_asks_for_nothing_and_says_what_it_would_do() {
    let mut store = State::new();
    let run = GroupRun::start(Mode { paranoid: false, dry_run: true }, b"/vault", group(&["/a", "/b", "/c"]));
    assert_eq!(run.pending(), None);
    assert_eq!(run.phase(), Phase::Finished);
    assert_eq!(
        run.notices(),
        &vec![
            Notice::WouldMoveMaster { master: p("/a"), vault_path: object() },
            Notice::WouldDedupe { path: p("/a"), vault_path: object() },
            Notice::WouldDedupe { path: p("/b"), vault_path: object() },
            Notice::WouldDedupe { path: p("/c"), vault_path: object() },
            Notice::WouldUpdateState { hash: hash() },
        ]
    );
    let run = run.advance(ok(), &mut store);
    assert_eq!(run.pending(), None);
    assert_eq!(store.cas_refcount(&hash()), None);
    assert_eq!(run.linked(), 0);
}

#[test]
fn a_paranoid_dry_run_says_that_it_cannot_compare() {
    let run = GroupRun::start(Mode { paranoid: true, dry_run: true }, b"/vault", group(&["/a", "/b"]));
    assert_eq!(run.notices().len(), 5);
    assert_eq!(run.notices()[1], Notice::SkippingVerification);
    assert_eq!(run.pending(), None);
}

#[test]
fn the_collision_line_names_the_path() {
    assert_eq!(
        imprint::linking::collision_diagnostic(b"/root/b.bin"),
        p("HASH COLLISION OR BIT ROT DETECTED: /root/b.bin")
    );
    assert_eq!(imprint::linking::collision_diagnostic(b""), p("HASH COLLISION OR BIT ROT DETECTED: "));
}

#[test]
fn an_abandoned_run_names_the_temp_file_it_owes() {
    let mut store = State::new();
    let run = GroupRun::start(NORMAL, b"/vault", group(&["/a", "/b"]));
    assert_eq!(run.abandon(), None);
    let run = run.advance(ok(), &mut store);
    assert_eq!(run.phase(), Phase::Linking(Stage::ClearStale));
    assert_eq!(run.abandon(), None);
    let run = run.advance(ok(), &mut store);
    assert_eq!(run.abandon(), Some(p("/a.imprint_tmp")));
    let run = run.advance(ok(), &mut store).advance(ok(), &mut store);
    assert_eq!(run.phase(), Phase::Linking(Stage::ClearStale));
    assert_eq!(run.abandon(), None);
    // A copy across devices owes the copy next to the vault object.
    let run = GroupRun::start(NORMAL, b"/vault", group(&["/a", "/b"]));
    let run = run
        .advance(failed(), &mut store)
        .advance(ok(), &mut store)
        .advance(Reply::Disk(Report::CrossDevice), &mut store);
    let mut temp = object();
    temp.extend_from_slice(b".imprint_tmp");
    assert_eq!(run.abandon(), Some(temp));
}
