use imprint::dedupe::{
    bytes_equal, replace_with_link, temp_path, Comparison, LinkType, ReplaceError, Replacement, Stage,
    TempCleanup, TEMP_SUFFIX,
};
use imprint::ops::{FsOp, Report};

fn p(text: &str) -> Vec<u8> {
    text.as_bytes().to_vec()
}

fn drive(mut run: Replacement, reports: &[Report]) -> (Replacement, Vec<FsOp>) {
    let mut asked = Vec::new();
    let mut reports = reports.iter();
    while let Some(op) = run.pending() {
        asked.push(op);
        let report = *reports.next().expect("a report for every operation");
        run = run.advance(report);
    }
    assert!(reports.next().is_none(), "every report was consumed");
    (run, asked)
}

#[test]
fn temp_suffix_spells_imprint_tmp() {
    assert_eq!(&TEMP_SUFFIX, b".imprint_tmp");
}

#[test]
fn temp_path_appends_the_suffix_to_the_whole_path() {
    assert_eq!(temp_path(b"/data/a.bin"), p("/data/a.bin.imprint_tmp"));
    assert_eq!(temp_path(b"plain"), p("plain.imprint_tmp"));
    assert_eq!(temp_path(b""), p(".imprint_tmp"));
}

#[test]
fn bytes_equal_is_equality() {
    assert!(bytes_equal(b"", b""));
    assert!(bytes_equal(b"abc", b"abc"));
    assert!(!bytes_equal(b"abc", b"abd"));
    assert!(!bytes_equal(b"abc", b"ab"));
    assert!(!bytes_equal(b"", b"a"));
}

#[test]
fn cleanup_is_armed_until_disarmed() {
    let mut cleanup = TempCleanup::new(p("/x.imprint_tmp"));
    assert!(cleanup.is_armed());
    assert_eq!(cleanup.path(), &p("/x.imprint_tmp"));
    assert_eq!(cleanup.release(), Some(&p("/x.imprint_tmp")));
    cleanup.disarm();
    assert!(!cleanup.is_armed());
    assert_eq!(cleanup.release(), None);
    assert_eq!(cleanup.path(), &p("/x.imprint_tmp"));
    assert_eq!(cleanup.into_path(), p("/x.imprint_tmp"));
}

#[test]
fn same_path_is_a_no_op() {
    let run = replace_with_link(b"/v/obj", b"/v/obj");
    assert_eq!(run.pending(), None);
    assert_eq!(run.outcome(), Some(Ok(None)));
    assert_eq!(run.abandon(), None);
    assert_eq!(run.current_stage(), Stage::Unchanged);
    let run = run.advance(Report::Succeeded);
    assert_eq!(run.outcome(), Some(Ok(None)));
}

#[test]
fn reflink_is_made_under_the_temp_name_and_renamed_over_the_target() {
    let (run, asked) = drive(
        replace_with_link(b"/v/obj", b"/d/b.bin"),
        &[Report::Succeeded, Report::Succeeded, Report::Succeeded],
    );
    assert_eq!(
        asked,
        vec![
            FsOp::RemoveIfPresent { path: p("/d/b.bin.imprint_tmp") },
            FsOp::Reflink { from: p("/v/obj"), to: p("/d/b.bin.imprint_tmp") },
            FsOp::Rename { from: p("/d/b.bin.imprint_tmp"), to: p("/d/b.bin") },
        ]
    );
    assert_eq!(run.outcome(), Some(Ok(Some(LinkType::Reflink))));
    assert_eq!(run.abandon(), None);
}

#[test]
fn failed_reflink_falls_back_to_a_hard_link() {
    let (run, asked) = drive(
        replace_with_link(b"/v/obj", b"/d/b.bin"),
        &[Report::Succeeded, Report::Failed, Report::Failed, Report::Succeeded, Report::Succeeded],
    );
    assert_eq!(
        asked,
        vec![
            FsOp::RemoveIfPresent { path: p("/d/b.bin.imprint_tmp") },
            FsOp::Reflink { from: p("/v/obj"), to: p("/d/b.bin.imprint_tmp") },
            FsOp::RemoveIfPresent { path: p("/d/b.bin.imprint_tmp") },
            FsOp::HardLink { from: p("/v/obj"), to: p("/d/b.bin.imprint_tmp") },
            FsOp::Rename { from: p("/d/b.bin.imprint_tmp"), to: p("/d/b.bin") },
        ]
    );
    assert_eq!(run.outcome(), Some(Ok(Some(LinkType::HardLink))));
}

#[test]
fn cross_device_reflink_counts_as_a_failure() {
    let (run, _) = drive(
        replace_with_link(b"/v/obj", b"/d/b.bin"),
        &[Report::Succeeded, Report::CrossDevice, Report::Succeeded, Report::Succeeded, Report::Succeeded],
    );
    assert_eq!(run.outcome(), Some(Ok(Some(LinkType::HardLink))));
}

#[test]
fn failed_hard_link_cleans_up_and_leaves_the_target_alone() {
    let (run, asked) = drive(
        replace_with_link(b"/v/obj", b"/d/b.bin"),
        &[Report::Succeeded, Report::Failed, Report::Succeeded, Report::Failed, Report::Succeeded],
    );
    assert_eq!(asked.len(), 5);
    assert_eq!(asked[4], FsOp::RemoveIfPresent { path: p("/d/b.bin.imprint_tmp") });
    assert!(asked.iter().all(|op| !matches!(op, FsOp::Rename { .. })));
    assert_eq!(run.outcome(), Some(Err(ReplaceError::CreateHardLink)));
    assert_eq!(run.abandon(), None);
}

#[test]
fn failed_rename_of_a_reflink_cleans_up() {
    let (run, asked) = drive(
        replace_with_link(b"/v/obj", b"/d/b.bin"),
        &[Report::Succeeded, Report::Succeeded, Report::Failed, Report::Failed],
    );
    assert_eq!(asked.len(), 4);
    assert_eq!(asked[3], FsOp::RemoveIfPresent { path: p("/d/b.bin.imprint_tmp") });
    assert_eq!(run.outcome(), Some(Err(ReplaceError::SwapReflink)));
}

#[test]
fn failed_rename_of_a_hard_link_cleans_up() {
    let (run, asked) = drive(
        replace_with_link(b"/v/obj", b"/d/b.bin"),
        &[
            Report::Succeeded,
            Report::Failed,
            Report::Succeeded,
            Report::Succeeded,
            Report::Failed,
            Report::Succeeded,
        ],
    );
    assert_eq!(asked.len(), 6);
    assert_eq!(asked[5], FsOp::RemoveIfPresent { path: p("/d/b.bin.imprint_tmp") });
    assert_eq!(run.outcome(), Some(Err(ReplaceError::SwapHardLink)));
}

#[test]
fn a_stale_temp_that_cannot_be_removed_ends_the_replacement() {
    let (run, asked) = drive(replace_with_link(b"/v/obj", b"/d/b.bin"), &[Report::Failed]);
    assert_eq!(asked, vec![FsOp::RemoveIfPresent { path: p("/d/b.bin.imprint_tmp") }]);
    assert_eq!(run.outcome(), Some(Err(ReplaceError::RemoveStaleTemp)));
}

#[test]
fn the_temp_file_is_owed_a_cleanup_from_the_first_link_attempt_to_the_end() {
    let run = replace_with_link(b"/v/obj", b"/d/b.bin");
    assert_eq!(run.abandon(), None);
    assert_eq!(run.outcome(), None);
    let run = run.advance(Report::Succeeded);
    assert_eq!(run.current_stage(), Stage::MakeReflink);
    assert_eq!(run.abandon(), Some(&p("/d/b.bin.imprint_tmp")));
    let run = run.advance(Report::Succeeded);
    assert_eq!(run.current_stage(), Stage::SwapReflink);
    assert_eq!(run.abandon(), Some(&p("/d/b.bin.imprint_tmp")));
    let run = run.advance(Report::Failed);
    assert_eq!(run.current_stage(), Stage::Abort(ReplaceError::SwapReflink));
    assert_eq!(run.abandon(), Some(&p("/d/b.bin.imprint_tmp")));
    let run = run.advance(Report::Succeeded);
    assert_eq!(run.abandon(), None);
}

#[test]
fn a_replacement_never_asks_for_more_than_six_operations() {
    let all = [Report::Succeeded, Report::Failed, Report::CrossDevice];
    let mut longest = 0;
    for code in 0..729usize {
        let mut run = replace_with_link(b"/v/obj", b"/d/b.bin");
        let mut left = code;
        let mut asked = 0;
        while run.pending().is_some() {
            run = run.advance(all[left % 3]);
            left /= 3;
            asked += 1;
            assert!(asked <= 6);
        }
        assert!(run.outcome().is_some());
        longest = longest.max(asked);
    }
    assert_eq!(longest, 6);
}

#[test]
fn comparison_of_equal_streams() {
    let mut comparison = Comparison::new();
    assert!(comparison.verdict());
    comparison.feed(b"hello ", b"hello ");
    comparison.feed(b"world", b"world");
    comparison.feed(b"", b"");
    assert!(comparison.verdict());
}

#[test]
fn comparison_finds_a_differing_byte() {
    let mut comparison = Comparison::new();
    comparison.feed(b"hello ", b"hello ");
    comparison.feed(b"world", b"worle");
    comparison.feed(b"!", b"!");
    assert!(!comparison.verdict());
}

#[test]
fn comparison_finds_a_differing_length() {
    let mut comparison = Comparison::new();
    comparison.feed(b"hello", b"hello");
    comparison.feed(b"!", b"");
    assert!(!comparison.verdict());
}
