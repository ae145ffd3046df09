use imprint::ops::{FsOp, Report};
use imprint::types;
use imprint::vault::{ensure_in_vault, shard_path, PromoteError, PromoteStage, Promotion, SEPARATOR};

fn p(text: &str) -> Vec<u8> {
    text.as_bytes().to_vec()
}

fn sample_hash() -> types::Hash {
    let mut bytes = [0x11u8; 32];
    bytes[0] = 0xab;
    bytes[1] = 0xcd;
    bytes[2] = 0x0e;
    types::Hash::from_bytes(bytes)
}

const OBJECT: &str = "/vault/ab/cd/abcd0e1111111111111111111111111111111111111111111111111111111111";

fn drive(mut run: Promotion, reports: &[Report]) -> (Promotion, Vec<FsOp>) {
    let mut asked = Vec::new();
    let mut reports = reports.iter();
    while let Some(op) = run.pending() {
        asked.push(op);
        run = run.advance(*reports.next().expect("a report for every operation"));
    }
    assert!(reports.next().is_none());
    (run, asked)
}

#[test]
fn separator_is_a_slash() {
    assert_eq!(SEPARATOR, b'/');
}

#[test]
fn shard_path_fans_out_over_two_levels() {
    assert_eq!(String::from_utf8(shard_path(b"/vault", &sample_hash())).unwrap(), OBJECT);
}

#[test]
fn shard_path_of_the_zero_hash_below_an_empty_root() {
    let path = shard_path(b"", &types::Hash::from_bytes([0; 32]));
    let mut expected = p("/00/00/");
    expected.extend(std::iter::repeat(b'0').take(64));
    assert_eq!(path, expected);
}

#[test]
fn shard_path_is_a_function_of_the_hash() {
    let a = shard_path(b"/v", &sample_hash());
    let b = shard_path(b"/v", &sample_hash());
    assert_eq!(a, b);
    assert_ne!(a, shard_path(b"/v", &types::Hash::from_bytes([0x11; 32])));
    assert_eq!(a.len(), 2 + 1 + 2 + 1 + 2 + 1 + 64);
}

#[test]
fn an_object_that_is_there_is_kept_and_nothing_else_is_asked() {
    let run = ensure_in_vault(b"/vault", &sample_hash(), b"/d/a.bin");
    assert_eq!(run.vault_path(), &p(OBJECT));
    assert_eq!(run.outcome(), None);
    let (run, asked) = drive(run, &[Report::Succeeded]);
    assert_eq!(asked, vec![FsOp::Probe { path: p(OBJECT) }]);
    assert_eq!(run.current_stage(), PromoteStage::Kept);
    assert_eq!(run.outcome(), Some(Ok(&p(OBJECT))));
}

#[test]
fn a_new_object_is_renamed_into_place() {
    let (run, asked) = drive(
        ensure_in_vault(b"/vault", &sample_hash(), b"/d/a.bin"),
        &[Report::Failed, Report::Succeeded, Report::Succeeded],
    );
    assert_eq!(
        asked,
        vec![
            FsOp::Probe { path: p(OBJECT) },
            FsOp::CreateParents { path: p(OBJECT) },
            FsOp::Rename { from: p("/d/a.bin"), to: p(OBJECT) },
        ]
    );
    assert_eq!(run.current_stage(), PromoteStage::Moved);
    assert_eq!(run.outcome(), Some(Ok(&p(OBJECT))));
}

#[test]
fn across_devices_the_source_is_copied_then_renamed_then_removed() {
    let temp = format!("{OBJECT}.imprint_tmp");
    let (run, asked) = drive(
        ensure_in_vault(b"/vault", &sample_hash(), b"/d/a.bin"),
        &[
            Report::Failed,
            Report::Succeeded,
            Report::CrossDevice,
            Report::Succeeded,
            Report::Succeeded,
            Report::Succeeded,
        ],
    );
    assert_eq!(
        asked,
        vec![
            FsOp::Probe { path: p(OBJECT) },
            FsOp::CreateParents { path: p(OBJECT) },
            FsOp::Rename { from: p("/d/a.bin"), to: p(OBJECT) },
            FsOp::Copy { from: p("/d/a.bin"), to: p(&temp) },
            FsOp::Rename { from: p(&temp), to: p(OBJECT) },
            FsOp::RemoveIfPresent { path: p("/d/a.bin") },
        ]
    );
    assert_eq!(run.current_stage(), PromoteStage::Moved);
}

#[test]
fn each_failure_is_told_apart() {
    let cases: Vec<(Vec<Report>, PromoteError, usize)> = vec![
        (vec![Report::Failed, Report::Failed], PromoteError::CreateParents, 2),
        (vec![Report::Failed, Report::Succeeded, Report::Failed], PromoteError::Move, 3),
        (
            vec![Report::Failed, Report::Succeeded, Report::CrossDevice, Report::Failed, Report::Succeeded],
            PromoteError::Copy,
            5,
        ),
        (
            vec![
                Report::Failed,
                Report::Succeeded,
                Report::CrossDevice,
                Report::Succeeded,
                Report::Failed,
                Report::Succeeded,
            ],
            PromoteError::Install,
            6,
        ),
        (
            vec![
                Report::Failed,
                Report::Succeeded,
                Report::CrossDevice,
                Report::Succeeded,
                Report::Succeeded,
                Report::Failed,
            ],
            PromoteError::RemoveSource,
            6,
        ),
    ];
    for (reports, error, asked_for) in cases {
        let (run, asked) = drive(ensure_in_vault(b"/vault", &sample_hash(), b"/d/a.bin"), &reports);
        assert_eq!(asked.len(), asked_for);
        assert_eq!(run.outcome(), Some(Err(error)));
        assert_eq!(run.current_stage(), PromoteStage::Failed(error));
    }
}

#[test]
fn a_failed_copy_is_cleaned_up() {
    let temp = format!("{OBJECT}.imprint_tmp");
    let (_, asked) = drive(
        ensure_in_vault(b"/vault", &sample_hash(), b"/d/a.bin"),
        &[Report::Failed, Report::Succeeded, Report::CrossDevice, Report::Failed, Report::Failed],
    );
    assert_eq!(asked[4], FsOp::RemoveIfPresent { path: p(&temp) });
}

#[test]
fn a_finished_promotion_stays_finished() {
    let (run, _) = drive(ensure_in_vault(b"/vault", &sample_hash(), b"/d/a.bin"), &[Report::Succeeded]);
    let run = run.advance(Report::Failed);
    assert_eq!(run.current_stage(), PromoteStage::Kept);
    assert_eq!(run.pending(), None);
}
