use un7z::extraction::{
    judge_target, Action, BatchTally, EntryInfo, Event, Extraction, Outcome, Phase, TargetState,
};
use un7z::ArchiveType;

fn file(len: u64) -> EntryInfo {
    EntryInfo { is_file: true, len }
}

fn dir() -> EntryInfo {
    EntryInfo { is_file: false, len: 4096 }
}

#[test]
fn judge_target_states() {
    assert_eq!(judge_target(false, &vec![file(10)]), TargetState::Absent);
    assert_eq!(judge_target(true, &vec![]), TargetState::Incomplete);
    assert_eq!(judge_target(true, &vec![dir(), file(0), file(0)]), TargetState::Incomplete);
    assert_eq!(judge_target(true, &vec![dir(), file(0), file(1)]), TargetState::Populated);
}

#[test]
fn rerun_after_success_is_skipped() {
    let (mut job, first) = Extraction::start(ArchiveType::SevenZip, false, false);
    assert_eq!(first, Action::InspectTarget);
    let state = judge_target(true, &vec![dir(), file(123)]);
    assert_eq!(job.step(Event::Inspected(state)), Action::Finish);
    assert_eq!(job.phase, Phase::Skipped);
    assert_eq!(job.outcome(), Some(Outcome::Skipped));
    assert_eq!(job.step(Event::Removed), Action::Ignore);
    assert_eq!(job.phase, Phase::Skipped);
}

#[test]
fn incomplete_target_is_removed_then_extracted() {
    let (mut job, _) = Extraction::start(ArchiveType::Rar, false, false);
    let state = judge_target(true, &vec![file(0), dir()]);
    assert_eq!(job.step(Event::Inspected(state)), Action::RemoveTarget);
    assert_eq!(job.phase, Phase::Repairing);
    assert_eq!(job.step(Event::Removed), Action::Run { create_target: false });
    assert_eq!(job.phase, Phase::Running);
    assert_eq!(job.outcome(), None);
}

#[test]
fn failed_run_removes_partial_output() {
    let (mut job, _) = Extraction::start(ArchiveType::Zip, false, false);
    assert_eq!(
        job.step(Event::Inspected(TargetState::Absent)),
        Action::Run { create_target: false }
    );
    assert_eq!(
        job.step(Event::ToolExited { ok: false, target_exists: true }),
        Action::RemoveTarget
    );
    assert_eq!(job.phase, Phase::Cleaning);
    assert_eq!(job.step(Event::Removed), Action::Finish);
    assert_eq!(job.outcome(), Some(Outcome::Failed));

    // the next run finds no target and extracts again
    let (mut again, _) = Extraction::start(ArchiveType::Zip, false, false);
    let state = judge_target(false, &vec![]);
    assert_eq!(again.step(Event::Inspected(state)), Action::Run { create_target: false });
}

#[test]
fn failed_run_without_output_fails_at_once() {
    let (mut job, _) = Extraction::start(ArchiveType::SevenZip, true, false);
    job.step(Event::Inspected(TargetState::Absent));
    assert_eq!(job.step(Event::ToolExited { ok: false, target_exists: false }), Action::Finish);
    assert_eq!(job.outcome(), Some(Outcome::Failed));
}

#[test]
fn successful_run_succeeds() {
    let (mut job, _) = Extraction::start(ArchiveType::Rar, true, false);
    job.step(Event::Inspected(TargetState::Absent));
    assert_eq!(job.step(Event::ToolExited { ok: true, target_exists: true }), Action::Finish);
    assert_eq!(job.outcome(), Some(Outcome::Succeeded));
}

#[test]
fn tar_extraction_creates_target_first() {
    let (job, first) = Extraction::start(ArchiveType::TarGz, false, true);
    assert_eq!(first, Action::Run { create_target: true });
    assert_eq!(job.phase, Phase::Running);
    let (mut job2, _) = Extraction::start(ArchiveType::TarGz, false, false);
    assert_eq!(
        job2.step(Event::Inspected(TargetState::Absent)),
        Action::Run { create_target: true }
    );
    let (_, test_first) = Extraction::start(ArchiveType::TarGz, true, true);
    assert_eq!(test_first, Action::Run { create_target: false });
}

#[test]
fn force_skips_the_check() {
    let (job, first) = Extraction::start(ArchiveType::SevenZip, false, true);
    assert_eq!(first, Action::Run { create_target: false });
    assert_eq!(job.phase, Phase::Running);
}

#[test]
fn events_out_of_turn_are_ignored() {
    let (mut job, _) = Extraction::start(ArchiveType::SevenZip, false, false);
    assert_eq!(job.step(Event::Removed), Action::Ignore);
    assert_eq!(job.phase, Phase::Unchecked);
}

#[test]
fn tally_counts_each_outcome() {
    let mut t = BatchTally::new(4);
    t.record(Outcome::Succeeded);
    t.record(Outcome::Failed);
    t.record(Outcome::Skipped);
    t.record(Outcome::Succeeded);
    assert_eq!((t.selected, t.succeeded, t.failed, t.skipped), (4, 2, 1, 1));
}
