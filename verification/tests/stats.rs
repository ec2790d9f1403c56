use oxide::stats::{report_if_nothing_to_do, FileOutcome, RunStats, NOTHING_TO_DO};

fn stats(seen: usize, skipped: usize, attempted: usize, ok: usize, errors: usize) -> RunStats {
    RunStats {
        audio_seen: seen,
        skipped_already_tagged: skipped,
        attempted,
        tagged_ok: ok,
        errors,
    }
}

#[test]
fn fresh_counts_are_zero() {
    assert_eq!(RunStats::default(), stats(0, 0, 0, 0, 0));
}

#[test]
fn each_outcome_is_counted() {
    let mut counts = RunStats::default();
    counts.record(FileOutcome::Skipped);
    assert_eq!(counts, stats(1, 1, 0, 0, 0));
    counts.record(FileOutcome::Tagged);
    assert_eq!(counts, stats(2, 1, 1, 1, 0));
    counts.record(FileOutcome::Failed);
    assert_eq!(counts, stats(3, 1, 2, 1, 1));
    assert!(counts.has_room());
    assert!(!stats(usize::MAX, usize::MAX, 0, 0, 0).has_room());
}

#[test]
fn counts_of_single_files() {
    assert_eq!(RunStats::of(FileOutcome::Skipped), stats(1, 1, 0, 0, 0));
    assert_eq!(RunStats::of(FileOutcome::Tagged), stats(1, 0, 1, 1, 0));
    assert_eq!(RunStats::of(FileOutcome::Failed), stats(1, 0, 1, 0, 1));
}

#[test]
fn merging_in_any_order_counts_the_same() {
    let outcomes = [
        FileOutcome::Skipped,
        FileOutcome::Tagged,
        FileOutcome::Failed,
        FileOutcome::Tagged,
    ];
    let mut one_by_one = RunStats::default();
    let mut forth = RunStats::default();
    let mut back = RunStats::default();
    for outcome in outcomes {
        one_by_one.record(outcome);
        forth = forth.merge(RunStats::of(outcome));
        back = RunStats::of(outcome).merge(back);
    }
    assert_eq!(one_by_one, stats(4, 1, 3, 2, 1));
    assert_eq!(forth, one_by_one);
    assert_eq!(back, one_by_one);
}

#[test]
fn merged_counts_wrap_around() {
    let full = stats(usize::MAX, usize::MAX, 0, 0, 0);
    assert_eq!(full.merge(RunStats::of(FileOutcome::Skipped)), stats(0, 0, 0, 0, 0));
}

#[test]
fn nothing_to_do_is_said_where_all_were_skipped() {
    assert!(report_if_nothing_to_do(&stats(3, 3, 0, 0, 0), false));
    assert!(!report_if_nothing_to_do(&stats(3, 3, 0, 0, 0), true));
    assert!(!report_if_nothing_to_do(&stats(0, 0, 0, 0, 0), false));
    assert!(!report_if_nothing_to_do(&stats(3, 2, 1, 1, 0), false));
    assert!(!report_if_nothing_to_do(&stats(1, 0, 1, 0, 1), false));
    assert_eq!(
        NOTHING_TO_DO,
        "No files to process: all supported files already have an AcoustID fingerprint tag embedded."
    );
}

#[test]
fn groups_merge_to_the_same_counts() {
    let a = RunStats::of(FileOutcome::Tagged);
    let b = RunStats::of(FileOutcome::Skipped);
    let c = RunStats::of(FileOutcome::Failed);
    let none = RunStats::default();
    let left = a.merge(b).merge(c);
    let right = a.merge(b.merge(c));
    let mixed = none.merge(c.merge(none)).merge(b.merge(a));
    assert_eq!(left, stats(3, 1, 2, 1, 1));
    assert_eq!(right, left);
    assert_eq!(mixed, left);
}
