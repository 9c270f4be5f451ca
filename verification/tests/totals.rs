use sieve::discovery::FileTask;
use sieve::error::SieveError;
use sieve::totals::{tally, Completed, FileOutcome, RunTotals};

fn rewritten(size: u64, lines_read: u64, lines_removed: u64) -> Completed {
    Completed {
        size,
        outcome: FileOutcome::new("ok.gz".to_string(), Ok((lines_read, lines_removed))),
    }
}

fn failed(size: u64, kind: SieveError) -> Completed {
    Completed {
        size,
        outcome: FileOutcome::new("bad.gz".to_string(), Err(kind)),
    }
}

fn totals(total_bytes: u64, lines_read: u64, lines_removed: u64) -> RunTotals {
    RunTotals {
        total_bytes,
        lines_read,
        lines_removed,
    }
}

#[test]
fn new_totals_are_zero() {
    assert_eq!(RunTotals::new(), totals(0, 0, 0));
    assert_eq!(tally(&[]), totals(0, 0, 0));
}

#[test]
fn outcomes_are_built_from_results() {
    match FileOutcome::new("a.gz".to_string(), Ok((3, 1))) {
        FileOutcome::Rewritten {
            path,
            lines_read,
            lines_removed,
        } => {
            assert_eq!(path, "a.gz");
            assert_eq!(lines_read, 3);
            assert_eq!(lines_removed, 1);
        }
        FileOutcome::Failed(_) => panic!("a success was recorded as a failure"),
    }
    match FileOutcome::new("b.gz".to_string(), Err(SieveError::Codec)) {
        FileOutcome::Failed(record) => {
            assert_eq!(record.path, "b.gz");
            assert_eq!(record.kind, SieveError::Codec);
        }
        FileOutcome::Rewritten { .. } => panic!("a failure was recorded as a success"),
    }
    assert!(FileOutcome::new("a.gz".to_string(), Ok((0, 0))).is_success());
    assert!(!FileOutcome::new("a.gz".to_string(), Err(SieveError::Io)).is_success());
}

#[test]
fn completed_task_keeps_the_discovered_size() {
    let task = FileTask {
        path: "/var/log/a.gz".to_string(),
        size: 77,
    };
    let done = Completed::new(&task, Ok((10, 4)));
    assert_eq!(done.size, 77);
    match done.outcome {
        FileOutcome::Rewritten {
            path,
            lines_read,
            lines_removed,
        } => {
            assert_eq!(path, "/var/log/a.gz");
            assert_eq!(lines_read, 10);
            assert_eq!(lines_removed, 4);
        }
        FileOutcome::Failed(_) => panic!("a success was recorded as a failure"),
    }
    let lost = Completed::new(&task, Err(SieveError::Path));
    assert_eq!(lost.size, 77);
    match lost.outcome {
        FileOutcome::Failed(record) => {
            assert_eq!(record.path, "/var/log/a.gz");
            assert_eq!(record.kind, SieveError::Path);
        }
        FileOutcome::Rewritten { .. } => panic!("a failure was recorded as a success"),
    }
}

#[test]
fn record_adds_a_success() {
    let mut t = RunTotals::new();
    t.record(100, &FileOutcome::new("a.gz".to_string(), Ok((3, 1))));
    assert_eq!(t, totals(100, 3, 1));
    t.record(50, &FileOutcome::new("b.gz".to_string(), Ok((10, 5))));
    assert_eq!(t, totals(150, 13, 6));
}

#[test]
fn failed_files_add_their_size_and_no_lines() {
    let mut t = totals(100, 3, 1);
    t.record(42, &FileOutcome::new("c.gz".to_string(), Err(SieveError::Codec)));
    assert_eq!(t, totals(142, 3, 1));
}

#[test]
fn tally_sums_the_successes() {
    let done = vec![
        rewritten(100, 3, 1),
        failed(42, SieveError::Codec),
        rewritten(50, 10, 5),
        failed(7, SieveError::Io),
    ];
    assert_eq!(tally(&done), totals(199, 13, 6));
}

#[test]
fn totals_do_not_depend_on_completion_order() {
    let one_worker = vec![
        rewritten(100, 3, 1),
        failed(42, SieveError::Codec),
        rewritten(50, 10, 5),
        rewritten(9, 1000, 100),
    ];
    let many_workers = vec![
        rewritten(9, 1000, 100),
        rewritten(50, 10, 5),
        rewritten(100, 3, 1),
        failed(42, SieveError::Codec),
    ];
    assert_eq!(tally(&one_worker), tally(&many_workers));
    assert_eq!(tally(&one_worker), totals(201, 1013, 106));
}

#[test]
fn merged_parts_are_the_whole() {
    let first = vec![rewritten(100, 3, 1), failed(42, SieveError::Codec)];
    let second = vec![rewritten(50, 10, 5), rewritten(9, 1000, 100)];
    let whole = vec![
        rewritten(100, 3, 1),
        failed(42, SieveError::Codec),
        rewritten(50, 10, 5),
        rewritten(9, 1000, 100),
    ];
    assert_eq!(tally(&first).merge(tally(&second)), tally(&whole));
    assert_eq!(tally(&second).merge(tally(&first)), tally(&whole));
    assert_eq!(tally(&whole).merge(RunTotals::new()), tally(&whole));
}

#[test]
fn merge_adds_field_by_field() {
    assert_eq!(totals(1, 2, 3).merge(totals(10, 20, 30)), totals(11, 22, 33));
}

#[test]
fn counters_wrap_around() {
    let mut t = totals(u64::MAX, u64::MAX - 1, 5);
    t.record(2, &FileOutcome::new("a.gz".to_string(), Ok((3, 1))));
    assert_eq!(t, totals(1, 1, 6));
    assert_eq!(totals(u64::MAX, 0, 0).merge(totals(1, 0, 0)), totals(0, 0, 0));
}
