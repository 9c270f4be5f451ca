use std::io::{BufRead, BufReader, Write};

use flate2::read::GzDecoder;
use flate2::write::GzEncoder;
use flate2::Compression;
use sieve::discovery::{gather_gz_files, FileTask, WalkEntry};
use sieve::error::SieveError;
use sieve::pool::worker_count;
use sieve::replace::{Rewrite, Step};
use sieve::rewrite::remove_lines_with_patterns;
use sieve::totals::{tally, Completed, FileOutcome, RunTotals};

fn gzip(content: &[u8]) -> Vec<u8> {
    let mut encoder = GzEncoder::new(Vec::new(), Compression::default());
    encoder.write_all(content).unwrap();
    encoder.finish().unwrap()
}

fn lines_of(bytes: &[u8]) -> Vec<String> {
    BufReader::new(GzDecoder::new(bytes))
        .lines()
        .map(|l| l.unwrap())
        .collect()
}

/// A directory tree held in memory: paths and the bytes stored under them.
struct Tree {
    files: Vec<(String, Vec<u8>)>,
}

impl Tree {
    fn walk(&self) -> Vec<Option<WalkEntry>> {
        self.files
            .iter()
            .map(|(path, bytes)| {
                Some(WalkEntry {
                    path: path.clone(),
                    is_file: true,
                    size: Some(bytes.len() as u64),
                })
            })
            .collect()
    }

    fn read(&self, path: &str) -> Option<Vec<u8>> {
        self.files
            .iter()
            .find(|(p, _)| p == path)
            .map(|(_, bytes)| bytes.clone())
    }

    fn replace(&mut self, path: &str, bytes: Vec<u8>) {
        for entry in self.files.iter_mut() {
            if entry.0 == path {
                entry.1 = bytes;
                return;
            }
        }
    }

    /// Rewrites one file as the steps of a rewrite ask for it.
    fn rewrite(&mut self, task: &FileTask, patterns: &[String]) -> Completed {
        let mut state = Rewrite::new();
        let mut original = Vec::new();
        let mut counts = (0, 0);
        let mut scratch = Vec::new();
        while !state.is_finished() {
            let report = match state.step {
                Step::OpenOriginal => match self.read(&task.path) {
                    Some(bytes) => {
                        original = bytes;
                        Ok(())
                    }
                    None => Err(SieveError::Path),
                },
                Step::Transform => match remove_lines_with_patterns(&original, patterns) {
                    Ok(rewritten) => {
                        counts = (rewritten.lines_read, rewritten.lines_removed);
                        scratch = rewritten.bytes;
                        Ok(())
                    }
                    Err(kind) => Err(kind),
                },
                Step::Replace => {
                    self.replace(&task.path, scratch.clone());
                    Ok(())
                }
                _ => Ok(()),
            };
            state = state.advance(report);
        }
        Completed::new(task, state.outcome().map(|_| counts))
    }

    fn process_files(
        &mut self,
        tasks: &[FileTask],
        patterns: &[String],
        threads: Option<usize>,
    ) -> Result<RunTotals, SieveError> {
        worker_count(threads)?;
        let done: Vec<Completed> = tasks.iter().map(|t| self.rewrite(t, patterns)).collect();
        Ok(tally(&done))
    }
}

#[test]
fn test_nested_directories() {
    let mut tree = Tree {
        files: vec![(
            "/tmp/root/nested/test.gz".to_string(),
            gzip(b"line 1\nline 2 pattern\nline 3\n"),
        )],
    };
    let (tasks, _) = gather_gz_files(&tree.walk());
    assert_eq!(tasks.len(), 1);

    let patterns = vec!["pattern".to_string()];
    let done = tree.rewrite(&tasks[0], &patterns);
    match done.outcome {
        FileOutcome::Rewritten {
            lines_read,
            lines_removed,
            ..
        } => {
            assert_eq!(lines_read, 3);
            assert_eq!(lines_removed, 1);
        }
        FileOutcome::Failed(_) => panic!("the rewrite failed"),
    }

    let stored = tree.read("/tmp/root/nested/test.gz").unwrap();
    assert_eq!(lines_of(&stored), vec!["line 1", "line 3"]);
}

#[test]
fn test_process_files() {
    let content = gzip(b"line 1\nline 2 pattern\nline 3\n");
    let size = content.len() as u64;
    let mut tree = Tree {
        files: vec![("/tmp/root/test.gz".to_string(), content)],
    };
    let files = vec![FileTask {
        path: "/tmp/root/test.gz".to_string(),
        size,
    }];

    let patterns = vec!["pattern".to_string()];
    let result = tree.process_files(&files, &patterns, Some(1));

    assert!(result.is_ok());
    let totals = result.unwrap();
    assert_eq!(totals.lines_read, 3);
    assert_eq!(totals.lines_removed, 1);
    assert_eq!(totals.total_bytes, size);

    let stored = tree.read("/tmp/root/test.gz").unwrap();
    assert_eq!(lines_of(&stored), vec!["line 1", "line 3"]);
}

#[test]
fn test_main_workflow() {
    let mut content = String::new();
    for i in 0..10 {
        content.push_str(&format!(
            "line {} {}\n",
            i,
            if i % 2 == 0 { "REMOVE" } else { "keep" }
        ));
    }
    let mut tree = Tree {
        files: vec![("/tmp/root/test.gz".to_string(), gzip(content.as_bytes()))],
    };
    let patterns = vec!["REMOVE".to_string()];

    let (gz_files, total_size) = gather_gz_files(&tree.walk());
    let totals = tree.process_files(&gz_files, &patterns, None).unwrap();

    assert_eq!(totals.lines_read, 10);
    assert_eq!(totals.lines_removed, 5); // Every other line is removed
    assert_eq!(totals.total_bytes, total_size);

    let stored = tree.read("/tmp/root/test.gz").unwrap();
    let lines = lines_of(&stored);
    assert_eq!(lines.len(), 5);
    for line in &lines {
        assert!(line.contains("keep"));
        assert!(!line.contains("REMOVE"));
    }
}

#[test]
fn a_failed_file_does_not_stop_the_run() {
    let good = gzip(b"line 1\nline 2 pattern\nline 3\n");
    let bad = b"not a valid gz file".to_vec();
    let mut tree = Tree {
        files: vec![
            ("/logs/a.gz".to_string(), good.clone()),
            ("/logs/b.gz".to_string(), bad.clone()),
            ("/logs/c.gz".to_string(), good.clone()),
            ("/logs/readme.txt".to_string(), b"pattern\n".to_vec()),
        ],
    };
    let patterns = vec!["pattern".to_string()];
    let (tasks, total_size) = gather_gz_files(&tree.walk());
    assert_eq!(tasks.len(), 3);

    let totals = tree.process_files(&tasks, &patterns, Some(2)).unwrap();
    assert_eq!(totals.lines_read, 6);
    assert_eq!(totals.lines_removed, 2);
    assert_eq!(totals.total_bytes, total_size);
    assert_eq!(total_size, (2 * good.len() + bad.len()) as u64);

    // The file that failed is byte for byte what it was; the others were rewritten.
    assert_eq!(tree.read("/logs/b.gz").unwrap(), bad);
    assert_eq!(lines_of(&tree.read("/logs/a.gz").unwrap()), vec!["line 1", "line 3"]);
    assert_eq!(lines_of(&tree.read("/logs/c.gz").unwrap()), vec!["line 1", "line 3"]);
    assert_eq!(tree.read("/logs/readme.txt").unwrap(), b"pattern\n".to_vec());
}

#[test]
fn a_run_with_zero_workers_does_not_start() {
    let content = gzip(b"line 1\nline 2 pattern\nline 3\n");
    let mut tree = Tree {
        files: vec![("/logs/a.gz".to_string(), content.clone())],
    };
    let (tasks, _) = gather_gz_files(&tree.walk());
    let result = tree.process_files(&tasks, &["pattern".to_string()], Some(0));
    assert_eq!(result, Err(SieveError::PoolConfig));
    assert_eq!(tree.read("/logs/a.gz").unwrap(), content);
}

#[test]
fn a_missing_file_is_a_path_failure() {
    let mut tree = Tree { files: vec![] };
    let task = FileTask {
        path: "/logs/gone.gz".to_string(),
        size: 10,
    };
    let done = tree.rewrite(&task, &[]);
    assert_eq!(done.size, 10);
    match done.outcome {
        FileOutcome::Failed(record) => {
            assert_eq!(record.path, "/logs/gone.gz");
            assert_eq!(record.kind, SieveError::Path);
        }
        FileOutcome::Rewritten { .. } => panic!("a missing file was rewritten"),
    }
}
