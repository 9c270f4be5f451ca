//! Discovery: which of the entries that a directory walk yields are files to
//! rewrite, and how many bytes they hold together.
//!
//! The walk itself is the caller's. It hands over what it found, entry by
//! entry, with `None` for an entry that it could not read (a directory
//! without permission, a link that leads nowhere); such entries are passed
//! over. Paths are separated by `/`.

use vstd::prelude::*;
use vstd::utf8::encode_utf8;

use crate::counter::{lemma_wrap_add, wrap};
use crate::error::SieveError;

verus! {

/// What a directory walk reports of one entry.
#[derive(Debug)]
pub struct WalkEntry {
    /// The path of the entry.
    pub path: String,
    /// Whether the entry is a regular file.
    pub is_file: bool,
    /// The size of the entry in bytes, where its metadata could be read.
    pub size: Option<u64>,
}

/// A file to rewrite, with its size in bytes at the time of discovery.
#[derive(Debug)]
pub struct FileTask {
    pub path: String,
    pub size: u64,
}

/// The path names a compressed log: its last component ends in `.gz`, with
/// at least one byte before the dot.
pub open spec fn has_gz_extension(path: Seq<u8>) -> bool {
    let n = path.len() as int;
    &&& n >= 4
    &&& path[n - 4] != 0x2F
    &&& path[n - 3] == 0x2E
    &&& path[n - 2] == 0x67
    &&& path[n - 1] == 0x7A
}

/// The entry is one to rewrite: it was read, it is a regular file, and its
/// path names a compressed log.
pub open spec fn is_target(entry: Option<WalkEntry>) -> bool {
    entry matches Some(e) && e.is_file && has_gz_extension(encode_utf8(e.path@))
}

/// The task for an entry: its path, and its size, taken as 0 where the
/// metadata could not be read.
pub open spec fn task_of(entry: Option<WalkEntry>) -> FileTask {
    FileTask {
        path: entry.unwrap().path,
        size: match entry.unwrap().size {
            Some(size) => size,
            None => 0,
        },
    }
}

/// The tasks of a walk: one for each target, in the order of the walk.
pub open spec fn tasks_of(walked: Seq<Option<WalkEntry>>) -> Seq<FileTask> {
    walked.filter(|e: Option<WalkEntry>| is_target(e)).map_values(
        |e: Option<WalkEntry>| task_of(e),
    )
}

/// The sizes of `tasks`, summed.
pub open spec fn sum_sizes(tasks: Seq<FileTask>) -> nat
    decreases tasks.len(),
{
    if tasks.len() == 0 {
        0
    } else {
        sum_sizes(tasks.drop_last()) + tasks.last().size as nat
    }
}

/// Whether `path` names a compressed log. The test is on the bytes of the
/// path and is case-sensitive: `a.gz` and `dir/b.tar.gz` do, `.gz`, `dir/.gz`,
/// `a.GZ` and `gz` do not.
pub fn is_gz_path(path: &str) -> (r: bool)
    ensures
        r == has_gz_extension(encode_utf8(path@)),
{
    let bytes: &[u8] = path.as_bytes();
    let n: usize = bytes.len();
    n >= 4 && bytes[n - 4] != 0x2F && bytes[n - 3] == 0x2E && bytes[n - 2] == 0x67 && bytes[n
        - 1] == 0x7A
}

/// One more entry of the walk adds its task if it is a target, and nothing
/// otherwise.
pub proof fn lemma_tasks_push(walked: Seq<Option<WalkEntry>>, entry: Option<WalkEntry>)
    ensures
        tasks_of(walked.push(entry)) == if is_target(entry) {
            tasks_of(walked).push(task_of(entry))
        } else {
            tasks_of(walked)
        },
{
    let pred = |e: Option<WalkEntry>| is_target(e);
    let make = |e: Option<WalkEntry>| task_of(e);
    walked.lemma_filter_push(entry, pred);
    if is_target(entry) {
        assert(walked.filter(pred).push(entry).map_values(make) =~= walked.filter(
            pred,
        ).map_values(make).push(make(entry)));
    }
}

/// No two entries that were read have the same path.
pub open spec fn distinct_paths(walked: Seq<Option<WalkEntry>>) -> bool {
    forall|i: int, j: int|
        0 <= i < j < walked.len() && walked[i] is Some && walked[j] is Some ==> (
        #[trigger] walked[i]).unwrap().path != (#[trigger] walked[j]).unwrap().path
}

/// Every task stands for a target of the walk.
pub proof fn lemma_tasks_are_targets(walked: Seq<Option<WalkEntry>>, i: int)
    requires
        0 <= i < tasks_of(walked).len(),
    ensures
        exists|k: int|
            0 <= k < walked.len() && is_target(#[trigger] walked[k]) && tasks_of(walked)[i]
                == task_of(walked[k]),
    decreases walked.len(),
{
    if walked.len() == 0 {
        reveal(Seq::filter);
    } else {
        let front = walked.drop_last();
        assert(front.push(walked.last()) =~= walked);
        lemma_tasks_push(front, walked.last());
        if i < tasks_of(front).len() {
            lemma_tasks_are_targets(front, i);
            let k = choose|k: int|
                0 <= k < front.len() && is_target(#[trigger] front[k]) && tasks_of(front)[i]
                    == task_of(front[k]);
            assert(walked[k] == front[k]);
        } else {
            assert(is_target(walked[walked.len() - 1]));
        }
    }
}

/// Each path is found at most once: a walk that reports no path twice gives
/// no two tasks for the same path.
pub proof fn lemma_tasks_distinct(walked: Seq<Option<WalkEntry>>)
    requires
        distinct_paths(walked),
    ensures
        forall|i: int, j: int|
            0 <= i < j < tasks_of(walked).len() ==> (#[trigger] tasks_of(walked)[i]).path != (
            #[trigger] tasks_of(walked)[j]).path,
    decreases walked.len(),
{
    if walked.len() == 0 {
        reveal(Seq::filter);
    } else {
        let front = walked.drop_last();
        let last = walked.last();
        assert(front.push(last) =~= walked);
        lemma_tasks_push(front, last);
        assert(distinct_paths(front)) by {
            assert forall|i: int, j: int|
                0 <= i < j < front.len() && front[i] is Some && front[j] is Some implies (
            #[trigger] front[i]).unwrap().path != (#[trigger] front[j]).unwrap().path by {
                assert(walked[i] == front[i] && walked[j] == front[j]);
            }
        }
        lemma_tasks_distinct(front);
        let tasks = tasks_of(walked);
        assert forall|i: int, j: int| 0 <= i < j < tasks.len() implies (#[trigger] tasks[i]).path
            != (#[trigger] tasks[j]).path by {
            if j == tasks_of(front).len() {
                lemma_tasks_are_targets(front, i);
                let k = choose|k: int|
                    0 <= k < front.len() && is_target(#[trigger] front[k]) && tasks_of(front)[i]
                        == task_of(front[k]);
                assert(walked[k] == front[k]);
                assert(walked[walked.len() - 1] == last);
            }
        }
    }
}

/// Gathers the files to rewrite from what a walk found.
///
/// The result holds one task for each regular file whose path names a
/// compressed log, in the order of the walk, and the sum of their sizes. A
/// walk that finds no such file gives no task and the sum 0. The sum is held
/// in 64 bits and wraps around.
pub fn gather_gz_files(walked: &[Option<WalkEntry>]) -> (r: (Vec<FileTask>, u64))
    ensures
        r.0@ == tasks_of(walked@),
        r.1 == wrap(sum_sizes(r.0@)),
        sum_sizes(r.0@) <= u64::MAX ==> r.1 == sum_sizes(r.0@),
{
    let mut tasks: Vec<FileTask> = Vec::new();
    let mut total_size: u64 = 0;
    let mut i: usize = 0;
    proof {
        reveal(Seq::filter);
        assert(walked@.take(0) =~= Seq::<Option<WalkEntry>>::empty());
        assert(tasks_of(walked@.take(0)) =~= Seq::<FileTask>::empty());
    }
    while i < walked.len()
        invariant
            i <= walked@.len(),
            tasks@ == tasks_of(walked@.take(i as int)),
            total_size == wrap(sum_sizes(tasks@)),
        decreases walked@.len() - i,
    {
        proof {
            assert(walked@.take(i + 1) =~= walked@.take(i as int).push(walked@[i as int]));
            lemma_tasks_push(walked@.take(i as int), walked@[i as int]);
        }
        match &walked[i] {
            Some(entry) => {
                if entry.is_file && is_gz_path(entry.path.as_str()) {
                    let size: u64 = match entry.size {
                        Some(size) => size,
                        None => 0,
                    };
                    proof {
                        lemma_wrap_add(sum_sizes(tasks@), size as nat);
                        lemma_wrap_add(size as nat, 0);
                        assert(tasks@.push(task_of(walked@[i as int])).drop_last() =~= tasks@);
                    }
                    total_size = total_size.wrapping_add(size);
                    tasks.push(FileTask { path: entry.path.clone(), size });
                }
            },
            None => {},
        }
        i += 1;
    }
    proof {
        assert(walked@.take(walked@.len() as int) =~= walked@);
        lemma_wrap_add(sum_sizes(tasks@), 0);
    }
    (tasks, total_size)
}

/// Discovery below a root directory, from what the walk of it gave.
///
/// `walked` is `None` where the root does not exist or cannot be read; that
/// is a failure of kind [`SieveError::Path`]. A root that was walked gives
/// what [`gather_gz_files`] gathers from its entries, and that may be
/// nothing.
pub fn discover(walked: Option<&[Option<WalkEntry>]>) -> (r: Result<(Vec<FileTask>, u64), SieveError>)
    ensures
        match walked {
            None => r == Err::<(Vec<FileTask>, u64), SieveError>(SieveError::Path),
            Some(entries) => {
                &&& r matches Ok(found)
                &&& found.0@ == tasks_of(entries@)
                &&& found.1 == wrap(sum_sizes(found.0@))
            },
        },
{
    match walked {
        None => Err(SieveError::Path),
        Some(entries) => Ok(gather_gz_files(entries)),
    }
}

} // verus!
