//! Per-file outcomes and the totals of a run.
//!
//! The totals are sums, so they do not depend on the order in which files
//! complete, nor on how the files were shared out among workers. The counters
//! are 64 bits wide and wrap around, as an atomic increment does.

use vstd::prelude::*;

use crate::counter::{lemma_wrap_add, wrap};
use crate::discovery::{sum_sizes, FileTask};
use crate::error::SieveError;

verus! {

/// A file that could not be rewritten, and why.
#[derive(Debug)]
pub struct FailureRecord {
    pub path: String,
    pub kind: SieveError,
}

/// How the rewrite of one file ended.
#[derive(Debug)]
pub enum FileOutcome {
    /// The file was rewritten.
    Rewritten { path: String, lines_read: u64, lines_removed: u64 },
    /// The file was left as it was.
    Failed(FailureRecord),
}

/// A task that has been worked on: the size of the file when it was
/// discovered, and how its rewrite ended.
#[derive(Debug)]
pub struct Completed {
    pub size: u64,
    pub outcome: FileOutcome,
}

/// The aggregate counters of a run.
#[derive(Clone, Copy, Debug, PartialEq, Eq, Structural)]
pub struct RunTotals {
    /// Bytes of input accounted for, by the sizes recorded at discovery.
    pub total_bytes: u64,
    /// Lines read from the files that were rewritten.
    pub lines_read: u64,
    /// Lines removed from the files that were rewritten.
    pub lines_removed: u64,
}

/// The lines that an outcome adds to the lines read: none for a failure.
pub open spec fn read_of(outcome: FileOutcome) -> nat {
    match outcome {
        FileOutcome::Rewritten { lines_read, .. } => lines_read as nat,
        FileOutcome::Failed(_) => 0,
    }
}

/// The lines that an outcome adds to the lines removed: none for a failure.
pub open spec fn removed_of(outcome: FileOutcome) -> nat {
    match outcome {
        FileOutcome::Rewritten { lines_removed, .. } => lines_removed as nat,
        FileOutcome::Failed(_) => 0,
    }
}

/// The sum of `weight` over the tasks of `done`.
pub open spec fn sum_of(done: Seq<Completed>, weight: spec_fn(Completed) -> nat) -> nat
    decreases done.len(),
{
    if done.len() == 0 {
        0
    } else {
        sum_of(done.drop_last(), weight) + weight(done.last())
    }
}

/// The sizes of the tasks of `done`, summed.
pub open spec fn sum_bytes(done: Seq<Completed>) -> nat {
    sum_of(done, |c: Completed| c.size as nat)
}

/// The lines read by the successful tasks of `done`, summed.
pub open spec fn sum_read(done: Seq<Completed>) -> nat {
    sum_of(done, |c: Completed| read_of(c.outcome))
}

/// The lines removed by the successful tasks of `done`, summed.
pub open spec fn sum_removed(done: Seq<Completed>) -> nat {
    sum_of(done, |c: Completed| removed_of(c.outcome))
}

/// The totals of a run in which exactly the tasks of `done` were completed.
pub open spec fn totals_of(done: Seq<Completed>) -> RunTotals {
    RunTotals {
        total_bytes: wrap(sum_bytes(done)),
        lines_read: wrap(sum_read(done)),
        lines_removed: wrap(sum_removed(done)),
    }
}

impl FileOutcome {
    /// The outcome for the file at `path`, given the counts of its rewrite or
    /// the kind of its failure.
    pub fn new(path: String, result: Result<(u64, u64), SieveError>) -> (o: FileOutcome)
        ensures
            o == match result {
                Ok((lines_read, lines_removed)) => FileOutcome::Rewritten {
                    path,
                    lines_read,
                    lines_removed,
                },
                Err(kind) => FileOutcome::Failed(FailureRecord { path, kind }),
            },
    {
        match result {
            Ok((lines_read, lines_removed)) => FileOutcome::Rewritten {
                path,
                lines_read,
                lines_removed,
            },
            Err(kind) => FileOutcome::Failed(FailureRecord { path, kind }),
        }
    }

    /// Whether the file was rewritten.
    pub fn is_success(&self) -> (b: bool)
        ensures
            b == (*self is Rewritten),
    {
        match self {
            FileOutcome::Rewritten { .. } => true,
            FileOutcome::Failed(_) => false,
        }
    }
}

impl Completed {
    /// The record of a task that has been worked on: the size that the task
    /// was discovered with, and the outcome for its path.
    pub fn new(task: &FileTask, result: Result<(u64, u64), SieveError>) -> (c: Completed)
        ensures
            c.size == task.size,
            c.outcome == match result {
                Ok((lines_read, lines_removed)) => FileOutcome::Rewritten {
                    path: task.path,
                    lines_read,
                    lines_removed,
                },
                Err(kind) => FileOutcome::Failed(FailureRecord { path: task.path, kind }),
            },
    {
        Completed { size: task.size, outcome: FileOutcome::new(task.path.clone(), result) }
    }
}

impl RunTotals {
    /// These totals after one more task: its size is added to the bytes, and
    /// the counts of a successful rewrite to the lines.
    pub open spec fn recorded(self, size: u64, outcome: FileOutcome) -> RunTotals {
        RunTotals {
            total_bytes: self.total_bytes.wrapping_add(size),
            lines_read: self.lines_read.wrapping_add(read_of(outcome) as u64),
            lines_removed: self.lines_removed.wrapping_add(removed_of(outcome) as u64),
        }
    }

    /// These totals and `other` taken together.
    pub open spec fn merged(self, other: RunTotals) -> RunTotals {
        RunTotals {
            total_bytes: self.total_bytes.wrapping_add(other.total_bytes),
            lines_read: self.lines_read.wrapping_add(other.lines_read),
            lines_removed: self.lines_removed.wrapping_add(other.lines_removed),
        }
    }

    /// The totals of a run in which nothing has completed yet.
    pub fn new() -> (t: RunTotals)
        ensures
            t == totals_of(Seq::empty()),
            t == (RunTotals { total_bytes: 0, lines_read: 0, lines_removed: 0 }),
    {
        RunTotals { total_bytes: 0, lines_read: 0, lines_removed: 0 }
    }

    /// Accounts for one completed task. A failed file adds its size and no
    /// lines.
    pub fn record(&mut self, size: u64, outcome: &FileOutcome)
        ensures
            *final(self) == old(self).recorded(size, *outcome),
    {
        self.total_bytes = self.total_bytes.wrapping_add(size);
        match outcome {
            FileOutcome::Rewritten { lines_read, lines_removed, .. } => {
                self.lines_read = self.lines_read.wrapping_add(*lines_read);
                self.lines_removed = self.lines_removed.wrapping_add(*lines_removed);
            },
            FileOutcome::Failed(_) => {},
        }
    }

    /// Combines the totals of two disjoint parts of a run.
    pub fn merge(self, other: RunTotals) -> (t: RunTotals)
        ensures
            t == self.merged(other),
    {
        RunTotals {
            total_bytes: self.total_bytes.wrapping_add(other.total_bytes),
            lines_read: self.lines_read.wrapping_add(other.lines_read),
            lines_removed: self.lines_removed.wrapping_add(other.lines_removed),
        }
    }
}

/// Adds up the outcomes of a run, in the order given.
pub fn tally(done: &[Completed]) -> (t: RunTotals)
    ensures
        t == totals_of(done@),
{
    let mut totals = RunTotals::new();
    let mut i: usize = 0;
    while i < done.len()
        invariant
            i <= done@.len(),
            totals == totals_of(done@.take(i as int)),
        decreases done@.len() - i,
    {
        proof {
            assert(done@.take(i + 1) =~= done@.take(i as int).push(done@[i as int]));
            lemma_totals_push(done@.take(i as int), done@[i as int]);
        }
        totals.record(done[i].size, &done[i].outcome);
        i += 1;
    }
    proof {
        assert(done@.take(done@.len() as int) =~= done@);
    }
    totals
}

/// One more task adds its weight to the sum.
pub proof fn lemma_sum_push(done: Seq<Completed>, c: Completed, weight: spec_fn(Completed) -> nat)
    ensures
        sum_of(done.push(c), weight) == sum_of(done, weight) + weight(c),
{
    assert(done.push(c).drop_last() =~= done);
}

/// The sum over two runs put end to end is the sum of their sums.
pub proof fn lemma_sum_concat(
    a: Seq<Completed>,
    b: Seq<Completed>,
    weight: spec_fn(Completed) -> nat,
)
    ensures
        sum_of(a + b, weight) == sum_of(a, weight) + sum_of(b, weight),
    decreases b.len(),
{
    if b.len() == 0 {
        assert(a + b =~= a);
    } else {
        lemma_sum_concat(a, b.drop_last(), weight);
        assert((a + b).drop_last() =~= a + b.drop_last());
    }
}

/// Taking one task out takes its weight out of the sum.
pub proof fn lemma_sum_remove(done: Seq<Completed>, i: int, weight: spec_fn(Completed) -> nat)
    requires
        0 <= i < done.len(),
    ensures
        sum_of(done, weight) == sum_of(done.remove(i), weight) + weight(done[i]),
{
    let front = done.subrange(0, i);
    let back = done.subrange(i + 1, done.len() as int);
    assert(done =~= front.push(done[i]) + back);
    assert(done.remove(i) =~= front + back);
    lemma_sum_concat(front.push(done[i]), back, weight);
    lemma_sum_concat(front, back, weight);
    lemma_sum_push(front, done[i], weight);
}

/// A sum does not depend on the order of the tasks: two runs that hold the
/// same tasks, each as often as the other, have the same sum.
pub proof fn lemma_sum_order_independent(
    a: Seq<Completed>,
    b: Seq<Completed>,
    weight: spec_fn(Completed) -> nat,
)
    requires
        a.to_multiset() == b.to_multiset(),
    ensures
        sum_of(a, weight) == sum_of(b, weight),
    decreases a.len(),
{
    a.to_multiset_ensures();
    b.to_multiset_ensures();
    if a.len() > 0 {
        let x = a.last();
        let rest = a.drop_last();
        assert(a =~= rest.push(x));
        rest.to_multiset_ensures();
        assert(a.to_multiset().count(x) > 0);
        assert(b.contains(x));
        let i = choose|i: int| 0 <= i < b.len() && b[i] == x;
        assert(rest.to_multiset() =~= a.to_multiset().remove(x));
        assert(b.remove(i).to_multiset() =~= rest.to_multiset());
        lemma_sum_order_independent(rest, b.remove(i), weight);
        lemma_sum_remove(b, i, weight);
    }
}

/// Recording a task after a run gives the totals of the longer run.
pub proof fn lemma_totals_push(done: Seq<Completed>, c: Completed)
    ensures
        totals_of(done.push(c)) == totals_of(done).recorded(c.size, c.outcome),
{
    lemma_sum_push(done, c, |c: Completed| c.size as nat);
    lemma_sum_push(done, c, |c: Completed| read_of(c.outcome));
    lemma_sum_push(done, c, |c: Completed| removed_of(c.outcome));
    lemma_wrap_add(sum_bytes(done), c.size as nat);
    lemma_wrap_add(sum_read(done), read_of(c.outcome));
    lemma_wrap_add(sum_removed(done), removed_of(c.outcome));
    lemma_wrap_add(c.size as nat, 0);
    lemma_wrap_add(read_of(c.outcome), 0);
    lemma_wrap_add(removed_of(c.outcome), 0);
}

/// Where the true sums fit the counters, the totals are the true sums: the
/// lines of the files that were rewritten, and nothing for those that failed.
pub proof fn lemma_totals_exact(done: Seq<Completed>)
    ensures
        sum_bytes(done) <= u64::MAX ==> totals_of(done).total_bytes == sum_bytes(done),
        sum_read(done) <= u64::MAX ==> totals_of(done).lines_read == sum_read(done),
        sum_removed(done) <= u64::MAX ==> totals_of(done).lines_removed == sum_removed(done),
{
    lemma_wrap_add(sum_bytes(done), 0);
    lemma_wrap_add(sum_read(done), 0);
    lemma_wrap_add(sum_removed(done), 0);
}

/// The totals of a run do not depend on the order in which its tasks
/// complete. However many workers share the tasks, and however their
/// completions interleave, the totals are those of one worker taking the
/// tasks one after the other.
pub proof fn lemma_totals_order_independent(a: Seq<Completed>, b: Seq<Completed>)
    requires
        a.to_multiset() == b.to_multiset(),
    ensures
        totals_of(a) == totals_of(b),
{
    lemma_sum_order_independent(a, b, |c: Completed| c.size as nat);
    lemma_sum_order_independent(a, b, |c: Completed| read_of(c.outcome));
    lemma_sum_order_independent(a, b, |c: Completed| removed_of(c.outcome));
}

/// The totals of two parts of a run, merged, are the totals of the whole.
pub proof fn lemma_totals_merge(a: Seq<Completed>, b: Seq<Completed>)
    ensures
        totals_of(a + b) == totals_of(a).merged(totals_of(b)),
{
    lemma_sum_concat(a, b, |c: Completed| c.size as nat);
    lemma_sum_concat(a, b, |c: Completed| read_of(c.outcome));
    lemma_sum_concat(a, b, |c: Completed| removed_of(c.outcome));
    lemma_wrap_add(sum_bytes(a), sum_bytes(b));
    lemma_wrap_add(sum_read(a), sum_read(b));
    lemma_wrap_add(sum_removed(a), sum_removed(b));
}

/// `done` holds one record for each task of `tasks`, with the size of the
/// task.
pub open spec fn accounts_for(done: Seq<Completed>, tasks: Seq<FileTask>) -> bool {
    &&& done.len() == tasks.len()
    &&& forall|i: int| 0 <= i < done.len() ==> (#[trigger] done[i]).size == tasks[i].size
}

/// When every task has completed, the bytes accounted for are the bytes
/// discovered, whatever was removed and whichever files failed.
pub proof fn lemma_progress_total(done: Seq<Completed>, tasks: Seq<FileTask>)
    requires
        accounts_for(done, tasks),
    ensures
        sum_bytes(done) == sum_sizes(tasks),
        totals_of(done).total_bytes == wrap(sum_sizes(tasks)),
    decreases done.len(),
{
    if done.len() > 0 {
        assert(accounts_for(done.drop_last(), tasks.drop_last())) by {
            assert forall|i: int| 0 <= i < done.len() - 1 implies (
            #[trigger] done.drop_last()[i]).size == tasks.drop_last()[i].size by {
                assert(done[i].size == tasks[i].size);
            }
        }
        lemma_progress_total(done.drop_last(), tasks.drop_last());
        assert(done.last().size == tasks.last().size);
    }
}

/// Merging is commutative and associative, and the empty totals are its
/// unit: partial totals can be combined in any grouping and any order.
pub proof fn lemma_merge_laws(a: RunTotals, b: RunTotals, c: RunTotals)
    ensures
        a.merged(b) == b.merged(a),
        a.merged(b).merged(c) == a.merged(b.merged(c)),
        a.merged(totals_of(Seq::empty())) == a,
{
}

} // verus!
