//! Rewriting a file in place, step by step.
//!
//! This library does no input or output. For each file it says which step
//! comes next; the caller performs the step and reports how it went. The
//! order of the steps is what keeps the original whole: the new content is
//! built in a scratch file beside the original, the scratch file is finished
//! and closed, and only then does it take the original's place, in one
//! rename. Whatever fails before that leaves the original as it was.

use vstd::prelude::*;

use crate::error::SieveError;

verus! {

/// One step of rewriting a file.
#[derive(Clone, Copy, Debug, PartialEq, Eq, Structural)]
pub enum Step {
    /// Open the original for reading.
    OpenOriginal,
    /// Read the original to its end.
    ReadOriginal,
    /// Decode, filter and encode what was read.
    Transform,
    /// Create a scratch file in the directory of the original.
    CreateScratch,
    /// Write the new content to the scratch file.
    WriteScratch,
    /// Flush and close the scratch file, so that all of it is on disk.
    SyncScratch,
    /// Rename the scratch file over the original.
    Replace,
    /// Delete the scratch file if it is still there.
    RemoveScratch,
    /// Nothing is left to do: report the outcome.
    Finish,
}

/// How a step went: done, or failed with the kind that the caller saw.
pub type Report = Result<(), SieveError>;

/// Where the rewrite of one file stands.
#[derive(Clone, Copy, Debug)]
pub struct Rewrite {
    /// The step to perform next.
    pub step: Step,
    /// The failure that stopped the rewrite, if one did.
    pub failure: Option<SieveError>,
    /// Whether a scratch file may exist.
    pub scratch: bool,
    /// Whether the original has been replaced.
    pub replaced: bool,
}

/// The kind under which a failure of `step` is reported: a file that cannot
/// be opened is a path failure, a failed transformation is of the kind that
/// it gave, and every other step fails on input or output.
pub open spec fn failure_kind(step: Step, seen: SieveError) -> SieveError {
    match step {
        Step::OpenOriginal => SieveError::Path,
        Step::Transform => seen,
        _ => SieveError::Io,
    }
}

/// The step after `step`, when it went well.
pub open spec fn following(step: Step) -> Step {
    match step {
        Step::OpenOriginal => Step::ReadOriginal,
        Step::ReadOriginal => Step::Transform,
        Step::Transform => Step::CreateScratch,
        Step::CreateScratch => Step::WriteScratch,
        Step::WriteScratch => Step::SyncScratch,
        Step::SyncScratch => Step::Replace,
        Step::Replace => Step::RemoveScratch,
        Step::RemoveScratch => Step::Finish,
        Step::Finish => Step::Finish,
    }
}

/// The step that a failure of `step` leads to: once a scratch file has been
/// asked for it must be removed, before that there is nothing to clean up.
pub open spec fn after_failure(step: Step) -> Step {
    match step {
        Step::OpenOriginal | Step::ReadOriginal | Step::Transform => Step::Finish,
        Step::CreateScratch | Step::WriteScratch | Step::SyncScratch | Step::Replace =>
            Step::RemoveScratch,
        Step::RemoveScratch | Step::Finish => Step::Finish,
    }
}

impl Step {
    /// The step after this one, when it went well.
    pub fn followed_by(self) -> (r: Step)
        ensures
            r == following(self),
    {
        match self {
            Step::OpenOriginal => Step::ReadOriginal,
            Step::ReadOriginal => Step::Transform,
            Step::Transform => Step::CreateScratch,
            Step::CreateScratch => Step::WriteScratch,
            Step::WriteScratch => Step::SyncScratch,
            Step::SyncScratch => Step::Replace,
            Step::Replace => Step::RemoveScratch,
            Step::RemoveScratch => Step::Finish,
            Step::Finish => Step::Finish,
        }
    }

    /// The step that a failure of this one leads to.
    pub fn on_failure(self) -> (r: Step)
        ensures
            r == after_failure(self),
    {
        match self {
            Step::OpenOriginal | Step::ReadOriginal | Step::Transform => Step::Finish,
            Step::CreateScratch | Step::WriteScratch | Step::SyncScratch | Step::Replace =>
                Step::RemoveScratch,
            Step::RemoveScratch | Step::Finish => Step::Finish,
        }
    }

    /// The kind under which a failure of this step is reported, given the
    /// kind that the caller saw.
    pub fn kind_of_failure(self, seen: SieveError) -> (r: SieveError)
        ensures
            r == failure_kind(self, seen),
    {
        match self {
            Step::OpenOriginal => SieveError::Path,
            Step::Transform => seen,
            _ => SieveError::Io,
        }
    }
}

impl Rewrite {
    /// A rewrite that has not begun.
    pub open spec fn initial() -> Rewrite {
        Rewrite { step: Step::OpenOriginal, failure: None, scratch: false, replaced: false }
    }

    /// The state after `report` of the step that was due.
    ///
    /// A failed removal of the scratch file does not change the outcome, and
    /// no report changes a rewrite that is finished.
    pub open spec fn next(self, report: Report) -> Rewrite {
        match self.step {
            Step::Finish => self,
            Step::RemoveScratch => Rewrite { step: Step::Finish, scratch: false, ..self },
            step => match report {
                Ok(()) => Rewrite {
                    step: following(step),
                    failure: self.failure,
                    scratch: self.scratch || step == Step::CreateScratch,
                    replaced: self.replaced || step == Step::Replace,
                },
                Err(seen) => Rewrite {
                    step: after_failure(step),
                    failure: Some(failure_kind(step, seen)),
                    scratch: self.scratch || step == Step::CreateScratch,
                    replaced: self.replaced,
                },
            },
        }
    }

    /// The state after the reports of `reports`, taken in order from the
    /// beginning of a rewrite.
    pub open spec fn after(reports: Seq<Report>) -> Rewrite
        decreases reports.len(),
    {
        if reports.len() == 0 {
            Rewrite::initial()
        } else {
            Rewrite::after(reports.drop_last()).next(reports.last())
        }
    }

    /// What the rewrite came to: success, or the failure that stopped it.
    pub open spec fn result(self) -> Report {
        match self.failure {
            Some(kind) => Err(kind),
            None => Ok(()),
        }
    }

    /// Begins the rewrite of a file.
    pub fn new() -> (r: Rewrite)
        ensures
            r == Rewrite::initial(),
    {
        Rewrite { step: Step::OpenOriginal, failure: None, scratch: false, replaced: false }
    }

    /// Takes the report of the step that was due, and says where the rewrite
    /// stands now.
    pub fn advance(self, report: Report) -> (r: Rewrite)
        ensures
            r == self.next(report),
    {
        match self.step {
            Step::Finish => self,
            Step::RemoveScratch => Rewrite {
                step: Step::Finish,
                failure: self.failure,
                scratch: false,
                replaced: self.replaced,
            },
            step => {
                let scratch: bool = self.scratch || step == Step::CreateScratch;
                match report {
                    Ok(()) => Rewrite {
                        step: step.followed_by(),
                        failure: self.failure,
                        scratch,
                        replaced: self.replaced || step == Step::Replace,
                    },
                    Err(seen) => Rewrite {
                        step: step.on_failure(),
                        failure: Some(step.kind_of_failure(seen)),
                        scratch,
                        replaced: self.replaced,
                    },
                }
            },
        }
    }

    /// Whether nothing is left to do.
    pub fn is_finished(&self) -> (b: bool)
        ensures
            b == (self.step == Step::Finish),
    {
        match self.step {
            Step::Finish => true,
            _ => false,
        }
    }

    /// What the rewrite came to.
    pub fn outcome(&self) -> (r: Report)
        ensures
            r == self.result(),
    {
        match self.failure {
            Some(kind) => Err(kind),
            None => Ok(()),
        }
    }
}

/// The place of a step in the order of a rewrite that goes well.
pub open spec fn position(step: Step) -> int {
    match step {
        Step::OpenOriginal => 0,
        Step::ReadOriginal => 1,
        Step::Transform => 2,
        Step::CreateScratch => 3,
        Step::WriteScratch => 4,
        Step::SyncScratch => 5,
        Step::Replace => 6,
        Step::RemoveScratch => 7,
        Step::Finish => 8,
    }
}

/// Every report of `reports` before index `n` says that its step went well.
pub open spec fn all_well(reports: Seq<Report>, n: int) -> bool {
    forall|j: int| 0 <= j < n && j < reports.len() ==> (#[trigger] reports[j]) is Ok
}

/// What is known of the state `s` that the reports of `reports` lead to.
///
/// Without a failure, the rewrite has taken one step for each report. With
/// one, the first failed step `k` came before the end of the replacement,
/// nothing has been replaced, and what is left is the removal of the scratch
/// file, if one had been asked for.
spec fn describes(reports: Seq<Report>, s: Rewrite) -> bool {
    let n = reports.len() as int;
    match s.failure {
        None => {
            &&& position(s.step) == if n <= 8 {
                n
            } else {
                8
            }
            &&& all_well(reports, 7)
            &&& s.replaced == (n >= 7)
            &&& s.scratch == (4 <= n < 8)
        },
        Some(kind) => exists|k: int|
            {
                &&& 0 <= k < n
                &&& k < 7
                &&& all_well(reports, k)
                &&& #[trigger] reports[k] matches Err(seen)
                &&& position(s.step) >= 7
                &&& (k < 3 ==> s.step == Step::Finish)
                &&& (n >= k + 2 ==> s.step == Step::Finish)
                &&& !s.replaced
                &&& s.scratch == (s.step == Step::RemoveScratch)
            },
    }
}

proof fn lemma_describes(reports: Seq<Report>)
    ensures
        describes(reports, Rewrite::after(reports)),
    decreases reports.len(),
{
    if reports.len() > 0 {
        let before = reports.drop_last();
        let s = Rewrite::after(before);
        lemma_describes(before);
        let t = s.next(reports.last());
        let n = reports.len() as int;
        assert forall|j: int| 0 <= j < before.len() implies before[j] == reports[j] by {}
        match s.failure {
            None => {
                match t.failure {
                    None => {
                        assert(all_well(reports, 7)) by {
                            assert forall|j: int| 0 <= j < 7 && j < reports.len() implies (
                            #[trigger] reports[j]) is Ok by {
                                if j < before.len() {
                                    assert(before[j] is Ok);
                                }
                            }
                        }
                    },
                    Some(kind) => {
                        let k = n - 1;
                        assert(all_well(reports, k)) by {
                            assert forall|j: int| 0 <= j < k && j < reports.len() implies (
                            #[trigger] reports[j]) is Ok by {
                                assert(before[j] is Ok);
                            }
                        }
                        assert(reports[k] is Err);
                    },
                }
            },
            Some(kind) => {
                let k = choose|k: int|
                    {
                        &&& 0 <= k < before.len()
                        &&& k < 7
                        &&& all_well(before, k)
                        &&& #[trigger] before[k] matches Err(seen)
                        &&& position(s.step) >= 7
                        &&& (k < 3 ==> s.step == Step::Finish)
                        &&& (before.len() >= k + 2 ==> s.step == Step::Finish)
                        &&& !s.replaced
                        &&& s.scratch == (s.step == Step::RemoveScratch)
                    };
                assert(all_well(reports, k)) by {
                    assert forall|j: int| 0 <= j < k && j < reports.len() implies (
                    #[trigger] reports[j]) is Ok by {
                        assert(before[j] is Ok);
                    }
                }
                assert(reports[k] == before[k]);
            },
        }
    }
}

/// The original is replaced last. When the replacement is due, every step
/// before it has gone well: the original was opened and read, the new
/// content was made, and the scratch file was created, written and closed.
/// When the original has been replaced, the replacement has gone well too.
pub proof fn lemma_replaced_last(reports: Seq<Report>)
    ensures
        Rewrite::after(reports).step == Step::Replace ==> reports.len() == 6 && all_well(
            reports,
            6,
        ),
        Rewrite::after(reports).replaced ==> reports.len() >= 7 && all_well(reports, 7),
{
    lemma_describes(reports);
}

/// A failure leaves the original as it was. If any step up to and including
/// the replacement fails, then at no time, before that or after, is the
/// replacement due or the original replaced. This holds in particular for a
/// failure between the creation of the scratch file and the replacement.
pub proof fn lemma_failure_leaves_original(reports: Seq<Report>, k: int, n: int)
    requires
        0 <= k < reports.len(),
        k < 7,
        reports[k] is Err,
        0 <= n <= reports.len(),
    ensures
        !Rewrite::after(reports.take(n)).replaced,
        n > k ==> Rewrite::after(reports.take(n)).step != Step::Replace,
        n > k ==> Rewrite::after(reports.take(n)).result() is Err,
{
    let prefix = reports.take(n);
    lemma_describes(prefix);
    lemma_replaced_last(prefix);
    if n > k {
        assert(prefix[k] == reports[k]);
    }
}

/// A rewrite is over after eight reports at most, and by then no scratch file
/// is left: one that was asked for has been removed, or has become the
/// original.
pub proof fn lemma_finishes_clean(reports: Seq<Report>)
    ensures
        reports.len() >= 8 ==> Rewrite::after(reports).step == Step::Finish,
        Rewrite::after(reports).step == Step::Finish ==> !Rewrite::after(reports).scratch,
{
    lemma_describes(reports);
}

/// A finished rewrite succeeded exactly when the original was replaced, and
/// that is when all of the first seven steps went well. Otherwise it reports
/// the failure of the first step that failed, under the kind of that step.
pub proof fn lemma_outcome(reports: Seq<Report>)
    requires
        Rewrite::after(reports).step == Step::Finish,
    ensures
        Rewrite::after(reports).result() is Ok <==> Rewrite::after(reports).replaced,
        Rewrite::after(reports).result() is Ok <==> reports.len() >= 7 && all_well(reports, 7),
{
    lemma_describes(reports);
    let s = Rewrite::after(reports);
    if s.failure is Some {
        let k = choose|k: int|
            0 <= k < reports.len() && k < 7 && (#[trigger] reports[k]) is Err;
        assert(!all_well(reports, 7));
    }
}

} // verus!
