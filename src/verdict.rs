//! Comparing totals against ceilings, and the exit status of the outcome.
//!
//! Status 0 is a pass. Otherwise bit 0 says that skipped tests exceeded
//! their ceiling, bit 1 errored tests and bit 2 failed tests. Failures of the
//! run itself, before any verdict, have negative statuses of their own.

use crate::tally::{Tally, Totals};
use vstd::prelude::*;

verus! {

/// The most skipped, errored and failed tests that still pass.
#[derive(Clone, Copy, Debug, PartialEq, Eq, Structural)]
pub struct Thresholds {
    pub max_skipped: u64,
    pub max_errored: u64,
    pub max_failed: u64,
}

/// Which axes went over their ceiling.
#[derive(Clone, Copy, Debug, PartialEq, Eq, Structural)]
pub struct Breaches {
    pub skipped: bool,
    pub errored: bool,
    pub failed: bool,
}

/// The outcome of comparing totals against thresholds.
#[derive(Clone, Copy, Debug, PartialEq, Eq, Structural)]
pub enum Verdict {
    Pass,
    Fail(Breaches),
}

/// A failure of the run itself, before any verdict.
#[derive(Clone, Copy, Debug, PartialEq, Eq, Structural)]
pub enum GateError {
    /// None of the input files could be read.
    NoFilesRead,
    /// The files held no suite that ran a test.
    NoTestsFound,
    /// The decoder rejected a document: the index of the file among the
    /// inputs, and of the document within the file.
    MalformedDocument { file: usize, document: usize },
    /// A total does not fit in a `u64`.
    CountOverflow,
}

/// The axes on which a total is strictly above its ceiling.
pub open spec fn breaches_of(t: Tally, th: Thresholds) -> Breaches {
    Breaches {
        skipped: t.skipped > th.max_skipped,
        errored: t.errored > th.max_errored,
        failed: t.failed > th.max_failed,
    }
}

/// Pass where no axis is breached, else a failure that names every breached
/// axis.
pub open spec fn verdict_of(t: Tally, th: Thresholds) -> Verdict {
    let b = breaches_of(t, th);
    if !b.skipped && !b.errored && !b.failed {
        Verdict::Pass
    } else {
        Verdict::Fail(b)
    }
}

/// The bitmask of the breached axes.
pub open spec fn breach_mask(b: Breaches) -> int {
    (if b.skipped { 1int } else { 0 }) + (if b.errored { 2int } else { 0 }) + (if b.failed {
        4int
    } else {
        0
    })
}

/// The exit status of a verdict.
pub open spec fn verdict_status(v: Verdict) -> int {
    match v {
        Verdict::Pass => 0,
        Verdict::Fail(b) => breach_mask(b),
    }
}

/// The exit status of a failure of the run.
pub open spec fn error_status(e: GateError) -> int {
    match e {
        GateError::NoFilesRead => -3,
        GateError::NoTestsFound => -2,
        GateError::MalformedDocument { .. } => -4,
        GateError::CountOverflow => -5,
    }
}

/// The exit status of a whole run.
pub open spec fn outcome_status(r: Result<Verdict, GateError>) -> int {
    match r {
        Ok(v) => verdict_status(v),
        Err(e) => error_status(e),
    }
}

/// Compares `totals` against `thresholds`, each axis on its own and strictly:
/// a total equal to its ceiling passes. Totals without a single test are no
/// verdict but `NoTestsFound`.
pub fn evaluate(totals: &Totals, thresholds: &Thresholds) -> (r: Result<Verdict, GateError>)
    ensures
        totals.tests == 0 ==> r == Err::<Verdict, GateError>(GateError::NoTestsFound),
        totals.tests != 0 ==> r == Ok::<Verdict, GateError>(verdict_of(totals@, *thresholds)),
        r matches Ok(Verdict::Fail(b)) ==> {
            &&& b.skipped <==> totals.skipped > thresholds.max_skipped
            &&& b.errored <==> totals.errored > thresholds.max_errored
            &&& b.failed <==> totals.failed > thresholds.max_failed
        },
{
    if totals.tests == 0 {
        return Err(GateError::NoTestsFound);
    }
    let breaches = Breaches {
        skipped: totals.skipped > thresholds.max_skipped,
        errored: totals.errored > thresholds.max_errored,
        failed: totals.failed > thresholds.max_failed,
    };
    if !breaches.skipped && !breaches.errored && !breaches.failed {
        Ok(Verdict::Pass)
    } else {
        Ok(Verdict::Fail(breaches))
    }
}

/// Encodes a verdict as an exit status: `Pass` is 0, and a failure is the
/// bitmask of its breached axes.
pub fn encode(verdict: &Verdict) -> (r: i32)
    ensures
        r as int == verdict_status(*verdict),
{
    match verdict {
        Verdict::Pass => 0,
        Verdict::Fail(b) => {
            let mut status: i32 = 0;
            if b.skipped {
                status = status + 1;
            }
            if b.errored {
                status = status + 2;
            }
            if b.failed {
                status = status + 4;
            }
            status
        },
    }
}

/// The exit status of a failure of the run.
pub fn encode_error(error: &GateError) -> (r: i32)
    ensures
        r as int == error_status(*error),
{
    match error {
        GateError::NoFilesRead => -3,
        GateError::NoTestsFound => -2,
        GateError::MalformedDocument { .. } => -4,
        GateError::CountOverflow => -5,
    }
}

/// The exit status of a whole run.
pub fn exit_status(outcome: &Result<Verdict, GateError>) -> (r: i32)
    ensures
        r as int == outcome_status(*outcome),
{
    match outcome {
        Ok(v) => encode(v),
        Err(e) => encode_error(e),
    }
}

/// The encoding loses nothing: each combination of breached axes has a
/// status of its own in `0..=7`, and 0 is the combination without any.
pub proof fn lemma_breach_mask_injective(a: Breaches, b: Breaches)
    ensures
        0 <= breach_mask(a) <= 7,
        breach_mask(a) == 0 <==> (!a.skipped && !a.errored && !a.failed),
        breach_mask(a) == breach_mask(b) ==> a == b,
{
}

/// The statuses of a run tell its outcomes apart: a verdict's status lies in
/// `0..=7` and is 0 exactly for `Pass`, two verdicts with one status are the
/// same verdict, a failure of the run is negative, and no two kinds of
/// failure share a status.
pub proof fn lemma_outcome_status_distinct(
    t1: Tally,
    th1: Thresholds,
    t2: Tally,
    th2: Thresholds,
    e1: GateError,
    e2: GateError,
)
    ensures
        0 <= verdict_status(verdict_of(t1, th1)) <= 7,
        verdict_status(verdict_of(t1, th1)) == 0 <==> verdict_of(t1, th1) == Verdict::Pass,
        verdict_status(verdict_of(t1, th1)) == verdict_status(verdict_of(t2, th2)) ==> verdict_of(
            t1,
            th1,
        ) == verdict_of(t2, th2),
        error_status(e1) < 0,
        error_status(e1) == error_status(e2) ==> {
            &&& e1 is NoFilesRead <==> e2 is NoFilesRead
            &&& e1 is NoTestsFound <==> e2 is NoTestsFound
            &&& e1 is MalformedDocument <==> e2 is MalformedDocument
            &&& e1 is CountOverflow <==> e2 is CountOverflow
        },
{
    lemma_breach_mask_injective(breaches_of(t1, th1), breaches_of(t2, th2));
}

} // verus!
