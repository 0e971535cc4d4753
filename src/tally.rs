//! Aggregation of suite counters into totals.
//!
//! A suite that ran no test is degenerate: it adds nothing to any total,
//! whatever its other counters say.

use crate::report::{Suite, suite_counts};
use vstd::prelude::*;

verus! {

/// Exact totals, in unbounded integers.
pub struct Tally {
    pub tests: int,
    pub skipped: int,
    pub errored: int,
    pub failed: int,
}

/// The tally of nothing.
pub open spec fn zero_tally() -> Tally {
    Tally { tests: 0, skipped: 0, errored: 0, failed: 0 }
}

/// Componentwise sum.
pub open spec fn add_tally(a: Tally, b: Tally) -> Tally {
    Tally {
        tests: a.tests + b.tests,
        skipped: a.skipped + b.skipped,
        errored: a.errored + b.errored,
        failed: a.failed + b.failed,
    }
}

/// What one suite, given as (tests, skipped, errors, failures), adds to the
/// totals: its counters, or nothing where it ran no test.
pub open spec fn suite_tally(c: (u64, u64, u64, u64)) -> Tally {
    if c.0 == 0 {
        zero_tally()
    } else {
        Tally { tests: c.0 as int, skipped: c.1 as int, errored: c.2 as int, failed: c.3 as int }
    }
}

/// The totals of a sequence of suites.
pub open spec fn tally_of(cs: Seq<(u64, u64, u64, u64)>) -> Tally
    decreases cs.len(),
{
    if cs.len() == 0 {
        zero_tally()
    } else {
        add_tally(tally_of(cs.drop_last()), suite_tally(cs.last()))
    }
}

/// Every total fits in a `u64`.
pub open spec fn fits_u64(t: Tally) -> bool {
    &&& t.tests <= u64::MAX
    &&& t.skipped <= u64::MAX
    &&& t.errored <= u64::MAX
    &&& t.failed <= u64::MAX
}

/// Running totals over the suites seen so far.
#[derive(Clone, Copy, Debug, PartialEq, Eq, Structural)]
pub struct Totals {
    pub tests: u64,
    pub skipped: u64,
    pub errored: u64,
    pub failed: u64,
}

impl View for Totals {
    type V = Tally;

    open spec fn view(&self) -> Tally {
        Tally {
            tests: self.tests as int,
            skipped: self.skipped as int,
            errored: self.errored as int,
            failed: self.failed as int,
        }
    }
}

impl Totals {
    /// Totals before any suite.
    pub fn new() -> (r: Totals)
        ensures
            r@ == zero_tally(),
    {
        Totals { tests: 0, skipped: 0, errored: 0, failed: 0 }
    }

    /// These totals with `suite` folded in, or `None` where a total would
    /// not fit in a `u64`. A suite that ran no test leaves them as they are.
    pub fn add_suite(&self, suite: &Suite) -> (r: Option<Totals>)
        ensures
            match r {
                Some(t) => t@ == add_tally(self@, suite_tally(suite.counts())),
                None => !fits_u64(add_tally(self@, suite_tally(suite.counts()))),
            },
    {
        if suite.tests == 0 {
            return Some(*self);
        }
        let tests = match self.tests.checked_add(suite.tests) {
            Some(v) => v,
            None => return None,
        };
        let skipped = match self.skipped.checked_add(suite.skipped) {
            Some(v) => v,
            None => return None,
        };
        let errored = match self.errored.checked_add(suite.errors) {
            Some(v) => v,
            None => return None,
        };
        let failed = match self.failed.checked_add(suite.failures) {
            Some(v) => v,
            None => return None,
        };
        Some(Totals { tests, skipped, errored, failed })
    }
}

/// The totals of `suites`, or `None` where one of them does not fit in a
/// `u64`.
pub fn fold_suites(suites: &Vec<Suite>) -> (r: Option<Totals>)
    ensures
        match r {
            Some(t) => t@ == tally_of(suite_counts(suites@)),
            None => !fits_u64(tally_of(suite_counts(suites@))),
        },
{
    let ghost all = suite_counts(suites@);
    let mut totals = Totals::new();
    let mut i: usize = 0;
    while i < suites.len()
        invariant
            i <= suites@.len(),
            all == suite_counts(suites@),
            totals@ == tally_of(all.take(i as int)),
        decreases suites@.len() - i,
    {
        proof {
            assert(all.take(i + 1).drop_last() =~= all.take(i as int));
        }
        match totals.add_suite(&suites[i]) {
            Some(t) => totals = t,
            None => {
                proof {
                    lemma_tally_monotone(all.take(i + 1), all.skip(i + 1));
                    assert(all.take(i + 1) + all.skip(i + 1) =~= all);
                }
                return None;
            },
        }
        i = i + 1;
    }
    proof {
        assert(all.take(i as int) =~= all);
    }
    Some(totals)
}

/// Totals add up: the totals of two runs of suites written one after the
/// other are the sums of their totals, whichever comes first.
pub proof fn lemma_tally_additive(a: Seq<(u64, u64, u64, u64)>, b: Seq<(u64, u64, u64, u64)>)
    ensures
        tally_of(a + b) == add_tally(tally_of(a), tally_of(b)),
        tally_of(a + b) == tally_of(b + a),
{
    lemma_tally_append(a, b);
    lemma_tally_append(b, a);
}

proof fn lemma_tally_append(a: Seq<(u64, u64, u64, u64)>, b: Seq<(u64, u64, u64, u64)>)
    ensures
        tally_of(a + b) == add_tally(tally_of(a), tally_of(b)),
    decreases b.len(),
{
    if b.len() == 0 {
        assert(a + b =~= a);
    } else {
        lemma_tally_append(a, b.drop_last());
        assert((a + b).drop_last() =~= a + b.drop_last());
        assert((a + b).last() == b.last());
    }
}

/// Suites added to a run never lower its totals.
proof fn lemma_tally_monotone(a: Seq<(u64, u64, u64, u64)>, b: Seq<(u64, u64, u64, u64)>)
    ensures
        !fits_u64(tally_of(a)) ==> !fits_u64(tally_of(a + b)),
{
    lemma_tally_append(a, b);
    lemma_tally_nonnegative(b);
}

proof fn lemma_tally_nonnegative(a: Seq<(u64, u64, u64, u64)>)
    ensures
        tally_of(a).tests >= 0,
        tally_of(a).skipped >= 0,
        tally_of(a).errored >= 0,
        tally_of(a).failed >= 0,
    decreases a.len(),
{
    if a.len() > 0 {
        lemma_tally_nonnegative(a.drop_last());
    }
}

/// A suite that ran no test adds nothing to any total, wherever it stands
/// and whatever its other counters are.
pub proof fn lemma_degenerate_suite_ignored(
    a: Seq<(u64, u64, u64, u64)>,
    c: (u64, u64, u64, u64),
    b: Seq<(u64, u64, u64, u64)>,
)
    requires
        c.0 == 0,
    ensures
        suite_tally(c) == zero_tally(),
        tally_of(a.push(c) + b) == tally_of(a + b),
{
    lemma_tally_append(a.push(c), b);
    lemma_tally_append(a, b);
    assert(a.push(c).drop_last() =~= a);
}

} // verus!
