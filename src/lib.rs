//! A CI gate over JUnit XML reports: recover the documents of each report
//! file, total the counters of their suites, compare the totals against
//! per-axis ceilings and encode the verdict as a process exit status.

pub mod gate;
pub mod report;
pub mod splitter;
pub mod tally;
pub mod verdict;
