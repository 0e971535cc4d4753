//! Reading one XML document as a JUnit report, through the `junit_parser`
//! decoder.

use vstd::prelude::*;

verus! {

/// One test suite, as far as totals go: its name and its four counters.
pub struct Suite {
    pub name: String,
    pub tests: u64,
    pub skipped: u64,
    pub errors: u64,
    pub failures: u64,
}

impl Suite {
    /// The counters, as (tests, skipped, errors, failures).
    pub open spec fn counts(&self) -> (u64, u64, u64, u64) {
        (self.tests, self.skipped, self.errors, self.failures)
    }
}

/// The suites of one decoded document, in document order.
pub struct TestReport {
    pub suites: Vec<Suite>,
}

/// Why the decoder rejected a document.
pub struct ParseError {
    pub cause: String,
}

#[verifier::external_type_specification]
#[verifier::external_body]
pub struct ExJunitError(junit_parser::Error);

/// The counters of the top-level suites that the JUnit decoder reads from a
/// document, in order, or `None` where it rejects the document.
pub uninterp spec fn junit_suite_counts(doc: Seq<char>) -> Option<Seq<(u64, u64, u64, u64)>>;

/// The suites of a document as counters.
pub open spec fn suite_counts(suites: Seq<Suite>) -> Seq<(u64, u64, u64, u64)> {
    suites.map_values(|s: Suite| s.counts())
}

/// Relies on `junit_parser::from_reader`, which reads the document's text and
/// nothing else, for the suites directly under its root (a lone
/// `<testsuite>` counts as one) or the error that stopped it.
#[verifier::external_body]
fn junit_suites(doc: &str) -> (r: Result<Vec<Suite>, junit_parser::Error>)
    ensures
        match r {
            Ok(v) => junit_suite_counts(doc@) == Some(suite_counts(v@)),
            Err(_) => junit_suite_counts(doc@) is None,
        },
{
    let report = junit_parser::from_reader(doc.as_bytes())?;
    Ok(report.suites.into_iter().map(|s| Suite {
        name: s.name,
        tests: s.tests,
        skipped: s.skipped,
        errors: s.errors,
        failures: s.failures,
    }).collect())
}

/// Decodes one XML document into its report, or says why the decoder
/// rejected it.
pub fn parse_document(doc: &str) -> (r: Result<TestReport, ParseError>)
    ensures
        match r {
            Ok(report) => junit_suite_counts(doc@) == Some(suite_counts(report.suites@)),
            Err(_) => junit_suite_counts(doc@) is None,
        },
{
    match junit_suites(doc) {
        Ok(suites) => Ok(TestReport { suites }),
        Err(e) => Err(ParseError { cause: e.to_string() }),
    }
}

} // verus!
