use junit_ci::gate::{gate_result, run_gate};
use junit_ci::verdict::{exit_status, Breaches, GateError, Thresholds, Verdict};

const HEADER: &str = r#"<?xml version="1.0" encoding="UTF-8"?>"#;

fn suite_doc(name: &str, tests: u64, skipped: u64, errors: u64, failures: u64) -> String {
    format!(
        "{}\n<testsuite name=\"{}\" tests=\"{}\" skipped=\"{}\" errors=\"{}\" failures=\"{}\" time=\"1.5\"></testsuite>\n",
        HEADER, name, tests, skipped, errors, failures
    )
}

fn limits(max_skipped: u64, max_errored: u64, max_failed: u64) -> Thresholds {
    Thresholds { max_skipped, max_errored, max_failed }
}

#[test]
fn scenario_one_file_skipped_breach() {
    let files = vec![Some(suite_doc("a", 10, 1, 0, 0))];
    let outcome = run_gate(&files, &limits(0, 0, 0));
    let b = Breaches { skipped: true, errored: false, failed: false };
    assert_eq!(outcome, Ok(Verdict::Fail(b)));
    assert_eq!(exit_status(&outcome), 1);
    assert_eq!(gate_result(&outcome), Err(1));
}

#[test]
fn scenario_two_files_errored_breach_only() {
    let files = vec![
        Some(suite_doc("a", 12, 0, 2, 0)),
        Some(suite_doc("b", 8, 0, 0, 1)),
    ];
    let outcome = run_gate(&files, &limits(0, 1, 1));
    assert_eq!(exit_status(&outcome), 2);
}

#[test]
fn scenario_all_files_unreadable() {
    let files: Vec<Option<String>> = vec![None, None];
    let outcome = run_gate(&files, &limits(0, 0, 0));
    assert_eq!(outcome, Err(GateError::NoFilesRead));
    assert_eq!(exit_status(&outcome), -3);
    assert_eq!(run_gate(&vec![], &limits(0, 0, 0)), Err(GateError::NoFilesRead));
}

#[test]
fn scenario_all_suites_degenerate() {
    let files = vec![Some(suite_doc("a", 0, 3, 1, 1)), Some(suite_doc("b", 0, 0, 0, 0))];
    let outcome = run_gate(&files, &limits(0, 0, 0));
    assert_eq!(outcome, Err(GateError::NoTestsFound));
    assert_eq!(exit_status(&outcome), -2);
}

#[test]
fn unreadable_file_is_skipped() {
    let files = vec![None, Some(suite_doc("a", 5, 0, 0, 0))];
    let outcome = run_gate(&files, &limits(0, 0, 0));
    assert_eq!(outcome, Ok(Verdict::Pass));
    assert_eq!(gate_result(&outcome), Ok(()));
}

#[test]
fn several_documents_in_one_file_are_all_counted() {
    let text = format!("{}{}", suite_doc("a", 5, 2, 0, 0), suite_doc("b", 5, 2, 0, 0));
    let outcome = run_gate(&vec![Some(text)], &limits(3, 0, 0));
    let b = Breaches { skipped: true, errored: false, failed: false };
    assert_eq!(outcome, Ok(Verdict::Fail(b)));
}

#[test]
fn file_without_header_contributes_nothing() {
    let files = vec![
        Some("<testsuite name=\"bare\" tests=\"4\" failures=\"4\"/>".to_string()),
        Some(suite_doc("a", 5, 0, 0, 0)),
    ];
    assert_eq!(run_gate(&files, &limits(0, 0, 0)), Ok(Verdict::Pass));
}

#[test]
fn malformed_document_is_located() {
    let bad = format!("{}<testsuite name=\"x\" tests=\"lots\"/>", HEADER);
    let second = format!("{}{}", suite_doc("ok", 3, 0, 0, 0), bad);
    let files = vec![Some(suite_doc("a", 5, 0, 0, 0)), None, Some(second)];
    let outcome = run_gate(&files, &limits(0, 0, 0));
    assert_eq!(outcome, Err(GateError::MalformedDocument { file: 2, document: 1 }));
    assert_eq!(exit_status(&outcome), -4);
}

#[test]
fn totals_that_overflow_are_reported() {
    let files = vec![
        Some(suite_doc("a", u64::MAX, 0, 0, 0)),
        Some(suite_doc("b", 1, 0, 0, 0)),
    ];
    assert_eq!(run_gate(&files, &limits(0, 0, 0)), Err(GateError::CountOverflow));
}
