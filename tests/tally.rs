use junit_ci::report::Suite;
use junit_ci::tally::{fold_suites, Totals};

fn suite(tests: u64, skipped: u64, errors: u64, failures: u64) -> Suite {
    Suite { name: "s".to_string(), tests, skipped, errors, failures }
}

fn totals(tests: u64, skipped: u64, errored: u64, failed: u64) -> Totals {
    Totals { tests, skipped, errored, failed }
}

#[test]
fn fold_of_nothing_is_zero() {
    assert_eq!(fold_suites(&vec![]), Some(totals(0, 0, 0, 0)));
    assert_eq!(Totals::new(), totals(0, 0, 0, 0));
}

#[test]
fn fold_sums_each_counter() {
    let suites = vec![suite(10, 1, 0, 0), suite(5, 0, 2, 1)];
    assert_eq!(fold_suites(&suites), Some(totals(15, 1, 2, 1)));
}

#[test]
fn degenerate_suite_adds_nothing() {
    let with = vec![suite(3, 1, 1, 1), suite(0, 7, 8, 9), suite(2, 0, 0, 1)];
    let without = vec![suite(3, 1, 1, 1), suite(2, 0, 0, 1)];
    assert_eq!(fold_suites(&with), fold_suites(&without));
    assert_eq!(fold_suites(&with), Some(totals(5, 1, 1, 2)));
    let t = totals(4, 1, 2, 3);
    assert_eq!(t.add_suite(&suite(0, 5, 5, 5)), Some(t));
}

#[test]
fn fold_is_additive_in_either_order() {
    let a = vec![suite(4, 1, 0, 2), suite(0, 3, 3, 3)];
    let b = vec![suite(6, 0, 5, 1)];
    let mut ab = vec![suite(4, 1, 0, 2), suite(0, 3, 3, 3), suite(6, 0, 5, 1)];
    let fa = fold_suites(&a).unwrap();
    let fb = fold_suites(&b).unwrap();
    let expected = totals(
        fa.tests + fb.tests,
        fa.skipped + fb.skipped,
        fa.errored + fb.errored,
        fa.failed + fb.failed,
    );
    assert_eq!(fold_suites(&ab), Some(expected));
    ab.rotate_left(2);
    assert_eq!(fold_suites(&ab), Some(expected));
}

#[test]
fn fold_reports_overflow() {
    let suites = vec![suite(u64::MAX, 0, 0, 0), suite(1, 0, 0, 0)];
    assert_eq!(fold_suites(&suites), None);
    let suites = vec![suite(1, u64::MAX, 0, 0), suite(1, 1, 0, 0)];
    assert_eq!(fold_suites(&suites), None);
}

#[test]
fn fold_reaches_the_largest_total() {
    let suites = vec![suite(u64::MAX - 1, 0, 0, u64::MAX), suite(1, 0, 0, 0)];
    assert_eq!(fold_suites(&suites), Some(totals(u64::MAX, 0, 0, u64::MAX)));
}
