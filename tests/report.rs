use junit_ci::report::parse_document;

#[test]
fn parse_single_suite_counters() {
    let doc = r#"<?xml version="1.0" encoding="UTF-8"?>
<testsuite name="alpha" tests="10" skipped="1" errors="2" failures="3" time="0.5">
  <testcase classname="c" name="t"/>
</testsuite>"#;
    let report = parse_document(doc).ok().unwrap();
    assert_eq!(report.suites.len(), 1);
    let s = &report.suites[0];
    assert_eq!(s.name, "alpha");
    assert_eq!((s.tests, s.skipped, s.errors, s.failures), (10, 1, 2, 3));
}

#[test]
fn parse_wrapped_suites_in_order() {
    let doc = r#"<?xml version="1.0" encoding="UTF-8"?>
<testsuites>
  <testsuite name="a" tests="4" skipped="0" errors="1" failures="0"/>
  <testsuite name="b" tests="0" skipped="0" errors="0" failures="0"/>
</testsuites>"#;
    let report = parse_document(doc).ok().unwrap();
    let names: Vec<&str> = report.suites.iter().map(|s| s.name.as_str()).collect();
    assert_eq!(names, vec!["a", "b"]);
    assert_eq!(report.suites[0].errors, 1);
    assert_eq!(report.suites[1].tests, 0);
}

#[test]
fn parse_rejects_bad_counter() {
    let doc = r#"<?xml version="1.0" encoding="UTF-8"?><testsuite name="x" tests="many"/>"#;
    let err = parse_document(doc).err().unwrap();
    assert!(!err.cause.is_empty());
}

#[test]
fn parse_rejects_document_without_suite() {
    let doc = r#"<?xml version="1.0" encoding="UTF-8"?><other/>"#;
    assert!(parse_document(doc).is_err());
}
