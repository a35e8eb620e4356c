use shiren::results::{TestResult, TestStatus, TestSuite};
use std::time::Duration;

#[test]
fn status_signs() {
    assert_eq!(TestStatus::Pass.sign(), "ok");
    assert_eq!(TestStatus::Fail(None).sign(), "FAIL");
    assert_eq!(TestStatus::Skip.sign(), "skip");
    assert_eq!(TestStatus::Running.sign(), "...");
}

#[test]
fn status_highlights() {
    assert_eq!(TestStatus::Pass.highlight(), "ShirenPass");
    assert_eq!(TestStatus::Fail(None).highlight(), "ShirenFail");
    assert_eq!(TestStatus::Skip.highlight(), "ShirenSkip");
    assert_eq!(TestStatus::Running.highlight(), "ShirenRunning");
}

#[test]
fn status_is_finished() {
    assert!(TestStatus::Pass.is_finished());
    assert!(TestStatus::Fail(None).is_finished());
    assert!(TestStatus::Skip.is_finished());
    assert!(!TestStatus::Running.is_finished());
}

#[test]
fn status_display() {
    assert_eq!(TestStatus::Pass.display_string(), "PASS");
    assert_eq!(TestStatus::Fail(None).display_string(), "FAIL");
    assert_eq!(
        TestStatus::Fail(Some("assertion failed".into())).display_string(),
        "FAIL: assertion failed"
    );
    assert_eq!(TestStatus::Skip.display_string(), "SKIP");
    assert_eq!(TestStatus::Running.display_string(), "RUNNING");
}

#[test]
fn test_result_constructors() {
    let pass = TestResult::pass("it_works");
    assert_eq!(pass.name, "it_works");
    assert_eq!(pass.status, TestStatus::Pass);

    let fail = TestResult::fail("it_breaks", Some("oops"));
    assert_eq!(fail.name, "it_breaks");
    assert_eq!(fail.status, TestStatus::Fail(Some("oops".into())));

    let skip = TestResult::skip("ignored");
    assert_eq!(skip.name, "ignored");
    assert_eq!(skip.status, TestStatus::Skip);
}

#[test]
fn test_result_builder_methods() {
    let result = TestResult::pass("my_test")
        .with_file("src/lib.rs")
        .with_line(42)
        .with_duration(Duration::from_millis(150))
        .with_output("all good");

    assert_eq!(result.file.as_deref(), Some("src/lib.rs"));
    assert_eq!(result.line, Some(42));
    assert_eq!(result.duration, Some(Duration::from_millis(150)));
    assert_eq!(result.output.as_deref(), Some("all good"));
}

#[test]
fn test_result_display() {
    let result = TestResult::pass("basic").with_duration(Duration::from_millis(10));
    let s = result.display_string();
    assert!(s.contains("ok"));
    assert!(s.contains("basic"));
    assert!(s.contains("PASS"));
}

#[test]
fn suite_empty() {
    let suite = TestSuite::new();
    assert_eq!(suite.total(), 0);
    assert_eq!(suite.passed(), 0);
    assert_eq!(suite.failed(), 0);
    assert_eq!(suite.skipped(), 0);
    assert!(suite.all_passed());
}

#[test]
fn suite_counts() {
    let mut suite = TestSuite::new();
    suite.push(TestResult::pass("a"));
    suite.push(TestResult::pass("b"));
    suite.push(TestResult::fail("c", Some("boom")));
    suite.push(TestResult::skip("d"));

    assert_eq!(suite.total(), 4);
    assert_eq!(suite.passed(), 2);
    assert_eq!(suite.failed(), 1);
    assert_eq!(suite.skipped(), 1);
    assert!(!suite.all_passed());
}

#[test]
fn suite_failures() {
    let mut suite = TestSuite::new();
    suite.push(TestResult::pass("a"));
    suite.push(TestResult::fail("b", None));
    suite.push(TestResult::fail("c", Some("msg")));

    let failures = suite.failures();
    assert_eq!(failures.len(), 2);
    assert_eq!(failures[0].name, "b");
    assert_eq!(failures[1].name, "c");
}

#[test]
fn suite_summary() {
    let mut suite = TestSuite::new();
    suite.push(TestResult::pass("a"));
    suite.push(TestResult::fail("b", None));
    suite.push(TestResult::skip("c"));

    let summary = suite.summary();
    assert!(summary.contains("1 passed"));
    assert!(summary.contains("1 failed"));
    assert!(summary.contains("1 skipped"));
}

#[test]
fn suite_summary_with_duration() {
    let mut suite = TestSuite::new();
    suite.push(TestResult::pass("a"));
    suite.duration = Some(Duration::from_secs(2));

    let summary = suite.summary();
    assert!(summary.contains("1 passed"));
    assert!(summary.contains('s'));
}

#[test]
fn suite_all_passed_when_only_passes_and_skips() {
    let mut suite = TestSuite::new();
    suite.push(TestResult::pass("a"));
    suite.push(TestResult::skip("b"));
    assert!(suite.all_passed());
}

#[test]
fn suite_display() {
    let mut suite = TestSuite::new();
    suite.push(TestResult::pass("a"));
    suite.push(TestResult::fail("b", None));

    let display = suite.display_string();
    assert!(display.contains("ok"));
    assert!(display.contains("FAIL"));
    assert!(display.contains("---"));
}
