use tabula::testkit::{TestCase, TestRunner};

fn case(code: &str, should_fail: bool, expected_error: Option<&str>) -> TestCase {
    TestCase {
        name: "case".to_string(),
        code: code.to_string(),
        expected_output: None,
        expected_error: expected_error.map(|s| s.to_string()),
        should_fail,
    }
}

#[test]
fn a_clean_program_passes() {
    let mut runner = TestRunner::new(false);
    assert!(runner.run_test(&case("print 1\n", false, None)));
    assert_eq!((runner.passed, runner.failed), (1, 0));
}

#[test]
fn a_lex_error_passes_only_when_expected() {
    let mut runner = TestRunner::new(false);
    assert!(!runner.run_test(&case("1+2", false, None)));
    assert!(runner.run_test(&case("1+2", true, None)));
    assert!(runner.run_test(&case("1+2", false, Some("boom"))));
    assert_eq!((runner.passed, runner.failed), (2, 1));
}

#[test]
fn a_parse_error_passes_only_when_expected() {
    let mut runner = TestRunner::new(true);
    assert!(!runner.run_test(&case("for i of n\n", false, None)));
    assert!(runner.run_test(&case("for i of n\n", true, None)));
    assert_eq!((runner.passed, runner.failed), (1, 1));
}

#[test]
fn a_parsed_program_fails_a_should_fail_case() {
    let mut runner = TestRunner::new(false);
    assert!(!runner.run_test(&case("print 1\n", true, None)));
    assert_eq!((runner.passed, runner.failed), (0, 1));
}

#[test]
fn a_runtime_fault_passes_only_with_an_expected_error() {
    let mut runner = TestRunner::new(false);
    assert!(!runner.run_test(&case("let x  y\n", false, None)));
    assert!(runner.run_test(&case("let x  y\n", false, Some("undefined"))));
    assert_eq!((runner.passed, runner.failed), (1, 1));
}
