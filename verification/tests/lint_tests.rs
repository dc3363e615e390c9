use tabula::lint::{Linter, Severity};

fn lines(parts: &[&str]) -> Vec<String> {
    parts.iter().map(|s| s.to_string()).collect()
}

#[test]
fn mixed_indentation_warns_once() {
    let mut linter = Linter::new();
    linter.check_indentation(&lines(&["\tindented", "plain", " spaced"]));
    assert_eq!(linter.issues.len(), 1);
    let issue = &linter.issues[0];
    assert_eq!((issue.line, issue.column), (1, 1));
    assert_eq!(issue.severity, Severity::Warning);
    assert_eq!(issue.message, "Mixed tabs and spaces for indentation");
    assert_eq!(issue.rule, "mixed-indentation");
}

#[test]
fn uniform_indentation_is_quiet() {
    let mut linter = Linter::new();
    linter.check_indentation(&lines(&["\ta", "\tb", "c"]));
    assert!(linter.issues.is_empty());
    linter.check_indentation(&lines(&[" a", " b"]));
    assert!(linter.issues.is_empty());
}

#[test]
fn trailing_whitespace_is_reported_per_line() {
    let mut linter = Linter::new();
    linter.check_trailing_whitespace(&lines(&["clean", "spaced ", "tabbed\t"]));
    assert_eq!(linter.issues.len(), 2);
    assert_eq!((linter.issues[0].line, linter.issues[0].column), (2, 7));
    assert_eq!(linter.issues[0].message, "Trailing whitespace");
    assert_eq!(linter.issues[0].rule, "trailing-whitespace");
    assert_eq!((linter.issues[1].line, linter.issues[1].column), (3, 7));
}

#[test]
fn long_lines_are_noted() {
    let long = "x".repeat(101);
    let borderline = "y".repeat(100);
    let mut linter = Linter::new();
    linter.check_line_length(&vec![borderline, long]);
    assert_eq!(linter.issues.len(), 1);
    let issue = &linter.issues[0];
    assert_eq!((issue.line, issue.column), (2, 100));
    assert_eq!(issue.severity, Severity::Info);
    assert_eq!(issue.message, "Line too long (101 characters)");
    assert_eq!(issue.rule, "line-length");
}

#[test]
fn checks_accumulate_in_order() {
    let mut linter = Linter::new();
    let ls = lines(&["\ta ", " b"]);
    linter.check_indentation(&ls);
    linter.check_trailing_whitespace(&ls);
    linter.check_line_length(&ls);
    assert_eq!(linter.issues.len(), 2);
    assert_eq!(linter.issues[0].rule, "mixed-indentation");
    assert_eq!(linter.issues[1].rule, "trailing-whitespace");
}
