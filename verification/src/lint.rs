//! The linter's textual checks, independent of the language pipeline:
//! mixed indentation, trailing whitespace, and over-long lines, reported
//! over the source split into lines. Reading files and printing reports
//! is the caller's business.

use crate::chars::dec_rep;
use vstd::prelude::*;

verus! {

/// How serious a finding is.
#[derive(Debug, Clone, Copy, PartialEq, Eq)]
pub enum Severity {
    Error,
    Warning,
    Info,
}

/// One finding: its place (1-based line), severity, message and rule name.
#[derive(Debug, Clone, PartialEq)]
pub struct LintIssue {
    pub line: usize,
    pub column: usize,
    pub severity: Severity,
    pub message: String,
    pub rule: String,
}

/// The mathematical value of a finding.
pub struct LintIssueModel {
    pub line: int,
    pub column: int,
    pub severity: Severity,
    pub message: Seq<char>,
    pub rule: Seq<char>,
}

impl View for LintIssue {
    type V = LintIssueModel;

    open spec fn view(&self) -> LintIssueModel {
        LintIssueModel {
            line: self.line as int,
            column: self.column as int,
            severity: self.severity,
            message: self.message@,
            rule: self.rule@,
        }
    }
}

/// The views of an issue list.
pub open spec fn issues_view(v: Seq<LintIssue>) -> Seq<LintIssueModel> {
    Seq::new(v.len(), |i: int| v[i]@)
}

/// Some line starts with a tab.
pub open spec fn any_tab_start(lines: Seq<String>) -> bool {
    exists|i: int| 0 <= i < lines.len() && (#[trigger] lines[i])@.len() > 0 && lines[i]@[0] == '\t'
}

/// Some line starts with a space.
pub open spec fn any_space_start(lines: Seq<String>) -> bool {
    exists|i: int| 0 <= i < lines.len() && (#[trigger] lines[i])@.len() > 0 && lines[i]@[0] == ' '
}

/// The mixed-indentation finding.
pub open spec fn mixed_indentation_issue() -> LintIssueModel {
    LintIssueModel {
        line: 1,
        column: 1,
        severity: Severity::Warning,
        message: "Mixed tabs and spaces for indentation"@,
        rule: "mixed-indentation"@,
    }
}

/// A line ends in a space or a tab.
pub open spec fn has_trailing_ws(line: Seq<char>) -> bool {
    line.len() > 0 && (line.last() == ' ' || line.last() == '\t')
}

/// The trailing-whitespace finding for line `i` (0-based).
pub open spec fn trailing_issue(line: Seq<char>, i: int) -> LintIssueModel {
    LintIssueModel {
        line: i + 1,
        column: line.len() as int,
        severity: Severity::Warning,
        message: "Trailing whitespace"@,
        rule: "trailing-whitespace"@,
    }
}

/// The trailing-whitespace findings over `lines[i..]`.
pub open spec fn trailing_issues(lines: Seq<String>, i: int) -> Seq<LintIssueModel>
    decreases lines.len() - i,
{
    if i < 0 || i >= lines.len() {
        Seq::empty()
    } else if has_trailing_ws(lines[i]@) {
        seq![trailing_issue(lines[i]@, i)] + trailing_issues(lines, i + 1)
    } else {
        trailing_issues(lines, i + 1)
    }
}

/// The long-line finding for line `i` (0-based).
pub open spec fn long_line_issue(line: Seq<char>, i: int) -> LintIssueModel {
    LintIssueModel {
        line: i + 1,
        column: 100,
        severity: Severity::Info,
        message: "Line too long ("@ + dec_rep(line.len()) + " characters)"@,
        rule: "line-length"@,
    }
}

/// The long-line findings over `lines[i..]`: lines of more than one
/// hundred characters.
pub open spec fn long_line_issues(lines: Seq<String>, i: int) -> Seq<LintIssueModel>
    decreases lines.len() - i,
{
    if i < 0 || i >= lines.len() {
        Seq::empty()
    } else if lines[i]@.len() > 100 {
        seq![long_line_issue(lines[i]@, i)] + long_line_issues(lines, i + 1)
    } else {
        long_line_issues(lines, i + 1)
    }
}

/// The linter: the findings collected so far, in the order found.
pub struct Linter {
    pub issues: Vec<LintIssue>,
}

impl Linter {
    /// A linter with no findings yet.
    pub fn new() -> (r: Linter)
        ensures
            r.issues@.len() == 0,
    {
        Linter { issues: Vec::new() }
    }

    /// Warns once when some line indents with a tab and some other with a
    /// space.
    pub fn check_indentation(&mut self, lines: &Vec<String>)
        ensures
            issues_view(final(self).issues@) == issues_view(old(self).issues@) + (if any_tab_start(
                lines@,
            ) && any_space_start(lines@) {
                seq![mixed_indentation_issue()]
            } else {
                Seq::<LintIssueModel>::empty()
            }),
    {
        let mut has_tabs = false;
        let mut has_spaces = false;
        let mut i: usize = 0;
        loop
            invariant
                i <= lines@.len(),
                has_tabs == exists|j: int|
                    0 <= j < i && (#[trigger] lines@[j])@.len() > 0 && lines@[j]@[0] == '\t',
                has_spaces == exists|j: int|
                    0 <= j < i && (#[trigger] lines@[j])@.len() > 0 && lines@[j]@[0] == ' ',
            ensures
                has_tabs == any_tab_start(lines@),
                has_spaces == any_space_start(lines@),
            decreases lines@.len() - i,
        {
            if i >= lines.len() {
                break;
            }
            let line = &lines[i];
            if line.as_str().unicode_len() > 0 {
                let c = line.as_str().get_char(0);
                if c == '\t' {
                    has_tabs = true;
                }
                if c == ' ' {
                    has_spaces = true;
                }
            }
            i = i + 1;
        }
        let ghost pre = self.issues@;
        if has_tabs && has_spaces {
            proof {
                reveal_strlit("Mixed tabs and spaces for indentation");
                reveal_strlit("mixed-indentation");
            }
            self.issues.push(
                LintIssue {
                    line: 1,
                    column: 1,
                    severity: Severity::Warning,
                    message: String::from_str("Mixed tabs and spaces for indentation"),
                    rule: String::from_str("mixed-indentation"),
                },
            );
            proof {
                assert(issues_view(self.issues@) =~= issues_view(pre) + seq![
                    mixed_indentation_issue(),
                ]);
            }
        } else {
            proof {
                assert(issues_view(self.issues@) =~= issues_view(pre)
                    + Seq::<LintIssueModel>::empty());
            }
        }
    }

    /// Warns on every line that ends in a space or a tab.
    pub fn check_trailing_whitespace(&mut self, lines: &Vec<String>)
        requires
            lines@.len() < usize::MAX,
        ensures
            issues_view(final(self).issues@) == issues_view(old(self).issues@) + trailing_issues(
                lines@,
                0,
            ),
    {
        let mut i: usize = 0;
        loop
            invariant
                i <= lines@.len(),
                lines@.len() < usize::MAX,
                issues_view(old(self).issues@) + trailing_issues(lines@, 0) == issues_view(
                    self.issues@,
                ) + trailing_issues(lines@, i as int),
            ensures
                issues_view(old(self).issues@) + trailing_issues(lines@, 0) == issues_view(
                    self.issues@,
                ),
            decreases lines@.len() - i,
        {
            if i >= lines.len() {
                proof {
                    assert(issues_view(self.issues@) + trailing_issues(lines@, i as int)
                        =~= issues_view(self.issues@));
                }
                break;
            }
            let line = &lines[i];
            let n = line.as_str().unicode_len();
            if n > 0 {
                let last = line.as_str().get_char(n - 1);
                if last == ' ' || last == '\t' {
                    let ghost pre = self.issues@;
                    proof {
                        reveal_strlit("Trailing whitespace");
                        reveal_strlit("trailing-whitespace");
                    }
                    self.issues.push(
                        LintIssue {
                            line: i + 1,
                            column: n,
                            severity: Severity::Warning,
                            message: String::from_str("Trailing whitespace"),
                            rule: String::from_str("trailing-whitespace"),
                        },
                    );
                    proof {
                        assert(issues_view(self.issues@) =~= issues_view(pre) + seq![
                            trailing_issue(lines@[i as int]@, i as int),
                        ]);
                        assert((issues_view(pre) + seq![trailing_issue(lines@[i as int]@, i as int)])
                            + trailing_issues(lines@, i as int + 1) =~= issues_view(pre) + (seq![
                            trailing_issue(lines@[i as int]@, i as int),
                        ] + trailing_issues(lines@, i as int + 1)));
                    }
                }
            }
            i = i + 1;
        }
    }

    /// Notes every line of more than one hundred characters.
    pub fn check_line_length(&mut self, lines: &Vec<String>)
        requires
            lines@.len() < usize::MAX,
        ensures
            issues_view(final(self).issues@) == issues_view(old(self).issues@) + long_line_issues(
                lines@,
                0,
            ),
    {
        let mut i: usize = 0;
        loop
            invariant
                i <= lines@.len(),
                lines@.len() < usize::MAX,
                issues_view(old(self).issues@) + long_line_issues(lines@, 0) == issues_view(
                    self.issues@,
                ) + long_line_issues(lines@, i as int),
            ensures
                issues_view(old(self).issues@) + long_line_issues(lines@, 0) == issues_view(
                    self.issues@,
                ),
            decreases lines@.len() - i,
        {
            if i >= lines.len() {
                proof {
                    assert(issues_view(self.issues@) + long_line_issues(lines@, i as int)
                        =~= issues_view(self.issues@));
                }
                break;
            }
            let line = &lines[i];
            let n = line.as_str().unicode_len();
            if n > 100 {
                let ghost pre = self.issues@;
                proof {
                    reveal_strlit("Line too long (");
                    reveal_strlit(" characters)");
                    reveal_strlit("line-length");
                }
                let mut message = String::from_str("Line too long (");
                crate::chars::push_u64_dec(&mut message, n as u64);
                message.append(" characters)");
                self.issues.push(
                    LintIssue {
                        line: i + 1,
                        column: 100,
                        severity: Severity::Info,
                        message,
                        rule: String::from_str("line-length"),
                    },
                );
                proof {
                    assert(self.issues@.last()@.message =~= long_line_issue(
                        lines@[i as int]@,
                        i as int,
                    ).message);
                    assert(issues_view(self.issues@) =~= issues_view(pre) + seq![
                        long_line_issue(lines@[i as int]@, i as int),
                    ]);
                    assert((issues_view(pre) + seq![long_line_issue(lines@[i as int]@, i as int)])
                        + long_line_issues(lines@, i as int + 1) =~= issues_view(pre) + (seq![
                        long_line_issue(lines@[i as int]@, i as int),
                    ] + long_line_issues(lines@, i as int + 1)));
                }
            }
            i = i + 1;
        }
    }
}

} // verus!
