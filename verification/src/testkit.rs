//! The test framework's verdict logic: one test case is source text with
//! expectations, and passes or fails by how the pipeline treats it.
//! Reading test files and printing the summary is the caller's business.

use crate::compiler::{parse_source, SourceParse};
use crate::interp::{spec_interpret, StepR};
use vstd::prelude::*;

verus! {

/// One test case: a name, the source to run, and what is expected of it.
/// An expected-output text may be carried but is not consulted; only
/// whether an error was expected decides.
#[derive(Debug, Clone, PartialEq)]
pub struct TestCase {
    pub name: String,
    pub code: String,
    pub expected_output: Option<String>,
    pub expected_error: Option<String>,
    pub should_fail: bool,
}

/// Whether a test passes: a lexing or parsing failure passes exactly when
/// the test expected to fail or expected an error; a parsed program fails
/// when it was expected to fail, and otherwise passes unless running it
/// faults without an expected error.
pub open spec fn test_passes(code: Seq<char>, should_fail: bool, expects_error: bool) -> bool {
    match parse_source(code) {
        SourceParse::LexFail(_) => should_fail || expects_error,
        SourceParse::ParseFail(_) => should_fail || expects_error,
        SourceParse::Parsed(prog) => {
            if should_fail {
                false
            } else {
                match spec_interpret(Map::empty(), prog, Seq::empty()) {
                    StepR::Done(_, _) => true,
                    StepR::Fault(_, _, _) => expects_error,
                }
            }
        },
    }
}

/// The test runner: how many cases passed and failed so far, and whether
/// a caller wants verbose reporting.
pub struct TestRunner {
    pub passed: usize,
    pub failed: usize,
    pub verbose: bool,
}

impl TestRunner {
    /// A runner with clean counters.
    pub fn new(verbose: bool) -> (r: TestRunner)
        ensures
            r.passed == 0,
            r.failed == 0,
            r.verbose == verbose,
    {
        TestRunner { passed: 0, failed: 0, verbose }
    }

    /// Runs one case and scores it.
    pub fn run_test(&mut self, test: &TestCase) -> (r: bool)
        requires
            old(self).passed < usize::MAX,
            old(self).failed < usize::MAX,
            test.code@.len() < usize::MAX,
        ensures
            r == test_passes(test.code@, test.should_fail, test.expected_error is Some),
            final(self).verbose == old(self).verbose,
            r ==> final(self).passed == old(self).passed + 1 && final(self).failed == old(
                self,
            ).failed,
            !r ==> final(self).failed == old(self).failed + 1 && final(self).passed == old(
                self,
            ).passed,
    {
        let compiler = crate::compiler::Compiler::new();
        let expects_error = match &test.expected_error {
            Option::Some(_) => true,
            Option::None => false,
        };
        let outcome = match compiler.run_source(test.code.as_str()) {
            Result::Ok(_) => true,
            Result::Err(e) => match e {
                crate::compiler::PipeError::Lex(_) => {
                    let pass = test.should_fail || expects_error;
                    if pass {
                        self.passed = self.passed + 1;
                    } else {
                        self.failed = self.failed + 1;
                    }
                    return pass;
                },
                crate::compiler::PipeError::Parse(_) => {
                    let pass = test.should_fail || expects_error;
                    if pass {
                        self.passed = self.passed + 1;
                    } else {
                        self.failed = self.failed + 1;
                    }
                    return pass;
                },
                crate::compiler::PipeError::Run { .. } => false,
                _ => {
                    proof {
                        assert(false);
                    }
                    false
                },
            },
        };
        let pass = if test.should_fail {
            false
        } else if outcome {
            true
        } else {
            expects_error
        };
        if pass {
            self.passed = self.passed + 1;
        } else {
            self.failed = self.failed + 1;
        }
        pass
    }
}

} // verus!
