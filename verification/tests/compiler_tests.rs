use tabula::compiler::{CompiledArtifact, Compiler, PipeError};
use tabula::errors::{LexError, LexErrorKind, ParseError, RuntimeError, TypeError};

#[test]
fn format_source_normalizes_spacing() {
    let compiler = Compiler::new();
    assert_eq!(compiler.format_source("let x\t5\n").unwrap(), "let x  5");
}

#[test]
fn format_source_reports_stage_errors() {
    let compiler = Compiler::new();
    assert_eq!(
        compiler.format_source("1+2"),
        Err(PipeError::Lex(LexError {
            kind: LexErrorKind::UnexpectedChar('+'),
            line: 1,
            column: 2,
        }))
    );
    assert_eq!(
        compiler.format_source("for i of n\n"),
        Err(PipeError::Parse(ParseError::ExpectedIn))
    );
}

#[test]
fn run_source_returns_the_output() {
    let compiler = Compiler::new();
    assert_eq!(
        compiler.run_source("let x  3\nfor i in x\n\tprint i\n").unwrap(),
        "0\n1\n2\n"
    );
}

#[test]
fn run_source_keeps_partial_output_on_a_fault() {
    let compiler = Compiler::new();
    let err = compiler.run_source("print 5\nlet x  y\n").unwrap_err();
    assert_eq!(
        err,
        PipeError::Run {
            error: RuntimeError::UndefinedVariable("y".to_string()),
            output: "5\n".to_string(),
        }
    );
}

#[test]
fn check_source_accepts_and_rejects() {
    let compiler = Compiler::new();
    assert!(compiler.check_source("let x  1\nprint x\n").is_ok());
    assert_eq!(
        compiler.check_source("if 5\n\tprint 1\n"),
        Err(PipeError::Check(TypeError::NonBooleanCondition))
    );
}

#[test]
fn native_target_yields_placeholder_c() {
    let compiler = Compiler::new();
    let artifact = compiler.compile_source("let x  5\nprint x\n", "native").unwrap();
    assert_eq!(
        artifact,
        CompiledArtifact::C(
            "#include <stdio.h>\n#include <stdlib.h>\n\nint main() {\n  int x = 5;\n  printf(\"%d\\n\", x);\n  return 0;\n}\n"
                .to_string()
        )
    );
}

#[test]
fn wasm_target_yields_a_wasm_module() {
    let compiler = Compiler::new();
    let artifact = compiler.compile_source("let x  5\n", "wasm").unwrap();
    match artifact {
        CompiledArtifact::Wasm(bytes) => {
            // The encoder is the real `wat` crate: a module starts with
            // the WebAssembly magic and version.
            assert_eq!(&bytes[0..8], &[0x00, 0x61, 0x73, 0x6d, 0x01, 0x00, 0x00, 0x00]);
        },
        other => panic!("expected wasm bytes, got {:?}", other),
    }
}

#[test]
fn unknown_target_is_refused() {
    let compiler = Compiler::new();
    assert_eq!(
        compiler.compile_source("let x  5\n", "jvm"),
        Err(PipeError::UnknownTarget("jvm".to_string()))
    );
}
