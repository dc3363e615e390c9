//! The pipeline front door: source text in, tokens, tree, output text,
//! placeholder C or WebAssembly bytes out. Every operation is
//! single-pass and whole-source: lex everything, parse everything, then
//! run, check or render the tree. Reading and writing files is the
//! caller's business.

use crate::ast::{fmt_program, Program, StmtModel};
use crate::codegen::{c_program, Codegen};
use crate::errors::{LexError, LexErrorModel, ParseError, RuntimeError, TypeError};
use crate::interp::{spec_interpret, Interpreter, StepR};
use crate::lexer::{spec_tokenize, toks_view, LexOut, Lexer, TokenAt};
use crate::parser::{spec_parse, tok_models, Parsed, Parser};
use crate::typecheck::{spec_check, TRes, TypeChecker};
use crate::wasm::{wasm_of, wat_program, WasmGenerator};
use vstd::prelude::*;

verus! {

/// Why a pipeline operation stopped, by stage.
#[derive(Debug, Clone, PartialEq)]
pub enum PipeError {
    Lex(LexError),
    Parse(ParseError),
    /// An interpretation fault, together with everything the program
    /// printed before it.
    Run { error: RuntimeError, output: String },
    Check(TypeError),
    UnknownTarget(String),
    /// The WebAssembly encoder's own message.
    Encode(String),
}

/// What a compilation produced: placeholder C text, or WebAssembly bytes.
#[derive(Debug, Clone, PartialEq)]
pub enum CompiledArtifact {
    C(String),
    Wasm(Vec<u8>),
}

/// The token kinds of positioned tokens.
pub open spec fn at_models(ts: Seq<TokenAt>) -> Seq<crate::lexer::TokenModel> {
    Seq::new(ts.len(), |i: int| ts[i].token)
}

/// How the front half of the pipeline reads a source text: its lexing
/// error, its parsing error, or its tree.
pub enum SourceParse {
    LexFail(LexErrorModel),
    ParseFail(ParseError),
    Parsed(Seq<StmtModel>),
}

/// Lexing then parsing, as one function of the source text.
pub open spec fn parse_source(src: Seq<char>) -> SourceParse {
    match spec_tokenize(src) {
        LexOut::Fail(e) => SourceParse::LexFail(e),
        LexOut::Toks(ts) => match spec_parse(at_models(ts)) {
            Parsed::Fail(p) => SourceParse::ParseFail(p),
            Parsed::Done(prog, _) => SourceParse::Parsed(prog),
        },
    }
}

/// The compiler: a lexer and a parser, ready to be pointed at source text.
pub struct Compiler {
    pub lexer: Lexer,
    pub parser: Parser,
}

impl Compiler {
    /// A compiler with fresh stages.
    pub fn new() -> (r: Compiler) {
        Compiler { lexer: Lexer::new(), parser: Parser::new() }
    }

    /// Lexes and parses the source into a tree.
    fn parse_text(&self, source: &str) -> (r: Result<Program, PipeError>)
        requires
            source@.len() < usize::MAX,
        ensures
            match r {
                Result::Ok(p) => parse_source(source@) == SourceParse::Parsed(p@),
                Result::Err(e) => match e {
                    PipeError::Lex(le) => parse_source(source@) == SourceParse::LexFail(le@),
                    PipeError::Parse(pe) => parse_source(source@) == SourceParse::ParseFail(pe),
                    _ => false,
                },
            },
    {
        let tokens = match self.lexer.tokenize(source) {
            Result::Ok(t) => t,
            Result::Err(e) => {
                return Result::Err(PipeError::Lex(e));
            },
        };
        proof {
            assert(tok_models(tokens@) =~= at_models(toks_view(tokens@)));
        }
        match self.parser.parse(tokens) {
            Result::Ok(p) => Result::Ok(p),
            Result::Err(e) => Result::Err(PipeError::Parse(e)),
        }
    }

    /// Renders the source back as formatted text: parse it, then print the
    /// tree.
    pub fn format_source(&self, source: &str) -> (r: Result<String, PipeError>)
        requires
            source@.len() < usize::MAX,
        ensures
            match r {
                Result::Ok(text) => parse_source(source@) matches SourceParse::Parsed(prog)
                    && text@ == fmt_program(prog),
                Result::Err(e) => match e {
                    PipeError::Lex(le) => parse_source(source@) == SourceParse::LexFail(le@),
                    PipeError::Parse(pe) => parse_source(source@) == SourceParse::ParseFail(pe),
                    _ => false,
                },
            },
    {
        let program = match self.parse_text(source) {
            Result::Ok(p) => p,
            Result::Err(e) => {
                return Result::Err(e);
            },
        };
        Result::Ok(program.format())
    }

    /// Runs the source with a fresh interpreter and returns what it
    /// printed; a runtime fault carries the output printed before it.
    pub fn run_source(&self, source: &str) -> (r: Result<String, PipeError>)
        requires
            source@.len() < usize::MAX,
        ensures
            match r {
                Result::Ok(text) => parse_source(source@) matches SourceParse::Parsed(prog)
                    && spec_interpret(Map::empty(), prog, Seq::empty()) matches StepR::Done(_, out)
                    && text@ == out,
                Result::Err(e) => match e {
                    PipeError::Lex(le) => parse_source(source@) == SourceParse::LexFail(le@),
                    PipeError::Parse(pe) => parse_source(source@) == SourceParse::ParseFail(pe),
                    PipeError::Run { error, output } => parse_source(source@)
                        matches SourceParse::Parsed(prog) && spec_interpret(
                        Map::empty(),
                        prog,
                        Seq::empty(),
                    ) matches StepR::Fault(err, _, out) && error@ == err && output@ == out,
                    _ => false,
                },
            },
    {
        let program = match self.parse_text(source) {
            Result::Ok(p) => p,
            Result::Err(e) => {
                return Result::Err(e);
            },
        };
        let mut interpreter = Interpreter::new();
        match interpreter.interpret(&program) {
            Result::Ok(_) => Result::Ok(interpreter.output().clone()),
            Result::Err(e) => Result::Err(
                PipeError::Run { error: e, output: interpreter.output().clone() },
            ),
        }
    }

    /// Type-checks the source with a fresh checker.
    pub fn check_source(&self, source: &str) -> (r: Result<(), PipeError>)
        requires
            source@.len() < usize::MAX,
        ensures
            match r {
                Result::Ok(_) => parse_source(source@) matches SourceParse::Parsed(prog)
                    && spec_check(prog) is Done,
                Result::Err(e) => match e {
                    PipeError::Lex(le) => parse_source(source@) == SourceParse::LexFail(le@),
                    PipeError::Parse(pe) => parse_source(source@) == SourceParse::ParseFail(pe),
                    PipeError::Check(te) => parse_source(source@) matches SourceParse::Parsed(
                        prog,
                    ) && spec_check(prog) == TRes::<
                        (
                            Map<Seq<char>, crate::typecheck::TyModel>,
                            Map<Seq<char>, (Seq<crate::typecheck::TyModel>, crate::typecheck::TyModel)>,
                        ),
                    >::Fault(te@),
                    _ => false,
                },
            },
    {
        let program = match self.parse_text(source) {
            Result::Ok(p) => p,
            Result::Err(e) => {
                return Result::Err(e);
            },
        };
        let mut checker = TypeChecker::new();
        match checker.check(&program) {
            Result::Ok(_) => Result::Ok(()),
            Result::Err(e) => Result::Err(PipeError::Check(e)),
        }
    }

    /// Compiles the source for the given target: `native` yields
    /// placeholder C text, `wasm` yields WebAssembly bytes; any other
    /// target is refused.
    pub fn compile_source(&self, source: &str, target: &str) -> (r: Result<
        CompiledArtifact,
        PipeError,
    >)
        requires
            source@.len() < usize::MAX,
        ensures
            match r {
                Result::Ok(a) => parse_source(source@) matches SourceParse::Parsed(prog) && match a {
                    CompiledArtifact::C(text) => target@ == "native"@ && text@ == c_program(prog),
                    CompiledArtifact::Wasm(bytes) => target@ == "wasm"@ && bytes@ == wasm_of(
                        wat_program(prog),
                    ),
                },
                Result::Err(e) => match e {
                    PipeError::Lex(le) => parse_source(source@) == SourceParse::LexFail(le@),
                    PipeError::Parse(pe) => parse_source(source@) == SourceParse::ParseFail(pe),
                    PipeError::UnknownTarget(t) => t@ == target@ && target@ != "native"@ && target@
                        != "wasm"@,
                    PipeError::Encode(_) => target@ == "wasm"@,
                    _ => false,
                },
            },
    {
        let program = match self.parse_text(source) {
            Result::Ok(p) => p,
            Result::Err(e) => {
                return Result::Err(e);
            },
        };
        if crate::chars::str_eq(target, "native") {
            let code = Codegen::new().generate_c(&program);
            Result::Ok(CompiledArtifact::C(code))
        } else if crate::chars::str_eq(target, "wasm") {
            match WasmGenerator::new().generate(&program) {
                Result::Ok(bytes) => Result::Ok(CompiledArtifact::Wasm(bytes)),
                Result::Err(msg) => Result::Err(PipeError::Encode(msg)),
            }
        } else {
            Result::Err(PipeError::UnknownTarget(String::from_str(target)))
        }
    }
}

} // verus!
