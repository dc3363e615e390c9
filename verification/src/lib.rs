//! A verified front end for a small, indentation-structured scripting
//! language: a lexer that turns source text into positioned tokens, a
//! recursive-descent parser that builds an abstract syntax tree, a
//! pretty-printer, a tree-walking interpreter, and a best-effort type
//! checker.

pub mod ast;
pub mod chars;
pub mod codegen;
pub mod compiler;
pub mod env;
pub mod errors;
pub mod interp;
pub mod lexer;
pub mod lint;
pub mod parser;
pub mod roundtrip;
pub mod testkit;
pub mod typecheck;
pub mod wasm;
