//! The WebAssembly back end: it renders a program as WebAssembly text — a
//! module skeleton with one stub comment per statement — and hands that
//! text to the `wat` crate for encoding into binary form. Writing the
//! bytes to disk is the caller's business.

use crate::ast::{Program, Statement, StmtModel};
use vstd::prelude::*;

verus! {

/// The WAT line for one statement: a comment naming what it would become.
pub open spec fn wat_stmt(s: StmtModel) -> Seq<char> {
    match s {
        StmtModel::Let { name, .. } => "  ;; let "@ + name + "\n"@,
        StmtModel::Print { .. } => "  ;; print\n"@,
        _ => "  ;; TODO: statement\n"@,
    }
}

/// The WAT lines of a statement list.
pub open spec fn wat_block(ss: Seq<StmtModel>, i: int) -> Seq<char>
    decreases ss.len() - i,
{
    if i < 0 || i >= ss.len() {
        Seq::empty()
    } else {
        wat_stmt(ss[i]) + wat_block(ss, i + 1)
    }
}

/// The whole WebAssembly text module.
pub open spec fn wat_program(p: Seq<StmtModel>) -> Seq<char> {
    "(module\n  (memory 1)\n  (export \"memory\" (memory 0))\n  (func $print (param i32))\n  (func (export \"main\")\n"@
        + wat_block(p, 0) + "  )\n)\n"@
}

/// What `wat::parse_str` encodes a given WebAssembly text to: a function
/// of the text alone.
pub uninterp spec fn wasm_of(s: Seq<char>) -> Seq<u8>;

/// The declared error type of the `wat` crate.
#[verifier::external_type_specification]
#[verifier::external_body]
pub struct ExWatError(wat::Error);

/// Relies on `wat::parse_str`: it encodes WebAssembly text into the
/// binary format, deterministically from the text alone.
#[verifier::external_body]
fn wat_to_wasm(s: &str) -> (r: Result<Vec<u8>, wat::Error>)
    ensures
        r matches Result::Ok(b) ==> b@ == wasm_of(s@),
{
    wat::parse_str(s)
}

/// Relies on `wat::Error`'s `Display` impl for a human-readable message.
#[verifier::external_body]
fn wat_error_message(e: &wat::Error) -> String {
    e.to_string()
}

/// Appends the WAT line of one statement to `out`.
fn write_wat_stmt(s: &Statement, out: &mut String)
    ensures
        final(out)@ == old(out)@ + wat_stmt(s@),
{
    proof {
        reveal_strlit("  ;; let ");
        reveal_strlit("\n");
        reveal_strlit("  ;; print\n");
        reveal_strlit("  ;; TODO: statement\n");
    }
    match s {
        Statement::Let { name, .. } => {
            out.append("  ;; let ");
            out.append(name.as_str());
            out.append("\n");
            proof {
                assert(out@ =~= old(out)@ + wat_stmt(s@));
            }
        },
        Statement::Print { .. } => {
            out.append("  ;; print\n");
        },
        Statement::Function { .. } => {
            out.append("  ;; TODO: statement\n");
        },
        Statement::If { .. } => {
            out.append("  ;; TODO: statement\n");
        },
        Statement::For { .. } => {
            out.append("  ;; TODO: statement\n");
        },
        Statement::Return { .. } => {
            out.append("  ;; TODO: statement\n");
        },
        Statement::Expression(_) => {
            out.append("  ;; TODO: statement\n");
        },
    }
}

/// The WebAssembly code generator.
pub struct WasmGenerator {
}

impl WasmGenerator {
    /// A generator with no state.
    pub fn new() -> (r: WasmGenerator) {
        WasmGenerator {  }
    }

    /// The WebAssembly text for a whole program.
    pub fn generate_wat(&self, program: &Program) -> (r: String)
        ensures
            r@ == wat_program(program@),
    {
        proof {
            reveal_strlit(
                "(module\n  (memory 1)\n  (export \"memory\" (memory 0))\n  (func $print (param i32))\n  (func (export \"main\")\n",
            );
            reveal_strlit("  )\n)\n");
        }
        let mut out = String::new();
        out.append(
            "(module\n  (memory 1)\n  (export \"memory\" (memory 0))\n  (func $print (param i32))\n  (func (export \"main\")\n",
        );
        let ghost mid0 = out@;
        let mut i: usize = 0;
        proof {
            crate::ast::lemma_stmts_view(program.statements@);
        }
        loop
            invariant
                i <= program.statements@.len(),
                crate::ast::stmts_view(program.statements@).len() == program.statements@.len(),
                forall|j: int|
                    0 <= j < program.statements@.len() ==> crate::ast::stmts_view(
                        program.statements@,
                    )[j] == crate::ast::stmt_view(program.statements@[j]),
                out@ + wat_block(crate::ast::stmts_view(program.statements@), i as int) == mid0
                    + wat_block(crate::ast::stmts_view(program.statements@), 0),
            ensures
                out@ == mid0 + wat_block(crate::ast::stmts_view(program.statements@), 0),
            decreases program.statements@.len() - i,
        {
            if i >= program.statements.len() {
                proof {
                    assert(out@ + wat_block(
                        crate::ast::stmts_view(program.statements@),
                        i as int,
                    ) =~= out@);
                }
                break;
            }
            let ghost out0 = out@;
            write_wat_stmt(&program.statements[i], &mut out);
            proof {
                let sv = crate::ast::stmts_view(program.statements@);
                assert(out0 + (wat_stmt(sv[i as int]) + wat_block(sv, i as int + 1)) =~= out@
                    + wat_block(sv, i as int + 1));
            }
            i = i + 1;
        }
        out.append("  )\n)\n");
        proof {
            assert(out@ =~= wat_program(program@));
        }
        out
    }

    /// The binary WebAssembly for a whole program: the text above, encoded
    /// by the `wat` crate. The error text is the encoder's own.
    pub fn generate(&self, program: &Program) -> (r: Result<Vec<u8>, String>)
        ensures
            r matches Result::Ok(b) ==> b@ == wasm_of(wat_program(program@)),
    {
        let text = self.generate_wat(program);
        match wat_to_wasm(text.as_str()) {
            Result::Ok(bytes) => Result::Ok(bytes),
            Result::Err(e) => Result::Err(wat_error_message(&e)),
        }
    }
}

} // verus!
