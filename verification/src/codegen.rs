//! The native back end: it renders a program as placeholder C — a `main`
//! holding one line per supported statement — for a later toolchain to
//! compile. Writing the text to disk is the caller's business.

use crate::ast::{BinaryOp, ExprModel, Expression, Program, Statement, StmtModel};
use crate::chars::{i64_dec, push_i64_dec};
use vstd::prelude::*;

verus! {

/// The C rendering of an expression: numbers and variables as themselves,
/// binary operations parenthesized, anything else as a zero placeholder.
pub open spec fn c_expr(e: ExprModel) -> Seq<char>
    decreases e,
{
    match e {
        ExprModel::Number(n) => i64_dec(n),
        ExprModel::Variable(v) => v,
        ExprModel::Binary(l, op, r) => seq!['('] + c_expr(*l) + seq![' '] + crate::ast::fmt_op(op)
            + seq![' '] + c_expr(*r) + seq![')'],
        _ => seq!['0'],
    }
}

/// The C renderings of an expression list, comma-separated.
pub open spec fn c_exprs(es: Seq<ExprModel>, i: int) -> Seq<char>
    decreases es, es.len() - i,
{
    if i < 0 || i >= es.len() {
        Seq::empty()
    } else if i == es.len() - 1 {
        c_expr(es[i])
    } else {
        c_expr(es[i]) + ", "@ + c_exprs(es, i + 1)
    }
}

/// A parameter list, comma-separated.
pub open spec fn c_params(ps: Seq<Seq<char>>, i: int) -> Seq<char>
    decreases ps.len() - i,
{
    if i < 0 || i >= ps.len() {
        Seq::empty()
    } else if i == ps.len() - 1 {
        ps[i]
    } else {
        ps[i] + ", "@ + c_params(ps, i + 1)
    }
}

/// The C rendering of one statement, indented by `pre` (two spaces per
/// level); unsupported forms become a comment.
pub open spec fn c_stmt(s: StmtModel, pre: Seq<char>) -> Seq<char>
    decreases s,
{
    match s {
        StmtModel::Let { name, value } => pre + "int "@ + name + " = "@ + c_expr(value) + ";\n"@,
        StmtModel::Print { args } => pre + "printf(\"%d\\n\", "@ + c_exprs(args, 0) + ");\n"@,
        StmtModel::Function { name, params, body } => pre + "int "@ + name + "("@ + c_params(
            params,
            0,
        ) + ") {\n"@ + c_block(body, pre + "  "@, 0) + pre + "}\n"@,
        _ => pre + "// TODO: statement\n"@,
    }
}

/// The C renderings of a statement list.
pub open spec fn c_block(ss: Seq<StmtModel>, pre: Seq<char>, i: int) -> Seq<char>
    decreases ss, ss.len() - i,
{
    if i < 0 || i >= ss.len() {
        Seq::empty()
    } else {
        c_stmt(ss[i], pre) + c_block(ss, pre, i + 1)
    }
}

/// The whole C translation unit.
pub open spec fn c_program(p: Seq<StmtModel>) -> Seq<char> {
    "#include <stdio.h>\n#include <stdlib.h>\n\nint main() {\n"@ + c_block(p, "  "@, 0)
        + "  return 0;\n}\n"@
}

/// Appends the C rendering of `e` to `out`.
fn write_c_expr(e: &Expression, out: &mut String)
    ensures
        final(out)@ == old(out)@ + c_expr(e@),
    decreases *e, 1int, 0int,
{
    proof {
        reveal_strlit("(");
        reveal_strlit(" ");
        reveal_strlit(")");
        reveal_strlit("0");
    }
    match e {
        Expression::Number(n) => {
            push_i64_dec(out, *n);
        },
        Expression::Variable(v) => {
            out.append(v.as_str());
        },
        Expression::Binary { left, op, right } => {
            out.append("(");
            write_c_expr(left, out);
            out.append(" ");
            let ops = op.format();
            out.append(ops.as_str());
            out.append(" ");
            write_c_expr(right, out);
            out.append(")");
            proof {
                assert(out@ =~= old(out)@ + c_expr(e@));
            }
        },
        Expression::Float(_) => {
            out.append("0");
            proof {
                assert(out@ =~= old(out)@ + c_expr(e@));
            }
        },
        Expression::String(_) => {
            out.append("0");
            proof {
                assert(out@ =~= old(out)@ + c_expr(e@));
            }
        },
        Expression::Unary { .. } => {
            out.append("0");
            proof {
                assert(out@ =~= old(out)@ + c_expr(e@));
            }
        },
        Expression::Call { .. } => {
            out.append("0");
            proof {
                assert(out@ =~= old(out)@ + c_expr(e@));
            }
        },
    }
}

/// Appends the C renderings of `es[i..]`, comma-separated, to `out`.
fn write_c_exprs(es: &Vec<Expression>, i: usize, out: &mut String)
    ensures
        final(out)@ == old(out)@ + c_exprs(crate::ast::exprs_view(es@), i as int),
    decreases *es, 2int, es@.len() - i,
{
    proof {
        crate::ast::lemma_exprs_view(es@);
        reveal_strlit(", ");
    }
    if i >= es.len() {
        proof {
            assert(out@ =~= old(out)@ + c_exprs(crate::ast::exprs_view(es@), i as int));
        }
    } else {
        write_c_expr(&es[i], out);
        if i + 1 < es.len() {
            out.append(", ");
            write_c_exprs(es, i + 1, out);
        }
        proof {
            assert(out@ =~= old(out)@ + c_exprs(crate::ast::exprs_view(es@), i as int));
        }
    }
}

/// Appends the parameters `ps[i..]`, comma-separated, to `out`.
fn write_c_params(ps: &Vec<String>, i: usize, out: &mut String)
    ensures
        final(out)@ == old(out)@ + c_params(crate::ast::strs_view(ps@), i as int),
    decreases ps@.len() - i,
{
    proof {
        reveal_strlit(", ");
    }
    if i >= ps.len() {
        proof {
            assert(out@ =~= old(out)@ + c_params(crate::ast::strs_view(ps@), i as int));
        }
    } else {
        out.append(ps[i].as_str());
        if i + 1 < ps.len() {
            out.append(", ");
            write_c_params(ps, i + 1, out);
        }
        proof {
            assert(out@ =~= old(out)@ + c_params(crate::ast::strs_view(ps@), i as int));
        }
    }
}

/// Appends the C rendering of `s`, indented by `pre`, to `out`.
fn write_c_stmt(s: &Statement, pre: &String, out: &mut String)
    ensures
        final(out)@ == old(out)@ + c_stmt(s@, pre@),
    decreases *s, 1int, 0int,
{
    proof {
        reveal_strlit("int ");
        reveal_strlit(" = ");
        reveal_strlit(";\n");
        reveal_strlit("printf(\"%d\\n\", ");
        reveal_strlit(");\n");
        reveal_strlit("(");
        reveal_strlit(") {\n");
        reveal_strlit("}\n");
        reveal_strlit("  ");
        reveal_strlit("// TODO: statement\n");
        assert("  "@ =~= seq![' ', ' ']);
    }
    match s {
        Statement::Let { name, value } => {
            out.append(pre.as_str());
            out.append("int ");
            out.append(name.as_str());
            out.append(" = ");
            write_c_expr(value, out);
            out.append(";\n");
            proof {
                assert(out@ =~= old(out)@ + c_stmt(s@, pre@));
            }
        },
        Statement::Print { args } => {
            out.append(pre.as_str());
            out.append("printf(\"%d\\n\", ");
            write_c_exprs(args, 0, out);
            out.append(");\n");
            proof {
                assert(out@ =~= old(out)@ + c_stmt(s@, pre@));
            }
        },
        Statement::Function { name, params, body } => {
            out.append(pre.as_str());
            out.append("int ");
            out.append(name.as_str());
            out.append("(");
            write_c_params(params, 0, out);
            out.append(") {\n");
            let mut pre2 = pre.clone();
            pre2.append("  ");
            proof {
                assert(pre2@ =~= pre@ + "  "@);
            }
            write_c_block(body, 0, &pre2, out);
            out.append(pre.as_str());
            out.append("}\n");
            proof {
                assert(out@ =~= old(out)@ + c_stmt(s@, pre@));
            }
        },
        Statement::If { .. } => {
            out.append(pre.as_str());
            out.append("// TODO: statement\n");
            proof {
                assert(out@ =~= old(out)@ + c_stmt(s@, pre@));
            }
        },
        Statement::For { .. } => {
            out.append(pre.as_str());
            out.append("// TODO: statement\n");
            proof {
                assert(out@ =~= old(out)@ + c_stmt(s@, pre@));
            }
        },
        Statement::Return { .. } => {
            out.append(pre.as_str());
            out.append("// TODO: statement\n");
            proof {
                assert(out@ =~= old(out)@ + c_stmt(s@, pre@));
            }
        },
        Statement::Expression(_) => {
            out.append(pre.as_str());
            out.append("// TODO: statement\n");
            proof {
                assert(out@ =~= old(out)@ + c_stmt(s@, pre@));
            }
        },
    }
}

/// Appends the C renderings of `ss[i..]` to `out`.
fn write_c_block(ss: &Vec<Statement>, i: usize, pre: &String, out: &mut String)
    ensures
        final(out)@ == old(out)@ + c_block(crate::ast::stmts_view(ss@), pre@, i as int),
    decreases *ss, 2int, ss@.len() - i,
{
    proof {
        crate::ast::lemma_stmts_view(ss@);
    }
    if i >= ss.len() {
        proof {
            assert(out@ =~= old(out)@ + c_block(crate::ast::stmts_view(ss@), pre@, i as int));
        }
    } else {
        write_c_stmt(&ss[i], pre, out);
        write_c_block(ss, i + 1, pre, out);
        proof {
            assert(out@ =~= old(out)@ + c_block(crate::ast::stmts_view(ss@), pre@, i as int));
        }
    }
}

/// The native code generator. It renders C; it does not write files.
pub struct Codegen {
}

impl Codegen {
    /// A code generator with no state.
    pub fn new() -> (r: Codegen) {
        Codegen {  }
    }

    /// The placeholder C for a whole program.
    pub fn generate_c(&self, program: &Program) -> (r: String)
        ensures
            r@ == c_program(program@),
    {
        proof {
            reveal_strlit("#include <stdio.h>\n#include <stdlib.h>\n\nint main() {\n");
            reveal_strlit("  return 0;\n}\n");
            reveal_strlit("  ");
        }
        let mut out = String::new();
        out.append("#include <stdio.h>\n#include <stdlib.h>\n\nint main() {\n");
        let pre = String::from_str("  ");
        write_c_block(&program.statements, 0, &pre, &mut out);
        out.append("  return 0;\n}\n");
        proof {
            assert(out@ =~= c_program(program@));
        }
        out
    }
}

} // verus!
