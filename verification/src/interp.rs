//! The interpreter: a tree walk over the program with a single flat
//! mutable mapping from names to 64-bit integers (no scoping — loop and
//! function bodies share the top-level table) and an output buffer that
//! collects what `print` writes. Arithmetic wraps; integer division
//! truncates and rejects a zero divisor; comparisons yield one or zero.

use crate::ast::{BinaryOp, ExprModel, Expression, Program, Statement, StmtModel, UnaryOp};
use crate::chars::{i64_dec, push_i64_dec};
use crate::env::Env;
use crate::errors::{RuntimeError, RuntimeErrorModel};
use vstd::prelude::*;

verus! {

/// The outcome of evaluating an expression: a value, or the first fault.
/// Either way it carries the output text as it stands afterwards, since a
/// call of the built-in `print` inside an expression writes immediately.
pub enum EvalR {
    Val(i64, Seq<char>),
    Fault(RuntimeErrorModel, Seq<char>),
}

/// The outcome of running statements: the name table and output
/// afterwards; a fault keeps what was bound and printed before it.
pub enum StepR {
    Done(Map<Seq<char>, i64>, Seq<char>),
    Fault(RuntimeErrorModel, Map<Seq<char>, i64>, Seq<char>),
}

/// Wrapping 64-bit semantics of a binary operator on two values; division
/// saturates the one overflowing quotient and rejects a zero divisor.
pub open spec fn apply_op(op: BinaryOp, a: i64, b: i64) -> Result<i64, RuntimeErrorModel> {
    match op {
        BinaryOp::Add => Result::Ok(a.wrapping_add(b)),
        BinaryOp::Subtract => Result::Ok(a.wrapping_sub(b)),
        BinaryOp::Multiply => Result::Ok(a.wrapping_mul(b)),
        BinaryOp::Divide => {
            if b == 0 {
                Result::Err(RuntimeErrorModel::DivisionByZero)
            } else {
                match a.checked_div(b) {
                    Option::Some(q) => Result::Ok(q),
                    Option::None => Result::Ok(i64::MIN),
                }
            }
        },
        BinaryOp::Greater => Result::Ok(
            if a > b {
                1
            } else {
                0
            },
        ),
        BinaryOp::Less => Result::Ok(
            if a < b {
                1
            } else {
                0
            },
        ),
        BinaryOp::Equal => Result::Ok(
            if a == b {
                1
            } else {
                0
            },
        ),
    }
}

/// Evaluates an expression to an integer. Strings and floats have no
/// integer value and fault; the only callable name is the built-in
/// `print`, which writes its arguments and yields zero.
pub open spec fn eval(env: Map<Seq<char>, i64>, e: ExprModel, out: Seq<char>) -> EvalR
    decreases e, 1int,
{
    match e {
        ExprModel::Number(n) => {
            if i64::MIN <= n <= i64::MAX {
                EvalR::Val(n as i64, out)
            } else {
                EvalR::Fault(RuntimeErrorModel::UnsupportedExpression, out)
            }
        },
        ExprModel::Float(_) => EvalR::Fault(RuntimeErrorModel::UnsupportedExpression, out),
        ExprModel::StrLit(_) => EvalR::Fault(RuntimeErrorModel::UnsupportedExpression, out),
        ExprModel::Variable(v) => {
            if env.contains_key(v) {
                EvalR::Val(env[v], out)
            } else {
                EvalR::Fault(RuntimeErrorModel::UndefinedVariable(v), out)
            }
        },
        ExprModel::Binary(l, op, r) => match eval(env, *l, out) {
            EvalR::Val(a, out1) => match eval(env, *r, out1) {
                EvalR::Val(b, out2) => match apply_op(op, a, b) {
                    Result::Ok(v) => EvalR::Val(v, out2),
                    Result::Err(err) => EvalR::Fault(err, out2),
                },
                EvalR::Fault(err, out2) => EvalR::Fault(err, out2),
            },
            EvalR::Fault(err, out1) => EvalR::Fault(err, out1),
        },
        ExprModel::Unary(UnaryOp::Negate, inner) => match eval(env, *inner, out) {
            EvalR::Val(v, out1) => EvalR::Val((0 as i64).wrapping_sub(v), out1),
            EvalR::Fault(err, out1) => EvalR::Fault(err, out1),
        },
        ExprModel::Call(name, args) => {
            if name == "print"@ {
                match eval_print_call(env, args, 0, out) {
                    EvalR::Val(_, out1) => EvalR::Val(0, out1 + seq!['\n']),
                    EvalR::Fault(err, out1) => EvalR::Fault(err, out1),
                }
            } else {
                EvalR::Fault(RuntimeErrorModel::UnknownFunction(name), out)
            }
        },
    }
}

/// The built-in `print` call: each argument is evaluated and written at
/// once, followed by one space; a failing argument aborts the call.
pub open spec fn eval_print_call(
    env: Map<Seq<char>, i64>,
    args: Seq<ExprModel>,
    i: int,
    out: Seq<char>,
) -> EvalR
    decreases args, 2int, args.len() - i,
{
    if i < 0 || i >= args.len() {
        EvalR::Val(0, out)
    } else {
        match eval(env, args[i], out) {
            EvalR::Val(v, out1) => eval_print_call(env, args, i + 1, out1 + i64_dec(v as int) + seq![' ']),
            EvalR::Fault(err, out1) => EvalR::Fault(err, out1),
        }
    }
}

/// The pieces a `print` statement renders: each argument evaluated on its
/// own, a failing one shown as a question mark (whatever it already
/// printed stays printed).
pub open spec fn print_pieces(
    env: Map<Seq<char>, i64>,
    args: Seq<ExprModel>,
    i: int,
    out: Seq<char>,
) -> (Seq<Seq<char>>, Seq<char>)
    decreases args, 2int, args.len() - i,
{
    if i < 0 || i >= args.len() {
        (Seq::empty(), out)
    } else {
        match eval(env, args[i], out) {
            EvalR::Val(v, out1) => {
                let r = print_pieces(env, args, i + 1, out1);
                (seq![i64_dec(v as int)] + r.0, r.1)
            },
            EvalR::Fault(_, out1) => {
                let r = print_pieces(env, args, i + 1, out1);
                (seq![seq!['?']] + r.0, r.1)
            },
        }
    }
}

/// Pieces joined by single spaces.
pub open spec fn join_sp(pieces: Seq<Seq<char>>, i: int) -> Seq<char>
    decreases pieces.len() - i,
{
    if i < 0 || i >= pieces.len() {
        Seq::empty()
    } else if i == pieces.len() - 1 {
        pieces[i]
    } else {
        pieces[i] + seq![' '] + join_sp(pieces, i + 1)
    }
}

/// Runs one statement.
pub open spec fn exec_stmt(env: Map<Seq<char>, i64>, s: StmtModel, out: Seq<char>) -> StepR
    decreases s, 2int, 0int,
{
    match s {
        StmtModel::Let { name, value } => match eval(env, value, out) {
            EvalR::Val(v, out1) => StepR::Done(env.insert(name, v), out1),
            EvalR::Fault(err, out1) => StepR::Fault(err, env, out1),
        },
        StmtModel::Print { args } => {
            let r = print_pieces(env, args, 0, out);
            StepR::Done(env, r.1 + join_sp(r.0, 0) + seq!['\n'])
        },
        StmtModel::Function { .. } => StepR::Done(env, out),
        StmtModel::If { condition, then_body, else_body } => match eval(env, condition, out) {
            EvalR::Val(c, out1) => {
                if c != 0 {
                    exec_block(env, then_body, 0, out1)
                } else {
                    match else_body {
                        Option::Some(b) => exec_block(env, b, 0, out1),
                        Option::None => StepR::Done(env, out1),
                    }
                }
            },
            EvalR::Fault(err, out1) => StepR::Fault(err, env, out1),
        },
        StmtModel::For { var, iterable, body } => match eval(env, iterable, out) {
            EvalR::Val(count, out1) => exec_for(env, var, body, 0, count as int, out1),
            EvalR::Fault(err, out1) => StepR::Fault(err, env, out1),
        },
        StmtModel::Return { .. } => StepR::Done(env, out),
        StmtModel::Expr(e) => match eval(env, e, out) {
            EvalR::Val(_, out1) => StepR::Done(env, out1),
            EvalR::Fault(err, out1) => StepR::Fault(err, env, out1),
        },
    }
}

/// Runs the statements of a block from `i` on, in order, stopping at the
/// first fault.
pub open spec fn exec_block(
    env: Map<Seq<char>, i64>,
    ss: Seq<StmtModel>,
    i: int,
    out: Seq<char>,
) -> StepR
    decreases ss, 1int, ss.len() - i,
{
    if i < 0 || i >= ss.len() {
        StepR::Done(env, out)
    } else {
        match exec_stmt(env, ss[i], out) {
            StepR::Done(env1, out1) => exec_block(env1, ss, i + 1, out1),
            StepR::Fault(err, env1, out1) => StepR::Fault(err, env1, out1),
        }
    }
}

/// Runs a `for` body once per induction value from `k` up to `count`,
/// binding the variable before each pass; the binding persists afterwards.
pub open spec fn exec_for(
    env: Map<Seq<char>, i64>,
    var: Seq<char>,
    body: Seq<StmtModel>,
    k: int,
    count: int,
    out: Seq<char>,
) -> StepR
    decreases body, 3int, count - k,
{
    if k >= count || k < 0 || count > i64::MAX {
        StepR::Done(env, out)
    } else {
        let env1 = env.insert(var, k as i64);
        match exec_block(env1, body, 0, out) {
            StepR::Done(env2, out2) => exec_for(env2, var, body, k + 1, count, out2),
            StepR::Fault(err, env2, out2) => StepR::Fault(err, env2, out2),
        }
    }
}

/// Runs a whole program in the given state.
pub open spec fn spec_interpret(
    env: Map<Seq<char>, i64>,
    p: Seq<StmtModel>,
    out: Seq<char>,
) -> StepR {
    exec_block(env, p, 0, out)
}

/// The interpreter: the name table and the output collected so far. Both
/// persist across `interpret` calls, so a later program sees what an
/// earlier one bound.
pub struct Interpreter {
    variables: Env<i64>,
    output: String,
}

impl Interpreter {
    /// The current name table.
    pub closed spec fn vars(self) -> Map<Seq<char>, i64> {
        self.variables@
    }

    /// Everything printed so far.
    pub closed spec fn out(self) -> Seq<char> {
        self.output@
    }

    /// A fresh interpreter: nothing bound, nothing printed.
    pub fn new() -> (r: Interpreter)
        ensures
            r.vars() == Map::<Seq<char>, i64>::empty(),
            r.out() == Seq::<char>::empty(),
    {
        Interpreter { variables: Env::new(), output: String::new() }
    }

    /// The output collected so far, as text.
    pub fn output(&self) -> (r: &String)
        ensures
            r@ == self.out(),
    {
        &self.output
    }

    /// Runs the program's statements in order against the current state;
    /// the first fault stops the run and is returned, with every earlier
    /// binding and line kept.
    pub fn interpret(&mut self, program: &Program) -> (r: Result<(), RuntimeError>)
        ensures
            match r {
                Result::Ok(_) => spec_interpret(old(self).vars(), program@, old(self).out())
                    == StepR::Done(final(self).vars(), final(self).out()),
                Result::Err(e) => spec_interpret(old(self).vars(), program@, old(self).out())
                    == StepR::Fault(e@, final(self).vars(), final(self).out()),
            },
    {
        self.run_block(&program.statements)
    }

    /// Runs the statements of one block in order.
    fn run_block(&mut self, ss: &Vec<Statement>) -> (r: Result<(), RuntimeError>)
        ensures
            match r {
                Result::Ok(_) => exec_block(
                    old(self).vars(),
                    crate::ast::stmts_view(ss@),
                    0,
                    old(self).out(),
                ) == StepR::Done(final(self).vars(), final(self).out()),
                Result::Err(e) => exec_block(
                    old(self).vars(),
                    crate::ast::stmts_view(ss@),
                    0,
                    old(self).out(),
                ) == StepR::Fault(e@, final(self).vars(), final(self).out()),
            },
        decreases *ss, 1int, 0int,
    {
        let ghost sv = crate::ast::stmts_view(ss@);
        proof {
            crate::ast::lemma_stmts_view(ss@);
        }
        let mut i: usize = 0;
        loop
            invariant
                i <= ss@.len(),
                sv == crate::ast::stmts_view(ss@),
                sv.len() == ss@.len(),
                forall|j: int| 0 <= j < ss@.len() ==> sv[j] == crate::ast::stmt_view(ss@[j]),
                exec_block(old(self).vars(), sv, 0, old(self).out()) == exec_block(
                    self.vars(),
                    sv,
                    i as int,
                    self.out(),
                ),
            ensures
                i == ss@.len(),
                sv == crate::ast::stmts_view(ss@),
                exec_block(old(self).vars(), sv, 0, old(self).out()) == exec_block(
                    self.vars(),
                    sv,
                    i as int,
                    self.out(),
                ),
            decreases ss@.len() - i,
        {
            if i >= ss.len() {
                break;
            }
            match self.run_stmt(&ss[i]) {
                Result::Ok(_) => {},
                Result::Err(e) => {
                    return Result::Err(e);
                },
            }
            i = i + 1;
        }
        Result::Ok(())
    }

    /// Runs one statement.
    fn run_stmt(&mut self, s: &Statement) -> (r: Result<(), RuntimeError>)
        ensures
            match r {
                Result::Ok(_) => exec_stmt(old(self).vars(), s@, old(self).out()) == StepR::Done(
                    final(self).vars(),
                    final(self).out(),
                ),
                Result::Err(e) => exec_stmt(old(self).vars(), s@, old(self).out()) == StepR::Fault(
                    e@,
                    final(self).vars(),
                    final(self).out(),
                ),
            },
        decreases *s, 2int, 0int,
    {
        match s {
            Statement::Let { name, value } => {
                let v = match self.eval_expr(value) {
                    Result::Ok(v) => v,
                    Result::Err(e) => {
                        return Result::Err(e);
                    },
                };
                self.variables.insert(name.clone(), v);
                Result::Ok(())
            },
            Statement::Print { args } => {
                let ghost env0 = self.vars();
                let ghost out0 = self.out();
                let ghost av = crate::ast::exprs_view(args@);
                let pieces = self.collect_pieces(args, 0);
                let ghost piecesv = crate::ast::strs_view(pieces@);
                let mut j: usize = 0;
                let mut line = String::new();
                loop
                    invariant
                        j <= pieces@.len(),
                        piecesv == crate::ast::strs_view(pieces@),
                        piecesv.len() == pieces@.len(),
                        forall|m: int| 0 <= m < pieces@.len() ==> piecesv[m] == pieces@[m]@,
                        join_sp(piecesv, 0) == line@ + join_sp(piecesv, j as int),
                    ensures
                        join_sp(piecesv, 0) == line@,
                    decreases pieces@.len() - j,
                {
                    if j >= pieces.len() {
                        proof {
                            assert(line@ + join_sp(piecesv, j as int) =~= line@);
                        }
                        break;
                    }
                    let ghost line0 = line@;
                    line.append(pieces[j].as_str());
                    if j + 1 < pieces.len() {
                        proof {
                            reveal_strlit(" ");
                        }
                        line.append(" ");
                        proof {
                            assert(line0 + (piecesv[j as int] + seq![' '] + join_sp(
                                piecesv,
                                j as int + 1,
                            )) =~= line@ + join_sp(piecesv, j as int + 1));
                        }
                    } else {
                        proof {
                            assert(join_sp(piecesv, j as int + 1) =~= Seq::<char>::empty());
                            assert(line@ + join_sp(piecesv, j as int + 1) =~= line@);
                        }
                    }
                    j = j + 1;
                }
                self.output.append(line.as_str());
                proof {
                    reveal_strlit("\n");
                }
                self.output.append("\n");
                proof {
                    assert(self.out() =~= print_pieces(env0, av, 0, out0).1 + join_sp(piecesv, 0)
                        + seq!['\n']);
                }
                Result::Ok(())
            },
            Statement::Function { .. } => Result::Ok(()),
            Statement::If { condition, then_body, else_body } => {
                let c = match self.eval_expr(condition) {
                    Result::Ok(v) => v,
                    Result::Err(e) => {
                        return Result::Err(e);
                    },
                };
                if c != 0 {
                    self.run_block(then_body)
                } else {
                    match else_body {
                        Option::Some(b) => self.run_block(b),
                        Option::None => Result::Ok(()),
                    }
                }
            },
            Statement::For { var, iterable, body } => {
                let count = match self.eval_expr(iterable) {
                    Result::Ok(v) => v,
                    Result::Err(e) => {
                        return Result::Err(e);
                    },
                };
                self.run_for(var, body, count)
            },
            Statement::Return { .. } => Result::Ok(()),
            Statement::Expression(e) => {
                match self.eval_expr(e) {
                    Result::Ok(_) => Result::Ok(()),
                    Result::Err(err) => Result::Err(err),
                }
            },
        }
    }

    /// Runs a `for` body once per induction value below `count`.
    fn run_for(&mut self, var: &String, body: &Vec<Statement>, count: i64) -> (r: Result<
        (),
        RuntimeError,
    >)
        ensures
            match r {
                Result::Ok(_) => exec_for(
                    old(self).vars(),
                    var@,
                    crate::ast::stmts_view(body@),
                    0,
                    count as int,
                    old(self).out(),
                ) == StepR::Done(final(self).vars(), final(self).out()),
                Result::Err(e) => exec_for(
                    old(self).vars(),
                    var@,
                    crate::ast::stmts_view(body@),
                    0,
                    count as int,
                    old(self).out(),
                ) == StepR::Fault(e@, final(self).vars(), final(self).out()),
            },
        decreases *body, 3int, 0int,
    {
        let ghost bodyv = crate::ast::stmts_view(body@);
        let mut k: i64 = 0;
        loop
            invariant
                0 <= k,
                count > 0 ==> k <= count,
                bodyv == crate::ast::stmts_view(body@),
                exec_for(old(self).vars(), var@, bodyv, 0, count as int, old(self).out())
                    == exec_for(self.vars(), var@, bodyv, k as int, count as int, self.out()),
            ensures
                exec_for(old(self).vars(), var@, bodyv, 0, count as int, old(self).out())
                    == StepR::Done(self.vars(), self.out()),
            decreases count - k,
        {
            if k >= count {
                break;
            }
            self.variables.insert(var.clone(), k);
            match self.run_block(body) {
                Result::Ok(_) => {},
                Result::Err(e) => {
                    return Result::Err(e);
                },
            }
            k = k + 1;
        }
        Result::Ok(())
    }

    /// Renders the arguments of a `print` statement from `i` on: each one
    /// evaluated on its own, a failing one shown as a question mark.
    fn collect_pieces(&mut self, args: &Vec<Expression>, i: usize) -> (pieces: Vec<String>)
        requires
            i <= args@.len(),
        ensures
            final(self).vars() == old(self).vars(),
            ({
                let w = print_pieces(
                    old(self).vars(),
                    crate::ast::exprs_view(args@),
                    i as int,
                    old(self).out(),
                );
                w.0 == crate::ast::strs_view(pieces@) && w.1 == final(self).out()
            }),
        decreases *args, 2int, args@.len() - i,
    {
        proof {
            crate::ast::lemma_exprs_view(args@);
        }
        if i >= args.len() {
            let v: Vec<String> = Vec::new();
            proof {
                assert(crate::ast::strs_view(v@) =~= Seq::<Seq<char>>::empty());
            }
            return v;
        }
        let mut piece = String::new();
        match self.eval_expr(&args[i]) {
            Result::Ok(v) => {
                push_i64_dec(&mut piece, v);
            },
            Result::Err(_) => {
                proof {
                    reveal_strlit("?");
                }
                piece.append("?");
                proof {
                    assert(piece@ =~= seq!['?']);
                }
            },
        }
        let rest = self.collect_pieces(args, i + 1);
        let ghost pv = piece@;
        let mut v: Vec<String> = Vec::new();
        v.push(piece);
        let mut rest = rest;
        let ghost restv = rest@;
        v.append(&mut rest);
        proof {
            assert(v@.len() == 1 + restv.len());
            assert(v@[0]@ == pv);
            assert(forall|m: int| 0 <= m < restv.len() ==> v@[m + 1] == restv[m]);
            assert(crate::ast::strs_view(v@) =~= seq![pv] + crate::ast::strs_view(restv));
        }
        v
    }

    /// The built-in `print` call's argument walk from `i` on.
    fn eval_print_args(&mut self, args: &Vec<Expression>, i: usize) -> (r: Result<
        (),
        RuntimeError,
    >)
        requires
            i <= args@.len(),
        ensures
            final(self).vars() == old(self).vars(),
            match r {
                Result::Ok(_) => eval_print_call(
                    old(self).vars(),
                    crate::ast::exprs_view(args@),
                    i as int,
                    old(self).out(),
                ) == EvalR::Val(0, final(self).out()),
                Result::Err(err) => eval_print_call(
                    old(self).vars(),
                    crate::ast::exprs_view(args@),
                    i as int,
                    old(self).out(),
                ) == EvalR::Fault(err@, final(self).out()),
            },
        decreases *args, 2int, args@.len() - i,
    {
        proof {
            crate::ast::lemma_exprs_view(args@);
        }
        if i >= args.len() {
            return Result::Ok(());
        }
        let v = match self.eval_expr(&args[i]) {
            Result::Ok(v) => v,
            Result::Err(err) => {
                return Result::Err(err);
            },
        };
        let ghost mid = self.out();
        push_i64_dec(&mut self.output, v);
        proof {
            reveal_strlit(" ");
        }
        self.output.append(" ");
        proof {
            assert(self.out() =~= mid + i64_dec(v as int) + seq![' ']);
        }
        self.eval_print_args(args, i + 1)
    }

    /// Evaluates one expression; only the output can change.
    fn eval_expr(&mut self, e: &Expression) -> (r: Result<i64, RuntimeError>)
        ensures
            final(self).vars() == old(self).vars(),
            match r {
                Result::Ok(v) => eval(old(self).vars(), e@, old(self).out()) == EvalR::Val(
                    v,
                    final(self).out(),
                ),
                Result::Err(err) => eval(old(self).vars(), e@, old(self).out()) == EvalR::Fault(
                    err@,
                    final(self).out(),
                ),
            },
        decreases *e, 1int, 0int,
    {
        match e {
            Expression::Number(n) => Result::Ok(*n),
            Expression::Float(_) => Result::Err(RuntimeError::UnsupportedExpression),
            Expression::String(_) => Result::Err(RuntimeError::UnsupportedExpression),
            Expression::Variable(v) => {
                match self.variables.get(v.as_str()) {
                    Option::Some(val) => Result::Ok(*val),
                    Option::None => Result::Err(RuntimeError::UndefinedVariable(v.clone())),
                }
            },
            Expression::Binary { left, op, right } => {
                let a = match self.eval_expr(left) {
                    Result::Ok(v) => v,
                    Result::Err(err) => {
                        return Result::Err(err);
                    },
                };
                let b = match self.eval_expr(right) {
                    Result::Ok(v) => v,
                    Result::Err(err) => {
                        return Result::Err(err);
                    },
                };
                match op {
                    BinaryOp::Add => Result::Ok(a.wrapping_add(b)),
                    BinaryOp::Subtract => Result::Ok(a.wrapping_sub(b)),
                    BinaryOp::Multiply => Result::Ok(a.wrapping_mul(b)),
                    BinaryOp::Divide => {
                        if b == 0 {
                            Result::Err(RuntimeError::DivisionByZero)
                        } else {
                            match a.checked_div(b) {
                                Option::Some(q) => Result::Ok(q),
                                Option::None => Result::Ok(i64::MIN),
                            }
                        }
                    },
                    BinaryOp::Greater => Result::Ok(
                        if a > b {
                            1
                        } else {
                            0
                        },
                    ),
                    BinaryOp::Less => Result::Ok(
                        if a < b {
                            1
                        } else {
                            0
                        },
                    ),
                    BinaryOp::Equal => Result::Ok(
                        if a == b {
                            1
                        } else {
                            0
                        },
                    ),
                }
            },
            Expression::Unary { op: UnaryOp::Negate, expr } => {
                let v = match self.eval_expr(expr) {
                    Result::Ok(v) => v,
                    Result::Err(err) => {
                        return Result::Err(err);
                    },
                };
                Result::Ok((0 as i64).wrapping_sub(v))
            },
            Expression::Call { name, args } => {
                if crate::chars::str_eq(name.as_str(), "print") {
                    match self.eval_print_args(args, 0) {
                        Result::Ok(_) => {},
                        Result::Err(err) => {
                            return Result::Err(err);
                        },
                    }
                    let ghost outb = self.out();
                    proof {
                        reveal_strlit("\n");
                    }
                    self.output.append("\n");
                    proof {
                        assert(self.out() =~= outb + seq!['\n']);
                    }
                    Result::Ok(0)
                } else {
                    Result::Err(RuntimeError::UnknownFunction(name.clone()))
                }
            },
        }
    }
}

} // verus!
