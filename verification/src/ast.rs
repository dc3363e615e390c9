//! The abstract syntax tree: a closed set of statement and expression
//! shapes, plus the deterministic pretty-printer (`format`) that renders a
//! tree back to source text, with tabs for indentation and a double space
//! between sibling tokens on a line.

use crate::chars::i64_dec;
use vstd::prelude::*;

verus! {

/// A binary operator, with its precedence tier.
#[derive(Debug, Clone, Copy, PartialEq, Eq)]
pub enum BinaryOp {
    Add,
    Subtract,
    Multiply,
    Divide,
    Greater,
    Less,
    Equal,
}

/// A unary operator.
#[derive(Debug, Clone, Copy, PartialEq, Eq)]
pub enum UnaryOp {
    Negate,
}

/// An expression node. Children are owned and never shared.
#[derive(Debug, PartialEq)]
pub enum Expression {
    /// An integer literal.
    Number(i64),
    /// A float literal; only its integral part is retained by the pipeline,
    /// so that is what the node carries.
    Float(i64),
    /// A string literal, already unescaped.
    String(String),
    /// A variable reference.
    Variable(String),
    Binary { left: Box<Expression>, op: BinaryOp, right: Box<Expression> },
    Unary { op: UnaryOp, expr: Box<Expression> },
    Call { name: String, args: Vec<Expression> },
}

/// A statement node.
#[derive(Debug, PartialEq)]
pub enum Statement {
    Let { name: String, value: Expression },
    Function { name: String, params: Vec<String>, body: Vec<Statement> },
    If { condition: Expression, then_body: Vec<Statement>, else_body: Option<Vec<Statement>> },
    For { var: String, iterable: Expression, body: Vec<Statement> },
    Print { args: Vec<Expression> },
    Return { value: Option<Expression> },
    Expression(Expression),
}

/// An ordered sequence of statements; statement order is execution order.
#[derive(Debug, PartialEq)]
pub struct Program {
    pub statements: Vec<Statement>,
}

/// The mathematical value of an expression node.
pub enum ExprModel {
    Number(int),
    Float(int),
    StrLit(Seq<char>),
    Variable(Seq<char>),
    Binary(Box<ExprModel>, BinaryOp, Box<ExprModel>),
    Unary(UnaryOp, Box<ExprModel>),
    Call(Seq<char>, Seq<ExprModel>),
}

/// The mathematical value of a statement node.
pub enum StmtModel {
    Let { name: Seq<char>, value: ExprModel },
    Function { name: Seq<char>, params: Seq<Seq<char>>, body: Seq<StmtModel> },
    If { condition: ExprModel, then_body: Seq<StmtModel>, else_body: Option<Seq<StmtModel>> },
    For { var: Seq<char>, iterable: ExprModel, body: Seq<StmtModel> },
    Print { args: Seq<ExprModel> },
    Return { value: Option<ExprModel> },
    Expr(ExprModel),
}

pub open spec fn expr_view(e: Expression) -> ExprModel
    decreases e,
{
    match e {
        Expression::Number(n) => ExprModel::Number(n as int),
        Expression::Float(n) => ExprModel::Float(n as int),
        Expression::String(s) => ExprModel::StrLit(s@),
        Expression::Variable(v) => ExprModel::Variable(v@),
        Expression::Binary { left, op, right } => ExprModel::Binary(
            Box::new(expr_view(*left)),
            op,
            Box::new(expr_view(*right)),
        ),
        Expression::Unary { op, expr } => ExprModel::Unary(op, Box::new(expr_view(*expr))),
        Expression::Call { name, args } => ExprModel::Call(name@, exprs_view_from(args@, 0)),
    }
}

pub open spec fn exprs_view_from(es: Seq<Expression>, i: int) -> Seq<ExprModel>
    decreases es, es.len() - i,
{
    if i < 0 || i >= es.len() {
        Seq::empty()
    } else {
        seq![expr_view(es[i])] + exprs_view_from(es, i + 1)
    }
}

pub open spec fn exprs_view(es: Seq<Expression>) -> Seq<ExprModel> {
    exprs_view_from(es, 0)
}

/// The views of a parameter list.
pub open spec fn strs_view(ss: Seq<String>) -> Seq<Seq<char>> {
    Seq::new(ss.len(), |i: int| ss[i]@)
}

pub open spec fn stmt_view(s: Statement) -> StmtModel
    decreases s,
{
    match s {
        Statement::Let { name, value } => StmtModel::Let { name: name@, value: expr_view(value) },
        Statement::Function { name, params, body } => StmtModel::Function {
            name: name@,
            params: strs_view(params@),
            body: stmts_view_from(body@, 0),
        },
        Statement::If { condition, then_body, else_body } => StmtModel::If {
            condition: expr_view(condition),
            then_body: stmts_view_from(then_body@, 0),
            else_body: match else_body {
                Option::Some(b) => Option::Some(stmts_view_from(b@, 0)),
                Option::None => Option::None,
            },
        },
        Statement::For { var, iterable, body } => StmtModel::For {
            var: var@,
            iterable: expr_view(iterable),
            body: stmts_view_from(body@, 0),
        },
        Statement::Print { args } => StmtModel::Print { args: exprs_view_from(args@, 0) },
        Statement::Return { value } => StmtModel::Return {
            value: match value {
                Option::Some(e) => Option::Some(expr_view(e)),
                Option::None => Option::None,
            },
        },
        Statement::Expression(e) => StmtModel::Expr(expr_view(e)),
    }
}

pub open spec fn stmts_view_from(ss: Seq<Statement>, i: int) -> Seq<StmtModel>
    decreases ss, ss.len() - i,
{
    if i < 0 || i >= ss.len() {
        Seq::empty()
    } else {
        seq![stmt_view(ss[i])] + stmts_view_from(ss, i + 1)
    }
}

pub open spec fn stmts_view(ss: Seq<Statement>) -> Seq<StmtModel> {
    stmts_view_from(ss, 0)
}

impl View for Expression {
    type V = ExprModel;

    open spec fn view(&self) -> ExprModel {
        expr_view(*self)
    }
}

impl View for Statement {
    type V = StmtModel;

    open spec fn view(&self) -> StmtModel {
        stmt_view(*self)
    }
}

impl View for Program {
    type V = Seq<StmtModel>;

    open spec fn view(&self) -> Seq<StmtModel> {
        stmts_view(self.statements@)
    }
}

pub proof fn lemma_exprs_view_from(es: Seq<Expression>, i: int)
    requires
        0 <= i <= es.len(),
    ensures
        exprs_view_from(es, i).len() == es.len() - i,
        forall|j: int|
            i <= j < es.len() ==> exprs_view_from(es, i)[j - i] == expr_view(es[j]),
    decreases es.len() - i,
{
    if i < es.len() {
        lemma_exprs_view_from(es, i + 1);
    }
}

pub proof fn lemma_exprs_view(es: Seq<Expression>)
    ensures
        exprs_view(es).len() == es.len(),
        forall|j: int| 0 <= j < es.len() ==> exprs_view(es)[j] == expr_view(es[j]),
{
    lemma_exprs_view_from(es, 0);
}

pub proof fn lemma_stmts_view_from(ss: Seq<Statement>, i: int)
    requires
        0 <= i <= ss.len(),
    ensures
        stmts_view_from(ss, i).len() == ss.len() - i,
        forall|j: int|
            i <= j < ss.len() ==> stmts_view_from(ss, i)[j - i] == stmt_view(ss[j]),
    decreases ss.len() - i,
{
    if i < ss.len() {
        lemma_stmts_view_from(ss, i + 1);
    }
}

pub proof fn lemma_stmts_view(ss: Seq<Statement>)
    ensures
        stmts_view(ss).len() == ss.len(),
        forall|j: int| 0 <= j < ss.len() ==> stmts_view(ss)[j] == stmt_view(ss[j]),
{
    lemma_stmts_view_from(ss, 0);
}

/// The precedence tier of a binary operator: multiplicative 2, additive 1,
/// relational 0.
pub open spec fn spec_precedence(op: BinaryOp) -> int {
    match op {
        BinaryOp::Add | BinaryOp::Subtract => 1,
        BinaryOp::Multiply | BinaryOp::Divide => 2,
        BinaryOp::Greater | BinaryOp::Less | BinaryOp::Equal => 0,
    }
}

/// The surface spelling of a binary operator.
pub open spec fn fmt_op(op: BinaryOp) -> Seq<char> {
    match op {
        BinaryOp::Add => seq!['+'],
        BinaryOp::Subtract => seq!['-'],
        BinaryOp::Multiply => seq!['*'],
        BinaryOp::Divide => seq!['/'],
        BinaryOp::Greater => seq!['>'],
        BinaryOp::Less => seq!['<'],
        BinaryOp::Equal => seq!['=', '='],
    }
}

/// The surface spelling of a unary operator.
pub open spec fn fmt_unop(op: UnaryOp) -> Seq<char> {
    match op {
        UnaryOp::Negate => seq!['-'],
    }
}

/// The rendering of an expression.
pub open spec fn fmt_expr(e: ExprModel) -> Seq<char>
    decreases e,
{
    match e {
        ExprModel::Number(n) => i64_dec(n),
        ExprModel::Float(n) => i64_dec(n),
        ExprModel::StrLit(s) => seq!['"'] + s + seq!['"'],
        ExprModel::Variable(v) => v,
        ExprModel::Binary(l, op, r) => fmt_expr(*l) + seq![' '] + fmt_op(op) + seq![' ']
            + fmt_expr(*r),
        ExprModel::Unary(op, inner) => fmt_unop(op) + fmt_expr(*inner),
        ExprModel::Call(name, args) => name + seq![' '] + fmt_exprs(args, 0),
    }
}

/// The rendering of an expression list, two spaces between neighbours.
pub open spec fn fmt_exprs(es: Seq<ExprModel>, i: int) -> Seq<char>
    decreases es, es.len() - i,
{
    if i < 0 || i >= es.len() {
        Seq::empty()
    } else if i == es.len() - 1 {
        fmt_expr(es[i])
    } else {
        fmt_expr(es[i]) + seq![' ', ' '] + fmt_exprs(es, i + 1)
    }
}

/// The rendering of a parameter list, two spaces between neighbours.
pub open spec fn fmt_params(ps: Seq<Seq<char>>, i: int) -> Seq<char>
    decreases ps.len() - i,
{
    if i < 0 || i >= ps.len() {
        Seq::empty()
    } else if i == ps.len() - 1 {
        ps[i]
    } else {
        ps[i] + seq![' ', ' '] + fmt_params(ps, i + 1)
    }
}

/// The rendering of a statement. `pre` is the indentation prefix of the
/// statement's line; nested blocks deepen it by one tab.
pub open spec fn fmt_stmt(s: StmtModel, pre: Seq<char>) -> Seq<char>
    decreases s,
{
    match s {
        StmtModel::Let { name, value } => pre + "let "@ + name + "  "@ + fmt_expr(value),
        StmtModel::Function { name, params, body } => pre + "func "@ + name + " "@ + fmt_params(
            params,
            0,
        ) + "\n"@ + fmt_stmts(body, pre + "\t"@, 0),
        StmtModel::If { condition, then_body, else_body } => pre + "if "@ + fmt_expr(condition)
            + "\n"@ + fmt_stmts(then_body, pre + "\t"@, 0) + match else_body {
            Option::Some(e) => "\n"@ + pre + "else\n"@ + fmt_stmts(e, pre + "\t"@, 0),
            Option::None => Seq::empty(),
        },
        StmtModel::For { var, iterable, body } => pre + "for "@ + var + " in "@ + fmt_expr(
            iterable,
        ) + "\n"@ + fmt_stmts(body, pre + "\t"@, 0),
        StmtModel::Print { args } => pre + "print "@ + fmt_exprs(args, 0),
        StmtModel::Return { value } => match value {
            Option::Some(v) => pre + "return "@ + fmt_expr(v),
            Option::None => pre + "return"@,
        },
        StmtModel::Expr(e) => pre + fmt_expr(e),
    }
}

/// The rendering of a statement list, one statement per line, joined by
/// newlines (no trailing newline of its own).
pub open spec fn fmt_stmts(ss: Seq<StmtModel>, pre: Seq<char>, i: int) -> Seq<char>
    decreases ss, ss.len() - i,
{
    if i < 0 || i >= ss.len() {
        Seq::empty()
    } else if i == ss.len() - 1 {
        fmt_stmt(ss[i], pre)
    } else {
        fmt_stmt(ss[i], pre) + seq!['\n'] + fmt_stmts(ss, pre, i + 1)
    }
}

/// The rendering of a whole program.
pub open spec fn fmt_program(p: Seq<StmtModel>) -> Seq<char> {
    fmt_stmts(p, Seq::empty(), 0)
}

/// An indentation prefix of `n` tabs.
pub open spec fn tabs(n: nat) -> Seq<char>
    decreases n,
{
    if n == 0 {
        Seq::empty()
    } else {
        tabs((n - 1) as nat) + seq!['\t']
    }
}

impl BinaryOp {
    /// Precedence for the precedence-climbing parser: `*` and `/` bind at 2,
    /// `+` and `-` at 1, the relational tier at 0.
    pub fn precedence(&self) -> (p: u8)
        ensures
            p as int == spec_precedence(*self),
    {
        match self {
            BinaryOp::Add | BinaryOp::Subtract => 1,
            BinaryOp::Multiply | BinaryOp::Divide => 2,
            BinaryOp::Greater | BinaryOp::Less | BinaryOp::Equal => 0,
        }
    }

    /// The operator's surface spelling.
    pub fn format(&self) -> (s: String)
        ensures
            s@ == fmt_op(*self),
    {
        proof {
            reveal_strlit("+");
            reveal_strlit("-");
            reveal_strlit("*");
            reveal_strlit("/");
            reveal_strlit(">");
            reveal_strlit("<");
            reveal_strlit("==");
        }
        let s = match self {
            BinaryOp::Add => String::from_str("+"),
            BinaryOp::Subtract => String::from_str("-"),
            BinaryOp::Multiply => String::from_str("*"),
            BinaryOp::Divide => String::from_str("/"),
            BinaryOp::Greater => String::from_str(">"),
            BinaryOp::Less => String::from_str("<"),
            BinaryOp::Equal => String::from_str("=="),
        };
        proof {
            assert(s@ =~= fmt_op(*self));
        }
        s
    }
}

impl UnaryOp {
    /// The operator's surface spelling.
    pub fn format(&self) -> (s: String)
        ensures
            s@ == fmt_unop(*self),
    {
        proof {
            reveal_strlit("-");
        }
        let s = match self {
            UnaryOp::Negate => String::from_str("-"),
        };
        proof {
            assert(s@ =~= fmt_unop(*self));
        }
        s
    }
}

/// The indentation prefix one tab deeper than `pre`.
fn deeper(pre: &String) -> (r: String)
    ensures
        r@ == pre@ + seq!['\t'],
{
    proof {
        reveal_strlit("\t");
    }
    let mut r = pre.clone();
    r.append("\t");
    proof {
        assert(r@ =~= pre@ + seq!['\t']);
    }
    r
}

/// Appends the rendering of `e` to `out`.
fn write_expr(e: &Expression, out: &mut String)
    ensures
        final(out)@ == old(out)@ + fmt_expr(e@),
    decreases *e,
{
    proof {
        reveal_strlit("\"");
        reveal_strlit(" ");
    }
    match e {
        Expression::Number(n) => {
            crate::chars::push_i64_dec(out, *n);
        },
        Expression::Float(n) => {
            crate::chars::push_i64_dec(out, *n);
        },
        Expression::String(s) => {
            out.append("\"");
            out.append(s.as_str());
            out.append("\"");
            proof {
                assert(out@ =~= old(out)@ + fmt_expr(e@));
            }
        },
        Expression::Variable(v) => {
            out.append(v.as_str());
        },
        Expression::Binary { left, op, right } => {
            write_expr(left, out);
            out.append(" ");
            let ops = op.format();
            out.append(ops.as_str());
            out.append(" ");
            write_expr(right, out);
            proof {
                assert(out@ =~= old(out)@ + fmt_expr(e@));
            }
        },
        Expression::Unary { op, expr } => {
            let ops = op.format();
            out.append(ops.as_str());
            write_expr(expr, out);
            proof {
                assert(out@ =~= old(out)@ + fmt_expr(e@));
            }
        },
        Expression::Call { name, args } => {
            out.append(name.as_str());
            out.append(" ");
            write_exprs(args, 0, out);
            proof {
                assert(out@ =~= old(out)@ + fmt_expr(e@));
            }
        },
    }
}

/// Appends the rendering of `es[i..]` to `out`, two spaces between
/// neighbours.
fn write_exprs(es: &Vec<Expression>, i: usize, out: &mut String)
    ensures
        final(out)@ == old(out)@ + fmt_exprs(exprs_view(es@), i as int),
    decreases *es, es@.len() - i,
{
    proof {
        lemma_exprs_view(es@);
        reveal_strlit("  ");
    }
    if i >= es.len() {
        proof {
            assert(out@ =~= old(out)@ + fmt_exprs(exprs_view(es@), i as int));
        }
    } else {
        write_expr(&es[i], out);
        if i + 1 < es.len() {
            out.append("  ");
            write_exprs(es, i + 1, out);
        }
        proof {
            assert(out@ =~= old(out)@ + fmt_exprs(exprs_view(es@), i as int));
        }
    }
}

/// Appends the rendering of `ps[i..]` to `out`, two spaces between
/// neighbours.
fn write_params(ps: &Vec<String>, i: usize, out: &mut String)
    ensures
        final(out)@ == old(out)@ + fmt_params(strs_view(ps@), i as int),
    decreases ps@.len() - i,
{
    proof {
        reveal_strlit("  ");
    }
    if i >= ps.len() {
        proof {
            assert(out@ =~= old(out)@ + fmt_params(strs_view(ps@), i as int));
        }
    } else {
        out.append(ps[i].as_str());
        if i + 1 < ps.len() {
            out.append("  ");
            write_params(ps, i + 1, out);
        }
        proof {
            assert(out@ =~= old(out)@ + fmt_params(strs_view(ps@), i as int));
        }
    }
}

/// Appends the rendering of `s`, indented by `pre`, to `out`.
fn write_stmt(s: &Statement, pre: &String, out: &mut String)
    ensures
        final(out)@ == old(out)@ + fmt_stmt(s@, pre@),
    decreases *s,
{
    proof {
        reveal_strlit("let ");
        reveal_strlit("  ");
        reveal_strlit("func ");
        reveal_strlit(" ");
        reveal_strlit("\n");
        reveal_strlit("if ");
        reveal_strlit("else\n");
        reveal_strlit("for ");
        reveal_strlit(" in ");
        reveal_strlit("print ");
        reveal_strlit("return ");
        reveal_strlit("return");
        reveal_strlit("\t");
        assert("\t"@ =~= seq!['\t']);
        assert("\n"@ =~= seq!['\n']);
    }
    match s {
        Statement::Let { name, value } => {
            out.append(pre.as_str());
            out.append("let ");
            out.append(name.as_str());
            out.append("  ");
            write_expr(value, out);
            proof {
                assert(out@ =~= old(out)@ + fmt_stmt(s@, pre@));
            }
        },
        Statement::Function { name, params, body } => {
            out.append(pre.as_str());
            out.append("func ");
            out.append(name.as_str());
            out.append(" ");
            write_params(params, 0, out);
            out.append("\n");
            let pre2 = deeper(pre);
            write_stmts(body, 0, &pre2, out);
            proof {
                assert(out@ =~= old(out)@ + fmt_stmt(s@, pre@));
            }
        },
        Statement::If { condition, then_body, else_body } => {
            out.append(pre.as_str());
            out.append("if ");
            write_expr(condition, out);
            out.append("\n");
            let pre2 = deeper(pre);
            write_stmts(then_body, 0, &pre2, out);
            match else_body {
                Option::Some(e) => {
                    out.append("\n");
                    out.append(pre.as_str());
                    out.append("else\n");
                    write_stmts(e, 0, &pre2, out);
                },
                Option::None => {},
            }
            proof {
                assert(out@ =~= old(out)@ + fmt_stmt(s@, pre@));
            }
        },
        Statement::For { var, iterable, body } => {
            out.append(pre.as_str());
            out.append("for ");
            out.append(var.as_str());
            out.append(" in ");
            write_expr(iterable, out);
            out.append("\n");
            let pre2 = deeper(pre);
            write_stmts(body, 0, &pre2, out);
            proof {
                assert(out@ =~= old(out)@ + fmt_stmt(s@, pre@));
            }
        },
        Statement::Print { args } => {
            out.append(pre.as_str());
            out.append("print ");
            write_exprs(args, 0, out);
            proof {
                assert(out@ =~= old(out)@ + fmt_stmt(s@, pre@));
            }
        },
        Statement::Return { value } => {
            out.append(pre.as_str());
            match value {
                Option::Some(v) => {
                    out.append("return ");
                    write_expr(v, out);
                },
                Option::None => {
                    out.append("return");
                },
            }
            proof {
                assert(out@ =~= old(out)@ + fmt_stmt(s@, pre@));
            }
        },
        Statement::Expression(e) => {
            out.append(pre.as_str());
            write_expr(e, out);
            proof {
                assert(out@ =~= old(out)@ + fmt_stmt(s@, pre@));
            }
        },
    }
}

/// Appends the rendering of `ss[i..]`, one statement per line, to `out`.
fn write_stmts(ss: &Vec<Statement>, i: usize, pre: &String, out: &mut String)
    ensures
        final(out)@ == old(out)@ + fmt_stmts(stmts_view(ss@), pre@, i as int),
    decreases *ss, ss@.len() - i,
{
    proof {
        lemma_stmts_view(ss@);
        reveal_strlit("\n");
    }
    if i >= ss.len() {
        proof {
            assert(out@ =~= old(out)@ + fmt_stmts(stmts_view(ss@), pre@, i as int));
        }
    } else {
        write_stmt(&ss[i], pre, out);
        if i + 1 < ss.len() {
            out.append("\n");
            write_stmts(ss, i + 1, pre, out);
        }
        proof {
            assert(out@ =~= old(out)@ + fmt_stmts(stmts_view(ss@), pre@, i as int));
        }
    }
}

impl Expression {
    /// Renders the expression as source text.
    pub fn format(&self) -> (r: String)
        ensures
            r@ == fmt_expr(self@),
    {
        let mut out = String::new();
        write_expr(self, &mut out);
        out
    }
}

impl Statement {
    /// Renders the statement as source text, indented by `indent` tabs.
    pub fn format(&self, indent: usize) -> (r: String)
        ensures
            r@ == fmt_stmt(self@, tabs(indent as nat)),
    {
        proof {
            reveal_strlit("\t");
        }
        let mut pre = String::new();
        let mut j: usize = 0;
        while j < indent
            invariant
                j <= indent,
                pre@ =~= tabs(j as nat),
            decreases indent - j,
        {
            pre.append("\t");
            proof {
                reveal_strlit("\t");
                assert(pre@ =~= tabs((j + 1) as nat));
            }
            j = j + 1;
        }
        let mut out = String::new();
        write_stmt(self, &pre, &mut out);
        out
    }
}

impl Program {
    /// Renders the whole program as source text; top-level statements start
    /// at the left margin, one per line.
    pub fn format(&self) -> (r: String)
        ensures
            r@ == fmt_program(self@),
    {
        let pre = String::new();
        let mut out = String::new();
        write_stmts(&self.statements, 0, &pre, &mut out);
        out
    }
}

} // verus!
