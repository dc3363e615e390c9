//! The parser: recursive descent over the token sequence, with precedence
//! climbing for binary expressions and an indentation rule that reads the
//! layout tokens directly. A header line (`func`, `if`, `for`) ends in a
//! newline; its body is the run of following lines that start with a tab,
//! each statement one level deeper than its header.

use crate::ast::{BinaryOp, ExprModel, Expression, Program, Statement, StmtModel, UnaryOp};
use crate::errors::ParseError;
use crate::lexer::{TokenAt, TokenModel, TokenWithPos, Token};
use vstd::prelude::*;

verus! {

/// The outcome of one parsing step: a value and the cursor after it, or
/// the first grammar failure.
pub enum Parsed<T> {
    Done(T, int),
    Fail(ParseError),
}

/// The token kinds of a positioned token sequence; the parser never reads
/// positions.
pub open spec fn tok_models(v: Seq<TokenWithPos>) -> Seq<TokenModel> {
    Seq::new(v.len(), |i: int| v[i].token@)
}

/// The cursor is at the end when it has left the sequence or rests on
/// `Eof`.
pub open spec fn at_end(t: Seq<TokenModel>, i: int) -> bool {
    i < 0 || i >= t.len() || t[i] is Eof
}

/// The word under the cursor, if any.
pub open spec fn word_at(t: Seq<TokenModel>, i: int) -> Option<Seq<char>> {
    if 0 <= i < t.len() {
        match t[i] {
            TokenModel::Word(w) => Option::Some(w),
            _ => Option::None,
        }
    } else {
        Option::None
    }
}

/// True when the cursor rests on the given token kind (never true at the
/// end of the sequence).
pub open spec fn is_kind_space(t: Seq<TokenModel>, i: int) -> bool {
    0 <= i < t.len() && t[i] is Space
}

pub open spec fn is_kind_tab(t: Seq<TokenModel>, i: int) -> bool {
    0 <= i < t.len() && t[i] is Tab
}

pub open spec fn is_kind_newline(t: Seq<TokenModel>, i: int) -> bool {
    0 <= i < t.len() && t[i] is Newline
}

/// Skips the run of spaces and tabs under the cursor: the separators
/// between tokens within a line (a tab may separate a binding's name from
/// its value, as well as indent a block).
pub open spec fn skip_ws(t: Seq<TokenModel>, i: int) -> int
    decreases t.len() - i,
{
    if is_kind_space(t, i) || is_kind_tab(t, i) {
        skip_ws(t, i + 1)
    } else {
        i
    }
}

/// Skips the run of newlines under the cursor.
pub open spec fn skip_nl(t: Seq<TokenModel>, i: int) -> int
    decreases t.len() - i,
{
    if is_kind_newline(t, i) {
        skip_nl(t, i + 1)
    } else {
        i
    }
}

pub proof fn lemma_skip_ws(t: Seq<TokenModel>, i: int)
    requires
        0 <= i <= t.len(),
    ensures
        i <= skip_ws(t, i) <= t.len(),
        forall|k: int| i <= k < skip_ws(t, i) ==> (t[k] is Space || t[k] is Tab),
        skip_ws(t, i) < t.len() ==> !(t[skip_ws(t, i)] is Space) && !(t[skip_ws(t, i)] is Tab),
    decreases t.len() - i,
{
    if is_kind_space(t, i) || is_kind_tab(t, i) {
        lemma_skip_ws(t, i + 1);
    }
}

pub proof fn lemma_skip_nl(t: Seq<TokenModel>, i: int)
    requires
        0 <= i <= t.len(),
    ensures
        i <= skip_nl(t, i) <= t.len(),
        forall|k: int| i <= k < skip_nl(t, i) ==> t[k] is Newline,
        skip_nl(t, i) < t.len() ==> !(t[skip_nl(t, i)] is Newline),
    decreases t.len() - i,
{
    if is_kind_newline(t, i) {
        lemma_skip_nl(t, i + 1);
    }
}

/// One required space.
pub open spec fn expect_space(t: Seq<TokenModel>, i: int) -> Parsed<()> {
    if is_kind_space(t, i) {
        Parsed::Done((), i + 1)
    } else {
        Parsed::Fail(ParseError::ExpectedSpace)
    }
}

/// One required newline.
pub open spec fn expect_newline(t: Seq<TokenModel>, i: int) -> Parsed<()> {
    if is_kind_newline(t, i) {
        Parsed::Done((), i + 1)
    } else {
        Parsed::Fail(ParseError::ExpectedNewline)
    }
}

/// A newline (consumed) or the end of the stream (left in place).
pub open spec fn expect_newline_or_eof(t: Seq<TokenModel>, i: int) -> Parsed<()> {
    if is_kind_newline(t, i) {
        Parsed::Done((), i + 1)
    } else if at_end(t, i) {
        Parsed::Done((), i)
    } else {
        Parsed::Fail(ParseError::ExpectedNewlineOrEof)
    }
}

/// One required word, yielding its text.
pub open spec fn expect_word(t: Seq<TokenModel>, i: int) -> Parsed<Seq<char>> {
    match word_at(t, i) {
        Option::Some(w) => Parsed::Done(w, i + 1),
        Option::None => Parsed::Fail(ParseError::ExpectedWord),
    }
}

/// The binary operator spelled by a word, if any.
pub open spec fn op_of_word(w: Seq<char>) -> Option<BinaryOp> {
    if w == "+"@ {
        Option::Some(BinaryOp::Add)
    } else if w == "-"@ {
        Option::Some(BinaryOp::Subtract)
    } else if w == "*"@ {
        Option::Some(BinaryOp::Multiply)
    } else if w == "/"@ {
        Option::Some(BinaryOp::Divide)
    } else if w == ">"@ {
        Option::Some(BinaryOp::Greater)
    } else if w == "<"@ {
        Option::Some(BinaryOp::Less)
    } else if w == "=="@ {
        Option::Some(BinaryOp::Equal)
    } else {
        Option::None
    }
}

/// The binary operator under the cursor, if any.
pub open spec fn op_at(t: Seq<TokenModel>, i: int) -> Option<BinaryOp> {
    match word_at(t, i) {
        Option::Some(w) => op_of_word(w),
        Option::None => Option::None,
    }
}

/// A primary expression: a literal, or a word that becomes a call when a
/// space follows it (its arguments run to the end of the line) and a
/// variable otherwise.
pub open spec fn parse_primary(t: Seq<TokenModel>, i: int) -> Parsed<ExprModel>
    decreases t.len() - i, 1int,
{
    if 0 <= i < t.len() {
        match t[i] {
            TokenModel::Number(n) => Parsed::Done(ExprModel::Number(n), i + 1),
            TokenModel::Float(n) => Parsed::Done(ExprModel::Float(n), i + 1),
            TokenModel::StrLit(s) => Parsed::Done(ExprModel::StrLit(s), i + 1),
            TokenModel::Word(w) => {
                if is_kind_space(t, i + 1) {
                    let k = skip_ws(t, i + 1);
                    if i < k <= t.len() {
                        match parse_call_args(t, k, true) {
                            Parsed::Done(args, m) => Parsed::Done(ExprModel::Call(w, args), m),
                            Parsed::Fail(e) => Parsed::Fail(e),
                        }
                    } else {
                        Parsed::Fail(ParseError::UnexpectedToken)
                    }
                } else {
                    Parsed::Done(ExprModel::Variable(w), i + 1)
                }
            },
            _ => Parsed::Fail(ParseError::UnexpectedToken),
        }
    } else {
        Parsed::Fail(ParseError::UnexpectedToken)
    }
}

/// The space-separated arguments of a call, up to the line's end (a
/// newline, a tab, or the end of the stream).
pub open spec fn parse_call_args(t: Seq<TokenModel>, i: int, first: bool) -> Parsed<Seq<ExprModel>>
    decreases t.len() - i, 7int,
{
    if is_kind_newline(t, i) || at_end(t, i) || is_kind_tab(t, i) {
        Parsed::Done(Seq::empty(), i)
    } else if !first && !is_kind_space(t, i) {
        Parsed::Fail(ParseError::ExpectedSpace)
    } else {
        let j0 = if first {
            i
        } else {
            i + 1
        };
        match parse_expression(t, j0) {
            Parsed::Done(e, j) => {
                let k = skip_ws(t, j);
                if i < k <= t.len() {
                    match parse_call_args(t, k, false) {
                        Parsed::Done(rest, m) => Parsed::Done(seq![e] + rest, m),
                        Parsed::Fail(e2) => Parsed::Fail(e2),
                    }
                } else {
                    Parsed::Fail(ParseError::UnexpectedToken)
                }
            },
            Parsed::Fail(e) => Parsed::Fail(e),
        }
    }
}

/// A unary expression: any run of leading minus words, then a primary.
pub open spec fn parse_unary(t: Seq<TokenModel>, i: int) -> Parsed<ExprModel>
    decreases t.len() - i, 2int,
{
    if word_at(t, i) matches Option::Some(w) && w == "-"@ {
        let k = skip_ws(t, i + 1);
        if i < k <= t.len() {
            match parse_unary(t, k) {
                Parsed::Done(e, j) => Parsed::Done(
                    ExprModel::Unary(UnaryOp::Negate, Box::new(e)),
                    j,
                ),
                Parsed::Fail(e) => Parsed::Fail(e),
            }
        } else {
            Parsed::Fail(ParseError::UnexpectedToken)
        }
    } else {
        parse_primary(t, i)
    }
}

/// Precedence climbing: one unary term, then greedily any operator whose
/// precedence reaches `minp`, recursing one level tighter for the right
/// operand (equal precedences associate to the left).
pub open spec fn parse_binary(t: Seq<TokenModel>, i: int, minp: int) -> Parsed<ExprModel>
    decreases t.len() - i, 4int,
{
    match parse_unary(t, i) {
        Parsed::Done(left, j) => {
            if i <= j <= t.len() {
                parse_bin_more(t, j, left, minp)
            } else {
                Parsed::Fail(ParseError::UnexpectedToken)
            }
        },
        Parsed::Fail(e) => Parsed::Fail(e),
    }
}

/// The operator loop of `parse_binary`.
pub open spec fn parse_bin_more(t: Seq<TokenModel>, j: int, left: ExprModel, minp: int) -> Parsed<
    ExprModel,
>
    decreases t.len() - j, 3int,
{
    match op_at(t, j) {
        Option::Some(op) => {
            if crate::ast::spec_precedence(op) < minp {
                Parsed::Done(left, j)
            } else {
                let k = skip_ws(t, j + 1);
                if j < k <= t.len() {
                    match parse_binary(t, k, crate::ast::spec_precedence(op) + 1) {
                        Parsed::Done(right, m) => {
                            if j < m <= t.len() {
                                parse_bin_more(
                                    t,
                                    m,
                                    ExprModel::Binary(Box::new(left), op, Box::new(right)),
                                    minp,
                                )
                            } else {
                                Parsed::Fail(ParseError::UnexpectedToken)
                            }
                        },
                        Parsed::Fail(e) => Parsed::Fail(e),
                    }
                } else {
                    Parsed::Fail(ParseError::UnexpectedToken)
                }
            }
        },
        Option::None => Parsed::Done(left, j),
    }
}

/// A full expression: binary parsing from the lowest precedence tier.
pub open spec fn parse_expression(t: Seq<TokenModel>, i: int) -> Parsed<ExprModel>
    decreases t.len() - i, 5int,
{
    parse_binary(t, i, 0)
}

/// A `let` statement: `let NAME VALUE` to the end of the line.
pub open spec fn parse_let(t: Seq<TokenModel>, i: int) -> Parsed<StmtModel>
    decreases t.len() - i, 7int,
{
    let j = skip_ws(t, i + 1);
    if i < j <= t.len() {
        match expect_word(t, j) {
            Parsed::Done(name, j2) => {
                let j3 = skip_ws(t, j2);
                if i < j3 <= t.len() {
                    match parse_expression(t, j3) {
                        Parsed::Done(value, j4) => match expect_newline_or_eof(t, j4) {
                            Parsed::Done(_, j5) => Parsed::Done(
                                StmtModel::Let { name, value },
                                j5,
                            ),
                            Parsed::Fail(e) => Parsed::Fail(e),
                        },
                        Parsed::Fail(e) => Parsed::Fail(e),
                    }
                } else {
                    Parsed::Fail(ParseError::UnexpectedToken)
                }
            },
            Parsed::Fail(e) => Parsed::Fail(e),
        }
    } else {
        Parsed::Fail(ParseError::UnexpectedToken)
    }
}

/// The parameter words of a `func` header, separated by spaces, up to the
/// newline.
pub open spec fn parse_params(t: Seq<TokenModel>, i: int, first: bool) -> Parsed<Seq<Seq<char>>>
    decreases t.len() - i, 6int,
{
    if is_kind_newline(t, i) || at_end(t, i) {
        Parsed::Done(Seq::empty(), i)
    } else if !first && !is_kind_space(t, i) {
        Parsed::Fail(ParseError::ExpectedSpace)
    } else {
        let j0 = if first {
            i
        } else {
            i + 1
        };
        match expect_word(t, j0) {
            Parsed::Done(w, j) => {
                let k = skip_ws(t, j);
                if i < k <= t.len() {
                    match parse_params(t, k, false) {
                        Parsed::Done(rest, m) => Parsed::Done(seq![w] + rest, m),
                        Parsed::Fail(e) => Parsed::Fail(e),
                    }
                } else {
                    Parsed::Fail(ParseError::UnexpectedToken)
                }
            },
            Parsed::Fail(e) => Parsed::Fail(e),
        }
    }
}

/// The body of a header line: while the next line starts with a tab,
/// consume the tab (and any deeper indentation), parse one statement, and
/// skip the blank lines after it.
pub open spec fn parse_block(t: Seq<TokenModel>, i: int) -> Parsed<Seq<StmtModel>>
    decreases t.len() - i, 9int,
{
    if is_kind_tab(t, i) {
        let j = skip_ws(t, i + 1);
        if i < j <= t.len() {
            match parse_statement(t, j) {
                Parsed::Done(st, k) => {
                    let m = skip_nl(t, k);
                    if i < m <= t.len() {
                        match parse_block(t, m) {
                            Parsed::Done(rest, e) => Parsed::Done(seq![st] + rest, e),
                            Parsed::Fail(e2) => Parsed::Fail(e2),
                        }
                    } else {
                        Parsed::Fail(ParseError::UnexpectedToken)
                    }
                },
                Parsed::Fail(e) => Parsed::Fail(e),
            }
        } else {
            Parsed::Fail(ParseError::UnexpectedToken)
        }
    } else {
        Parsed::Done(Seq::empty(), i)
    }
}

/// A `func` statement: name, parameters, then the indented body.
pub open spec fn parse_function(t: Seq<TokenModel>, i: int) -> Parsed<StmtModel>
    decreases t.len() - i, 7int,
{
    let j = skip_ws(t, i + 1);
    if i < j <= t.len() {
        match expect_word(t, j) {
            Parsed::Done(name, j2) => {
                let j3 = skip_ws(t, j2);
                if i < j3 <= t.len() {
                    match parse_params(t, j3, true) {
                        Parsed::Done(params, j4) => match expect_newline(t, j4) {
                            Parsed::Done(_, j5) => {
                                if i < j5 <= t.len() {
                                    match parse_block(t, j5) {
                                        Parsed::Done(body, j6) => Parsed::Done(
                                            StmtModel::Function { name, params, body },
                                            j6,
                                        ),
                                        Parsed::Fail(e) => Parsed::Fail(e),
                                    }
                                } else {
                                    Parsed::Fail(ParseError::UnexpectedToken)
                                }
                            },
                            Parsed::Fail(e) => Parsed::Fail(e),
                        },
                        Parsed::Fail(e) => Parsed::Fail(e),
                    }
                } else {
                    Parsed::Fail(ParseError::UnexpectedToken)
                }
            },
            Parsed::Fail(e) => Parsed::Fail(e),
        }
    } else {
        Parsed::Fail(ParseError::UnexpectedToken)
    }
}

/// An `if` statement: condition, then-body, and an optional `else` whose
/// body uses the same indentation rule. The `else` clause attaches only
/// when the word `else` is the very next token after the then-body.
pub open spec fn parse_if(t: Seq<TokenModel>, i: int) -> Parsed<StmtModel>
    decreases t.len() - i, 7int,
{
    let j = skip_ws(t, i + 1);
    if i < j <= t.len() {
        match parse_expression(t, j) {
            Parsed::Done(condition, j2) => match expect_newline(t, j2) {
                Parsed::Done(_, j3) => {
                    if i < j3 <= t.len() {
                        match parse_block(t, j3) {
                            Parsed::Done(then_body, j4) => {
                                if word_at(t, j4) matches Option::Some(w) && w == "else"@ {
                                    match expect_newline(t, j4 + 1) {
                                        Parsed::Done(_, j5) => {
                                            if is_kind_tab(t, j5) && i < j5 <= t.len() {
                                                match parse_block(t, j5) {
                                                    Parsed::Done(else_body, j6) => Parsed::Done(
                                                        StmtModel::If {
                                                            condition,
                                                            then_body,
                                                            else_body: Option::Some(else_body),
                                                        },
                                                        j6,
                                                    ),
                                                    Parsed::Fail(e) => Parsed::Fail(e),
                                                }
                                            } else {
                                                Parsed::Done(
                                                    StmtModel::If {
                                                        condition,
                                                        then_body,
                                                        else_body: Option::None,
                                                    },
                                                    j5,
                                                )
                                            }
                                        },
                                        Parsed::Fail(e) => Parsed::Fail(e),
                                    }
                                } else {
                                    Parsed::Done(
                                        StmtModel::If {
                                            condition,
                                            then_body,
                                            else_body: Option::None,
                                        },
                                        j4,
                                    )
                                }
                            },
                            Parsed::Fail(e) => Parsed::Fail(e),
                        }
                    } else {
                        Parsed::Fail(ParseError::UnexpectedToken)
                    }
                },
                Parsed::Fail(e) => Parsed::Fail(e),
            },
            Parsed::Fail(e) => Parsed::Fail(e),
        }
    } else {
        Parsed::Fail(ParseError::UnexpectedToken)
    }
}

/// A `for` statement: `for VAR in ITERABLE`, then the indented body.
pub open spec fn parse_for(t: Seq<TokenModel>, i: int) -> Parsed<StmtModel>
    decreases t.len() - i, 7int,
{
    let j = skip_ws(t, i + 1);
    if i < j <= t.len() {
        match expect_word(t, j) {
            Parsed::Done(var, j2) => {
                let j3 = skip_ws(t, j2);
                if !(word_at(t, j3) matches Option::Some(w) && w == "in"@) {
                    Parsed::Fail(ParseError::ExpectedIn)
                } else {
                    let j4 = skip_ws(t, j3 + 1);
                    if i < j4 <= t.len() {
                        match parse_expression(t, j4) {
                            Parsed::Done(iterable, j5) => match expect_newline(t, j5) {
                                Parsed::Done(_, j6) => {
                                    if i < j6 <= t.len() {
                                        match parse_block(t, j6) {
                                            Parsed::Done(body, j7) => Parsed::Done(
                                                StmtModel::For { var, iterable, body },
                                                j7,
                                            ),
                                            Parsed::Fail(e) => Parsed::Fail(e),
                                        }
                                    } else {
                                        Parsed::Fail(ParseError::UnexpectedToken)
                                    }
                                },
                                Parsed::Fail(e) => Parsed::Fail(e),
                            },
                            Parsed::Fail(e) => Parsed::Fail(e),
                        }
                    } else {
                        Parsed::Fail(ParseError::UnexpectedToken)
                    }
                }
            },
            Parsed::Fail(e) => Parsed::Fail(e),
        }
    } else {
        Parsed::Fail(ParseError::UnexpectedToken)
    }
}

/// The space-separated arguments of a `print`, up to the end of the line.
pub open spec fn parse_print_args(t: Seq<TokenModel>, i: int, first: bool) -> Parsed<
    Seq<ExprModel>,
>
    decreases t.len() - i, 6int,
{
    if is_kind_newline(t, i) || at_end(t, i) {
        Parsed::Done(Seq::empty(), i)
    } else if !first && !is_kind_space(t, i) {
        Parsed::Fail(ParseError::ExpectedSpace)
    } else {
        let j0 = if first {
            i
        } else {
            i + 1
        };
        match parse_expression(t, j0) {
            Parsed::Done(e, j) => {
                let k = skip_ws(t, j);
                if i < k <= t.len() {
                    match parse_print_args(t, k, false) {
                        Parsed::Done(rest, m) => Parsed::Done(seq![e] + rest, m),
                        Parsed::Fail(e2) => Parsed::Fail(e2),
                    }
                } else {
                    Parsed::Fail(ParseError::UnexpectedToken)
                }
            },
            Parsed::Fail(e) => Parsed::Fail(e),
        }
    }
}

/// A `print` statement.
pub open spec fn parse_print(t: Seq<TokenModel>, i: int) -> Parsed<StmtModel>
    decreases t.len() - i, 7int,
{
    let j = skip_ws(t, i + 1);
    if i < j <= t.len() {
        match parse_print_args(t, j, true) {
            Parsed::Done(args, j2) => match expect_newline_or_eof(t, j2) {
                Parsed::Done(_, j3) => Parsed::Done(StmtModel::Print { args }, j3),
                Parsed::Fail(e) => Parsed::Fail(e),
            },
            Parsed::Fail(e) => Parsed::Fail(e),
        }
    } else {
        Parsed::Fail(ParseError::UnexpectedToken)
    }
}

/// A `return` statement, with an optional value.
pub open spec fn parse_return(t: Seq<TokenModel>, i: int) -> Parsed<StmtModel>
    decreases t.len() - i, 7int,
{
    let j = skip_ws(t, i + 1);
    if i < j <= t.len() {
        if is_kind_newline(t, j) || at_end(t, j) {
            match expect_newline_or_eof(t, j) {
                Parsed::Done(_, j2) => Parsed::Done(
                    StmtModel::Return { value: Option::None },
                    j2,
                ),
                Parsed::Fail(e) => Parsed::Fail(e),
            }
        } else {
            match parse_expression(t, j) {
                Parsed::Done(value, j2) => match expect_newline_or_eof(t, j2) {
                    Parsed::Done(_, j3) => Parsed::Done(
                        StmtModel::Return { value: Option::Some(value) },
                        j3,
                    ),
                    Parsed::Fail(e) => Parsed::Fail(e),
                },
                Parsed::Fail(e) => Parsed::Fail(e),
            }
        }
    } else {
        Parsed::Fail(ParseError::UnexpectedToken)
    }
}

/// A bare expression statement.
pub open spec fn parse_expr_stmt(t: Seq<TokenModel>, i: int) -> Parsed<StmtModel>
    decreases t.len() - i, 7int,
{
    match parse_expression(t, i) {
        Parsed::Done(e, j) => match expect_newline_or_eof(t, j) {
            Parsed::Done(_, j2) => Parsed::Done(StmtModel::Expr(e), j2),
            Parsed::Fail(e2) => Parsed::Fail(e2),
        },
        Parsed::Fail(e) => Parsed::Fail(e),
    }
}

/// One statement, dispatched on its leading keyword; anything else is a
/// bare expression statement.
pub open spec fn parse_statement(t: Seq<TokenModel>, i: int) -> Parsed<StmtModel>
    decreases t.len() - i, 8int,
{
    match word_at(t, i) {
        Option::Some(w) => {
            if w == "let"@ {
                parse_let(t, i)
            } else if w == "func"@ {
                parse_function(t, i)
            } else if w == "if"@ {
                parse_if(t, i)
            } else if w == "for"@ {
                parse_for(t, i)
            } else if w == "print"@ {
                parse_print(t, i)
            } else if w == "return"@ {
                parse_return(t, i)
            } else {
                parse_expr_stmt(t, i)
            }
        },
        Option::None => parse_expr_stmt(t, i),
    }
}

/// The whole program: statements separated by any number of blank lines,
/// until the end of the stream.
pub open spec fn parse_program(t: Seq<TokenModel>, i: int) -> Parsed<Seq<StmtModel>>
    decreases t.len() - i, 10int,
{
    let j = skip_nl(t, i);
    if at_end(t, j) || !(i <= j <= t.len()) {
        Parsed::Done(Seq::empty(), j)
    } else {
        match parse_statement(t, j) {
            Parsed::Done(st, k) => {
                if j < k <= t.len() {
                    match parse_program(t, k) {
                        Parsed::Done(rest, e) => Parsed::Done(seq![st] + rest, e),
                        Parsed::Fail(e2) => Parsed::Fail(e2),
                    }
                } else {
                    Parsed::Fail(ParseError::UnexpectedToken)
                }
            },
            Parsed::Fail(e) => Parsed::Fail(e),
        }
    }
}

/// The parse of a whole token sequence.
pub open spec fn spec_parse(t: Seq<TokenModel>) -> Parsed<Seq<StmtModel>> {
    parse_program(t, 0)
}

/// Folding one parsed statement into the accumulated prefix keeps the
/// global parsing equation.
proof fn lemma_parse_step(t: Seq<TokenModel>, prefix: Seq<StmtModel>, c0: int, st: StmtModel, k: int)
    requires
        0 <= c0 <= t.len(),
        ({
            let j = skip_nl(t, c0);
            &&& !at_end(t, j)
            &&& parse_statement(t, j) == Parsed::Done(st, k)
            &&& j < k <= t.len()
        }),
        match parse_program(t, c0) {
            Parsed::Done(rest, e) => parse_program(t, 0) == Parsed::Done(prefix + rest, e),
            Parsed::Fail(f) => parse_program(t, 0) == Parsed::<Seq<StmtModel>>::Fail(f),
        },
    ensures
        match parse_program(t, k) {
            Parsed::Done(rest2, e) => parse_program(t, 0) == Parsed::Done(
                (prefix + seq![st]) + rest2,
                e,
            ),
            Parsed::Fail(f) => parse_program(t, 0) == Parsed::<Seq<StmtModel>>::Fail(f),
        },
{
    lemma_skip_nl(t, c0);
    match parse_program(t, k) {
        Parsed::Done(rest2, e) => {
            assert(prefix + (seq![st] + rest2) =~= (prefix + seq![st]) + rest2);
        },
        Parsed::Fail(_) => {},
    }
}

/// When only blank lines remain, the program parsed so far is the whole.
proof fn lemma_parse_finish(t: Seq<TokenModel>, prefix: Seq<StmtModel>, c0: int)
    requires
        0 <= c0 <= t.len(),
        at_end(t, skip_nl(t, c0)),
        match parse_program(t, c0) {
            Parsed::Done(rest, e) => parse_program(t, 0) == Parsed::Done(prefix + rest, e),
            Parsed::Fail(f) => parse_program(t, 0) == Parsed::<Seq<StmtModel>>::Fail(f),
        },
    ensures
        parse_program(t, 0) matches Parsed::Done(prog, e) && prog == prefix,
{
    lemma_skip_nl(t, c0);
    assert(parse_program(t, c0) == Parsed::Done(Seq::<StmtModel>::empty(), skip_nl(t, c0)));
    assert(prefix + Seq::<StmtModel>::empty() =~= prefix);
}

/// The parser object. `parse` runs a fresh pass over its argument; the
/// fields are that pass's token buffer and cursor.
pub struct Parser {
    tokens: Vec<TokenWithPos>,
    current: usize,
}

impl Parser {
    /// The token kinds the cursor walks over.
    spec fn toks(self) -> Seq<TokenModel> {
        tok_models(self.tokens@)
    }

    /// The cursor stays inside the buffer.
    pub closed spec fn wf(self) -> bool {
        self.current <= self.tokens@.len()
    }

    /// A parser with nothing to read.
    pub fn new() -> (r: Parser)
        ensures
            r.wf(),
    {
        Parser { tokens: Vec::new(), current: 0 }
    }

    fn at_end(&self) -> (r: bool)
        ensures
            r == at_end(self.toks(), self.current as int),
    {
        if self.current >= self.tokens.len() {
            true
        } else {
            match &self.tokens[self.current].token {
                Token::Eof => true,
                _ => false,
            }
        }
    }

    fn cur_space(&self) -> (r: bool)
        ensures
            r == is_kind_space(self.toks(), self.current as int),
    {
        if self.current < self.tokens.len() {
            match &self.tokens[self.current].token {
                Token::Space => true,
                _ => false,
            }
        } else {
            false
        }
    }

    fn cur_tab(&self) -> (r: bool)
        ensures
            r == is_kind_tab(self.toks(), self.current as int),
    {
        if self.current < self.tokens.len() {
            match &self.tokens[self.current].token {
                Token::Tab => true,
                _ => false,
            }
        } else {
            false
        }
    }

    fn cur_newline(&self) -> (r: bool)
        ensures
            r == is_kind_newline(self.toks(), self.current as int),
    {
        if self.current < self.tokens.len() {
            match &self.tokens[self.current].token {
                Token::Newline => true,
                _ => false,
            }
        } else {
            false
        }
    }

    /// True when the cursor rests on exactly the word `kw`.
    fn word_matches(&self, kw: &str) -> (r: bool)
        ensures
            r == (word_at(self.toks(), self.current as int) matches Option::Some(w) && w == kw@),
    {
        if self.current < self.tokens.len() {
            match &self.tokens[self.current].token {
                Token::Word(w) => crate::chars::str_eq(w.as_str(), kw),
                _ => false,
            }
        } else {
            false
        }
    }

    /// Steps over the current token.
    fn bump(&mut self)
        requires
            old(self).wf(),
            old(self).current < old(self).tokens@.len(),
        ensures
            final(self).wf(),
            final(self).tokens == old(self).tokens,
            final(self).current == old(self).current + 1,
    {
        let n = self.tokens.len();
        self.current = self.current + 1;
    }

    fn skip_spaces(&mut self)
        requires
            old(self).wf(),
        ensures
            final(self).wf(),
            final(self).tokens == old(self).tokens,
            final(self).current as int == skip_ws(old(self).toks(), old(self).current as int),
            final(self).current >= old(self).current,
    {
        proof {
            lemma_skip_ws(self.toks(), self.current as int);
        }
        loop
            invariant
                self.wf(),
                self.tokens == old(self).tokens,
                old(self).current <= self.current,
                skip_ws(old(self).toks(), old(self).current as int) == skip_ws(
                    self.toks(),
                    self.current as int,
                ),
            ensures
                self.wf(),
                self.tokens == old(self).tokens,
                old(self).current <= self.current,
                self.current as int == skip_ws(old(self).toks(), old(self).current as int),
            decreases self.tokens@.len() - self.current,
        {
            if self.cur_space() || self.cur_tab() {
                self.bump();
            } else {
                break;
            }
        }
    }

    fn skip_newlines(&mut self)
        requires
            old(self).wf(),
        ensures
            final(self).wf(),
            final(self).tokens == old(self).tokens,
            final(self).current as int == skip_nl(old(self).toks(), old(self).current as int),
            final(self).current >= old(self).current,
    {
        loop
            invariant
                self.wf(),
                self.tokens == old(self).tokens,
                old(self).current <= self.current,
                skip_nl(old(self).toks(), old(self).current as int) == skip_nl(
                    self.toks(),
                    self.current as int,
                ),
            ensures
                self.wf(),
                self.tokens == old(self).tokens,
                old(self).current <= self.current,
                self.current as int == skip_nl(old(self).toks(), old(self).current as int),
            decreases self.tokens@.len() - self.current,
        {
            if self.cur_newline() {
                self.bump();
            } else {
                break;
            }
        }
    }

    fn expect_space(&mut self) -> (r: Result<(), ParseError>)
        requires
            old(self).wf(),
        ensures
            final(self).wf(),
            final(self).tokens == old(self).tokens,
            match r {
                Result::Ok(_) => expect_space(old(self).toks(), old(self).current as int)
                    == Parsed::Done((), final(self).current as int),
                Result::Err(e) => expect_space(old(self).toks(), old(self).current as int)
                    == Parsed::<()>::Fail(e),
            },
    {
        if self.cur_space() {
            self.bump();
            Result::Ok(())
        } else {
            Result::Err(ParseError::ExpectedSpace)
        }
    }

    fn expect_newline(&mut self) -> (r: Result<(), ParseError>)
        requires
            old(self).wf(),
        ensures
            final(self).wf(),
            final(self).tokens == old(self).tokens,
            match r {
                Result::Ok(_) => expect_newline(old(self).toks(), old(self).current as int)
                    == Parsed::Done((), final(self).current as int),
                Result::Err(e) => expect_newline(old(self).toks(), old(self).current as int)
                    == Parsed::<()>::Fail(e),
            },
    {
        if self.cur_newline() {
            self.bump();
            Result::Ok(())
        } else {
            Result::Err(ParseError::ExpectedNewline)
        }
    }

    fn expect_newline_or_eof(&mut self) -> (r: Result<(), ParseError>)
        requires
            old(self).wf(),
        ensures
            final(self).wf(),
            final(self).tokens == old(self).tokens,
            match r {
                Result::Ok(_) => expect_newline_or_eof(old(self).toks(), old(self).current as int)
                    == Parsed::Done((), final(self).current as int),
                Result::Err(e) => expect_newline_or_eof(
                    old(self).toks(),
                    old(self).current as int,
                ) == Parsed::<()>::Fail(e),
            },
    {
        if self.cur_newline() {
            self.bump();
            Result::Ok(())
        } else if self.at_end() {
            Result::Ok(())
        } else {
            Result::Err(ParseError::ExpectedNewlineOrEof)
        }
    }

    fn expect_word(&mut self) -> (r: Result<String, ParseError>)
        requires
            old(self).wf(),
        ensures
            final(self).wf(),
            final(self).tokens == old(self).tokens,
            match r {
                Result::Ok(w) => expect_word(old(self).toks(), old(self).current as int)
                    == Parsed::Done(w@, final(self).current as int),
                Result::Err(e) => expect_word(old(self).toks(), old(self).current as int)
                    == Parsed::<Seq<char>>::Fail(e),
            },
    {
        if self.current < self.tokens.len() {
            let got: Option<String> = match &self.tokens[self.current].token {
                Token::Word(w) => Option::Some(w.clone()),
                _ => Option::None,
            };
            match got {
                Option::Some(w) => {
                    self.bump();
                    Result::Ok(w)
                },
                Option::None => Result::Err(ParseError::ExpectedWord),
            }
        } else {
            Result::Err(ParseError::ExpectedWord)
        }
    }

    /// The operator under the cursor, if any.
    fn cur_op(&self) -> (r: Option<BinaryOp>)
        ensures
            r == op_at(self.toks(), self.current as int),
    {
        if self.word_matches("+") {
            Option::Some(BinaryOp::Add)
        } else if self.word_matches("-") {
            Option::Some(BinaryOp::Subtract)
        } else if self.word_matches("*") {
            Option::Some(BinaryOp::Multiply)
        } else if self.word_matches("/") {
            Option::Some(BinaryOp::Divide)
        } else if self.word_matches(">") {
            Option::Some(BinaryOp::Greater)
        } else if self.word_matches("<") {
            Option::Some(BinaryOp::Less)
        } else if self.word_matches("==") {
            Option::Some(BinaryOp::Equal)
        } else {
            Option::None
        }
    }

    fn parse_primary(&mut self) -> (r: Result<Expression, ParseError>)
        requires
            old(self).wf(),
        ensures
            final(self).wf(),
            final(self).tokens == old(self).tokens,
            match r {
                Result::Ok(e) => parse_primary(old(self).toks(), old(self).current as int)
                    == Parsed::Done(e@, final(self).current as int) && final(self).current > old(self).current,
                Result::Err(err) => parse_primary(old(self).toks(), old(self).current as int)
                    == Parsed::<ExprModel>::Fail(err),
            },
        decreases old(self).tokens@.len() - old(self).current, 1int,
    {
        if self.current >= self.tokens.len() {
            return Result::Err(ParseError::UnexpectedToken);
        }
        let num: Option<i64> = match &self.tokens[self.current].token {
            Token::Number(n) => Option::Some(*n),
            _ => Option::None,
        };
        if let Option::Some(n) = num {
            self.bump();
            return Result::Ok(Expression::Number(n));
        }
        let flt: Option<i64> = match &self.tokens[self.current].token {
            Token::Float(n) => Option::Some(*n),
            _ => Option::None,
        };
        if let Option::Some(n) = flt {
            self.bump();
            return Result::Ok(Expression::Float(n));
        }
        let lit: Option<String> = match &self.tokens[self.current].token {
            Token::String(st) => Option::Some(st.clone()),
            _ => Option::None,
        };
        if let Option::Some(st) = lit {
            self.bump();
            return Result::Ok(Expression::String(st));
        }
        let wrd: Option<String> = match &self.tokens[self.current].token {
            Token::Word(w) => Option::Some(w.clone()),
            _ => Option::None,
        };
        if let Option::Some(name) = wrd {
            self.bump();
            if self.cur_space() {
                self.skip_spaces();
                match self.parse_call_args(true) {
                    Result::Ok(args) => Result::Ok(Expression::Call { name, args }),
                    Result::Err(err) => Result::Err(err),
                }
            } else {
                Result::Ok(Expression::Variable(name))
            }
        } else {
            Result::Err(ParseError::UnexpectedToken)
        }
    }

    fn parse_call_args(&mut self, first: bool) -> (r: Result<Vec<Expression>, ParseError>)
        requires
            old(self).wf(),
        ensures
            final(self).wf(),
            final(self).tokens == old(self).tokens,
            match r {
                Result::Ok(v) => parse_call_args(
                    old(self).toks(),
                    old(self).current as int,
                    first,
                ) == Parsed::Done(crate::ast::exprs_view(v@), final(self).current as int) && final(self).current >= old(self).current,
                Result::Err(err) => parse_call_args(
                    old(self).toks(),
                    old(self).current as int,
                    first,
                ) == Parsed::<Seq<ExprModel>>::Fail(err),
            },
        decreases old(self).tokens@.len() - old(self).current, 7int,
    {
        if self.cur_newline() || self.at_end() || self.cur_tab() {
            let v: Vec<Expression> = Vec::new();
            proof {
                crate::ast::lemma_exprs_view(v@);
                assert(crate::ast::exprs_view(v@) =~= Seq::<ExprModel>::empty());
            }
            return Result::Ok(v);
        }
        if !first {
            if !self.cur_space() {
                return Result::Err(ParseError::ExpectedSpace);
            }
            self.bump();
        }
        let e = match self.parse_expression() {
            Result::Ok(e) => e,
            Result::Err(err) => {
                return Result::Err(err);
            },
        };
        self.skip_spaces();
        let rest = match self.parse_call_args(false) {
            Result::Ok(rest) => rest,
            Result::Err(err) => {
                return Result::Err(err);
            },
        };
        let ghost ev = e@;
        let mut v: Vec<Expression> = Vec::new();
        v.push(e);
        let mut rest = rest;
        let ghost restv = rest@;
        v.append(&mut rest);
        proof {
            assert(v@.len() == 1 + restv.len());
            assert(v@[0]@ == ev);
            assert(forall|j: int| 0 <= j < restv.len() ==> v@[j + 1] == restv[j]);
            crate::ast::lemma_exprs_view(v@);
            crate::ast::lemma_exprs_view(restv);
            assert(crate::ast::exprs_view(v@) =~= seq![ev] + crate::ast::exprs_view(restv));
        }
        Result::Ok(v)
    }

    fn parse_unary(&mut self) -> (r: Result<Expression, ParseError>)
        requires
            old(self).wf(),
        ensures
            final(self).wf(),
            final(self).tokens == old(self).tokens,
            match r {
                Result::Ok(e) => parse_unary(old(self).toks(), old(self).current as int)
                    == Parsed::Done(e@, final(self).current as int) && final(self).current > old(self).current,
                Result::Err(err) => parse_unary(old(self).toks(), old(self).current as int)
                    == Parsed::<ExprModel>::Fail(err),
            },
        decreases old(self).tokens@.len() - old(self).current, 2int,
    {
        if self.word_matches("-") {
            self.bump();
            self.skip_spaces();
            match self.parse_unary() {
                Result::Ok(e) => Result::Ok(
                    Expression::Unary { op: UnaryOp::Negate, expr: Box::new(e) },
                ),
                Result::Err(err) => Result::Err(err),
            }
        } else {
            self.parse_primary()
        }
    }

    fn parse_binary(&mut self, min_precedence: u8) -> (r: Result<Expression, ParseError>)
        requires
            old(self).wf(),
        ensures
            final(self).wf(),
            final(self).tokens == old(self).tokens,
            match r {
                Result::Ok(e) => parse_binary(
                    old(self).toks(),
                    old(self).current as int,
                    min_precedence as int,
                ) == Parsed::Done(e@, final(self).current as int) && final(self).current > old(self).current,
                Result::Err(err) => parse_binary(
                    old(self).toks(),
                    old(self).current as int,
                    min_precedence as int,
                ) == Parsed::<ExprModel>::Fail(err),
            },
        decreases old(self).tokens@.len() - old(self).current, 4int,
    {
        let mut left = match self.parse_unary() {
            Result::Ok(e) => e,
            Result::Err(err) => {
                return Result::Err(err);
            },
        };
        let ghost t = self.toks();
        let ghost target = parse_bin_more(
            t,
            self.current as int,
            left@,
            min_precedence as int,
        );
        let ghost start = old(self).current as int;
        loop
            invariant
                self.wf(),
                self.tokens == old(self).tokens,
                t == self.toks(),
                start == old(self).current as int,
                parse_binary(t, start, min_precedence as int) == parse_bin_more(
                    t,
                    self.current as int,
                    left@,
                    min_precedence as int,
                ),
                start < self.current as int <= self.tokens@.len(),
                parse_bin_more(t, self.current as int, left@, min_precedence as int) == target,
            ensures
                self.wf(),
                self.tokens == old(self).tokens,
                t == self.toks(),
                start < self.current as int,
                target == Parsed::Done(left@, self.current as int),
            decreases self.tokens@.len() - self.current,
        {
            let op = match self.cur_op() {
                Option::Some(op) => op,
                Option::None => {
                    break;
                },
            };
            let prec = op.precedence();
            if prec < min_precedence {
                break;
            }
            self.bump();
            self.skip_spaces();
            let right = match self.parse_binary(prec + 1) {
                Result::Ok(e) => e,
                Result::Err(err) => {
                    return Result::Err(err);
                },
            };
            left = Expression::Binary { left: Box::new(left), op, right: Box::new(right) };
        }
        Result::Ok(left)
    }

    fn parse_let(&mut self) -> (r: Result<Statement, ParseError>)
        requires
            old(self).wf(),
            old(self).current < old(self).tokens@.len(),
        ensures
            final(self).wf(),
            final(self).tokens == old(self).tokens,
            match r {
                Result::Ok(st) => parse_let(old(self).toks(), old(self).current as int)
                    == Parsed::Done(st@, final(self).current as int) && final(self).current > old(self).current,
                Result::Err(err) => parse_let(old(self).toks(), old(self).current as int)
                    == Parsed::<StmtModel>::Fail(err),
            },
        decreases old(self).tokens@.len() - old(self).current, 7int,
    {
        self.bump();
        self.skip_spaces();
        let name = match self.expect_word() {
            Result::Ok(w) => w,
            Result::Err(err) => {
                return Result::Err(err);
            },
        };
        self.skip_spaces();
        let value = match self.parse_expression() {
            Result::Ok(e) => e,
            Result::Err(err) => {
                return Result::Err(err);
            },
        };
        match self.expect_newline_or_eof() {
            Result::Ok(_) => Result::Ok(Statement::Let { name, value }),
            Result::Err(err) => Result::Err(err),
        }
    }

    fn parse_params(&mut self, first: bool) -> (r: Result<Vec<String>, ParseError>)
        requires
            old(self).wf(),
        ensures
            final(self).wf(),
            final(self).tokens == old(self).tokens,
            match r {
                Result::Ok(v) => parse_params(old(self).toks(), old(self).current as int, first)
                    == Parsed::Done(crate::ast::strs_view(v@), final(self).current as int)
                    && final(self).current >= old(self).current,
                Result::Err(err) => parse_params(old(self).toks(), old(self).current as int, first)
                    == Parsed::<Seq<Seq<char>>>::Fail(err),
            },
        decreases old(self).tokens@.len() - old(self).current, 6int,
    {
        if self.cur_newline() || self.at_end() {
            let v: Vec<String> = Vec::new();
            proof {
                assert(crate::ast::strs_view(v@) =~= Seq::<Seq<char>>::empty());
            }
            return Result::Ok(v);
        }
        if !first {
            if !self.cur_space() {
                return Result::Err(ParseError::ExpectedSpace);
            }
            self.bump();
        }
        let w = match self.expect_word() {
            Result::Ok(w) => w,
            Result::Err(err) => {
                return Result::Err(err);
            },
        };
        self.skip_spaces();
        let rest = match self.parse_params(false) {
            Result::Ok(rest) => rest,
            Result::Err(err) => {
                return Result::Err(err);
            },
        };
        let ghost wv = w@;
        let mut v: Vec<String> = Vec::new();
        v.push(w);
        let mut rest = rest;
        let ghost restv = rest@;
        v.append(&mut rest);
        proof {
            assert(v@.len() == 1 + restv.len());
            assert(v@[0]@ == wv);
            assert(forall|j: int| 0 <= j < restv.len() ==> v@[j + 1] == restv[j]);
            assert(crate::ast::strs_view(v@) =~= seq![wv] + crate::ast::strs_view(restv));
        }
        Result::Ok(v)
    }

    fn parse_block(&mut self) -> (r: Result<Vec<Statement>, ParseError>)
        requires
            old(self).wf(),
        ensures
            final(self).wf(),
            final(self).tokens == old(self).tokens,
            match r {
                Result::Ok(v) => parse_block(old(self).toks(), old(self).current as int)
                    == Parsed::Done(crate::ast::stmts_view(v@), final(self).current as int)
                    && final(self).current >= old(self).current,
                Result::Err(err) => parse_block(old(self).toks(), old(self).current as int)
                    == Parsed::<Seq<StmtModel>>::Fail(err),
            },
        decreases old(self).tokens@.len() - old(self).current, 9int,
    {
        if !self.cur_tab() {
            let v: Vec<Statement> = Vec::new();
            proof {
                crate::ast::lemma_stmts_view(v@);
                assert(crate::ast::stmts_view(v@) =~= Seq::<StmtModel>::empty());
            }
            return Result::Ok(v);
        }
        self.bump();
        self.skip_spaces();
        let st = match self.parse_statement() {
            Result::Ok(st) => st,
            Result::Err(err) => {
                return Result::Err(err);
            },
        };
        self.skip_newlines();
        let rest = match self.parse_block() {
            Result::Ok(rest) => rest,
            Result::Err(err) => {
                return Result::Err(err);
            },
        };
        let ghost sv = st@;
        let mut v: Vec<Statement> = Vec::new();
        v.push(st);
        let mut rest = rest;
        let ghost restv = rest@;
        v.append(&mut rest);
        proof {
            assert(v@.len() == 1 + restv.len());
            assert(v@[0]@ == sv);
            assert(forall|j: int| 0 <= j < restv.len() ==> v@[j + 1] == restv[j]);
            crate::ast::lemma_stmts_view(v@);
            crate::ast::lemma_stmts_view(restv);
            assert(crate::ast::stmts_view(v@) =~= seq![sv] + crate::ast::stmts_view(restv));
        }
        Result::Ok(v)
    }

    #[verifier::rlimit(60)]
    fn parse_function(&mut self) -> (r: Result<Statement, ParseError>)
        requires
            old(self).wf(),
            old(self).current < old(self).tokens@.len(),
        ensures
            final(self).wf(),
            final(self).tokens == old(self).tokens,
            match r {
                Result::Ok(st) => parse_function(old(self).toks(), old(self).current as int)
                    == Parsed::Done(st@, final(self).current as int) && final(self).current > old(self).current,
                Result::Err(err) => parse_function(old(self).toks(), old(self).current as int)
                    == Parsed::<StmtModel>::Fail(err),
            },
        decreases old(self).tokens@.len() - old(self).current, 7int,
    {
        self.bump();
        self.skip_spaces();
        let name = match self.expect_word() {
            Result::Ok(w) => w,
            Result::Err(err) => {
                return Result::Err(err);
            },
        };
        self.skip_spaces();
        let params = match self.parse_params(true) {
            Result::Ok(v) => v,
            Result::Err(err) => {
                return Result::Err(err);
            },
        };
        match self.expect_newline() {
            Result::Ok(_) => {},
            Result::Err(err) => {
                return Result::Err(err);
            },
        }
        let body = match self.parse_block() {
            Result::Ok(v) => v,
            Result::Err(err) => {
                return Result::Err(err);
            },
        };
        Result::Ok(Statement::Function { name, params, body })
    }

    #[verifier::rlimit(60)]
    fn parse_if(&mut self) -> (r: Result<Statement, ParseError>)
        requires
            old(self).wf(),
            old(self).current < old(self).tokens@.len(),
        ensures
            final(self).wf(),
            final(self).tokens == old(self).tokens,
            match r {
                Result::Ok(st) => parse_if(old(self).toks(), old(self).current as int)
                    == Parsed::Done(st@, final(self).current as int) && final(self).current > old(self).current,
                Result::Err(err) => parse_if(old(self).toks(), old(self).current as int)
                    == Parsed::<StmtModel>::Fail(err),
            },
        decreases old(self).tokens@.len() - old(self).current, 7int,
    {
        self.bump();
        self.skip_spaces();
        let condition = match self.parse_expression() {
            Result::Ok(e) => e,
            Result::Err(err) => {
                return Result::Err(err);
            },
        };
        match self.expect_newline() {
            Result::Ok(_) => {},
            Result::Err(err) => {
                return Result::Err(err);
            },
        }
        let then_body = match self.parse_block() {
            Result::Ok(v) => v,
            Result::Err(err) => {
                return Result::Err(err);
            },
        };
        if self.word_matches("else") {
            self.bump();
            match self.expect_newline() {
                Result::Ok(_) => {},
                Result::Err(err) => {
                    return Result::Err(err);
                },
            }
            if self.cur_tab() {
                let else_body = match self.parse_block() {
                    Result::Ok(v) => v,
                    Result::Err(err) => {
                        return Result::Err(err);
                    },
                };
                Result::Ok(
                    Statement::If { condition, then_body, else_body: Option::Some(else_body) },
                )
            } else {
                Result::Ok(Statement::If { condition, then_body, else_body: Option::None })
            }
        } else {
            Result::Ok(Statement::If { condition, then_body, else_body: Option::None })
        }
    }

    #[verifier::rlimit(60)]
    fn parse_for(&mut self) -> (r: Result<Statement, ParseError>)
        requires
            old(self).wf(),
            old(self).current < old(self).tokens@.len(),
        ensures
            final(self).wf(),
            final(self).tokens == old(self).tokens,
            match r {
                Result::Ok(st) => parse_for(old(self).toks(), old(self).current as int)
                    == Parsed::Done(st@, final(self).current as int) && final(self).current > old(self).current,
                Result::Err(err) => parse_for(old(self).toks(), old(self).current as int)
                    == Parsed::<StmtModel>::Fail(err),
            },
        decreases old(self).tokens@.len() - old(self).current, 7int,
    {
        self.bump();
        self.skip_spaces();
        let var = match self.expect_word() {
            Result::Ok(w) => w,
            Result::Err(err) => {
                return Result::Err(err);
            },
        };
        self.skip_spaces();
        if !self.word_matches("in") {
            return Result::Err(ParseError::ExpectedIn);
        }
        self.bump();
        self.skip_spaces();
        let iterable = match self.parse_expression() {
            Result::Ok(e) => e,
            Result::Err(err) => {
                return Result::Err(err);
            },
        };
        match self.expect_newline() {
            Result::Ok(_) => {},
            Result::Err(err) => {
                return Result::Err(err);
            },
        }
        let body = match self.parse_block() {
            Result::Ok(v) => v,
            Result::Err(err) => {
                return Result::Err(err);
            },
        };
        Result::Ok(Statement::For { var, iterable, body })
    }

    fn parse_print_args(&mut self, first: bool) -> (r: Result<Vec<Expression>, ParseError>)
        requires
            old(self).wf(),
        ensures
            final(self).wf(),
            final(self).tokens == old(self).tokens,
            match r {
                Result::Ok(v) => parse_print_args(old(self).toks(), old(self).current as int, first)
                    == Parsed::Done(crate::ast::exprs_view(v@), final(self).current as int)
                    && final(self).current >= old(self).current,
                Result::Err(err) => parse_print_args(
                    old(self).toks(),
                    old(self).current as int,
                    first,
                ) == Parsed::<Seq<ExprModel>>::Fail(err),
            },
        decreases old(self).tokens@.len() - old(self).current, 6int,
    {
        if self.cur_newline() || self.at_end() {
            let v: Vec<Expression> = Vec::new();
            proof {
                crate::ast::lemma_exprs_view(v@);
                assert(crate::ast::exprs_view(v@) =~= Seq::<ExprModel>::empty());
            }
            return Result::Ok(v);
        }
        if !first {
            if !self.cur_space() {
                return Result::Err(ParseError::ExpectedSpace);
            }
            self.bump();
        }
        let e = match self.parse_expression() {
            Result::Ok(e) => e,
            Result::Err(err) => {
                return Result::Err(err);
            },
        };
        self.skip_spaces();
        let rest = match self.parse_print_args(false) {
            Result::Ok(rest) => rest,
            Result::Err(err) => {
                return Result::Err(err);
            },
        };
        let ghost ev = e@;
        let mut v: Vec<Expression> = Vec::new();
        v.push(e);
        let mut rest = rest;
        let ghost restv = rest@;
        v.append(&mut rest);
        proof {
            assert(v@.len() == 1 + restv.len());
            assert(v@[0]@ == ev);
            assert(forall|j: int| 0 <= j < restv.len() ==> v@[j + 1] == restv[j]);
            crate::ast::lemma_exprs_view(v@);
            crate::ast::lemma_exprs_view(restv);
            assert(crate::ast::exprs_view(v@) =~= seq![ev] + crate::ast::exprs_view(restv));
        }
        Result::Ok(v)
    }

    fn parse_print(&mut self) -> (r: Result<Statement, ParseError>)
        requires
            old(self).wf(),
            old(self).current < old(self).tokens@.len(),
        ensures
            final(self).wf(),
            final(self).tokens == old(self).tokens,
            match r {
                Result::Ok(st) => parse_print(old(self).toks(), old(self).current as int)
                    == Parsed::Done(st@, final(self).current as int) && final(self).current > old(self).current,
                Result::Err(err) => parse_print(old(self).toks(), old(self).current as int)
                    == Parsed::<StmtModel>::Fail(err),
            },
        decreases old(self).tokens@.len() - old(self).current, 7int,
    {
        self.bump();
        self.skip_spaces();
        let args = match self.parse_print_args(true) {
            Result::Ok(v) => v,
            Result::Err(err) => {
                return Result::Err(err);
            },
        };
        match self.expect_newline_or_eof() {
            Result::Ok(_) => Result::Ok(Statement::Print { args }),
            Result::Err(err) => Result::Err(err),
        }
    }

    fn parse_return(&mut self) -> (r: Result<Statement, ParseError>)
        requires
            old(self).wf(),
            old(self).current < old(self).tokens@.len(),
        ensures
            final(self).wf(),
            final(self).tokens == old(self).tokens,
            match r {
                Result::Ok(st) => parse_return(old(self).toks(), old(self).current as int)
                    == Parsed::Done(st@, final(self).current as int) && final(self).current > old(self).current,
                Result::Err(err) => parse_return(old(self).toks(), old(self).current as int)
                    == Parsed::<StmtModel>::Fail(err),
            },
        decreases old(self).tokens@.len() - old(self).current, 7int,
    {
        self.bump();
        self.skip_spaces();
        if self.cur_newline() || self.at_end() {
            match self.expect_newline_or_eof() {
                Result::Ok(_) => Result::Ok(Statement::Return { value: Option::None }),
                Result::Err(err) => Result::Err(err),
            }
        } else {
            let value = match self.parse_expression() {
                Result::Ok(e) => e,
                Result::Err(err) => {
                    return Result::Err(err);
                },
            };
            match self.expect_newline_or_eof() {
                Result::Ok(_) => Result::Ok(
                    Statement::Return { value: Option::Some(value) },
                ),
                Result::Err(err) => Result::Err(err),
            }
        }
    }

    fn parse_expr_stmt(&mut self) -> (r: Result<Statement, ParseError>)
        requires
            old(self).wf(),
        ensures
            final(self).wf(),
            final(self).tokens == old(self).tokens,
            match r {
                Result::Ok(st) => parse_expr_stmt(old(self).toks(), old(self).current as int)
                    == Parsed::Done(st@, final(self).current as int) && final(self).current > old(self).current,
                Result::Err(err) => parse_expr_stmt(old(self).toks(), old(self).current as int)
                    == Parsed::<StmtModel>::Fail(err),
            },
        decreases old(self).tokens@.len() - old(self).current, 7int,
    {
        let e = match self.parse_expression() {
            Result::Ok(e) => e,
            Result::Err(err) => {
                return Result::Err(err);
            },
        };
        match self.expect_newline_or_eof() {
            Result::Ok(_) => Result::Ok(Statement::Expression(e)),
            Result::Err(err) => Result::Err(err),
        }
    }

    fn parse_statement(&mut self) -> (r: Result<Statement, ParseError>)
        requires
            old(self).wf(),
        ensures
            final(self).wf(),
            final(self).tokens == old(self).tokens,
            match r {
                Result::Ok(st) => parse_statement(old(self).toks(), old(self).current as int)
                    == Parsed::Done(st@, final(self).current as int) && final(self).current > old(self).current,
                Result::Err(err) => parse_statement(old(self).toks(), old(self).current as int)
                    == Parsed::<StmtModel>::Fail(err),
            },
        decreases old(self).tokens@.len() - old(self).current, 8int,
    {
        if self.word_matches("let") {
            self.parse_let()
        } else if self.word_matches("func") {
            self.parse_function()
        } else if self.word_matches("if") {
            self.parse_if()
        } else if self.word_matches("for") {
            self.parse_for()
        } else if self.word_matches("print") {
            self.parse_print()
        } else if self.word_matches("return") {
            self.parse_return()
        } else {
            self.parse_expr_stmt()
        }
    }

    /// Parses a whole token sequence into a program, or reports the first
    /// grammar failure. Pure: the result is a function of `tokens` alone,
    /// exactly `spec_parse`.
    #[verifier::rlimit(100)]
    pub fn parse(&self, tokens: Vec<TokenWithPos>) -> (r: Result<Program, ParseError>)
        ensures
            match r {
                Result::Ok(p) => spec_parse(tok_models(tokens@)) matches Parsed::Done(prog, j)
                    && prog == p@,
                Result::Err(e) => spec_parse(tok_models(tokens@)) == Parsed::<
                    Seq<StmtModel>,
                >::Fail(e),
            },
    {
        let ghost t = tok_models(tokens@);
        let mut parser = Parser { tokens, current: 0 };
        let mut statements: Vec<Statement> = Vec::new();
        proof {
            crate::ast::lemma_stmts_view(statements@);
            assert(crate::ast::stmts_view(statements@) =~= Seq::<StmtModel>::empty());
            match parse_program(t, 0) {
                Parsed::Done(rest, e) => {
                    assert(Seq::<StmtModel>::empty() + rest =~= rest);
                },
                Parsed::Fail(_) => {},
            }
        }
        loop
            invariant
                parser.wf(),
                t == parser.toks(),
                t == tok_models(tokens@),
                match parse_program(t, parser.current as int) {
                    Parsed::Done(rest, e) => parse_program(t, 0) == Parsed::Done(
                        crate::ast::stmts_view(statements@) + rest,
                        e,
                    ),
                    Parsed::Fail(f) => parse_program(t, 0) == Parsed::<Seq<StmtModel>>::Fail(f),
                },
            ensures
                parse_program(t, 0) matches Parsed::Done(prog, e) && prog == crate::ast::stmts_view(
                    statements@,
                ),
            decreases parser.tokens@.len() - parser.current,
        {
            let ghost c0 = parser.current as int;
            parser.skip_newlines();
            proof {
                lemma_skip_nl(t, c0);
            }
            if parser.at_end() {
                proof {
                    lemma_parse_finish(t, crate::ast::stmts_view(statements@), c0);
                }
                break;
            }
            let st = match parser.parse_statement() {
                Result::Ok(st) => st,
                Result::Err(err) => {
                    return Result::Err(err);
                },
            };
            let ghost pre = statements@;
            let ghost k = parser.current as int;
            statements.push(st);
            proof {
                crate::ast::lemma_stmts_view(statements@);
                crate::ast::lemma_stmts_view(pre);
                assert(crate::ast::stmts_view(statements@) =~= crate::ast::stmts_view(pre)
                    + seq![st@]);
                lemma_parse_step(t, crate::ast::stmts_view(pre), c0, st@, k);
            }
        }
        proof {
            assert(spec_parse(t) == parse_program(t, 0));
            assert(parse_program(t, 0) matches Parsed::Done(prog, e) && prog
                == crate::ast::stmts_view(statements@));
        }
        let p = Program { statements };
        proof {
            assert(p@ == crate::ast::stmts_view(p.statements@));
        }
        Result::Ok(p)
    }

    fn parse_expression(&mut self) -> (r: Result<Expression, ParseError>)
        requires
            old(self).wf(),
        ensures
            final(self).wf(),
            final(self).tokens == old(self).tokens,
            match r {
                Result::Ok(e) => parse_expression(old(self).toks(), old(self).current as int)
                    == Parsed::Done(e@, final(self).current as int) && final(self).current > old(self).current,
                Result::Err(err) => parse_expression(old(self).toks(), old(self).current as int)
                    == Parsed::<ExprModel>::Fail(err),
            },
        decreases old(self).tokens@.len() - old(self).current, 5int,
    {
        self.parse_binary(0)
    }
}

} // verus!
