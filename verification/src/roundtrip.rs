//! Idempotence of the printer: a program whose shapes the lexer and the
//! indentation rule can bring back — names that are plain words,
//! non-negative integer literals, string literals without quotes or
//! recognized escapes, calls of at most one argument, no operators (the
//! lexer has no spelling for them), and at most one level of `func`,
//! `if`/`else` and `for` blocks, each body a nonempty run of flat lines —
//! comes back from `parse(tokenize(format(p)))` exactly as it went in.
//! The predicates below carve out that set; the lemmas walk the rendered
//! text and then the token stream it lexes to.

use crate::ast::{fmt_expr, fmt_exprs, fmt_program, fmt_stmt, fmt_stmts, ExprModel, StmtModel};
use crate::chars::{
    dec_rep, digit_char, spec_digit_val, spec_is_digit, spec_is_word_char, spec_is_word_start,
};
use crate::compiler::{at_models, parse_source, SourceParse};
use crate::lexer::{
    digits_val, escape_piece, lemma_int_end_unique, lex_at, num_end, spec_tokenize, str_scan,
    word_end, LexOut, StrScan, TokenAt, TokenModel,
};
use crate::parser::{
    at_end, expect_newline, expect_word, is_kind_newline, is_kind_space, is_kind_tab, op_at,
    parse_bin_more, parse_block, parse_call_args, parse_expr_stmt, parse_expression, parse_let,
    parse_primary, parse_print_args, parse_program, parse_return, parse_statement, parse_unary,
    skip_nl, skip_ws, word_at, Parsed,
};
use vstd::prelude::*;

verus! {

/// A name the lexer reads back as one word: nonempty, a letter or
/// underscore first, letters, digits and underscores throughout.
pub open spec fn wf_word(w: Seq<char>) -> bool {
    &&& w.len() > 0
    &&& spec_is_word_start(w[0])
    &&& forall|i: int| 0 <= i < w.len() ==> spec_is_word_char(#[trigger] w[i])
}

/// The words that open a statement form; an expression statement must not
/// start with one of them, or the reparse would dispatch elsewhere.
pub open spec fn stmt_keyword(w: Seq<char>) -> bool {
    ||| w == "let"@
    ||| w == "func"@
    ||| w == "if"@
    ||| w == "for"@
    ||| w == "print"@
    ||| w == "return"@
}

/// A string literal body the lexer reads back as written: no quote, and
/// every backslash followed by a character that is not a recognized
/// escape (so the pair survives verbatim).
pub open spec fn wf_lit(s: Seq<char>) -> bool {
    forall|i: int|
        0 <= i < s.len() ==> (#[trigger] s[i]) != '"' && (s[i] == '\\' ==> i + 1 < s.len() && s[i
            + 1] != 'n' && s[i + 1] != 't' && s[i + 1] != '\\' && s[i + 1] != '"')
}

/// An expression the printer can spell and the lexer can read back:
/// non-negative integers, well-formed strings, word names, and calls of
/// at most one such argument. Floats have no faithful spelling, and
/// operators have none at all.
pub open spec fn stable_expr(e: ExprModel) -> bool
    decreases e,
{
    match e {
        ExprModel::Number(n) => 0 <= n <= i64::MAX,
        ExprModel::Float(_) => false,
        ExprModel::StrLit(s) => wf_lit(s),
        ExprModel::Variable(v) => wf_word(v),
        ExprModel::Binary(_, _, _) => false,
        ExprModel::Unary(_, _) => false,
        ExprModel::Call(f, args) => wf_word(f) && args.len() <= 1 && (args.len() == 1
            ==> stable_expr(args[0])),
    }
}

/// The first word of an expression's rendering, if the expression leads
/// with one.
pub open spec fn leading_word(e: ExprModel) -> Option<Seq<char>> {
    match e {
        ExprModel::Variable(v) => Option::Some(v),
        ExprModel::Call(f, _) => Option::Some(f),
        _ => Option::None,
    }
}

/// The words an expression statement may not open with: the statement
/// keywords, and `else`, which a dangling `if` above would capture.
pub open spec fn reserved_leading(w: Seq<char>) -> bool {
    stmt_keyword(w) || w == "else"@
}

/// A statement the printer renders onto one line and the parser reads
/// back: no body of its own, and an expression statement must not open
/// with a reserved word.
pub open spec fn stable_flat_stmt(s: StmtModel) -> bool {
    match s {
        StmtModel::Let { name, value } => wf_word(name) && stable_expr(value),
        StmtModel::Function { .. } => false,
        StmtModel::If { .. } => false,
        StmtModel::For { .. } => false,
        StmtModel::Print { args } => args.len() <= 1 && (args.len() == 1 ==> stable_expr(args[0])),
        StmtModel::Return { value } => match value {
            Option::Some(v) => stable_expr(v),
            Option::None => true,
        },
        StmtModel::Expr(e) => stable_expr(e) && (match leading_word(e) {
            Option::Some(w) => !reserved_leading(w),
            Option::None => true,
        }),
    }
}

/// A body the indentation rule reads back: nonempty, every statement on
/// its own single-tab line.
pub open spec fn stable_body(b: Seq<StmtModel>) -> bool {
    b.len() >= 1 && forall|i: int| 0 <= i < b.len() ==> stable_flat_stmt(#[trigger] b[i])
}

/// A statement the printer's rendering brings back whole: a flat line, or
/// a one-level header — `func`, `if` (with or without `else`), `for` —
/// whose bodies are nonempty runs of flat lines.
pub open spec fn stable_stmt(s: StmtModel) -> bool {
    match s {
        StmtModel::Function { name, params, body } => {
            &&& wf_word(name)
            &&& params.len() <= 1
            &&& (params.len() == 1 ==> wf_word(params[0]))
            &&& stable_body(body)
        },
        StmtModel::If { condition, then_body, else_body } => {
            &&& stable_expr(condition)
            &&& stable_body(then_body)
            &&& (else_body matches Option::Some(b) ==> stable_body(b))
        },
        StmtModel::For { var, iterable, body } => {
            &&& wf_word(var)
            &&& stable_expr(iterable)
            &&& stable_body(body)
        },
        _ => stable_flat_stmt(s),
    }
}

/// A program of stable statements.
pub open spec fn stable_program(p: Seq<StmtModel>) -> bool {
    forall|i: int| 0 <= i < p.len() ==> stable_stmt(#[trigger] p[i])
}

/// The token kinds of a lexing outcome, forgetting positions.
pub open spec fn lex_models(r: LexOut) -> Option<Seq<TokenModel>> {
    match r {
        LexOut::Toks(ts) => Option::Some(at_models(ts)),
        LexOut::Fail(_) => Option::None,
    }
}

/// The token kinds from position `pos` on, at canonical counters.
pub open spec fn lex_m(s: Seq<char>, pos: int) -> Option<Seq<TokenModel>> {
    lex_models(lex_at(s, pos, 1, 1))
}

/// The token kinds a scan produces do not depend on the position
/// counters it starts from.
pub proof fn lemma_lex_models_any(s: Seq<char>, pos: int, l1: int, c1: int, l2: int, c2: int)
    requires
        0 <= pos <= s.len(),
    ensures
        lex_models(lex_at(s, pos, l1, c1)) == lex_models(lex_at(s, pos, l2, c2)),
    decreases s.len() - pos,
{
    if pos < s.len() {
        let c = s[pos];
        if c == '\t' || c == ' ' {
            lemma_lex_models_any(s, pos + 1, l1, c1 + 1, l2, c2 + 1);
            cons_models(lex_at(s, pos + 1, l1, c1 + 1), lex_at(s, pos + 1, l2, c2 + 1));
        } else if c == '\n' {
            lemma_lex_models_any(s, pos + 1, l1 + 1, 1, l2 + 1, 1);
            cons_models(lex_at(s, pos + 1, l1 + 1, 1), lex_at(s, pos + 1, l2 + 1, 1));
        } else if spec_is_word_start(c) {
            let j = word_end(s, pos);
            crate::lexer::lemma_word_end(s, pos);
            crate::lexer::lemma_word_end(s, pos + 1);
            lemma_lex_models_any(s, j, l1, c1 + (j - pos), l2, c2 + (j - pos));
            cons_models(lex_at(s, j, l1, c1 + (j - pos)), lex_at(s, j, l2, c2 + (j - pos)));
        } else if spec_is_digit(c) {
            let r = num_end(s, pos, false);
            crate::lexer::lemma_num_end(s, pos, false);
            crate::lexer::lemma_num_end(s, pos + 1, false);
            crate::lexer::lemma_num_end(s, pos + 1, true);
            lemma_lex_models_any(s, r.0, l1, c1 + (r.0 - pos), l2, c2 + (r.0 - pos));
            cons_models(
                lex_at(s, r.0, l1, c1 + (r.0 - pos)),
                lex_at(s, r.0, l2, c2 + (r.0 - pos)),
            );
        } else if c == '"' {
            match str_scan(s, pos + 1) {
                StrScan::Done(content, e) => {
                    crate::lexer::lemma_str_scan(s, pos + 1);
                    lemma_lex_models_any(
                        s,
                        e,
                        crate::lexer::adv_line(s, pos, e, l1),
                        crate::lexer::adv_col(s, pos, e, c1),
                        crate::lexer::adv_line(s, pos, e, l2),
                        crate::lexer::adv_col(s, pos, e, c2),
                    );
                    cons_models(
                        lex_at(
                            s,
                            e,
                            crate::lexer::adv_line(s, pos, e, l1),
                            crate::lexer::adv_col(s, pos, e, c1),
                        ),
                        lex_at(
                            s,
                            e,
                            crate::lexer::adv_line(s, pos, e, l2),
                            crate::lexer::adv_col(s, pos, e, c2),
                        ),
                    );
                },
                StrScan::Unterminated => {},
            }
        }
    }
}

/// A word run determines its own end.
proof fn lemma_word_end_unique(s: Seq<char>, i: int, j: int)
    requires
        0 <= i <= j <= s.len(),
        forall|k: int| i <= k < j ==> spec_is_word_char(#[trigger] s[k]),
        j < s.len() ==> !spec_is_word_char(s[j]),
    ensures
        word_end(s, i) == j,
    decreases j - i,
{
    if i < j {
        lemma_word_end_unique(s, i + 1, j);
    }
}

/// A digit run followed by neither digit nor dot determines a numeric
/// scan's end.
proof fn lemma_num_end_unique(s: Seq<char>, i: int, j: int)
    requires
        0 <= i <= j <= s.len(),
        forall|k: int| i <= k < j ==> spec_is_digit(#[trigger] s[k]),
        j < s.len() ==> !spec_is_digit(s[j]) && s[j] != '.',
    ensures
        num_end(s, i, false) == (j, false),
    decreases j - i,
{
    if i < j {
        lemma_num_end_unique(s, i + 1, j);
    }
}

/// A decimal rendering is a nonempty run of digits.
proof fn lemma_dec_rep_digits(n: nat)
    ensures
        dec_rep(n).len() >= 1,
        forall|i: int| 0 <= i < dec_rep(n).len() ==> spec_is_digit(#[trigger] dec_rep(n)[i]),
    decreases n,
{
    if n >= 10 {
        lemma_dec_rep_digits(n / 10);
    }
}

/// Reading back the digits of a decimal rendering embedded in `s` yields
/// the number.
proof fn lemma_digits_val_dec_rep(s: Seq<char>, i: int, n: nat)
    requires
        0 <= i,
        i + dec_rep(n).len() <= s.len(),
        s.subrange(i, i + dec_rep(n).len() as int) == dec_rep(n),
    ensures
        digits_val(s, i, i + dec_rep(n).len() as int) == n,
    decreases n,
{
    lemma_dec_rep_digits(n);
    let l = dec_rep(n).len() as int;
    if n < 10 {
        assert(s[i] == dec_rep(n)[0]);
        assert(digits_val(s, i, i) == 0);
        assert(digits_val(s, i, i + 1) == spec_digit_val(digit_char(n as int)));
    } else {
        let prefix = dec_rep((n / 10) as nat);
        assert(dec_rep(n) == prefix.push(digit_char((n % 10) as int)));
        assert(s.subrange(i, i + prefix.len() as int) =~= prefix);
        lemma_digits_val_dec_rep(s, i, (n / 10) as nat);
        assert(s[i + l - 1] == dec_rep(n)[l - 1]);
        assert(dec_rep(n)[l - 1] == digit_char((n % 10) as int));
    }
}

/// A scan of a well-formed string body embedded in `s`, with a closing
/// quote right after it, reads the body back verbatim.
proof fn lemma_str_scan_wf(s: Seq<char>, i: int, c: Seq<char>)
    requires
        0 <= i,
        i + c.len() < s.len(),
        s.subrange(i, i + c.len() as int) == c,
        s[i + c.len() as int] == '"',
        wf_lit(c),
    ensures
        str_scan(s, i) == StrScan::Done(c, i + c.len() + 1),
    decreases c.len(),
{
    if c.len() == 0 {
        assert(str_scan(s, i) == StrScan::Done(Seq::<char>::empty(), i + 1));
        assert(c =~= Seq::<char>::empty());
    } else if c[0] == '\\' {
        let tail = c.subrange(2, c.len() as int);
        assert(s[i] == c[0]);
        assert(s[i + 1] == c[1]);
        assert(s.subrange(i + 2, i + 2 + tail.len() as int) =~= tail);
        assert(wf_lit(tail)) by {
            assert(forall|k: int| 0 <= k < tail.len() ==> tail[k] == c[k + 2]);
        }
        lemma_str_scan_wf(s, i + 2, tail);
        assert(escape_piece(c[1]) == seq!['\\', c[1]]);
        assert(escape_piece(c[1]) + tail =~= c);
    } else {
        let tail = c.subrange(1, c.len() as int);
        assert(s[i] == c[0]);
        assert(s.subrange(i + 1, i + 1 + tail.len() as int) =~= tail);
        assert(wf_lit(tail)) by {
            assert(forall|k: int| 0 <= k < tail.len() ==> tail[k] == c[k + 1]);
        }
        lemma_str_scan_wf(s, i + 1, tail);
        assert(seq![c[0]] + tail =~= c);
    }
}

/// Putting one token in front keeps the model relation.
proof fn lemma_cons_one(t: TokenAt, r: LexOut)
    ensures
        lex_models(crate::lexer::lex_cons(t, r)) == match lex_models(r) {
            Option::Some(m) => Option::Some(seq![t.token] + m),
            Option::None => Option::<Seq<TokenModel>>::None,
        },
{
    match r {
        LexOut::Toks(ts) => {
            assert(at_models(seq![t] + ts) =~= seq![t.token] + at_models(ts));
        },
        LexOut::Fail(_) => {},
    }
}

/// Prefixing one token onto the models of the rest.
pub open spec fn cons_tok(t: TokenModel, rest: Option<Seq<TokenModel>>) -> Option<
    Seq<TokenModel>,
> {
    match rest {
        Option::Some(m) => Option::Some(seq![t] + m),
        Option::None => Option::None,
    }
}

/// Lexing from a single-character layout token steps over it.
proof fn lemma_lex_one_char(s: Seq<char>, i: int)
    requires
        0 <= i < s.len(),
        s[i] == '\n' || s[i] == ' ' || s[i] == '\t',
    ensures
        s[i] == '\n' ==> lex_m(s, i) == cons_tok(TokenModel::Newline, lex_m(s, i + 1)),
        s[i] == ' ' ==> lex_m(s, i) == cons_tok(TokenModel::Space, lex_m(s, i + 1)),
        s[i] == '\t' ==> lex_m(s, i) == cons_tok(TokenModel::Tab, lex_m(s, i + 1)),
{
    if s[i] == '\n' {
        lemma_cons_one(
            TokenAt { token: TokenModel::Newline, line: 1, column: 1 },
            lex_at(s, i + 1, 2, 1),
        );
        lemma_lex_models_any(s, i + 1, 2, 1, 1, 1);
    } else if s[i] == ' ' {
        lemma_cons_one(
            TokenAt { token: TokenModel::Space, line: 1, column: 1 },
            lex_at(s, i + 1, 1, 2),
        );
        lemma_lex_models_any(s, i + 1, 1, 2, 1, 1);
    } else {
        lemma_cons_one(
            TokenAt { token: TokenModel::Tab, line: 1, column: 1 },
            lex_at(s, i + 1, 1, 2),
        );
        lemma_lex_models_any(s, i + 1, 1, 2, 1, 1);
    }
}

/// Lexing from an embedded well-formed word yields that word token.
proof fn lemma_lex_word(s: Seq<char>, i: int, w: Seq<char>)
    requires
        0 <= i,
        i + w.len() <= s.len(),
        s.subrange(i, i + w.len() as int) == w,
        wf_word(w),
        i + w.len() < s.len() ==> !spec_is_word_char(s[i + w.len() as int]),
    ensures
        lex_m(s, i) == cons_tok(TokenModel::Word(w), lex_m(s, i + w.len())),
{
    let l = w.len() as int;
    assert(s[i] == w[0]);
    assert(forall|k: int| i <= k < i + l ==> spec_is_word_char(#[trigger] s[k])) by {
        assert(forall|k: int| i <= k < i + l ==> s[k] == w[k - i]);
    }
    lemma_word_end_unique(s, i, i + l);
    assert(s.subrange(i, word_end(s, i)) == w);
    lemma_cons_one(
        TokenAt { token: TokenModel::Word(w), line: 1, column: 1 },
        lex_at(s, i + l, 1, 1 + l),
    );
    lemma_lex_models_any(s, i + l, 1, 1 + l, 1, 1);
}

/// Lexing from an embedded decimal rendering yields that number token.
proof fn lemma_lex_number(s: Seq<char>, i: int, n: int)
    requires
        0 <= n <= i64::MAX,
        0 <= i,
        i + dec_rep(n as nat).len() <= s.len(),
        s.subrange(i, i + dec_rep(n as nat).len() as int) == dec_rep(n as nat),
        i + dec_rep(n as nat).len() < s.len() ==> !spec_is_digit(
            s[i + dec_rep(n as nat).len() as int],
        ) && s[i + dec_rep(n as nat).len() as int] != '.',
    ensures
        lex_m(s, i) == cons_tok(TokenModel::Number(n), lex_m(s, i + dec_rep(n as nat).len())),
{
    let l = dec_rep(n as nat).len() as int;
    lemma_dec_rep_digits(n as nat);
    assert(s[i] == dec_rep(n as nat)[0]);
    assert(forall|k: int| i <= k < i + l ==> spec_is_digit(#[trigger] s[k])) by {
        assert(forall|k: int| i <= k < i + l ==> s[k] == dec_rep(n as nat)[k - i]);
    }
    assert(!spec_is_word_start(s[i]));
    lemma_num_end_unique(s, i, i + l);
    lemma_int_end_unique(s, i, i + l);
    lemma_digits_val_dec_rep(s, i, n as nat);
    assert(crate::lexer::num_token_val(s, i) == n);
    lemma_cons_one(
        TokenAt { token: TokenModel::Number(n), line: 1, column: 1 },
        lex_at(s, i + l, 1, 1 + l),
    );
    lemma_lex_models_any(s, i + l, 1, 1 + l, 1, 1);
}

/// Lexing from an embedded quoted well-formed string yields that string
/// token.
proof fn lemma_lex_string(s: Seq<char>, i: int, c: Seq<char>)
    requires
        0 <= i,
        i + c.len() + 2 <= s.len(),
        s[i] == '"',
        s.subrange(i + 1, i + 1 + c.len() as int) == c,
        s[i + 1 + c.len() as int] == '"',
        wf_lit(c),
    ensures
        lex_m(s, i) == cons_tok(TokenModel::StrLit(c), lex_m(s, i + c.len() + 2)),
{
    let e = i + c.len() + 2;
    lemma_str_scan_wf(s, i + 1, c);
    assert(str_scan(s, i + 1) == StrScan::Done(c, e));
    lemma_cons_one(
        TokenAt { token: TokenModel::StrLit(c), line: 1, column: 1 },
        lex_at(
            s,
            e,
            crate::lexer::adv_line(s, i, e, 1),
            crate::lexer::adv_col(s, i, e, 1),
        ),
    );
    lemma_lex_models_any(
        s,
        e,
        crate::lexer::adv_line(s, i, e, 1),
        crate::lexer::adv_col(s, i, e, 1),
        1,
        1,
    );
}

/// The token kinds a stable expression renders to.
pub open spec fn toks_expr(e: ExprModel) -> Seq<TokenModel>
    decreases e,
{
    match e {
        ExprModel::Number(n) => seq![TokenModel::Number(n)],
        ExprModel::StrLit(s) => seq![TokenModel::StrLit(s)],
        ExprModel::Variable(v) => seq![TokenModel::Word(v)],
        ExprModel::Call(f, args) => seq![TokenModel::Word(f), TokenModel::Space] + (if args.len()
            == 1 {
            toks_expr(args[0])
        } else {
            Seq::empty()
        }),
        _ => Seq::empty(),
    }
}

/// The token kinds of a body's lines from `m` on: each line one tab, a
/// flat statement, and a newline before the next line (none after the
/// last: the statement separator follows it instead).
pub open spec fn body_toks(b: Seq<StmtModel>, m: int) -> Seq<TokenModel>
    decreases b, b.len() - m,
{
    if m < 0 || m >= b.len() {
        Seq::empty()
    } else if m == b.len() - 1 {
        seq![TokenModel::Tab] + toks_stmt(b[m])
    } else {
        seq![TokenModel::Tab] + toks_stmt(b[m]) + seq![TokenModel::Newline] + body_toks(b, m + 1)
    }
}

/// The token kinds a stable statement renders to.
pub open spec fn toks_stmt(s: StmtModel) -> Seq<TokenModel>
    decreases s, 2int,
{
    match s {
        StmtModel::Function { name, params, body } => seq![
            TokenModel::Word("func"@),
            TokenModel::Space,
            TokenModel::Word(name),
            TokenModel::Space,
        ] + (if params.len() == 1 {
            seq![TokenModel::Word(params[0])]
        } else {
            Seq::empty()
        }) + seq![TokenModel::Newline] + body_toks(body, 0),
        StmtModel::If { condition, then_body, else_body } => seq![
            TokenModel::Word("if"@),
            TokenModel::Space,
        ] + toks_expr(condition) + seq![TokenModel::Newline] + body_toks(then_body, 0) + (
        match else_body {
            Option::Some(b) => seq![
                TokenModel::Newline,
                TokenModel::Word("else"@),
                TokenModel::Newline,
            ] + body_toks(b, 0),
            Option::None => Seq::empty(),
        }),
        StmtModel::For { var, iterable, body } => seq![
            TokenModel::Word("for"@),
            TokenModel::Space,
            TokenModel::Word(var),
            TokenModel::Space,
            TokenModel::Word("in"@),
            TokenModel::Space,
        ] + toks_expr(iterable) + seq![TokenModel::Newline] + body_toks(body, 0),
        StmtModel::Let { name, value } => seq![
            TokenModel::Word("let"@),
            TokenModel::Space,
            TokenModel::Word(name),
            TokenModel::Space,
            TokenModel::Space,
        ] + toks_expr(value),
        StmtModel::Print { args } => seq![TokenModel::Word("print"@), TokenModel::Space] + (
        if args.len() == 1 {
            toks_expr(args[0])
        } else {
            Seq::empty()
        }),
        StmtModel::Return { value } => match value {
            Option::Some(v) => seq![TokenModel::Word("return"@), TokenModel::Space] + toks_expr(v),
            Option::None => seq![TokenModel::Word("return"@)],
        },
        StmtModel::Expr(e) => toks_expr(e),
    }
}

/// The token kinds of the statements from `k` on, one newline between
/// neighbours.
pub open spec fn toks_stmts(p: Seq<StmtModel>, k: int) -> Seq<TokenModel>
    decreases p.len() - k,
{
    if k < 0 || k >= p.len() {
        Seq::empty()
    } else if k == p.len() - 1 {
        toks_stmt(p[k])
    } else {
        toks_stmt(p[k]) + seq![TokenModel::Newline] + toks_stmts(p, k + 1)
    }
}

/// Prefixing a run of tokens onto the models of the rest.
pub open spec fn cat_toks(ts: Seq<TokenModel>, rest: Option<Seq<TokenModel>>) -> Option<
    Seq<TokenModel>,
> {
    match rest {
        Option::Some(m) => Option::Some(ts + m),
        Option::None => Option::None,
    }
}

/// A slice of an embedded region equals the matching slice of the
/// fragment.
proof fn lemma_slice(s: Seq<char>, i: int, f: Seq<char>, a: int, b: int)
    requires
        0 <= i,
        i + f.len() <= s.len(),
        s.subrange(i, i + f.len() as int) == f,
        0 <= a <= b <= f.len(),
    ensures
        s.subrange(i + a, i + b) == f.subrange(a, b),
{
    assert forall|m: int| 0 <= m < b - a implies s.subrange(i + a, i + b)[m] == f.subrange(
        a,
        b,
    )[m] by {
        assert(s.subrange(i, i + f.len() as int)[m + a] == f[m + a]);
    }
    assert(s.subrange(i + a, i + b) =~= f.subrange(a, b));
}

/// A character of an embedded region equals the fragment's.
proof fn lemma_char_at(s: Seq<char>, i: int, f: Seq<char>, k: int)
    requires
        0 <= i,
        i + f.len() <= s.len(),
        s.subrange(i, i + f.len() as int) == f,
        0 <= k < f.len(),
    ensures
        s[i + k] == f[k],
{
    assert(s.subrange(i, i + f.len() as int)[k] == f[k]);
}

/// Lexing from an embedded stable expression yields its tokens, then the
/// rest.
proof fn lemma_lex_expr(s: Seq<char>, i: int, e: ExprModel)
    requires
        stable_expr(e),
        0 <= i,
        i + fmt_expr(e).len() <= s.len(),
        s.subrange(i, i + fmt_expr(e).len() as int) == fmt_expr(e),
        i + fmt_expr(e).len() == s.len() || s[i + fmt_expr(e).len() as int] == '\n',
    ensures
        lex_m(s, i) == cat_toks(toks_expr(e), lex_m(s, i + fmt_expr(e).len())),
    decreases e,
{
    let f = fmt_expr(e);
    let fl = f.len() as int;
    match e {
        ExprModel::Number(n) => {
            assert(f == dec_rep(n as nat));
            assert(s.subrange(i, i + dec_rep(n as nat).len() as int) == dec_rep(n as nat));
            lemma_lex_number(s, i, n);
            match lex_m(s, i + fl) {
                Option::Some(m) => {
                    assert(seq![TokenModel::Number(n)] + m =~= seq![TokenModel::Number(n)] + m);
                },
                Option::None => {},
            }
        },
        ExprModel::StrLit(c) => {
            assert(f == seq!['"'] + c + seq!['"']);
            lemma_char_at(s, i, f, 0);
            assert(f[0] == '"');
            lemma_slice(s, i, f, 1, 1 + c.len() as int);
            assert(f.subrange(1, 1 + c.len() as int) =~= c);
            lemma_char_at(s, i, f, fl - 1);
            assert(f[fl - 1] == '"');
            lemma_lex_string(s, i, c);
        },
        ExprModel::Variable(v) => {
            assert(f == v);
            lemma_lex_word(s, i, v);
        },
        ExprModel::Call(g, args) => {
            let gl = g.len() as int;
            if args.len() == 1 {
                let a = args[0];
                let af = fmt_expr(a);
                assert(fmt_exprs(args, 0) == af);
                assert(f == g + seq![' '] + af);
                lemma_slice(s, i, f, 0, gl);
                assert(f.subrange(0, gl) =~= g);
                lemma_char_at(s, i, f, gl);
                assert(f[gl] == ' ');
                lemma_lex_word(s, i, g);
                lemma_lex_one_char(s, i + gl);
                lemma_slice(s, i, f, gl + 1, gl + 1 + af.len() as int);
                assert(f.subrange(gl + 1, gl + 1 + af.len() as int) =~= af);
                lemma_lex_expr(s, i + gl + 1, a);
                match lex_m(s, i + fl) {
                    Option::Some(m) => {
                        assert(seq![TokenModel::Word(g)] + (seq![TokenModel::Space] + (toks_expr(a)
                            + m)) =~= toks_expr(e) + m);
                    },
                    Option::None => {},
                }
            } else {
                assert(args.len() == 0);
                assert(fmt_exprs(args, 0) == Seq::<char>::empty());
                assert(f =~= g + seq![' ']);
                lemma_slice(s, i, f, 0, gl);
                assert(f.subrange(0, gl) =~= g);
                lemma_char_at(s, i, f, gl);
                assert(f[gl] == ' ');
                lemma_lex_word(s, i, g);
                lemma_lex_one_char(s, i + gl);
                match lex_m(s, i + fl) {
                    Option::Some(m) => {
                        assert(seq![TokenModel::Word(g)] + (seq![TokenModel::Space] + m)
                            =~= toks_expr(e) + m);
                    },
                    Option::None => {},
                }
            }
        },
        _ => {},
    }
}

/// A helper for walking a keyword-led line: the keyword region is a word.
proof fn lemma_kw_word(s: Seq<char>, i: int, w: Seq<char>)
    requires
        0 <= i,
        i + w.len() < s.len(),
        s.subrange(i, i + w.len() as int) == w,
        wf_word(w),
        !spec_is_word_char(s[i + w.len() as int]),
    ensures
        lex_m(s, i) == cons_tok(TokenModel::Word(w), lex_m(s, i + w.len())),
{
    lemma_lex_word(s, i, w);
}

/// Lexing from an embedded stable statement yields its tokens, then the
/// rest.
#[verifier::rlimit(100)]
proof fn lemma_lex_stmt(s: Seq<char>, i: int, st: StmtModel)
    requires
        stable_flat_stmt(st),
        0 <= i,
        i + fmt_stmt(st, Seq::empty()).len() <= s.len(),
        s.subrange(i, i + fmt_stmt(st, Seq::empty()).len() as int) == fmt_stmt(st, Seq::empty()),
        i + fmt_stmt(st, Seq::empty()).len() == s.len() || s[i + fmt_stmt(
            st,
            Seq::empty(),
        ).len() as int] == '\n',
    ensures
        lex_m(s, i) == cat_toks(toks_stmt(st), lex_m(s, i + fmt_stmt(st, Seq::empty()).len())),
{
    let f = fmt_stmt(st, Seq::empty());
    let fl = f.len() as int;
    reveal_strlit("let ");
    reveal_strlit("print ");
    reveal_strlit("return ");
    reveal_strlit("return");
    reveal_strlit("let");
    reveal_strlit("print");
    reveal_strlit("  ");
    reveal_strlit(" ");
    match st {
        StmtModel::Let { name, value } => {
            let nl = name.len() as int;
            let vf = fmt_expr(value);
            assert(f =~= "let "@ + name + "  "@ + vf);
            assert(wf_word("let"@)) by {
                assert("let "@[0] == 'l' && "let "@[1] == 'e' && "let "@[2] == 't');
                assert("let"@.len() == 3);
                assert("let"@[0] == 'l' && "let"@[1] == 'e' && "let"@[2] == 't');
            }
            lemma_slice(s, i, f, 0, 3);
            assert(f.subrange(0, 3) =~= "let"@);
            lemma_char_at(s, i, f, 3);
            assert(f[3] == ' ');
            lemma_kw_word(s, i, "let"@);
            lemma_lex_one_char(s, i + 3);
            lemma_slice(s, i, f, 4, 4 + nl);
            assert(f.subrange(4, 4 + nl) =~= name);
            lemma_char_at(s, i, f, 4 + nl);
            assert(f[4 + nl] == ' ');
            lemma_lex_word(s, i + 4, name);
            lemma_lex_one_char(s, i + 4 + nl);
            lemma_char_at(s, i, f, 5 + nl);
            assert(f[5 + nl] == ' ');
            lemma_lex_one_char(s, i + 5 + nl);
            lemma_slice(s, i, f, 6 + nl, 6 + nl + vf.len() as int);
            assert(f.subrange(6 + nl, 6 + nl + vf.len() as int) =~= vf);
            lemma_lex_expr(s, i + 6 + nl, value);
            match lex_m(s, i + fl) {
                Option::Some(m) => {
                    assert(seq![TokenModel::Word("let"@)] + (seq![TokenModel::Space] + (seq![
                        TokenModel::Word(name),
                    ] + (seq![TokenModel::Space] + (seq![TokenModel::Space] + (toks_expr(value)
                        + m))))) =~= toks_stmt(st) + m);
                },
                Option::None => {},
            }
        },
        StmtModel::Print { args } => {
            assert(f =~= "print "@ + fmt_exprs(args, 0));
            assert(wf_word("print"@)) by {
                assert("print"@.len() == 5);
                assert("print"@[0] == 'p' && "print"@[1] == 'r' && "print"@[2] == 'i'
                    && "print"@[3] == 'n' && "print"@[4] == 't');
            }
            lemma_slice(s, i, f, 0, 5);
            assert(f.subrange(0, 5) =~= "print"@);
            lemma_char_at(s, i, f, 5);
            assert(f[5] == ' ');
            lemma_kw_word(s, i, "print"@);
            lemma_lex_one_char(s, i + 5);
            if args.len() == 1 {
                let af = fmt_expr(args[0]);
                assert(fmt_exprs(args, 0) == af);
                lemma_slice(s, i, f, 6, 6 + af.len() as int);
                assert(f.subrange(6, 6 + af.len() as int) =~= af);
                lemma_lex_expr(s, i + 6, args[0]);
                match lex_m(s, i + fl) {
                    Option::Some(m) => {
                        assert(seq![TokenModel::Word("print"@)] + (seq![TokenModel::Space] + (
                        toks_expr(args[0]) + m)) =~= toks_stmt(st) + m);
                    },
                    Option::None => {},
                }
            } else {
                assert(fmt_exprs(args, 0) == Seq::<char>::empty());
                assert(i + 6 == i + fl);
                match lex_m(s, i + fl) {
                    Option::Some(m) => {
                        assert(seq![TokenModel::Word("print"@)] + (seq![TokenModel::Space] + m)
                            =~= toks_stmt(st) + m);
                    },
                    Option::None => {},
                }
            }
        },
        StmtModel::Return { value } => {
            assert(wf_word("return"@)) by {
                assert("return"@.len() == 6);
                assert("return"@[0] == 'r' && "return"@[1] == 'e' && "return"@[2] == 't'
                    && "return"@[3] == 'u' && "return"@[4] == 'r' && "return"@[5] == 'n');
            }
            match value {
                Option::Some(v) => {
                    let vf = fmt_expr(v);
                    assert(f =~= "return "@ + vf);
                    lemma_slice(s, i, f, 0, 6);
                    assert(f.subrange(0, 6) =~= "return"@);
                    lemma_char_at(s, i, f, 6);
                    assert(f[6] == ' ');
                    lemma_kw_word(s, i, "return"@);
                    lemma_lex_one_char(s, i + 6);
                    lemma_slice(s, i, f, 7, 7 + vf.len() as int);
                    assert(f.subrange(7, 7 + vf.len() as int) =~= vf);
                    lemma_lex_expr(s, i + 7, v);
                    match lex_m(s, i + fl) {
                        Option::Some(m) => {
                            assert(seq![TokenModel::Word("return"@)] + (seq![TokenModel::Space] + (
                            toks_expr(v) + m)) =~= toks_stmt(st) + m);
                        },
                        Option::None => {},
                    }
                },
                Option::None => {
                    assert(f =~= "return"@);
                    assert(s.subrange(i, i + 6) =~= "return"@);
                    if i + 6 < s.len() {
                        assert(s[i + 6] == '\n');
                        assert(!spec_is_word_char('\n'));
                    }
                    lemma_lex_word(s, i, "return"@);
                    match lex_m(s, i + fl) {
                        Option::Some(m) => {
                            assert(seq![TokenModel::Word("return"@)] + m =~= toks_stmt(st) + m);
                        },
                        Option::None => {},
                    }
                },
            }
        },
        StmtModel::Expr(e) => {
            assert(f =~= fmt_expr(e));
            assert(s.subrange(i, i + fmt_expr(e).len() as int) == fmt_expr(e));
            lemma_lex_expr(s, i, e);
        },
        _ => {},
    }
}

/// A flat statement's rendering under any prefix is the prefix, then its
/// rendering at the margin.
proof fn lemma_flat_pre(st: StmtModel, pre: Seq<char>)
    requires
        stable_flat_stmt(st),
    ensures
        fmt_stmt(st, pre) == pre + fmt_stmt(st, Seq::empty()),
{
    match st {
        StmtModel::Let { name, value } => {
            assert(fmt_stmt(st, pre) =~= pre + fmt_stmt(st, Seq::empty()));
        },
        StmtModel::Print { args } => {
            assert(fmt_stmt(st, pre) =~= pre + fmt_stmt(st, Seq::empty()));
        },
        StmtModel::Return { value } => {
            match value {
                Option::Some(_) => {
                    assert(fmt_stmt(st, pre) =~= pre + fmt_stmt(st, Seq::empty()));
                },
                Option::None => {
                    assert(fmt_stmt(st, pre) =~= pre + fmt_stmt(st, Seq::empty()));
                },
            }
        },
        StmtModel::Expr(e) => {
            assert(fmt_stmt(st, pre) =~= pre + fmt_stmt(st, Seq::empty()));
        },
        _ => {},
    }
}

/// Lexing the rendered lines of a body from line `m` on yields one tab,
/// one flat statement and one newline per line (no newline after the
/// last), then the rest.
#[verifier::rlimit(100)]
proof fn lemma_lex_body(s: Seq<char>, i: int, b: Seq<StmtModel>, m: int)
    requires
        0 <= m < b.len(),
        forall|q: int| 0 <= q < b.len() ==> stable_flat_stmt(#[trigger] b[q]),
        0 <= i,
        i + fmt_stmts(b, "\t"@, m).len() <= s.len(),
        s.subrange(i, i + fmt_stmts(b, "\t"@, m).len() as int) == fmt_stmts(b, "\t"@, m),
        i + fmt_stmts(b, "\t"@, m).len() == s.len() || s[i + fmt_stmts(b, "\t"@, m).len() as int]
            == '\n',
    ensures
        lex_m(s, i) == cat_toks(body_toks(b, m), lex_m(s, i + fmt_stmts(b, "\t"@, m).len())),
    decreases b.len() - m,
{
    reveal_strlit("\t");
    let f = fmt_stmts(b, "\t"@, m);
    let fl = f.len() as int;
    let line = fmt_stmt(b[m], "\t"@);
    let flat = fmt_stmt(b[m], Seq::empty());
    lemma_flat_pre(b[m], "\t"@);
    assert(line == "\t"@ + flat);
    assert(line.len() == 1 + flat.len());
    assert(line[0] == '\t');
    if m == b.len() - 1 {
        assert(f == line);
        lemma_char_at(s, i, f, 0);
        lemma_lex_one_char(s, i);
        lemma_slice(s, i, f, 1, line.len() as int);
        assert(f.subrange(1, line.len() as int) =~= flat);
        lemma_lex_stmt(s, i + 1, b[m]);
        match lex_m(s, i + fl) {
            Option::Some(r) => {
                assert(seq![TokenModel::Tab] + (toks_stmt(b[m]) + r) =~= body_toks(b, m) + r);
            },
            Option::None => {},
        }
    } else {
        assert(f == line + seq!['\n'] + fmt_stmts(b, "\t"@, m + 1));
        lemma_char_at(s, i, f, 0);
        assert(f[0] == '\t');
        lemma_lex_one_char(s, i);
        lemma_slice(s, i, f, 1, line.len() as int);
        assert(f.subrange(1, line.len() as int) =~= flat);
        lemma_char_at(s, i, f, line.len() as int);
        assert(f[line.len() as int] == '\n');
        lemma_lex_stmt(s, i + 1, b[m]);
        lemma_lex_one_char(s, i + line.len() as int);
        lemma_slice(s, i, f, line.len() as int + 1, fl);
        assert(f.subrange(line.len() as int + 1, fl) =~= fmt_stmts(b, "\t"@, m + 1));
        lemma_lex_body(s, i + line.len() as int + 1, b, m + 1);
        match lex_m(s, i + fl) {
            Option::Some(r) => {
                assert(seq![TokenModel::Tab] + (toks_stmt(b[m]) + (seq![TokenModel::Newline] + (
                body_toks(b, m + 1) + r))) =~= body_toks(b, m) + r);
            },
            Option::None => {},
        }
    }
}

/// Lexing an embedded `func` statement.
#[verifier::rlimit(100)]
proof fn lemma_lex_func(s: Seq<char>, i: int, st: StmtModel)
    requires
        stable_stmt(st),
        0 <= i,
        i + fmt_stmt(st, Seq::empty()).len() <= s.len(),
        s.subrange(i, i + fmt_stmt(st, Seq::empty()).len() as int) == fmt_stmt(st, Seq::empty()),
        i + fmt_stmt(st, Seq::empty()).len() == s.len() || s[i + fmt_stmt(
            st,
            Seq::empty(),
        ).len() as int] == '\n',
        st is Function,
    ensures
        lex_m(s, i) == cat_toks(toks_stmt(st), lex_m(s, i + fmt_stmt(st, Seq::empty()).len())),
{
    let f = fmt_stmt(st, Seq::empty());
    let fl = f.len() as int;
    reveal_strlit("func ");
    reveal_strlit("func");
    reveal_strlit("if ");
    reveal_strlit("if");
    reveal_strlit("for ");
    reveal_strlit("for");
    reveal_strlit(" in ");
    reveal_strlit("in");
    reveal_strlit("else\n");
    reveal_strlit("else");
    reveal_strlit(" ");
    reveal_strlit("\n");
    reveal_strlit("\t");
    assert(Seq::empty() + "\t"@ =~= "\t"@);
    match st {
        StmtModel::Function { name, params, body } => {
            let nl = name.len() as int;
            let bf = fmt_stmts(body, "\t"@, 0);
            assert(wf_word("func"@)) by {
                assert("func"@.len() == 4 && "func"@[0] == 'f' && "func"@[1] == 'u' && "func"@[2]
                    == 'n' && "func"@[3] == 'c');
            }
            if params.len() == 1 {
                let pw = params[0];
                let pl = pw.len() as int;
                assert(crate::ast::fmt_params(params, 0) == pw);
                assert(f =~= "func "@ + name + " "@ + pw + "\n"@ + bf);
                lemma_slice(s, i, f, 0, 4);
                assert(f.subrange(0, 4) =~= "func"@);
                lemma_char_at(s, i, f, 4);
                assert(f[4] == ' ');
                lemma_kw_word(s, i, "func"@);
                lemma_lex_one_char(s, i + 4);
                lemma_slice(s, i, f, 5, 5 + nl);
                assert(f.subrange(5, 5 + nl) =~= name);
                lemma_char_at(s, i, f, 5 + nl);
                assert(f[5 + nl] == ' ');
                lemma_lex_word(s, i + 5, name);
                lemma_lex_one_char(s, i + 5 + nl);
                lemma_slice(s, i, f, 6 + nl, 6 + nl + pl);
                assert(f.subrange(6 + nl, 6 + nl + pl) =~= pw);
                lemma_char_at(s, i, f, 6 + nl + pl);
                assert(f[6 + nl + pl] == '\n');
                lemma_lex_word(s, i + 6 + nl, pw);
                lemma_lex_one_char(s, i + 6 + nl + pl);
                lemma_slice(s, i, f, 7 + nl + pl, fl);
                assert(f.subrange(7 + nl + pl, fl) =~= bf);
                lemma_lex_body(s, i + 7 + nl + pl, body, 0);
                match lex_m(s, i + fl) {
                    Option::Some(r) => {
                        assert(seq![TokenModel::Word("func"@)] + (seq![TokenModel::Space] + (seq![
                            TokenModel::Word(name),
                        ] + (seq![TokenModel::Space] + (seq![TokenModel::Word(pw)] + (seq![
                            TokenModel::Newline,
                        ] + (body_toks(body, 0) + r)))))) =~= toks_stmt(st) + r);
                    },
                    Option::None => {},
                }
            } else {
                assert(params.len() == 0);
                assert(crate::ast::fmt_params(params, 0) == Seq::<char>::empty());
                assert(f =~= "func "@ + name + " "@ + "\n"@ + bf);
                lemma_slice(s, i, f, 0, 4);
                assert(f.subrange(0, 4) =~= "func"@);
                lemma_char_at(s, i, f, 4);
                assert(f[4] == ' ');
                lemma_kw_word(s, i, "func"@);
                lemma_lex_one_char(s, i + 4);
                lemma_slice(s, i, f, 5, 5 + nl);
                assert(f.subrange(5, 5 + nl) =~= name);
                lemma_char_at(s, i, f, 5 + nl);
                assert(f[5 + nl] == ' ');
                lemma_lex_word(s, i + 5, name);
                lemma_lex_one_char(s, i + 5 + nl);
                lemma_char_at(s, i, f, 6 + nl);
                assert(f[6 + nl] == '\n');
                lemma_lex_one_char(s, i + 6 + nl);
                lemma_slice(s, i, f, 7 + nl, fl);
                assert(f.subrange(7 + nl, fl) =~= bf);
                lemma_lex_body(s, i + 7 + nl, body, 0);
                match lex_m(s, i + fl) {
                    Option::Some(r) => {
                        assert(seq![TokenModel::Word("func"@)] + (seq![TokenModel::Space] + (seq![
                            TokenModel::Word(name),
                        ] + (seq![TokenModel::Space] + (seq![TokenModel::Newline] + (body_toks(
                            body,
                            0,
                        ) + r))))) =~= toks_stmt(st) + r);
                    },
                    Option::None => {},
                }
            }
        },
        _ => {},
    }
}

/// Lexing an embedded `if` statement.
#[verifier::rlimit(100)]
proof fn lemma_lex_if(s: Seq<char>, i: int, st: StmtModel)
    requires
        stable_stmt(st),
        0 <= i,
        i + fmt_stmt(st, Seq::empty()).len() <= s.len(),
        s.subrange(i, i + fmt_stmt(st, Seq::empty()).len() as int) == fmt_stmt(st, Seq::empty()),
        i + fmt_stmt(st, Seq::empty()).len() == s.len() || s[i + fmt_stmt(
            st,
            Seq::empty(),
        ).len() as int] == '\n',
        st is If,
    ensures
        lex_m(s, i) == cat_toks(toks_stmt(st), lex_m(s, i + fmt_stmt(st, Seq::empty()).len())),
{
    let f = fmt_stmt(st, Seq::empty());
    let fl = f.len() as int;
    reveal_strlit("func ");
    reveal_strlit("func");
    reveal_strlit("if ");
    reveal_strlit("if");
    reveal_strlit("for ");
    reveal_strlit("for");
    reveal_strlit(" in ");
    reveal_strlit("in");
    reveal_strlit("else\n");
    reveal_strlit("else");
    reveal_strlit(" ");
    reveal_strlit("\n");
    reveal_strlit("\t");
    assert(Seq::empty() + "\t"@ =~= "\t"@);
    match st {
        StmtModel::If { condition, then_body, else_body } => {
            let cf = fmt_expr(condition);
            let cl = cf.len() as int;
            let tb = fmt_stmts(then_body, "\t"@, 0);
            assert(wf_word("if"@)) by {
                assert("if"@.len() == 2 && "if"@[0] == 'i' && "if"@[1] == 'f');
            }
            match else_body {
                Option::None => {
                    assert(f =~= "if "@ + cf + "\n"@ + tb);
                    lemma_slice(s, i, f, 0, 2);
                    assert(f.subrange(0, 2) =~= "if"@);
                    lemma_char_at(s, i, f, 2);
                    assert(f[2] == ' ');
                    lemma_kw_word(s, i, "if"@);
                    lemma_lex_one_char(s, i + 2);
                    lemma_slice(s, i, f, 3, 3 + cl);
                    assert(f.subrange(3, 3 + cl) =~= cf);
                    lemma_char_at(s, i, f, 3 + cl);
                    assert(f[3 + cl] == '\n');
                    lemma_lex_expr(s, i + 3, condition);
                    lemma_lex_one_char(s, i + 3 + cl);
                    lemma_slice(s, i, f, 4 + cl, fl);
                    assert(f.subrange(4 + cl, fl) =~= tb);
                    lemma_lex_body(s, i + 4 + cl, then_body, 0);
                    match lex_m(s, i + fl) {
                        Option::Some(r) => {
                            assert(seq![TokenModel::Word("if"@)] + (seq![TokenModel::Space] + (
                            toks_expr(condition) + (seq![TokenModel::Newline] + (body_toks(
                                then_body,
                                0,
                            ) + r)))) =~= toks_stmt(st) + r);
                        },
                        Option::None => {},
                    }
                },
                Option::Some(eb) => {
                    let ebf = fmt_stmts(eb, "\t"@, 0);
                    assert(f =~= "if "@ + cf + "\n"@ + tb + "\n"@ + "else\n"@ + ebf);
                    lemma_slice(s, i, f, 0, 2);
                    assert(f.subrange(0, 2) =~= "if"@);
                    lemma_char_at(s, i, f, 2);
                    assert(f[2] == ' ');
                    lemma_kw_word(s, i, "if"@);
                    lemma_lex_one_char(s, i + 2);
                    lemma_slice(s, i, f, 3, 3 + cl);
                    assert(f.subrange(3, 3 + cl) =~= cf);
                    lemma_char_at(s, i, f, 3 + cl);
                    assert(f[3 + cl] == '\n');
                    lemma_lex_expr(s, i + 3, condition);
                    lemma_lex_one_char(s, i + 3 + cl);
                    let tbl = tb.len() as int;
                    lemma_slice(s, i, f, 4 + cl, 4 + cl + tbl);
                    assert(f.subrange(4 + cl, 4 + cl + tbl) =~= tb);
                    lemma_char_at(s, i, f, 4 + cl + tbl);
                    assert(f[4 + cl + tbl] == '\n');
                    lemma_lex_body(s, i + 4 + cl, then_body, 0);
                    lemma_lex_one_char(s, i + 4 + cl + tbl);
                    assert(wf_word("else"@)) by {
                        assert("else"@.len() == 4 && "else"@[0] == 'e' && "else"@[1] == 'l'
                            && "else"@[2] == 's' && "else"@[3] == 'e');
                    }
                    lemma_slice(s, i, f, 5 + cl + tbl, 9 + cl + tbl);
                    assert(f.subrange(5 + cl + tbl, 9 + cl + tbl) =~= "else"@);
                    lemma_char_at(s, i, f, 9 + cl + tbl);
                    assert(f[9 + cl + tbl] == '\n');
                    lemma_lex_word(s, i + 5 + cl + tbl, "else"@);
                    lemma_lex_one_char(s, i + 9 + cl + tbl);
                    lemma_slice(s, i, f, 10 + cl + tbl, fl);
                    assert(f.subrange(10 + cl + tbl, fl) =~= ebf);
                    lemma_lex_body(s, i + 10 + cl + tbl, eb, 0);
                    match lex_m(s, i + fl) {
                        Option::Some(r) => {
                            assert(seq![TokenModel::Word("if"@)] + (seq![TokenModel::Space] + (
                            toks_expr(condition) + (seq![TokenModel::Newline] + (body_toks(
                                then_body,
                                0,
                            ) + (seq![TokenModel::Newline] + (seq![TokenModel::Word("else"@)] + (
                            seq![TokenModel::Newline] + (body_toks(eb, 0) + r))))))))
                                =~= toks_stmt(st) + r);
                        },
                        Option::None => {},
                    }
                },
            }
        },
        _ => {},
    }
}

/// Lexing an embedded `for` statement.
#[verifier::rlimit(100)]
proof fn lemma_lex_for(s: Seq<char>, i: int, st: StmtModel)
    requires
        stable_stmt(st),
        0 <= i,
        i + fmt_stmt(st, Seq::empty()).len() <= s.len(),
        s.subrange(i, i + fmt_stmt(st, Seq::empty()).len() as int) == fmt_stmt(st, Seq::empty()),
        i + fmt_stmt(st, Seq::empty()).len() == s.len() || s[i + fmt_stmt(
            st,
            Seq::empty(),
        ).len() as int] == '\n',
        st is For,
    ensures
        lex_m(s, i) == cat_toks(toks_stmt(st), lex_m(s, i + fmt_stmt(st, Seq::empty()).len())),
{
    let f = fmt_stmt(st, Seq::empty());
    let fl = f.len() as int;
    reveal_strlit("func ");
    reveal_strlit("func");
    reveal_strlit("if ");
    reveal_strlit("if");
    reveal_strlit("for ");
    reveal_strlit("for");
    reveal_strlit(" in ");
    reveal_strlit("in");
    reveal_strlit("else\n");
    reveal_strlit("else");
    reveal_strlit(" ");
    reveal_strlit("\n");
    reveal_strlit("\t");
    assert(Seq::empty() + "\t"@ =~= "\t"@);
    match st {
        StmtModel::For { var, iterable, body } => {
            let vl = var.len() as int;
            let itf = fmt_expr(iterable);
            let il = itf.len() as int;
            let bf = fmt_stmts(body, "\t"@, 0);
            assert(wf_word("for"@)) by {
                assert("for"@.len() == 3 && "for"@[0] == 'f' && "for"@[1] == 'o' && "for"@[2]
                    == 'r');
            }
            assert(wf_word("in"@)) by {
                assert("in"@.len() == 2 && "in"@[0] == 'i' && "in"@[1] == 'n');
            }
            assert(f =~= "for "@ + var + " in "@ + itf + "\n"@ + bf);
            lemma_slice(s, i, f, 0, 3);
            assert(f.subrange(0, 3) =~= "for"@);
            lemma_char_at(s, i, f, 3);
            assert(f[3] == ' ');
            lemma_kw_word(s, i, "for"@);
            lemma_lex_one_char(s, i + 3);
            lemma_slice(s, i, f, 4, 4 + vl);
            assert(f.subrange(4, 4 + vl) =~= var);
            lemma_char_at(s, i, f, 4 + vl);
            assert(f[4 + vl] == ' ');
            lemma_lex_word(s, i + 4, var);
            lemma_lex_one_char(s, i + 4 + vl);
            lemma_slice(s, i, f, 5 + vl, 7 + vl);
            assert(f.subrange(5 + vl, 7 + vl) =~= "in"@);
            lemma_char_at(s, i, f, 7 + vl);
            assert(f[7 + vl] == ' ');
            lemma_lex_word(s, i + 5 + vl, "in"@);
            lemma_lex_one_char(s, i + 7 + vl);
            lemma_slice(s, i, f, 8 + vl, 8 + vl + il);
            assert(f.subrange(8 + vl, 8 + vl + il) =~= itf);
            lemma_char_at(s, i, f, 8 + vl + il);
            assert(f[8 + vl + il] == '\n');
            lemma_lex_expr(s, i + 8 + vl, iterable);
            lemma_lex_one_char(s, i + 8 + vl + il);
            lemma_slice(s, i, f, 9 + vl + il, fl);
            assert(f.subrange(9 + vl + il, fl) =~= bf);
            lemma_lex_body(s, i + 9 + vl + il, body, 0);
            match lex_m(s, i + fl) {
                Option::Some(r) => {
                    assert(seq![TokenModel::Word("for"@)] + (seq![TokenModel::Space] + (seq![
                        TokenModel::Word(var),
                    ] + (seq![TokenModel::Space] + (seq![TokenModel::Word("in"@)] + (seq![
                        TokenModel::Space,
                    ] + (toks_expr(iterable) + (seq![TokenModel::Newline] + (body_toks(body, 0)
                        + r)))))))) =~= toks_stmt(st) + r);
                },
                Option::None => {},
            }
        },
        _ => {},
    }
}

/// Lexing from an embedded stable statement, block forms included.
proof fn lemma_lex_stmt_full(s: Seq<char>, i: int, st: StmtModel)
    requires
        stable_stmt(st),
        0 <= i,
        i + fmt_stmt(st, Seq::empty()).len() <= s.len(),
        s.subrange(i, i + fmt_stmt(st, Seq::empty()).len() as int) == fmt_stmt(st, Seq::empty()),
        i + fmt_stmt(st, Seq::empty()).len() == s.len() || s[i + fmt_stmt(
            st,
            Seq::empty(),
        ).len() as int] == '\n',
    ensures
        lex_m(s, i) == cat_toks(toks_stmt(st), lex_m(s, i + fmt_stmt(st, Seq::empty()).len())),
{
    match st {
        StmtModel::Function { .. } => lemma_lex_func(s, i, st),
        StmtModel::If { .. } => lemma_lex_if(s, i, st),
        StmtModel::For { .. } => lemma_lex_for(s, i, st),
        _ => lemma_lex_stmt(s, i, st),
    }
}

/// Lexing the rendered tail of a stable program yields its tokens and
/// one final `Eof`.
proof fn lemma_lex_stmts(s: Seq<char>, i: int, p: Seq<StmtModel>, k: int)
    requires
        stable_program(p),
        0 <= k <= p.len(),
        0 <= i <= s.len(),
        s.subrange(i, s.len() as int) == fmt_stmts(p, Seq::empty(), k),
    ensures
        lex_m(s, i) == Option::Some(toks_stmts(p, k) + seq![TokenModel::Eof]),
    decreases p.len() - k,
{
    if k >= p.len() {
        assert(fmt_stmts(p, Seq::empty(), k) == Seq::<char>::empty());
        assert(i == s.len());
        assert(at_models(seq![TokenAt { token: TokenModel::Eof, line: 1, column: 1 }]) =~= seq![
            TokenModel::Eof,
        ]);
        assert(toks_stmts(p, k) + seq![TokenModel::Eof] =~= seq![TokenModel::Eof]);
    } else {
        let sf = fmt_stmt(p[k], Seq::empty());
        let sl = sf.len() as int;
        if k == p.len() - 1 {
            assert(fmt_stmts(p, Seq::empty(), k) == sf);
            assert(i + sl == s.len());
            assert(s.subrange(i, i + sl) =~= s.subrange(i, s.len() as int));
            assert(s.subrange(i, i + sl) == sf);
            lemma_lex_stmt_full(s, i, p[k]);
            assert(s.subrange(i + sl, s.len() as int) =~= Seq::<char>::empty());
            assert(fmt_stmts(p, Seq::empty(), k + 1) == Seq::<char>::empty());
            lemma_lex_stmts(s, i + sl, p, k + 1);
            assert(toks_stmt(p[k]) + (toks_stmts(p, k + 1) + seq![TokenModel::Eof]) =~= toks_stmts(
                p,
                k,
            ) + seq![TokenModel::Eof]);
        } else {
            assert(fmt_stmts(p, Seq::empty(), k) == sf + seq!['\n'] + fmt_stmts(
                p,
                Seq::empty(),
                k + 1,
            ));
            let whole = fmt_stmts(p, Seq::empty(), k);
            assert(i + whole.len() == s.len());
            lemma_slice(s, i, whole, 0, sl);
            assert(whole.subrange(0, sl) =~= sf);
            lemma_char_at(s, i, whole, sl);
            assert(whole[sl] == '\n');
            lemma_lex_stmt_full(s, i, p[k]);
            lemma_lex_one_char(s, i + sl);
            lemma_slice(s, i, whole, sl + 1, whole.len() as int);
            assert(whole.subrange(sl + 1, whole.len() as int) =~= fmt_stmts(
                p,
                Seq::empty(),
                k + 1,
            ));
            assert(s.subrange(i + sl + 1, s.len() as int) == fmt_stmts(p, Seq::empty(), k + 1));
            lemma_lex_stmts(s, i + sl + 1, p, k + 1);
            assert(toks_stmt(p[k]) + (seq![TokenModel::Newline] + (toks_stmts(p, k + 1) + seq![
                TokenModel::Eof,
            ])) =~= toks_stmts(p, k) + seq![TokenModel::Eof]);
        }
    }
}

/// Tokenizing the rendering of a stable program succeeds and yields its
/// canonical tokens and one final `Eof`.
pub proof fn lemma_tokenize_format(p: Seq<StmtModel>)
    requires
        stable_program(p),
    ensures
        lex_models(spec_tokenize(fmt_program(p))) == Option::Some(
            toks_stmts(p, 0) + seq![TokenModel::Eof],
        ),
{
    let s = fmt_program(p);
    assert(fmt_program(p) == fmt_stmts(p, Seq::empty(), 0));
    assert(s.subrange(0, s.len() as int) =~= fmt_stmts(p, Seq::empty(), 0));
    lemma_lex_stmts(s, 0, p, 0);
}

/// A slice of an embedded token region equals the matching slice of the
/// fragment.
proof fn lemma_tslice(t: Seq<TokenModel>, i: int, f: Seq<TokenModel>, a: int, b: int)
    requires
        0 <= i,
        i + f.len() <= t.len(),
        t.subrange(i, i + f.len() as int) == f,
        0 <= a <= b <= f.len(),
    ensures
        t.subrange(i + a, i + b) == f.subrange(a, b),
{
    assert forall|m: int| 0 <= m < b - a implies t.subrange(i + a, i + b)[m] == f.subrange(
        a,
        b,
    )[m] by {
        assert(t.subrange(i, i + f.len() as int)[m + a] == f[m + a]);
    }
    assert(t.subrange(i + a, i + b) =~= f.subrange(a, b));
}

/// A token of an embedded region equals the fragment's.
proof fn lemma_tat(t: Seq<TokenModel>, i: int, f: Seq<TokenModel>, k: int)
    requires
        0 <= i,
        i + f.len() <= t.len(),
        t.subrange(i, i + f.len() as int) == f,
        0 <= k < f.len(),
    ensures
        t[i + k] == f[k],
{
    assert(t.subrange(i, i + f.len() as int)[k] == f[k]);
}

/// A stable expression's tokens are nonempty and open with a literal or a
/// word.
proof fn lemma_toks_expr_shape(e: ExprModel)
    requires
        stable_expr(e),
    ensures
        toks_expr(e).len() >= 1,
        toks_expr(e)[0] is Number || toks_expr(e)[0] is StrLit || toks_expr(e)[0] is Word,
{
}

/// A stable statement's tokens are nonempty and open with a word or a
/// literal; a reserved word only when the statement form owns it.
proof fn lemma_toks_stmt_shape(st: StmtModel)
    requires
        stable_stmt(st),
    ensures
        toks_stmt(st).len() >= 1,
        toks_stmt(st)[0] is Number || toks_stmt(st)[0] is StrLit || toks_stmt(st)[0] is Word,
        toks_stmt(st)[0] matches TokenModel::Word(w) ==> w != "else"@,
{
    reveal_strlit("else");
    lemma_keywords();
    match st {
        StmtModel::Expr(e) => {
            lemma_toks_expr_shape(e);
            match e {
                ExprModel::Variable(v) => {
                    assert(toks_stmt(st)[0] == TokenModel::Word(v));
                },
                ExprModel::Call(g, _) => {
                    assert(toks_stmt(st)[0] == toks_expr(e)[0]);
                },
                _ => {},
            }
        },
        StmtModel::Function { .. } => {
            assert(toks_stmt(st)[0] == TokenModel::Word("func"@));
            assert("func"@ != "else"@) by {
                assert("func"@[1] == 'u' && "else"@[1] == 'l');
            }
        },
        StmtModel::If { .. } => {
            assert(toks_stmt(st)[0] == TokenModel::Word("if"@));
        },
        StmtModel::For { .. } => {
            assert(toks_stmt(st)[0] == TokenModel::Word("for"@));
            assert("for"@ != "else"@) by {
                assert("for"@[0] == 'f' && "else"@[0] == 'e');
            }
        },
        _ => {},
    }
}

/// A well-formed word is not an operator spelling.
proof fn lemma_wf_word_not_minus(w: Seq<char>)
    requires
        wf_word(w),
    ensures
        w != "-"@,
{
    reveal_strlit("-");
    if w == "-"@ {
        assert(w[0] == '-');
        assert(!spec_is_word_start('-'));
    }
}

/// Parsing from an embedded stable expression's tokens reads it back and
/// stops at the line's end.
proof fn lemma_parse_expr_b(t: Seq<TokenModel>, i: int, e: ExprModel)
    requires
        stable_expr(e),
        0 <= i,
        i + toks_expr(e).len() <= t.len(),
        t.subrange(i, i + toks_expr(e).len() as int) == toks_expr(e),
        ({
            let j = i + toks_expr(e).len() as int;
            j == t.len() || t[j] is Newline || t[j] is Eof
        }),
    ensures
        parse_expression(t, i) == Parsed::Done(e, i + toks_expr(e).len() as int),
    decreases e,
{
    let f = toks_expr(e);
    let el = f.len() as int;
    let j = i + el;
    lemma_toks_expr_shape(e);
    lemma_tat(t, i, f, 0);
    match e {
        ExprModel::Number(n) => {
            assert(t[i] == TokenModel::Number(n));
            assert(parse_unary(t, i) == Parsed::Done(e, i + 1));
            assert(op_at(t, j) is None);
            assert(parse_bin_more(t, j, e, 0) == Parsed::Done(e, j));
        },
        ExprModel::StrLit(c) => {
            assert(t[i] == TokenModel::StrLit(c));
            assert(parse_unary(t, i) == Parsed::Done(e, i + 1));
            assert(op_at(t, j) is None);
        },
        ExprModel::Variable(v) => {
            assert(t[i] == TokenModel::Word(v));
            lemma_wf_word_not_minus(v);
            assert(!is_kind_space(t, i + 1));
            assert(parse_primary(t, i) == Parsed::Done(e, i + 1));
            assert(parse_unary(t, i) == Parsed::Done(e, i + 1));
            assert(op_at(t, j) is None);
        },
        ExprModel::Call(g, args) => {
            assert(t[i] == TokenModel::Word(g));
            lemma_wf_word_not_minus(g);
            lemma_tat(t, i, f, 1);
            assert(t[i + 1] is Space);
            assert(is_kind_space(t, i + 1));
            if args.len() == 1 {
                let a = args[0];
                let af = toks_expr(a);
                lemma_toks_expr_shape(a);
                lemma_tslice(t, i, f, 2, 2 + af.len() as int);
                assert(f.subrange(2, 2 + af.len() as int) =~= af);
                lemma_tat(t, i, f, 2);
                assert(!(t[i + 2] is Space) && !(t[i + 2] is Tab));
                assert(skip_ws(t, i + 2) == i + 2);
                assert(skip_ws(t, i + 1) == i + 2);
                lemma_parse_expr_b(t, i + 2, a);
                assert(parse_expression(t, i + 2) == Parsed::Done(a, j));
                assert(!(is_kind_space(t, j)) && !(is_kind_tab(t, j)));
                assert(skip_ws(t, j) == j);
                assert(is_kind_newline(t, j) || at_end(t, j));
                assert(parse_call_args(t, j, false) == Parsed::Done(Seq::<ExprModel>::empty(), j));
                assert(parse_call_args(t, i + 2, true) == Parsed::Done(seq![a], j)) by {
                    assert(seq![a] + Seq::<ExprModel>::empty() =~= seq![a]);
                }
                assert(seq![a] =~= args);
                assert(parse_primary(t, i) == Parsed::Done(e, j));
                assert(parse_unary(t, i) == Parsed::Done(e, j));
                assert(op_at(t, j) is None);
            } else {
                assert(args.len() == 0);
                assert(el == 2);
                assert(is_kind_newline(t, i + 2) || at_end(t, i + 2));
                assert(!(is_kind_space(t, i + 2)) && !(is_kind_tab(t, i + 2)));
                assert(skip_ws(t, i + 2) == i + 2);
                assert(skip_ws(t, i + 1) == i + 2);
                assert(parse_call_args(t, i + 2, true) == Parsed::Done(
                    Seq::<ExprModel>::empty(),
                    i + 2,
                ));
                assert(args =~= Seq::<ExprModel>::empty());
                assert(parse_primary(t, i) == Parsed::Done(e, j));
                assert(parse_unary(t, i) == Parsed::Done(e, j));
                assert(op_at(t, j) is None);
            }
        },
        _ => {},
    }
}

/// The statement keywords are six distinct words.
proof fn lemma_keywords()
    ensures
        "let"@.len() == 3 && "func"@.len() == 4 && "if"@.len() == 2 && "for"@.len() == 3
            && "print"@.len() == 5 && "return"@.len() == 6,
        "let"@[0] == 'l' && "for"@[0] == 'f' && "if"@[0] == 'i' && "func"@[0] == 'f'
            && "print"@[0] == 'p' && "return"@[0] == 'r',
        "func"@[1] == 'u' && "for"@[1] == 'o',
        "else"@.len() == 4 && "else"@[0] == 'e' && "else"@[1] == 'l' && "else"@[2] == 's'
            && "else"@[3] == 'e',
        "in"@.len() == 2 && "in"@[0] == 'i' && "in"@[1] == 'n',
{
    reveal_strlit("let");
    reveal_strlit("func");
    reveal_strlit("if");
    reveal_strlit("for");
    reveal_strlit("print");
    reveal_strlit("return");
    reveal_strlit("else");
    reveal_strlit("in");
}

/// The shared shape of the statement-level reparse lemmas.
pub open spec fn stmt_b_pre(t: Seq<TokenModel>, i: int, st: StmtModel) -> bool {
    &&& stable_flat_stmt(st)
    &&& 0 <= i
    &&& i + toks_stmt(st).len() <= t.len()
    &&& t.subrange(i, i + toks_stmt(st).len() as int) == toks_stmt(st)
    &&& ({
        let j = i + toks_stmt(st).len() as int;
        j == t.len() || t[j] is Newline || t[j] is Eof
    })
}

/// Where a statement's reparse stops: beyond its terminating newline when
/// there is one.
pub open spec fn stmt_b_end(t: Seq<TokenModel>, i: int, st: StmtModel) -> int {
    let j = i + toks_stmt(st).len() as int;
    if is_kind_newline(t, j) {
        j + 1
    } else {
        j
    }
}

#[verifier::rlimit(100)]
proof fn lemma_parse_let_b(t: Seq<TokenModel>, i: int, st: StmtModel)
    requires
        stmt_b_pre(t, i, st),
        st is Let,
    ensures
        parse_statement(t, i) == Parsed::Done(st, stmt_b_end(t, i, st)),
{
    let f = toks_stmt(st);
    let fl = f.len() as int;
    let j = i + fl;
    lemma_keywords();
    match st {
        StmtModel::Let { name, value } => {
            lemma_tat(t, i, f, 0);
            lemma_tat(t, i, f, 1);
            lemma_tat(t, i, f, 2);
            lemma_tat(t, i, f, 3);
            lemma_tat(t, i, f, 4);
            assert(t[i] == TokenModel::Word("let"@));
            assert(word_at(t, i) == Option::Some("let"@));
            assert(t[i + 1] is Space && t[i + 2] == TokenModel::Word(name) && t[i + 3] is Space
                && t[i + 4] is Space);
            let vf = toks_expr(value);
            lemma_toks_expr_shape(value);
            lemma_tslice(t, i, f, 5, 5 + vf.len() as int);
            assert(f.subrange(5, 5 + vf.len() as int) =~= vf);
            lemma_tat(t, i, f, 5);
            assert(skip_ws(t, i + 2) == i + 2);
            assert(skip_ws(t, i + 1) == i + 2);
            assert(expect_word(t, i + 2) == Parsed::Done(name, i + 3));
            assert(!(t[i + 5] is Space) && !(t[i + 5] is Tab));
            assert(skip_ws(t, i + 5) == i + 5);
            assert(skip_ws(t, i + 4) == i + 5);
            assert(skip_ws(t, i + 3) == i + 5);
            lemma_parse_expr_b(t, i + 5, value);
            assert(parse_let(t, i) == Parsed::Done(st, stmt_b_end(t, i, st)));
        },
        _ => {},
    }
}

#[verifier::rlimit(100)]
proof fn lemma_parse_print_b(t: Seq<TokenModel>, i: int, st: StmtModel)
    requires
        stmt_b_pre(t, i, st),
        st is Print,
    ensures
        parse_statement(t, i) == Parsed::Done(st, stmt_b_end(t, i, st)),
{
    let f = toks_stmt(st);
    let fl = f.len() as int;
    let j = i + fl;
    lemma_keywords();
    match st {
        StmtModel::Print { args } => {
            lemma_tat(t, i, f, 0);
            lemma_tat(t, i, f, 1);
            assert(t[i] == TokenModel::Word("print"@));
            assert(word_at(t, i) == Option::Some("print"@));
            assert(t[i + 1] is Space);
            if args.len() == 1 {
                let a = args[0];
                let af = toks_expr(a);
                lemma_toks_expr_shape(a);
                lemma_tslice(t, i, f, 2, 2 + af.len() as int);
                assert(f.subrange(2, 2 + af.len() as int) =~= af);
                lemma_tat(t, i, f, 2);
                assert(!(t[i + 2] is Space) && !(t[i + 2] is Tab));
                assert(skip_ws(t, i + 2) == i + 2);
                assert(skip_ws(t, i + 1) == i + 2);
                assert(!(is_kind_newline(t, i + 2)) && !at_end(t, i + 2));
                lemma_parse_expr_b(t, i + 2, a);
                assert(skip_ws(t, j) == j);
                assert(is_kind_newline(t, j) || at_end(t, j));
                assert(parse_print_args(t, j, false) == Parsed::Done(
                    Seq::<ExprModel>::empty(),
                    j,
                ));
                assert(parse_print_args(t, i + 2, true) == Parsed::Done(seq![a], j)) by {
                    assert(seq![a] + Seq::<ExprModel>::empty() =~= seq![a]);
                }
                assert(seq![a] =~= args);
            } else {
                assert(args.len() == 0);
                assert(fl == 2);
                assert(is_kind_newline(t, i + 2) || at_end(t, i + 2));
                assert(skip_ws(t, i + 2) == i + 2);
                assert(skip_ws(t, i + 1) == i + 2);
                assert(parse_print_args(t, i + 2, true) == Parsed::Done(
                    Seq::<ExprModel>::empty(),
                    i + 2,
                ));
                assert(args =~= Seq::<ExprModel>::empty());
            }
        },
        _ => {},
    }
}

#[verifier::rlimit(100)]
proof fn lemma_parse_return_b(t: Seq<TokenModel>, i: int, st: StmtModel)
    requires
        stmt_b_pre(t, i, st),
        st is Return,
    ensures
        parse_statement(t, i) == Parsed::Done(st, stmt_b_end(t, i, st)),
{
    let f = toks_stmt(st);
    let fl = f.len() as int;
    let j = i + fl;
    lemma_keywords();
    match st {
        StmtModel::Return { value } => {
            lemma_tat(t, i, f, 0);
            assert(t[i] == TokenModel::Word("return"@));
            assert(word_at(t, i) == Option::Some("return"@));
            match value {
                Option::Some(v) => {
                    lemma_tat(t, i, f, 1);
                    assert(t[i + 1] is Space);
                    let vf = toks_expr(v);
                    lemma_toks_expr_shape(v);
                    lemma_tslice(t, i, f, 2, 2 + vf.len() as int);
                    assert(f.subrange(2, 2 + vf.len() as int) =~= vf);
                    lemma_tat(t, i, f, 2);
                    assert(skip_ws(t, i + 2) == i + 2);
                    assert(skip_ws(t, i + 1) == i + 2);
                    assert(!(is_kind_newline(t, i + 2)) && !at_end(t, i + 2));
                    lemma_parse_expr_b(t, i + 2, v);
                },
                Option::None => {
                    assert(fl == 1);
                    assert(!(is_kind_space(t, i + 1)) && !(is_kind_tab(t, i + 1)));
                    assert(skip_ws(t, i + 1) == i + 1);
                    assert(is_kind_newline(t, i + 1) || at_end(t, i + 1));
                },
            }
        },
        _ => {},
    }
}

#[verifier::rlimit(100)]
proof fn lemma_parse_expr_stmt_b(t: Seq<TokenModel>, i: int, st: StmtModel)
    requires
        stmt_b_pre(t, i, st),
        st is Expr,
    ensures
        parse_statement(t, i) == Parsed::Done(st, stmt_b_end(t, i, st)),
{
    let f = toks_stmt(st);
    let j = i + f.len() as int;
    lemma_keywords();
    match st {
        StmtModel::Expr(e) => {
            lemma_toks_expr_shape(e);
            lemma_tat(t, i, f, 0);
            match e {
                ExprModel::Variable(v) => {
                    assert(word_at(t, i) == Option::Some(v));
                    assert(!stmt_keyword(v));
                },
                ExprModel::Call(g, _) => {
                    assert(word_at(t, i) == Option::Some(g));
                    assert(!stmt_keyword(g));
                },
                _ => {
                    assert(word_at(t, i) is None);
                },
            }
            lemma_parse_expr_b(t, i, e);
            assert(parse_expr_stmt(t, i) == Parsed::Done(st, stmt_b_end(t, i, st)));
        },
        _ => {},
    }
}

/// Parsing from an embedded stable statement's tokens reads it back,
/// consuming its terminating newline when there is one.
proof fn lemma_parse_stmt_b(t: Seq<TokenModel>, i: int, st: StmtModel)
    requires
        stmt_b_pre(t, i, st),
    ensures
        parse_statement(t, i) == Parsed::Done(st, stmt_b_end(t, i, st)),
{
    match st {
        StmtModel::Let { .. } => lemma_parse_let_b(t, i, st),
        StmtModel::Print { .. } => lemma_parse_print_b(t, i, st),
        StmtModel::Return { .. } => lemma_parse_return_b(t, i, st),
        StmtModel::Expr(_) => lemma_parse_expr_stmt_b(t, i, st),
        _ => {},
    }
}

/// The shape of the full statement-level reparse lemmas: besides the
/// region and its terminator, the token after the statement's extent must
/// not re-open a block (tab), be a blank line (newline), or be an `else`
/// word a dangling `if` would capture.
pub open spec fn stmt_full_pre(t: Seq<TokenModel>, i: int, st: StmtModel) -> bool {
    &&& stable_stmt(st)
    &&& 0 <= i
    &&& i + toks_stmt(st).len() <= t.len()
    &&& t.subrange(i, i + toks_stmt(st).len() as int) == toks_stmt(st)
    &&& ({
        let j = i + toks_stmt(st).len() as int;
        j == t.len() || t[j] is Newline || t[j] is Eof
    })
    &&& !is_kind_tab(t, stmt_b_end(t, i, st))
    &&& !is_kind_newline(t, stmt_b_end(t, i, st))
    &&& !(word_at(t, stmt_b_end(t, i, st)) matches Option::Some(w) && w == "else"@)
}

/// Parsing a body's token lines from line `m` on reads the lines back and
/// stops past the block's terminating newline (or at the end).
#[verifier::rlimit(100)]
proof fn lemma_parse_block_b(t: Seq<TokenModel>, i: int, b: Seq<StmtModel>, m: int)
    requires
        0 <= m < b.len(),
        forall|q: int| 0 <= q < b.len() ==> stable_flat_stmt(#[trigger] b[q]),
        0 <= i,
        i + body_toks(b, m).len() <= t.len(),
        t.subrange(i, i + body_toks(b, m).len() as int) == body_toks(b, m),
        ({
            let j = i + body_toks(b, m).len() as int;
            j == t.len() || t[j] is Newline || t[j] is Eof
        }),
        ({
            let j = i + body_toks(b, m).len() as int;
            let after = if is_kind_newline(t, j) {
                j + 1
            } else {
                j
            };
            !is_kind_tab(t, after) && !is_kind_newline(t, after)
        }),
    ensures
        ({
            let j = i + body_toks(b, m).len() as int;
            let after = if is_kind_newline(t, j) {
                j + 1
            } else {
                j
            };
            parse_block(t, i) == Parsed::Done(b.subrange(m, b.len() as int), after)
        }),
    decreases b.len() - m,
{
    let f = body_toks(b, m);
    let fl = f.len() as int;
    let j = i + fl;
    let after = if is_kind_newline(t, j) {
        j + 1
    } else {
        j
    };
    let sf = toks_stmt(b[m]);
    let sl = sf.len() as int;
    assert(stable_stmt(b[m]));
    lemma_toks_stmt_shape(b[m]);
    lemma_tat(t, i, f, 0);
    assert(t[i] is Tab);
    lemma_tat(t, i, f, 1);
    assert(!(t[i + 1] is Space) && !(t[i + 1] is Tab));
    assert(skip_ws(t, i + 1) == i + 1);
    if m == b.len() - 1 {
        assert(f == seq![TokenModel::Tab] + sf);
        lemma_tslice(t, i, f, 1, fl);
        assert(f.subrange(1, fl) =~= sf);
        lemma_parse_stmt_b(t, i + 1, b[m]);
        assert(parse_statement(t, i + 1) == Parsed::Done(b[m], after));
        assert(skip_nl(t, after) == after);
        assert(!is_kind_tab(t, after));
        assert(parse_block(t, after) == Parsed::Done(Seq::<StmtModel>::empty(), after));
        assert(seq![b[m]] + Seq::<StmtModel>::empty() =~= b.subrange(m, b.len() as int));
    } else {
        assert(f == seq![TokenModel::Tab] + sf + seq![TokenModel::Newline] + body_toks(b, m + 1));
        lemma_tslice(t, i, f, 1, 1 + sl);
        assert(f.subrange(1, 1 + sl) =~= sf);
        lemma_tat(t, i, f, 1 + sl);
        assert(t[i + 1 + sl] is Newline);
        lemma_parse_stmt_b(t, i + 1, b[m]);
        assert(parse_statement(t, i + 1) == Parsed::Done(b[m], i + sl + 2));
        lemma_tslice(t, i, f, 2 + sl, fl);
        assert(f.subrange(2 + sl, fl) =~= body_toks(b, m + 1));
        assert(body_toks(b, m + 1)[0] is Tab);
        lemma_tat(t, i, f, 2 + sl);
        assert(t[i + sl + 2] is Tab);
        assert(skip_nl(t, i + sl + 2) == i + sl + 2);
        lemma_parse_block_b(t, i + sl + 2, b, m + 1);
        assert(seq![b[m]] + b.subrange(m + 1, b.len() as int) =~= b.subrange(m, b.len() as int));
    }
}

/// Parsing an embedded `func` statement.
#[verifier::rlimit(100)]
proof fn lemma_parse_func_b(t: Seq<TokenModel>, i: int, st: StmtModel)
    requires
        stmt_full_pre(t, i, st),
        st is Function,
    ensures
        parse_statement(t, i) == Parsed::Done(st, stmt_b_end(t, i, st)),
{
    let f = toks_stmt(st);
    let fl = f.len() as int;
    let j = i + fl;
    lemma_keywords();
    match st {
        StmtModel::Function { name, params, body } => {
            lemma_tat(t, i, f, 0);
            lemma_tat(t, i, f, 1);
            lemma_tat(t, i, f, 2);
            lemma_tat(t, i, f, 3);
            assert(t[i] == TokenModel::Word("func"@));
            assert(word_at(t, i) == Option::Some("func"@));
            assert(t[i + 1] is Space && t[i + 2] == TokenModel::Word(name) && t[i + 3] is Space);
            assert(skip_ws(t, i + 2) == i + 2);
            assert(skip_ws(t, i + 1) == i + 2);
            assert(expect_word(t, i + 2) == Parsed::Done(name, i + 3));
            if params.len() == 1 {
                lemma_tat(t, i, f, 4);
                lemma_tat(t, i, f, 5);
                assert(t[i + 4] == TokenModel::Word(params[0]));
                assert(t[i + 5] is Newline);
                assert(skip_ws(t, i + 4) == i + 4);
                assert(skip_ws(t, i + 3) == i + 4);
                assert(expect_word(t, i + 4) == Parsed::Done(params[0], i + 5));
                assert(skip_ws(t, i + 5) == i + 5);
                assert(crate::parser::parse_params(t, i + 5, false) == Parsed::Done(
                    Seq::<Seq<char>>::empty(),
                    i + 5,
                ));
                assert(crate::parser::parse_params(t, i + 4, true) == Parsed::Done(
                    seq![params[0]],
                    i + 5,
                )) by {
                    assert(seq![params[0]] + Seq::<Seq<char>>::empty() =~= seq![params[0]]);
                }
                assert(seq![params[0]] =~= params);
                lemma_tslice(t, i, f, 6, fl);
                assert(f.subrange(6, fl) =~= body_toks(body, 0));
                lemma_parse_block_b(t, i + 6, body, 0);
                assert(body.subrange(0, body.len() as int) =~= body);
            } else {
                assert(params.len() == 0);
                lemma_tat(t, i, f, 4);
                assert(t[i + 4] is Newline);
                assert(skip_ws(t, i + 4) == i + 4);
                assert(skip_ws(t, i + 3) == i + 4);
                assert(crate::parser::parse_params(t, i + 4, true) == Parsed::Done(
                    Seq::<Seq<char>>::empty(),
                    i + 4,
                ));
                assert(params =~= Seq::<Seq<char>>::empty());
                lemma_tslice(t, i, f, 5, fl);
                assert(f.subrange(5, fl) =~= body_toks(body, 0));
                lemma_parse_block_b(t, i + 5, body, 0);
                assert(body.subrange(0, body.len() as int) =~= body);
            }
        },
        _ => {},
    }
}

/// Parsing an embedded `if` statement without an `else`.
#[verifier::rlimit(100)]
proof fn lemma_parse_if_none_b(t: Seq<TokenModel>, i: int, st: StmtModel)
    requires
        stmt_full_pre(t, i, st),
        st matches StmtModel::If { else_body: Option::None, .. },
    ensures
        parse_statement(t, i) == Parsed::Done(st, stmt_b_end(t, i, st)),
{
    let f = toks_stmt(st);
    let fl = f.len() as int;
    let j = i + fl;
    lemma_keywords();
    match st {
        StmtModel::If { condition, then_body, else_body } => {
            let cf = toks_expr(condition);
            let cl = cf.len() as int;
            lemma_toks_expr_shape(condition);
            lemma_tat(t, i, f, 0);
            lemma_tat(t, i, f, 1);
            lemma_tat(t, i, f, 2);
            assert(t[i] == TokenModel::Word("if"@));
            assert(word_at(t, i) == Option::Some("if"@));
            assert(t[i + 1] is Space);
            assert(!(t[i + 2] is Space) && !(t[i + 2] is Tab));
            assert(skip_ws(t, i + 2) == i + 2);
            assert(skip_ws(t, i + 1) == i + 2);
            lemma_tslice(t, i, f, 2, 2 + cl);
            assert(f.subrange(2, 2 + cl) =~= cf);
            lemma_tat(t, i, f, 2 + cl);
            assert(t[i + 2 + cl] is Newline);
            lemma_parse_expr_b(t, i + 2, condition);
            assert(parse_expression(t, i + 2) == Parsed::Done(condition, i + 2 + cl));
            assert(expect_newline(t, i + 2 + cl) == Parsed::Done((), i + 3 + cl));
            match else_body {
                Option::None => {
                    lemma_tslice(t, i, f, 3 + cl, fl);
                    assert(f.subrange(3 + cl, fl) =~= body_toks(then_body, 0));
                    lemma_parse_block_b(t, i + 3 + cl, then_body, 0);
                    assert(then_body.subrange(0, then_body.len() as int) =~= then_body);
                    assert(parse_block(t, i + 3 + cl) == Parsed::Done(
                        then_body,
                        stmt_b_end(t, i, st),
                    ));
                    assert(!(word_at(t, stmt_b_end(t, i, st)) matches Option::Some(w) && w
                        == "else"@));
                },
                Option::Some(_) => {},
            }
        },
        _ => {},
    }
}

/// Parsing an embedded `if` statement with an `else`.
#[verifier::rlimit(100)]
proof fn lemma_parse_if_some_b(t: Seq<TokenModel>, i: int, st: StmtModel)
    requires
        stmt_full_pre(t, i, st),
        st matches StmtModel::If { else_body: Option::Some(_), .. },
    ensures
        parse_statement(t, i) == Parsed::Done(st, stmt_b_end(t, i, st)),
{
    let f = toks_stmt(st);
    let fl = f.len() as int;
    let j = i + fl;
    lemma_keywords();
    match st {
        StmtModel::If { condition, then_body, else_body } => {
            let cf = toks_expr(condition);
            let cl = cf.len() as int;
            lemma_toks_expr_shape(condition);
            lemma_tat(t, i, f, 0);
            lemma_tat(t, i, f, 1);
            lemma_tat(t, i, f, 2);
            assert(t[i] == TokenModel::Word("if"@));
            assert(word_at(t, i) == Option::Some("if"@));
            assert(t[i + 1] is Space);
            assert(!(t[i + 2] is Space) && !(t[i + 2] is Tab));
            assert(skip_ws(t, i + 2) == i + 2);
            assert(skip_ws(t, i + 1) == i + 2);
            lemma_tslice(t, i, f, 2, 2 + cl);
            assert(f.subrange(2, 2 + cl) =~= cf);
            lemma_tat(t, i, f, 2 + cl);
            assert(t[i + 2 + cl] is Newline);
            lemma_parse_expr_b(t, i + 2, condition);
            assert(parse_expression(t, i + 2) == Parsed::Done(condition, i + 2 + cl));
            assert(expect_newline(t, i + 2 + cl) == Parsed::Done((), i + 3 + cl));
            match else_body {
                Option::None => {},
                Option::Some(eb) => {
                    let tb = body_toks(then_body, 0);
                    let tbl = tb.len() as int;
                    lemma_tslice(t, i, f, 3 + cl, 3 + cl + tbl);
                    assert(f.subrange(3 + cl, 3 + cl + tbl) =~= tb);
                    lemma_tat(t, i, f, 3 + cl + tbl);
                    lemma_tat(t, i, f, 4 + cl + tbl);
                    lemma_tat(t, i, f, 5 + cl + tbl);
                    assert(t[i + 3 + cl + tbl] is Newline);
                    assert(t[i + 4 + cl + tbl] == TokenModel::Word("else"@));
                    assert(t[i + 5 + cl + tbl] is Newline);
                    lemma_parse_block_b(t, i + 3 + cl, then_body, 0);
                    assert(then_body.subrange(0, then_body.len() as int) =~= then_body);
                    assert(parse_block(t, i + 3 + cl) == Parsed::Done(then_body, i + 4 + cl + tbl));
                    assert(word_at(t, i + 4 + cl + tbl) == Option::Some("else"@));
                    assert(expect_newline(t, i + 5 + cl + tbl) == Parsed::Done(
                        (),
                        i + 6 + cl + tbl,
                    ));
                    lemma_tslice(t, i, f, 6 + cl + tbl, fl);
                    assert(f.subrange(6 + cl + tbl, fl) =~= body_toks(eb, 0));
                    lemma_tat(t, i, f, 6 + cl + tbl);
                    assert(body_toks(eb, 0)[0] is Tab);
                    assert(t[i + 6 + cl + tbl] is Tab);
                    lemma_parse_block_b(t, i + 6 + cl + tbl, eb, 0);
                    assert(eb.subrange(0, eb.len() as int) =~= eb);
                },
            }
        },
        _ => {},
    }
}

/// Parsing an embedded `if` statement, with or without its `else`.
proof fn lemma_parse_if_b(t: Seq<TokenModel>, i: int, st: StmtModel)
    requires
        stmt_full_pre(t, i, st),
        st is If,
    ensures
        parse_statement(t, i) == Parsed::Done(st, stmt_b_end(t, i, st)),
{
    match st {
        StmtModel::If { else_body, .. } => {
            match else_body {
                Option::None => lemma_parse_if_none_b(t, i, st),
                Option::Some(_) => lemma_parse_if_some_b(t, i, st),
            }
        },
        _ => {},
    }
}

/// Parsing an embedded `for` statement.
#[verifier::rlimit(100)]
proof fn lemma_parse_for_b(t: Seq<TokenModel>, i: int, st: StmtModel)
    requires
        stmt_full_pre(t, i, st),
        st is For,
    ensures
        parse_statement(t, i) == Parsed::Done(st, stmt_b_end(t, i, st)),
{
    let f = toks_stmt(st);
    let fl = f.len() as int;
    lemma_keywords();
    match st {
        StmtModel::For { var, iterable, body } => {
            let itf = toks_expr(iterable);
            let il = itf.len() as int;
            lemma_toks_expr_shape(iterable);
            lemma_tat(t, i, f, 0);
            lemma_tat(t, i, f, 1);
            lemma_tat(t, i, f, 2);
            lemma_tat(t, i, f, 3);
            lemma_tat(t, i, f, 4);
            lemma_tat(t, i, f, 5);
            assert(t[i] == TokenModel::Word("for"@));
            assert(word_at(t, i) == Option::Some("for"@));
            assert(t[i + 1] is Space && t[i + 2] == TokenModel::Word(var) && t[i + 3] is Space
                && t[i + 4] == TokenModel::Word("in"@) && t[i + 5] is Space);
            assert(skip_ws(t, i + 2) == i + 2);
            assert(skip_ws(t, i + 1) == i + 2);
            assert(expect_word(t, i + 2) == Parsed::Done(var, i + 3));
            assert(skip_ws(t, i + 4) == i + 4);
            assert(skip_ws(t, i + 3) == i + 4);
            assert(word_at(t, i + 4) == Option::Some("in"@));
            lemma_tslice(t, i, f, 6, 6 + il);
            assert(f.subrange(6, 6 + il) =~= itf);
            assert(!(t[i + 6] is Space) && !(t[i + 6] is Tab));
            assert(skip_ws(t, i + 6) == i + 6);
            assert(skip_ws(t, i + 5) == i + 6);
            lemma_tat(t, i, f, 6 + il);
            assert(t[i + 6 + il] is Newline);
            lemma_parse_expr_b(t, i + 6, iterable);
            assert(expect_newline(t, i + 6 + il) == Parsed::Done((), i + 7 + il));
            lemma_tslice(t, i, f, 7 + il, fl);
            assert(f.subrange(7 + il, fl) =~= body_toks(body, 0));
            lemma_parse_block_b(t, i + 7 + il, body, 0);
            assert(body.subrange(0, body.len() as int) =~= body);
        },
        _ => {},
    }
}

/// Parsing from an embedded stable statement, block forms included.
proof fn lemma_parse_stmt_full(t: Seq<TokenModel>, i: int, st: StmtModel)
    requires
        stmt_full_pre(t, i, st),
    ensures
        parse_statement(t, i) == Parsed::Done(st, stmt_b_end(t, i, st)),
{
    match st {
        StmtModel::Function { .. } => lemma_parse_func_b(t, i, st),
        StmtModel::If { .. } => lemma_parse_if_b(t, i, st),
        StmtModel::For { .. } => lemma_parse_for_b(t, i, st),
        _ => lemma_parse_stmt_b(t, i, st),
    }
}

/// Parsing from the canonical tokens of the statements from `k` on, with
/// one trailing `Eof`, reads them all back.
#[verifier::rlimit(100)]
proof fn lemma_parse_stmts_b(t: Seq<TokenModel>, i: int, p: Seq<StmtModel>, k: int)
    requires
        stable_program(p),
        0 <= k <= p.len(),
        0 <= i,
        i + toks_stmts(p, k).len() + 1 == t.len(),
        t.subrange(i, i + toks_stmts(p, k).len() as int) == toks_stmts(p, k),
        t[t.len() - 1] is Eof,
    ensures
        parse_program(t, i) == Parsed::Done(p.subrange(k, p.len() as int), t.len() - 1),
    decreases p.len() - k,
{
    let f = toks_stmts(p, k);
    let fl = f.len() as int;
    if k >= p.len() {
        assert(fl == 0);
        assert(i == t.len() - 1);
        assert(!(is_kind_newline(t, i)));
        assert(skip_nl(t, i) == i);
        assert(at_end(t, i));
        assert(p.subrange(k, p.len() as int) =~= Seq::<StmtModel>::empty());
    } else {
        let sf = toks_stmt(p[k]);
        let sl = sf.len() as int;
        assert(stable_stmt(p[k]));
        lemma_toks_stmt_shape(p[k]);
        if k == p.len() - 1 {
            assert(f == sf);
            lemma_tat(t, i, f, 0);
            assert(!(is_kind_newline(t, i)));
            assert(skip_nl(t, i) == i);
            assert(!at_end(t, i));
            assert(t[i + sl] is Eof);
            assert(stmt_b_end(t, i, p[k]) == i + sl);
            lemma_parse_stmt_full(t, i, p[k]);
            assert(!(is_kind_newline(t, i + sl)));
            assert(parse_statement(t, i) == Parsed::Done(p[k], i + sl));
            assert(toks_stmts(p, k + 1) == Seq::<TokenModel>::empty());
            assert(t.subrange(i + sl, i + sl) =~= Seq::<TokenModel>::empty());
            lemma_parse_stmts_b(t, i + sl, p, k + 1);
            assert(seq![p[k]] + p.subrange(k + 1, p.len() as int) =~= p.subrange(
                k,
                p.len() as int,
            ));
        } else {
            assert(f == sf + seq![TokenModel::Newline] + toks_stmts(p, k + 1));
            lemma_tslice(t, i, f, 0, sl);
            assert(f.subrange(0, sl) =~= sf);
            lemma_tat(t, i, f, 0);
            lemma_tat(t, i, f, sl);
            assert(t[i + sl] is Newline);
            assert(!(is_kind_newline(t, i)));
            assert(skip_nl(t, i) == i);
            assert(!at_end(t, i));
            lemma_tslice(t, i, f, sl + 1, fl);
            assert(f.subrange(sl + 1, fl) =~= toks_stmts(p, k + 1));
            assert(stmt_b_end(t, i, p[k]) == i + sl + 1);
            assert(stable_stmt(p[(k + 1) as int]));
            lemma_toks_stmt_shape(p[(k + 1) as int]);
            assert(toks_stmts(p, k + 1)[0] == toks_stmt(p[(k + 1) as int])[0]);
            lemma_tat(t, i, f, sl + 1);
            assert(t[i + sl + 1] == toks_stmt(p[(k + 1) as int])[0]);
            assert(!is_kind_tab(t, i + sl + 1) && !is_kind_newline(t, i + sl + 1));
            assert(!(word_at(t, i + sl + 1) matches Option::Some(w) && w == "else"@));
            lemma_parse_stmt_full(t, i, p[k]);
            assert(parse_statement(t, i) == Parsed::Done(p[k], i + sl + 1));
            lemma_parse_stmts_b(t, i + sl + 1, p, k + 1);
            assert(seq![p[k]] + p.subrange(k + 1, p.len() as int) =~= p.subrange(
                k,
                p.len() as int,
            ));
        }
    }
}

/// LAW. Printing is faithful on stable programs: every statement either a
/// flat `let`, `print`, `return` or expression line — names plain words,
/// integers non-negative, strings without quotes or recognized escapes,
/// calls of at most one argument — or a one-level `func`, `if`/`else` or
/// `for` header over a nonempty body of such lines. Every such program is
/// read back from its own rendering exactly: `parse(tokenize(format(p)))`
/// succeeds and yields `p` again. (Shapes outside this set genuinely do
/// not return: operators and negative literals render to characters the
/// lexer rejects, floats render without their dot, a second block level
/// re-attaches to the neighbouring block on reparse, and a multi-argument
/// call re-nests.)
pub proof fn lemma_format_round_trip(p: Seq<StmtModel>)
    requires
        stable_program(p),
    ensures
        parse_source(fmt_program(p)) == SourceParse::Parsed(p),
{
    lemma_tokenize_format(p);
    let src = fmt_program(p);
    match spec_tokenize(src) {
        LexOut::Toks(ts) => {
            let t = at_models(ts);
            assert(t == toks_stmts(p, 0) + seq![TokenModel::Eof]);
            assert(t.subrange(0, toks_stmts(p, 0).len() as int) =~= toks_stmts(p, 0));
            assert(t[t.len() - 1] is Eof);
            lemma_parse_stmts_b(t, 0, p, 0);
            assert(p.subrange(0, p.len() as int) =~= p);
        },
        LexOut::Fail(_) => {
            assert(false);
        },
    }
}

/// Two outcomes with the same models still have the same models after
/// one more token is put in front of each.
proof fn cons_models(r1: LexOut, r2: LexOut)
    requires
        lex_models(r1) == lex_models(r2),
    ensures
        forall|t1: TokenAt, t2: TokenAt|
            t1.token == t2.token ==> lex_models(crate::lexer::lex_cons(t1, r1)) == lex_models(
                crate::lexer::lex_cons(t2, r2),
            ),
{
    assert forall|t1: TokenAt, t2: TokenAt| t1.token == t2.token implies lex_models(
        crate::lexer::lex_cons(t1, r1),
    ) == lex_models(crate::lexer::lex_cons(t2, r2)) by {
        match (r1, r2) {
            (LexOut::Toks(a), LexOut::Toks(b)) => {
                assert(at_models(a) == at_models(b));
                assert(at_models(seq![t1] + a) =~= seq![t1.token] + at_models(a));
                assert(at_models(seq![t2] + b) =~= seq![t2.token] + at_models(b));
            },
            _ => {},
        }
    }
}

} // verus!
