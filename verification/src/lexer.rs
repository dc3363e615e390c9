//! The lexer: one forward scan over the source characters, producing
//! positioned tokens. Layout characters (tab, space, newline) are tokens in
//! their own right — the parser reads them — and the token stream always
//! ends in exactly one `Eof`.

use crate::chars::{push_char, spec_digit_val, spec_is_digit, spec_is_word_char, spec_is_word_start};
use crate::errors::{LexError, LexErrorKind, LexErrorModel};
use vstd::prelude::*;

verus! {

/// One lexical unit. Words are maximal runs of letters, digits and
/// underscores starting with a letter or underscore; numbers are digit runs
/// with at most one dot (a dot makes the literal a float, of which only the
/// integral part is kept); strings honour the escapes `\n`, `\t`, `\\` and
/// `\"`, and keep any other backslash pair as written.
#[derive(Debug, Clone, PartialEq)]
pub enum Token {
    Tab,
    Space,
    Newline,
    Word(String),
    Number(i64),
    Float(i64),
    String(String),
    Eof,
}

/// A token together with the line and column (both 1-based) of its first
/// character.
#[derive(Debug, Clone, PartialEq)]
pub struct TokenWithPos {
    pub token: Token,
    pub line: usize,
    pub column: usize,
}

/// The mathematical value of a token.
pub enum TokenModel {
    Tab,
    Space,
    Newline,
    Word(Seq<char>),
    Number(int),
    Float(int),
    StrLit(Seq<char>),
    Eof,
}

/// The mathematical value of a positioned token.
pub struct TokenAt {
    pub token: TokenModel,
    pub line: int,
    pub column: int,
}

impl View for Token {
    type V = TokenModel;

    open spec fn view(&self) -> TokenModel {
        match self {
            Token::Tab => TokenModel::Tab,
            Token::Space => TokenModel::Space,
            Token::Newline => TokenModel::Newline,
            Token::Word(w) => TokenModel::Word(w@),
            Token::Number(n) => TokenModel::Number(*n as int),
            Token::Float(n) => TokenModel::Float(*n as int),
            Token::String(s) => TokenModel::StrLit(s@),
            Token::Eof => TokenModel::Eof,
        }
    }
}

impl View for TokenWithPos {
    type V = TokenAt;

    open spec fn view(&self) -> TokenAt {
        TokenAt { token: self.token@, line: self.line as int, column: self.column as int }
    }
}

/// The views of a token vector.
pub open spec fn toks_view(v: Seq<TokenWithPos>) -> Seq<TokenAt> {
    Seq::new(v.len(), |i: int| v[i]@)
}

/// The end of the maximal word starting at `i`.
pub open spec fn word_end(s: Seq<char>, i: int) -> int
    decreases s.len() - i,
{
    if 0 <= i < s.len() && spec_is_word_char(s[i]) {
        word_end(s, i + 1)
    } else {
        i
    }
}

pub proof fn lemma_word_end(s: Seq<char>, i: int)
    requires
        0 <= i <= s.len(),
    ensures
        i <= word_end(s, i) <= s.len(),
        forall|j: int| i <= j < word_end(s, i) ==> spec_is_word_char(s[j]),
        word_end(s, i) < s.len() ==> !spec_is_word_char(s[word_end(s, i)]),
    decreases s.len() - i,
{
    if i < s.len() && spec_is_word_char(s[i]) {
        lemma_word_end(s, i + 1);
    }
}

/// The end of the maximal digit run starting at `i`.
pub open spec fn int_end(s: Seq<char>, i: int) -> int
    decreases s.len() - i,
{
    if 0 <= i < s.len() && spec_is_digit(s[i]) {
        int_end(s, i + 1)
    } else {
        i
    }
}

pub proof fn lemma_int_end(s: Seq<char>, i: int)
    requires
        0 <= i <= s.len(),
    ensures
        i <= int_end(s, i) <= s.len(),
        forall|j: int| i <= j < int_end(s, i) ==> spec_is_digit(s[j]),
        int_end(s, i) < s.len() ==> !spec_is_digit(s[int_end(s, i)]),
    decreases s.len() - i,
{
    if i < s.len() && spec_is_digit(s[i]) {
        lemma_int_end(s, i + 1);
    }
}

/// A digit run determines its own end.
pub proof fn lemma_int_end_unique(s: Seq<char>, i: int, j: int)
    requires
        0 <= i <= j <= s.len(),
        forall|k: int| i <= k < j ==> spec_is_digit(s[k]),
        j < s.len() ==> !spec_is_digit(s[j]),
    ensures
        int_end(s, i) == j,
    decreases j - i,
{
    if i < j {
        lemma_int_end_unique(s, i + 1, j);
    }
}

/// The end of a numeric literal starting at `i`: digits and at most one
/// dot; a second dot stops the scan.
pub open spec fn num_end(s: Seq<char>, i: int, seen_dot: bool) -> (int, bool)
    decreases s.len() - i,
{
    if 0 <= i < s.len() {
        if spec_is_digit(s[i]) {
            num_end(s, i + 1, seen_dot)
        } else if s[i] == '.' {
            if seen_dot {
                (i, seen_dot)
            } else {
                num_end(s, i + 1, true)
            }
        } else {
            (i, seen_dot)
        }
    } else {
        (i, seen_dot)
    }
}

pub proof fn lemma_num_end(s: Seq<char>, i: int, seen_dot: bool)
    requires
        0 <= i <= s.len(),
    ensures
        i <= num_end(s, i, seen_dot).0 <= s.len(),
        seen_dot ==> num_end(s, i, seen_dot).1,
    decreases s.len() - i,
{
    if i < s.len() {
        if spec_is_digit(s[i]) {
            lemma_num_end(s, i + 1, seen_dot);
        } else if s[i] == '.' && !seen_dot {
            lemma_num_end(s, i + 1, true);
        }
    }
}

/// The value of the digit run `s[i..j]`, read in base ten.
pub open spec fn digits_val(s: Seq<char>, i: int, j: int) -> int
    decreases j - i,
{
    if j <= i {
        0
    } else {
        digits_val(s, i, j - 1) * 10 + spec_digit_val(s[j - 1])
    }
}

pub proof fn lemma_digits_val_nonneg(s: Seq<char>, i: int, j: int)
    requires
        forall|k: int| i <= k < j ==> spec_is_digit(s[k]),
    ensures
        digits_val(s, i, j) >= 0,
    decreases j - i,
{
    if j > i {
        lemma_digits_val_nonneg(s, i, j - 1);
    }
}

/// The value of a numeric token starting at `i`: its integer part, or zero
/// when that part does not fit a 64-bit signed integer (the scan is lenient
/// rather than failing).
pub open spec fn num_token_val(s: Seq<char>, i: int) -> int {
    let v = digits_val(s, i, int_end(s, i));
    if v > i64::MAX {
        0
    } else {
        v
    }
}

/// The outcome of scanning a string literal's interior from `i` (just
/// after the opening quote): the unescaped contents and the position just
/// after the closing quote, or an unterminated-string failure.
pub enum StrScan {
    Done(Seq<char>, int),
    Unterminated,
}

/// Scans a string literal's interior.
pub open spec fn str_scan(s: Seq<char>, i: int) -> StrScan
    decreases s.len() - i,
{
    if i < 0 || i >= s.len() {
        StrScan::Unterminated
    } else if s[i] == '"' {
        StrScan::Done(Seq::empty(), i + 1)
    } else if s[i] == '\\' {
        if i + 1 >= s.len() {
            StrScan::Unterminated
        } else {
            let piece = escape_piece(s[i + 1]);
            match str_scan(s, i + 2) {
                StrScan::Done(rest, e) => StrScan::Done(piece + rest, e),
                StrScan::Unterminated => StrScan::Unterminated,
            }
        }
    } else {
        match str_scan(s, i + 1) {
            StrScan::Done(rest, e) => StrScan::Done(seq![s[i]] + rest, e),
            StrScan::Unterminated => StrScan::Unterminated,
        }
    }
}

/// What a backslash followed by `c` contributes to a string literal: the
/// escaped character for the four recognized escapes, the pair itself for
/// any other.
pub open spec fn escape_piece(c: char) -> Seq<char> {
    if c == 'n' {
        seq!['\n']
    } else if c == 't' {
        seq!['\t']
    } else if c == '\\' {
        seq!['\\']
    } else if c == '"' {
        seq!['"']
    } else {
        seq!['\\', c]
    }
}

pub proof fn lemma_str_scan(s: Seq<char>, i: int)
    requires
        0 <= i <= s.len(),
    ensures
        str_scan(s, i) matches StrScan::Done(c, e) ==> i < e <= s.len(),
    decreases s.len() - i,
{
    if i < s.len() && s[i] != '"' {
        if s[i] == '\\' {
            if i + 2 <= s.len() {
                lemma_str_scan(s, i + 2);
            }
        } else {
            lemma_str_scan(s, i + 1);
        }
    }
}

/// The line counter after consuming `s[i..j]`, starting from `line`.
pub open spec fn adv_line(s: Seq<char>, i: int, j: int, line: int) -> int
    decreases j - i,
{
    if j <= i {
        line
    } else {
        adv_line(s, i + 1, j, if s[i] == '\n' { line + 1 } else { line })
    }
}

/// The column counter after consuming `s[i..j]`, starting from `col`.
pub open spec fn adv_col(s: Seq<char>, i: int, j: int, col: int) -> int
    decreases j - i,
{
    if j <= i {
        col
    } else {
        adv_col(s, i + 1, j, if s[i] == '\n' { 1 } else { col + 1 })
    }
}

/// Extending the consumed range by one character steps the counters once.
pub proof fn lemma_adv_snoc(s: Seq<char>, i: int, j: int, line: int, col: int)
    requires
        i <= j,
    ensures
        adv_line(s, i, j + 1, line) == if s[j] == '\n' {
            adv_line(s, i, j, line) + 1
        } else {
            adv_line(s, i, j, line)
        },
        adv_col(s, i, j + 1, col) == if s[j] == '\n' {
            1int
        } else {
            adv_col(s, i, j, col) + 1
        },
    decreases j - i,
{
    if i < j {
        lemma_adv_snoc(s, i + 1, j, if s[i] == '\n' { line + 1 } else { line }, if s[i] == '\n' { 1 } else { col + 1 });
    } else {
        reveal_with_fuel(adv_line, 2);
        reveal_with_fuel(adv_col, 2);
    }
}

/// Over a newline-free range the line stays put and the column advances by
/// the length.
pub proof fn lemma_adv_no_newline(s: Seq<char>, i: int, j: int, line: int, col: int)
    requires
        i <= j,
        forall|k: int| i <= k < j ==> s[k] != '\n',
    ensures
        adv_line(s, i, j, line) == line,
        adv_col(s, i, j, col) == col + (j - i),
    decreases j - i,
{
    if i < j {
        lemma_adv_no_newline(s, i + 1, j, line, col + 1);
    }
}

/// The outcome of lexing: the tokens, or the first error.
pub enum LexOut {
    Toks(Seq<TokenAt>),
    Fail(LexErrorModel),
}

/// Prefixes a token onto a lexing outcome.
pub open spec fn lex_cons(t: TokenAt, rest: LexOut) -> LexOut {
    match rest {
        LexOut::Toks(ts) => LexOut::Toks(seq![t] + ts),
        LexOut::Fail(e) => LexOut::Fail(e),
    }
}

/// The tokens of `s` from position `pos` on, with the position counters at
/// `line` and `col`. Dispatch per character, in priority order: tab, space,
/// newline, word, number, string; anything else is an error. The stream
/// always ends with one `Eof` carrying the final counters.
pub open spec fn lex_at(s: Seq<char>, pos: int, line: int, col: int) -> LexOut
    decreases s.len() - pos,
{
    if pos < 0 || pos >= s.len() {
        LexOut::Toks(seq![TokenAt { token: TokenModel::Eof, line, column: col }])
    } else {
        let c = s[pos];
        if c == '\t' {
            lex_cons(
                TokenAt { token: TokenModel::Tab, line, column: col },
                lex_at(s, pos + 1, line, col + 1),
            )
        } else if c == ' ' {
            lex_cons(
                TokenAt { token: TokenModel::Space, line, column: col },
                lex_at(s, pos + 1, line, col + 1),
            )
        } else if c == '\n' {
            lex_cons(
                TokenAt { token: TokenModel::Newline, line, column: col },
                lex_at(s, pos + 1, line + 1, 1),
            )
        } else if spec_is_word_start(c) {
            let j = word_end(s, pos);
            proof {
                lemma_word_end(s, pos + 1);
            }
            lex_cons(
                TokenAt { token: TokenModel::Word(s.subrange(pos, j)), line, column: col },
                lex_at(s, j, line, col + (j - pos)),
            )
        } else if spec_is_digit(c) {
            let r = num_end(s, pos, false);
            proof {
                lemma_num_end(s, pos + 1, false);
                lemma_num_end(s, pos + 1, true);
            }
            let tok = if r.1 {
                TokenModel::Float(num_token_val(s, pos))
            } else {
                TokenModel::Number(num_token_val(s, pos))
            };
            lex_cons(
                TokenAt { token: tok, line, column: col },
                lex_at(s, r.0, line, col + (r.0 - pos)),
            )
        } else if c == '"' {
            match str_scan(s, pos + 1) {
                StrScan::Done(content, e) => {
                    proof {
                        lemma_str_scan(s, pos + 1);
                    }
                    lex_cons(
                        TokenAt { token: TokenModel::StrLit(content), line, column: col },
                        lex_at(s, e, adv_line(s, pos, e, line), adv_col(s, pos, e, col)),
                    )
                },
                StrScan::Unterminated => LexOut::Fail(
                    LexErrorModel { kind: LexErrorKind::UnterminatedString, line, column: col },
                ),
            }
        } else {
            LexOut::Fail(LexErrorModel { kind: LexErrorKind::UnexpectedChar(c), line, column: col })
        }
    }
}

/// The tokens of a whole source text.
pub open spec fn spec_tokenize(s: Seq<char>) -> LexOut {
    lex_at(s, 0, 1, 1)
}

/// The lexer. `tokenize` runs a fresh scan over its argument; the fields
/// are that scan's cursor and position counters.
pub struct Lexer {
    source: Vec<char>,
    position: usize,
    line: usize,
    column: usize,
}

impl Lexer {
    /// The cursor stays inside the source and the 1-based counters never
    /// run ahead of it.
    pub closed spec fn wf(self) -> bool {
        &&& self.position <= self.source@.len()
        &&& self.source@.len() < usize::MAX
        &&& 1 <= self.line as int <= self.position as int + 1
        &&& 1 <= self.column as int <= self.position as int + 1
    }

    /// A lexer with nothing to scan.
    pub fn new() -> (r: Lexer)
        ensures
            r.wf(),
    {
        Lexer { source: Vec::new(), position: 0, line: 1, column: 1 }
    }

    fn is_at_end(&self) -> (r: bool)
        ensures
            r == (self.position >= self.source@.len()),
    {
        self.position >= self.source.len()
    }

    /// The current character, or NUL at the end of the source.
    spec fn spec_peek(self) -> char {
        if self.position >= self.source@.len() {
            '\0'
        } else {
            self.source@[self.position as int]
        }
    }

    fn peek(&self) -> (c: char)
        ensures
            c == self.spec_peek(),
    {
        if self.is_at_end() {
            '\0'
        } else {
            self.source[self.position]
        }
    }

    /// Consumes one character, stepping the position counters; at the end
    /// of the source it returns NUL and moves nothing.
    fn advance(&mut self) -> (c: char)
        requires
            old(self).wf(),
        ensures
            final(self).wf(),
            final(self).source@ == old(self).source@,
            old(self).position >= old(self).source@.len() ==> *final(self) == *old(self) && c
                == '\0',
            old(self).position < old(self).source@.len() ==> {
                &&& c == old(self).source@[old(self).position as int]
                &&& final(self).position == old(self).position + 1
                &&& (c == '\n' ==> final(self).line == old(self).line + 1 && final(self).column
                    == 1)
                &&& (c != '\n' ==> final(self).line == old(self).line && final(self).column == old(
                    self,
                ).column + 1)
            },
    {
        if self.is_at_end() {
            '\0'
        } else {
            let ch = self.source[self.position];
            self.position = self.position + 1;
            if ch == '\n' {
                self.line = self.line + 1;
                self.column = 1;
            } else {
                self.column = self.column + 1;
            }
            ch
        }
    }

    /// Scans the maximal word at the cursor.
    fn scan_word(&mut self) -> (w: String)
        requires
            old(self).wf(),
        ensures
            final(self).wf(),
            final(self).source@ == old(self).source@,
            final(self).position as int == word_end(old(self).source@, old(self).position as int),
            final(self).line == old(self).line,
            final(self).column as int == old(self).column + (final(self).position - old(
                self,
            ).position),
            w@ == old(self).source@.subrange(
                old(self).position as int,
                final(self).position as int,
            ),
    {
        let ghost s = self.source@;
        let ghost start = self.position as int;
        let ghost l0 = self.line;
        let ghost c0 = self.column;
        let mut w = String::new();
        proof {
            assert(w@ =~= s.subrange(start, start));
        }
        loop
            invariant
                self.wf(),
                self.source@ == s,
                0 <= start <= self.position as int <= s.len(),
                word_end(s, start) == word_end(s, self.position as int),
                w@ == s.subrange(start, self.position as int),
                self.line == l0,
                self.column as int == c0 + (self.position - start),
            ensures
                self.wf(),
                self.source@ == s,
                start <= self.position as int <= s.len(),
                self.position as int == word_end(s, start),
                w@ == s.subrange(start, self.position as int),
                self.line == l0,
                self.column as int == c0 + (self.position - start),
            decreases s.len() - self.position,
        {
            if self.is_at_end() {
                break;
            }
            let c = self.peek();
            if !crate::chars::is_word_char(c) {
                break;
            }
            let ghost p = self.position as int;
            let cc = self.advance();
            push_char(&mut w, cc);
            proof {
                assert(!spec_is_word_char('\n'));
                assert(w@ =~= s.subrange(start, p + 1));
            }
        }
        w
    }

    /// Scans the numeric literal at the cursor: the value of its integer
    /// part (zero when that part overflows a 64-bit signed integer) and
    /// whether a dot made it a float.
    fn scan_number(&mut self) -> (r: (i64, bool))
        requires
            old(self).wf(),
            old(self).position < old(self).source@.len(),
            spec_is_digit(old(self).source@[old(self).position as int]),
        ensures
            final(self).wf(),
            final(self).source@ == old(self).source@,
            ({
                let res = num_end(old(self).source@, old(self).position as int, false);
                &&& final(self).position as int == res.0
                &&& r.1 == res.1
                &&& r.0 as int == num_token_val(old(self).source@, old(self).position as int)
                &&& final(self).line == old(self).line
                &&& final(self).column as int == old(self).column + (res.0 - old(
                    self,
                ).position as int)
            }),
    {
        let ghost s = self.source@;
        let ghost start = self.position as int;
        let ghost l0 = self.line;
        let ghost c0 = self.column;
        let mut is_float = false;
        let mut acc: u64 = 0;
        let mut overflow = false;
        loop
            invariant
                self.wf(),
                self.source@ == s,
                0 <= start <= self.position as int <= s.len(),
                num_end(s, start, false) == num_end(s, self.position as int, is_float),
                self.line == l0,
                self.column as int == c0 + (self.position - start),
                !is_float ==> forall|k: int|
                    start <= k < self.position as int ==> spec_is_digit(s[k]),
                ({
                    let j = if is_float {
                        int_end(s, start)
                    } else {
                        self.position as int
                    };
                    &&& (is_float ==> int_end(s, start) <= self.position as int)
                    &&& (!overflow ==> acc as int == digits_val(s, start, j))
                    &&& (overflow ==> digits_val(s, start, j) > u64::MAX)
                }),
            ensures
                self.wf(),
                self.source@ == s,
                start <= self.position as int <= s.len(),
                num_end(s, start, false) == (self.position as int, is_float),
                self.line == l0,
                self.column as int == c0 + (self.position - start),
                !is_float ==> forall|k: int|
                    start <= k < self.position as int ==> spec_is_digit(s[k]),
                !is_float ==> self.position as int == s.len() || !spec_is_digit(
                    s[self.position as int],
                ),
                is_float ==> int_end(s, start) <= self.position as int,
                ({
                    let j = if is_float {
                        int_end(s, start)
                    } else {
                        self.position as int
                    };
                    &&& (!overflow ==> acc as int == digits_val(s, start, j))
                    &&& (overflow ==> digits_val(s, start, j) > u64::MAX)
                }),
            decreases s.len() - self.position,
        {
            if self.is_at_end() {
                break;
            }
            let c = self.peek();
            let ghost p = self.position as int;
            if crate::chars::is_digit(c) {
                self.advance();
                proof {
                    assert(!spec_is_digit('\n'));
                }
                if !is_float {
                    proof {
                        lemma_digits_val_nonneg(s, start, p);
                    }
                    let d = crate::chars::digit_val(c);
                    if !overflow {
                        let m = acc.checked_mul(10);
                        match m {
                            Option::Some(m10) => {
                                let a = m10.checked_add(d);
                                match a {
                                    Option::Some(v) => {
                                        acc = v;
                                    },
                                    Option::None => {
                                        overflow = true;
                                    },
                                }
                            },
                            Option::None => {
                                overflow = true;
                            },
                        }
                    }
                }
            } else if c == '.' {
                if is_float {
                    break;
                }
                proof {
                    assert(!spec_is_digit(s[p]));
                    lemma_int_end_unique(s, start, p);
                }
                is_float = true;
                self.advance();
            } else {
                break;
            }
        }
        proof {
            if !is_float {
                if self.position as int == s.len() || !spec_is_digit(s[self.position as int]) {
                    lemma_int_end_unique(s, start, self.position as int);
                }
            }
            lemma_int_end(s, start);
            lemma_digits_val_nonneg(s, start, int_end(s, start));
        }
        let value: i64 = if overflow || acc > i64::MAX as u64 {
            0
        } else {
            acc as i64
        };
        (value, is_float)
    }

    /// Scans the string literal at the cursor (which holds the opening
    /// quote); `None` means the source ended before the closing quote.
    fn scan_string(&mut self) -> (r: Option<String>)
        requires
            old(self).wf(),
            old(self).position < old(self).source@.len(),
            old(self).source@[old(self).position as int] == '"',
        ensures
            final(self).wf(),
            final(self).source@ == old(self).source@,
            ({
                let sc = str_scan(old(self).source@, old(self).position + 1);
                &&& (sc matches StrScan::Done(content, e) ==> r matches Option::Some(w) && w@
                    == content && final(self).position as int == e && final(self).line as int
                    == adv_line(old(self).source@, old(self).position as int, e, old(self).line as int)
                    && final(self).column as int == adv_col(
                    old(self).source@,
                    old(self).position as int,
                    e,
                    old(self).column as int,
                ))
                &&& (sc is Unterminated ==> r is None)
            }),
    {
        let ghost s = self.source@;
        let ghost start = self.position as int;
        let ghost l0 = self.line as int;
        let ghost c0 = self.column as int;
        self.advance();
        proof {
            lemma_adv_snoc(s, start, start, l0, c0);
        }
        let mut content = String::new();
        loop
            invariant
                self.wf(),
                self.source@ == s,
                s == old(self).source@,
                start == old(self).position as int,
                l0 == old(self).line as int,
                c0 == old(self).column as int,
                0 <= start,
                start + 1 <= self.position as int <= s.len(),
                self.line as int == adv_line(s, start, self.position as int, l0),
                self.column as int == adv_col(s, start, self.position as int, c0),
                match str_scan(s, self.position as int) {
                    StrScan::Done(rest, e) => str_scan(s, start + 1) == StrScan::Done(
                        content@ + rest,
                        e,
                    ),
                    StrScan::Unterminated => str_scan(s, start + 1) is Unterminated,
                },
            ensures
                self.wf(),
                self.source@ == s,
                start + 1 <= self.position as int && (self.position as int) < s.len(),
                s[self.position as int] == '"',
                self.line as int == adv_line(s, start, self.position as int, l0),
                self.column as int == adv_col(s, start, self.position as int, c0),
                str_scan(s, start + 1) == StrScan::Done(content@, self.position as int + 1),
            decreases s.len() - self.position,
        {
            if self.is_at_end() {
                return None;
            }
            let c = self.peek();
            if c == '"' {
                proof {
                    assert(content@ + Seq::<char>::empty() =~= content@);
                }
                break;
            }
            let ghost p = self.position as int;
            if c == '\\' {
                self.advance();
                proof {
                    lemma_adv_snoc(s, start, p, l0, c0);
                }
                if self.is_at_end() {
                    return None;
                }
                let e = self.peek();
                self.advance();
                proof {
                    lemma_adv_snoc(s, start, p + 1, l0, c0);
                }
                let ghost pre_content = content@;
                if e == 'n' {
                    push_char(&mut content, '\n');
                } else if e == 't' {
                    push_char(&mut content, '\t');
                } else if e == '\\' {
                    push_char(&mut content, '\\');
                } else if e == '"' {
                    push_char(&mut content, '"');
                } else {
                    push_char(&mut content, '\\');
                    push_char(&mut content, e);
                }
                proof {
                    assert(content@ =~= pre_content + escape_piece(s[p + 1]));
                    match str_scan(s, self.position as int) {
                        StrScan::Done(rest, en) => {
                            assert(content@ + rest =~= pre_content + (escape_piece(s[p + 1])
                                + rest));
                        },
                        StrScan::Unterminated => {},
                    }
                }
            } else {
                let ghost pre_content = content@;
                let cc = self.advance();
                push_char(&mut content, cc);
                proof {
                    lemma_adv_snoc(s, start, p, l0, c0);
                    match str_scan(s, self.position as int) {
                        StrScan::Done(rest, en) => {
                            assert(content@ + rest =~= pre_content + (seq![s[p]] + rest));
                        },
                        StrScan::Unterminated => {},
                    }
                }
            }
        }
        let ghost p = self.position as int;
        self.advance();
        proof {
            lemma_adv_snoc(s, start, p, l0, c0);
        }
        Some(content)
    }

    /// Turns the whole source text into positioned tokens, or reports the
    /// first lexical error. Pure: the result is a function of `source`
    /// alone, exactly `spec_tokenize`.
    pub fn tokenize(&self, source: &str) -> (r: Result<Vec<TokenWithPos>, LexError>)
        requires
            source@.len() < usize::MAX,
        ensures
            match r {
                Result::Ok(toks) => spec_tokenize(source@) == LexOut::Toks(toks_view(toks@)),
                Result::Err(e) => spec_tokenize(source@) == LexOut::Fail(e@),
            },
    {
        let chars = crate::chars::str_to_chars(source);
        let mut lexer = Lexer { source: chars, position: 0, line: 1, column: 1 };
        let ghost s = source@;
        let mut tokens: Vec<TokenWithPos> = Vec::new();
        proof {
            assert(toks_view(tokens@) =~= Seq::<TokenAt>::empty());
            match lex_at(s, 0, 1, 1) {
                LexOut::Toks(rest) => {
                    assert(Seq::<TokenAt>::empty() + rest =~= rest);
                },
                LexOut::Fail(_) => {},
            }
        }
        loop
            invariant
                lexer.wf(),
                lexer.source@ == s,
                s == source@,
                match lex_at(s, lexer.position as int, lexer.line as int, lexer.column as int) {
                    LexOut::Toks(rest) => lex_at(s, 0, 1, 1) == LexOut::Toks(
                        toks_view(tokens@) + rest,
                    ),
                    LexOut::Fail(e) => lex_at(s, 0, 1, 1) == LexOut::Fail(e),
                },
            ensures
                lexer.wf(),
                lexer.source@ == s,
                lexer.position as int >= s.len(),
                match lex_at(s, lexer.position as int, lexer.line as int, lexer.column as int) {
                    LexOut::Toks(rest) => lex_at(s, 0, 1, 1) == LexOut::Toks(
                        toks_view(tokens@) + rest,
                    ),
                    LexOut::Fail(e) => lex_at(s, 0, 1, 1) == LexOut::Fail(e),
                },
            decreases s.len() - lexer.position,
        {
            if lexer.is_at_end() {
                break;
            }
            let start_line = lexer.line;
            let start_column = lexer.column;
            let ghost p = lexer.position as int;
            let c = lexer.peek();
            if c == '\t' {
                let ghost pre = tokens@;
                lexer.advance();
                tokens.push(TokenWithPos { token: Token::Tab, line: start_line, column: start_column });
                proof {
                    assert(toks_view(tokens@) =~= toks_view(pre) + seq![tokens@.last()@]);
                    lemma_lex_cons_step(
                        s,
                        toks_view(pre),
                        tokens@.last()@,
                        lexer.position as int,
                        lexer.line as int,
                        lexer.column as int,
                    );
                }
            } else if c == ' ' {
                let ghost pre = tokens@;
                lexer.advance();
                tokens.push(TokenWithPos { token: Token::Space, line: start_line, column: start_column });
                proof {
                    assert(toks_view(tokens@) =~= toks_view(pre) + seq![tokens@.last()@]);
                    lemma_lex_cons_step(
                        s,
                        toks_view(pre),
                        tokens@.last()@,
                        lexer.position as int,
                        lexer.line as int,
                        lexer.column as int,
                    );
                }
            } else if c == '\n' {
                let ghost pre = tokens@;
                lexer.advance();
                tokens.push(TokenWithPos { token: Token::Newline, line: start_line, column: start_column });
                proof {
                    assert(toks_view(tokens@) =~= toks_view(pre) + seq![tokens@.last()@]);
                    lemma_lex_cons_step(
                        s,
                        toks_view(pre),
                        tokens@.last()@,
                        lexer.position as int,
                        lexer.line as int,
                        lexer.column as int,
                    );
                }
            } else if crate::chars::is_word_start(c) {
                let ghost pre = tokens@;
                let w = lexer.scan_word();
                proof {
                    lemma_word_end(s, p + 1);
                }
                tokens.push(
                    TokenWithPos { token: Token::Word(w), line: start_line, column: start_column },
                );
                proof {
                    assert(toks_view(tokens@) =~= toks_view(pre) + seq![tokens@.last()@]);
                    lemma_lex_cons_step(
                        s,
                        toks_view(pre),
                        tokens@.last()@,
                        lexer.position as int,
                        lexer.line as int,
                        lexer.column as int,
                    );
                }
            } else if crate::chars::is_digit(c) {
                let ghost pre = tokens@;
                let (num, isf) = lexer.scan_number();
                proof {
                    lemma_num_end(s, p + 1, false);
                }
                let tok = if isf {
                    Token::Float(num)
                } else {
                    Token::Number(num)
                };
                tokens.push(TokenWithPos { token: tok, line: start_line, column: start_column });
                proof {
                    assert(toks_view(tokens@) =~= toks_view(pre) + seq![tokens@.last()@]);
                    lemma_lex_cons_step(
                        s,
                        toks_view(pre),
                        tokens@.last()@,
                        lexer.position as int,
                        lexer.line as int,
                        lexer.column as int,
                    );
                }
            } else if c == '"' {
                let ghost pre = tokens@;
                match lexer.scan_string() {
                    Option::Some(st) => {
                        proof {
                            lemma_str_scan(s, p + 1);
                        }
                        tokens.push(
                            TokenWithPos {
                                token: Token::String(st),
                                line: start_line,
                                column: start_column,
                            },
                        );
                        proof {
                            assert(toks_view(tokens@) =~= toks_view(pre) + seq![tokens@.last()@]);
                            lemma_lex_cons_step(
                                s,
                                toks_view(pre),
                                tokens@.last()@,
                                lexer.position as int,
                                lexer.line as int,
                                lexer.column as int,
                            );
                        }
                    },
                    Option::None => {
                        return Result::Err(
                            LexError {
                                kind: LexErrorKind::UnterminatedString,
                                line: start_line,
                                column: start_column,
                            },
                        );
                    },
                }
            } else {
                return Result::Err(
                    LexError {
                        kind: LexErrorKind::UnexpectedChar(c),
                        line: start_line,
                        column: start_column,
                    },
                );
            }
        }
        let ghost pre = tokens@;
        tokens.push(TokenWithPos { token: Token::Eof, line: lexer.line, column: lexer.column });
        proof {
            assert(toks_view(tokens@) =~= toks_view(pre) + seq![tokens@.last()@]);
            assert(lex_at(s, 0, 1, 1) == LexOut::Toks(toks_view(tokens@)));
        }
        Result::Ok(tokens)
    }
}

/// Putting a non-`Eof` token in front of a well-positioned stream whose
/// columns start beyond it keeps the stream well positioned.
proof fn lemma_pos_cons(t: TokenAt, rest: Seq<TokenAt>, line: int, col: int, col2: int)
    requires
        col < col2,
        t.line == line,
        t.column == col,
        !(t.token is Eof),
        rest.len() >= 1,
        rest[rest.len() - 1].token is Eof,
        forall|i: int| 0 <= i < rest.len() - 1 ==> !((#[trigger] rest[i]).token is Eof),
        forall|i: int| 0 <= i < rest.len() ==> (#[trigger] rest[i]).line == line,
        rest[0].column == col2,
        forall|i: int| 0 <= i < rest.len() ==> col2 <= (#[trigger] rest[i]).column,
        forall|i: int| 0 <= i < rest.len() - 1 ==> (#[trigger] rest[i]).column < rest[i + 1].column,
    ensures
        ({
            let ts = seq![t] + rest;
            &&& ts.len() >= 1
            &&& ts[ts.len() - 1].token is Eof
            &&& forall|i: int| 0 <= i < ts.len() - 1 ==> !((#[trigger] ts[i]).token is Eof)
            &&& forall|i: int| 0 <= i < ts.len() ==> (#[trigger] ts[i]).line == line
            &&& ts[0].column == col
            &&& forall|i: int| 0 <= i < ts.len() ==> col <= (#[trigger] ts[i]).column
            &&& forall|i: int| 0 <= i < ts.len() - 1 ==> (#[trigger] ts[i]).column < ts[i + 1].column
        }),
{
    let ts = seq![t] + rest;
    assert(forall|i: int| 1 <= i < ts.len() ==> ts[i] == rest[i - 1]);
    assert(ts[0] == t);
}

/// From any start state, with only printable non-layout characters ahead,
/// the tokens all sit on `line`, their columns strictly increase from
/// `col`, and the stream ends in exactly one `Eof`.
proof fn lemma_lex_positions_at(s: Seq<char>, pos: int, line: int, col: int)
    requires
        0 <= pos <= s.len(),
        forall|k: int| pos <= k < s.len() ==> '!' <= s[k] && s[k] <= '~',
    ensures
        lex_at(s, pos, line, col) matches LexOut::Toks(ts) ==> {
            &&& ts.len() >= 1
            &&& ts[ts.len() - 1].token is Eof
            &&& forall|i: int| 0 <= i < ts.len() - 1 ==> !((#[trigger] ts[i]).token is Eof)
            &&& forall|i: int| 0 <= i < ts.len() ==> (#[trigger] ts[i]).line == line
            &&& ts[0].column == col
            &&& forall|i: int| 0 <= i < ts.len() ==> col <= (#[trigger] ts[i]).column
            &&& forall|i: int| 0 <= i < ts.len() - 1 ==> (#[trigger] ts[i]).column < ts[i + 1].column
        },
    decreases s.len() - pos,
{
    if pos >= s.len() {
        let ts = seq![TokenAt { token: TokenModel::Eof, line, column: col }];
        assert(ts[0].column == col);
    } else {
        let c = s[pos];
        assert('!' <= c && c <= '~');
        if spec_is_word_start(c) {
            let j = word_end(s, pos);
            lemma_word_end(s, pos + 1);
            lemma_lex_positions_at(s, j, line, col + (j - pos));
            match lex_at(s, j, line, col + (j - pos)) {
                LexOut::Toks(rest) => {
                    let t = TokenAt {
                        token: TokenModel::Word(s.subrange(pos, j)),
                        line,
                        column: col,
                    };
                    lemma_pos_cons(t, rest, line, col, col + (j - pos));
                },
                LexOut::Fail(_) => {},
            }
        } else if spec_is_digit(c) {
            let r = num_end(s, pos, false);
            lemma_num_end(s, pos + 1, false);
            lemma_num_end(s, pos + 1, true);
            lemma_lex_positions_at(s, r.0, line, col + (r.0 - pos));
            match lex_at(s, r.0, line, col + (r.0 - pos)) {
                LexOut::Toks(rest) => {
                    let tok = if r.1 {
                        TokenModel::Float(num_token_val(s, pos))
                    } else {
                        TokenModel::Number(num_token_val(s, pos))
                    };
                    let t = TokenAt { token: tok, line, column: col };
                    lemma_pos_cons(t, rest, line, col, col + (r.0 - pos));
                },
                LexOut::Fail(_) => {},
            }
        } else if c == '"' {
            match str_scan(s, pos + 1) {
                StrScan::Done(content, e) => {
                    lemma_str_scan(s, pos + 1);
                    lemma_adv_no_newline(s, pos, e, line, col);
                    lemma_lex_positions_at(s, e, line, col + (e - pos));
                    match lex_at(s, e, adv_line(s, pos, e, line), adv_col(s, pos, e, col)) {
                        LexOut::Toks(rest) => {
                            let t = TokenAt {
                                token: TokenModel::StrLit(content),
                                line,
                                column: col,
                            };
                            lemma_pos_cons(t, rest, line, col, col + (e - pos));
                        },
                        LexOut::Fail(_) => {},
                    }
                },
                StrScan::Unterminated => {},
            }
        }
    }
}

/// LAW. For source text made only of printable, non-layout characters, a
/// successful `tokenize` never yields two consecutive tokens at the same
/// position, and the stream ends in exactly one `Eof`.
pub proof fn lemma_tokenize_positions(s: Seq<char>)
    requires
        forall|k: int| 0 <= k < s.len() ==> '!' <= s[k] && s[k] <= '~',
    ensures
        spec_tokenize(s) matches LexOut::Toks(ts) ==> {
            &&& ts.len() >= 1
            &&& ts[ts.len() - 1].token is Eof
            &&& forall|i: int| 0 <= i < ts.len() - 1 ==> !((#[trigger] ts[i]).token is Eof)
            &&& forall|i: int|
                0 <= i < ts.len() - 1 ==> !((#[trigger] ts[i]).line == ts[i + 1].line
                    && ts[i].column == ts[i + 1].column)
        },
{
    lemma_lex_positions_at(s, 0, 1, 1);
}

/// Peeling one token off the remainder keeps the global lexing equation:
/// what has been collected plus what remains is the whole.
proof fn lemma_lex_cons_step(
    s: Seq<char>,
    prefix: Seq<TokenAt>,
    t: TokenAt,
    p2: int,
    l2: int,
    c2: int,
)
    requires
        match lex_cons(t, lex_at(s, p2, l2, c2)) {
            LexOut::Toks(rest) => lex_at(s, 0, 1, 1) == LexOut::Toks(prefix + rest),
            LexOut::Fail(e) => lex_at(s, 0, 1, 1) == LexOut::Fail(e),
        },
    ensures
        match lex_at(s, p2, l2, c2) {
            LexOut::Toks(rest2) => lex_at(s, 0, 1, 1) == LexOut::Toks((prefix + seq![t]) + rest2),
            LexOut::Fail(e) => lex_at(s, 0, 1, 1) == LexOut::Fail(e),
        },
{
    match lex_at(s, p2, l2, c2) {
        LexOut::Toks(rest2) => {
            assert(prefix + (seq![t] + rest2) =~= (prefix + seq![t]) + rest2);
        },
        LexOut::Fail(_) => {},
    }
}

} // verus!
