use tabula::errors::{LexError, LexErrorKind};
use tabula::lexer::{Lexer, Token, TokenWithPos};

fn kinds(toks: &[TokenWithPos]) -> Vec<Token> {
    toks.iter().map(|t| t.token.clone()).collect()
}

#[test]
fn operators_are_not_words() {
    let lexer = Lexer::new();
    let err = lexer.tokenize("1+2").unwrap_err();
    assert_eq!(
        err,
        LexError { kind: LexErrorKind::UnexpectedChar('+'), line: 1, column: 2 }
    );
}

#[test]
fn plain_binding_lexes() {
    let lexer = Lexer::new();
    let toks = lexer.tokenize("let x  1").unwrap();
    assert_eq!(
        kinds(&toks),
        vec![
            Token::Word("let".to_string()),
            Token::Space,
            Token::Word("x".to_string()),
            Token::Space,
            Token::Space,
            Token::Number(1),
            Token::Eof,
        ]
    );
}

#[test]
fn empty_source_is_one_eof() {
    let lexer = Lexer::new();
    let toks = lexer.tokenize("").unwrap();
    assert_eq!(toks.len(), 1);
    assert_eq!(toks[0].token, Token::Eof);
    assert_eq!((toks[0].line, toks[0].column), (1, 1));
}

#[test]
fn positions_never_repeat_and_one_eof() {
    let lexer = Lexer::new();
    let toks = lexer.tokenize("abc123 \"s\" 42").unwrap();
    for w in toks.windows(2) {
        assert!(!(w[0].line == w[1].line && w[0].column == w[1].column));
    }
    assert_eq!(toks.last().unwrap().token, Token::Eof);
    assert_eq!(
        toks.iter().filter(|t| t.token == Token::Eof).count(),
        1
    );
}

#[test]
fn layout_tokens_are_kept() {
    let lexer = Lexer::new();
    let toks = lexer.tokenize("\t \n").unwrap();
    assert_eq!(
        kinds(&toks),
        vec![Token::Tab, Token::Space, Token::Newline, Token::Eof]
    );
    assert_eq!((toks[2].line, toks[2].column), (1, 3));
    assert_eq!((toks[3].line, toks[3].column), (2, 1));
}

#[test]
fn float_literal_keeps_integral_part() {
    let lexer = Lexer::new();
    let toks = lexer.tokenize("3.7").unwrap();
    assert_eq!(kinds(&toks), vec![Token::Float(3), Token::Eof]);
}

#[test]
fn second_dot_stops_the_number() {
    let lexer = Lexer::new();
    // "1.2" scans as a float; the second dot is an unexpected character.
    let err = lexer.tokenize("1.2.3").unwrap_err();
    assert_eq!(
        err,
        LexError { kind: LexErrorKind::UnexpectedChar('.'), line: 1, column: 4 }
    );
}

#[test]
fn overflowing_number_is_zero() {
    let lexer = Lexer::new();
    let toks = lexer.tokenize("99999999999999999999").unwrap();
    assert_eq!(kinds(&toks), vec![Token::Number(0), Token::Eof]);
    let toks = lexer.tokenize("9223372036854775807").unwrap();
    assert_eq!(kinds(&toks), vec![Token::Number(i64::MAX), Token::Eof]);
}

#[test]
fn string_escapes() {
    let lexer = Lexer::new();
    let toks = lexer.tokenize("\"a\\n\\t\\\\\\\"z\"").unwrap();
    assert_eq!(
        kinds(&toks),
        vec![Token::String("a\n\t\\\"z".to_string()), Token::Eof]
    );
}

#[test]
fn unknown_escape_is_kept_verbatim() {
    let lexer = Lexer::new();
    let toks = lexer.tokenize("\"a\\qb\"").unwrap();
    assert_eq!(kinds(&toks), vec![Token::String("a\\qb".to_string()), Token::Eof]);
}

#[test]
fn unterminated_string_fails() {
    let lexer = Lexer::new();
    let err = lexer.tokenize("  \"abc").unwrap_err();
    assert_eq!(
        err,
        LexError { kind: LexErrorKind::UnterminatedString, line: 1, column: 3 }
    );
}

#[test]
fn words_take_letters_digits_underscores() {
    let lexer = Lexer::new();
    let toks = lexer.tokenize("a_1 b2").unwrap();
    assert_eq!(
        kinds(&toks),
        vec![
            Token::Word("a_1".to_string()),
            Token::Space,
            Token::Word("b2".to_string()),
            Token::Eof,
        ]
    );
}

#[test]
fn lex_error_messages() {
    let e = LexError { kind: LexErrorKind::UnexpectedChar('+'), line: 1, column: 2 };
    assert_eq!(e.message(), "Unexpected character '+' at line 1:2");
    let e = LexError { kind: LexErrorKind::UnterminatedString, line: 3, column: 7 };
    assert_eq!(e.message(), "Unterminated string at line 3");
}
