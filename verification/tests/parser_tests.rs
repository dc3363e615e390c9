use tabula::ast::{BinaryOp, Expression, Program, Statement};
use tabula::errors::ParseError;
use tabula::lexer::Lexer;
use tabula::parser::Parser;

fn parse(source: &str) -> Result<Program, ParseError> {
    let lexer = Lexer::new();
    let parser = Parser::new();
    parser.parse(lexer.tokenize(source).unwrap())
}

#[test]
fn tab_separates_name_and_value() {
    let program = parse("let x\t5\n").unwrap();
    assert_eq!(
        program.statements,
        vec![Statement::Let { name: "x".to_string(), value: Expression::Number(5) }]
    );
    assert_eq!(program.format(), "let x  5");
}

#[test]
fn empty_program_parses() {
    let program = parse("").unwrap();
    assert!(program.statements.is_empty());
    let program = parse("\n\n\n").unwrap();
    assert!(program.statements.is_empty());
}

#[test]
fn if_with_else() {
    let program = parse("if x\n\tprint 1\nelse\n\tprint 0\n").unwrap();
    assert_eq!(
        program.statements,
        vec![Statement::If {
            condition: Expression::Variable("x".to_string()),
            then_body: vec![Statement::Print { args: vec![Expression::Number(1)] }],
            else_body: Some(vec![Statement::Print { args: vec![Expression::Number(0)] }]),
        }]
    );
}

#[test]
fn for_loop_parses() {
    let program = parse("for i in n\n\tprint i\n").unwrap();
    assert_eq!(
        program.statements,
        vec![Statement::For {
            var: "i".to_string(),
            iterable: Expression::Variable("n".to_string()),
            body: vec![Statement::Print {
                args: vec![Expression::Variable("i".to_string())]
            }],
        }]
    );
}

#[test]
fn for_without_in_fails() {
    assert_eq!(parse("for i of n\n"), Err(ParseError::ExpectedIn));
}

#[test]
fn function_with_one_param() {
    let program = parse("func inc a\n\treturn a\n").unwrap();
    assert_eq!(
        program.statements,
        vec![Statement::Function {
            name: "inc".to_string(),
            params: vec!["a".to_string()],
            body: vec![Statement::Return {
                value: Some(Expression::Variable("a".to_string()))
            }],
        }]
    );
}

#[test]
fn two_params_cannot_parse() {
    // After the first parameter the space run is consumed whole, so the
    // required separator before a second parameter is never found.
    assert_eq!(parse("func add a  b\n"), Err(ParseError::ExpectedSpace));
}

#[test]
fn word_with_space_and_argument_is_a_call() {
    let program = parse("f 1\n").unwrap();
    assert_eq!(
        program.statements,
        vec![Statement::Expression(Expression::Call {
            name: "f".to_string(),
            args: vec![Expression::Number(1)],
        })]
    );
}

#[test]
fn bare_word_is_a_variable() {
    let program = parse("x\n").unwrap();
    assert_eq!(
        program.statements,
        vec![Statement::Expression(Expression::Variable("x".to_string()))]
    );
}

#[test]
fn spaced_words_nest_as_calls() {
    let program = parse("f a  b\n").unwrap();
    assert_eq!(
        program.statements,
        vec![Statement::Expression(Expression::Call {
            name: "f".to_string(),
            args: vec![Expression::Call {
                name: "a".to_string(),
                args: vec![Expression::Variable("b".to_string())],
            }],
        })]
    );
}

#[test]
fn nested_blocks_go_to_the_innermost_header() {
    let program = parse("if c\n\tif d\n\t\tprint 1\n").unwrap();
    assert_eq!(
        program.statements,
        vec![Statement::If {
            condition: Expression::Variable("c".to_string()),
            then_body: vec![Statement::If {
                condition: Expression::Variable("d".to_string()),
                then_body: vec![Statement::Print { args: vec![Expression::Number(1)] }],
                else_body: None,
            }],
            else_body: None,
        }]
    );
}

#[test]
fn print_without_arguments() {
    let program = parse("print \n").unwrap();
    assert_eq!(program.statements, vec![Statement::Print { args: vec![] }]);
}

#[test]
fn return_without_value() {
    let program = parse("return\n").unwrap();
    assert_eq!(program.statements, vec![Statement::Return { value: None }]);
}

#[test]
fn let_needs_a_name() {
    assert_eq!(parse("let 5  5\n"), Err(ParseError::ExpectedWord));
}

#[test]
fn header_needs_a_newline() {
    assert_eq!(parse("if x"), Err(ParseError::ExpectedNewline));
}

#[test]
fn layout_cannot_start_an_expression() {
    assert_eq!(parse("\tx\n"), Err(ParseError::UnexpectedToken));
}

#[test]
fn precedence_values() {
    assert_eq!(BinaryOp::Add.precedence(), 1);
    assert_eq!(BinaryOp::Subtract.precedence(), 1);
    assert_eq!(BinaryOp::Multiply.precedence(), 2);
    assert_eq!(BinaryOp::Divide.precedence(), 2);
    assert_eq!(BinaryOp::Greater.precedence(), 0);
    assert_eq!(BinaryOp::Less.precedence(), 0);
    assert_eq!(BinaryOp::Equal.precedence(), 0);
}

#[test]
fn parse_error_messages() {
    assert_eq!(ParseError::ExpectedSpace.message(), "Expected space");
    assert_eq!(ParseError::ExpectedNewline.message(), "Expected newline");
    assert_eq!(ParseError::ExpectedNewlineOrEof.message(), "Expected newline or EOF");
    assert_eq!(ParseError::ExpectedWord.message(), "Expected word");
    assert_eq!(ParseError::ExpectedIn.message(), "Expected 'in' in for loop");
    assert_eq!(ParseError::UnexpectedToken.message(), "Unexpected token in expression");
}
