use tabula::ast::{BinaryOp, Expression, Program, Statement, UnaryOp};
use tabula::errors::RuntimeError;
use tabula::interp::Interpreter;
use tabula::lexer::Lexer;
use tabula::parser::Parser;

fn parse(source: &str) -> Program {
    let lexer = Lexer::new();
    let parser = Parser::new();
    parser.parse(lexer.tokenize(source).unwrap()).unwrap()
}

fn bin(l: Expression, op: BinaryOp, r: Expression) -> Expression {
    Expression::Binary { left: Box::new(l), op, right: Box::new(r) }
}

fn var(name: &str) -> Expression {
    Expression::Variable(name.to_string())
}

#[test]
fn sum_of_two_bindings_prints_seven() {
    // let x  3 / let y  4 / print x + y
    let program = Program {
        statements: vec![
            Statement::Let { name: "x".to_string(), value: Expression::Number(3) },
            Statement::Let { name: "y".to_string(), value: Expression::Number(4) },
            Statement::Print { args: vec![bin(var("x"), BinaryOp::Add, var("y"))] },
        ],
    };
    let mut interp = Interpreter::new();
    interp.interpret(&program).unwrap();
    assert_eq!(interp.output(), "7\n");
}

#[test]
fn nonzero_condition_takes_the_then_branch() {
    let program = parse("let x  1\nif x\n\tprint 1\nelse\n\tprint 0\n");
    let mut interp = Interpreter::new();
    interp.interpret(&program).unwrap();
    assert_eq!(interp.output(), "1\n");
}

#[test]
fn zero_condition_takes_the_else_branch() {
    let program = parse("let x  0\nif x\n\tprint 1\nelse\n\tprint 0\n");
    let mut interp = Interpreter::new();
    interp.interpret(&program).unwrap();
    assert_eq!(interp.output(), "0\n");
}

#[test]
fn for_counts_up_and_the_variable_persists() {
    let program = parse("let x  10\nfor i in x\n\tprint i\n");
    let mut interp = Interpreter::new();
    interp.interpret(&program).unwrap();
    assert_eq!(interp.output(), "0\n1\n2\n3\n4\n5\n6\n7\n8\n9\n");
    // No scoping: the induction variable is still bound afterwards.
    let again = parse("print i\n");
    interp.interpret(&again).unwrap();
    assert_eq!(interp.output(), "0\n1\n2\n3\n4\n5\n6\n7\n8\n9\n9\n");
}

#[test]
fn division_by_zero_stops_the_run() {
    // print 1 / 0
    let program = Program {
        statements: vec![Statement::Print {
            args: vec![bin(Expression::Number(1), BinaryOp::Divide, Expression::Number(0))],
        }],
    };
    let mut interp = Interpreter::new();
    // A failing print argument renders as a question mark; the statement
    // itself still completes.
    interp.interpret(&program).unwrap();
    assert_eq!(interp.output(), "?\n");

    // As a bare expression the fault aborts the whole run, keeping only
    // what was printed before.
    let program = Program {
        statements: vec![
            Statement::Print { args: vec![Expression::Number(5)] },
            Statement::Expression(bin(
                Expression::Number(1),
                BinaryOp::Divide,
                Expression::Number(0),
            )),
            Statement::Print { args: vec![Expression::Number(6)] },
        ],
    };
    let mut interp = Interpreter::new();
    let err = interp.interpret(&program).unwrap_err();
    assert_eq!(err, RuntimeError::DivisionByZero);
    assert_eq!(interp.output(), "5\n");
}

#[test]
fn division_by_zero_in_a_print_call_fails_the_run() {
    // `print 1 / 0` as a call expression: the failing argument aborts the
    // whole run, with no partial output beyond earlier statements.
    let program = Program {
        statements: vec![
            Statement::Print { args: vec![Expression::Number(5)] },
            Statement::Expression(Expression::Call {
                name: "print".to_string(),
                args: vec![bin(
                    Expression::Number(1),
                    BinaryOp::Divide,
                    Expression::Number(0),
                )],
            }),
        ],
    };
    let mut interp = Interpreter::new();
    let err = interp.interpret(&program).unwrap_err();
    assert_eq!(err, RuntimeError::DivisionByZero);
    assert_eq!(interp.output(), "5\n");
}

#[test]
fn comparisons_yield_one_or_zero() {
    let program = Program {
        statements: vec![Statement::Print {
            args: vec![
                bin(Expression::Number(2), BinaryOp::Greater, Expression::Number(1)),
                bin(Expression::Number(2), BinaryOp::Less, Expression::Number(1)),
                bin(Expression::Number(2), BinaryOp::Equal, Expression::Number(2)),
            ],
        }],
    };
    let mut interp = Interpreter::new();
    interp.interpret(&program).unwrap();
    assert_eq!(interp.output(), "1 0 1\n");
}

#[test]
fn arithmetic_truncates_and_negates() {
    let program = Program {
        statements: vec![Statement::Print {
            args: vec![
                bin(Expression::Number(7), BinaryOp::Divide, Expression::Number(2)),
                bin(Expression::Number(-7), BinaryOp::Divide, Expression::Number(2)),
                Expression::Unary {
                    op: UnaryOp::Negate,
                    expr: Box::new(Expression::Number(3)),
                },
                bin(Expression::Number(2), BinaryOp::Multiply, Expression::Number(21)),
                bin(Expression::Number(1), BinaryOp::Subtract, Expression::Number(5)),
            ],
        }],
    };
    let mut interp = Interpreter::new();
    interp.interpret(&program).unwrap();
    assert_eq!(interp.output(), "3 -3 -3 42 -4\n");
}

#[test]
fn undefined_variable_faults() {
    let program = parse("let x  y\n");
    let mut interp = Interpreter::new();
    let err = interp.interpret(&program).unwrap_err();
    assert_eq!(err, RuntimeError::UndefinedVariable("y".to_string()));
}

#[test]
fn unknown_function_faults() {
    let program = parse("let x  f 1\n");
    let mut interp = Interpreter::new();
    let err = interp.interpret(&program).unwrap_err();
    assert_eq!(err, RuntimeError::UnknownFunction("f".to_string()));
}

#[test]
fn strings_and_floats_have_no_integer_value() {
    let program = parse("let x  \"hi\"\n");
    let mut interp = Interpreter::new();
    assert_eq!(
        interp.interpret(&program).unwrap_err(),
        RuntimeError::UnsupportedExpression
    );
    let program = parse("let x  1.5\n");
    let mut interp = Interpreter::new();
    assert_eq!(
        interp.interpret(&program).unwrap_err(),
        RuntimeError::UnsupportedExpression
    );
}

#[test]
fn print_call_expression_writes_eagerly() {
    // The built-in print used as an expression writes each value followed
    // by one space, then a newline, and evaluates to zero.
    let program = parse("let r  print 8\nprint r\n");
    let mut interp = Interpreter::new();
    interp.interpret(&program).unwrap();
    assert_eq!(interp.output(), "8 \n0\n");
}

#[test]
fn function_declarations_run_as_no_ops() {
    let program = parse("func f a\n\treturn a\nprint 1\n");
    let mut interp = Interpreter::new();
    interp.interpret(&program).unwrap();
    assert_eq!(interp.output(), "1\n");
}

#[test]
fn runtime_error_messages() {
    assert_eq!(
        RuntimeError::UndefinedVariable("v".to_string()).message(),
        "Undefined variable: v"
    );
    assert_eq!(RuntimeError::DivisionByZero.message(), "Division by zero");
    assert_eq!(
        RuntimeError::UnknownFunction("g".to_string()).message(),
        "Unknown function: g"
    );
    assert_eq!(
        RuntimeError::UnsupportedExpression.message(),
        "Unsupported expression type in interpreter"
    );
}
