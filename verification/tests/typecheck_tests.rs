use tabula::ast::{BinaryOp, Expression, Program, Statement};
use tabula::errors::TypeError;
use tabula::lexer::Lexer;
use tabula::parser::Parser;
use tabula::typecheck::TypeChecker;

fn parse(source: &str) -> Program {
    let lexer = Lexer::new();
    let parser = Parser::new();
    parser.parse(lexer.tokenize(source).unwrap()).unwrap()
}

fn bin(l: Expression, op: BinaryOp, r: Expression) -> Expression {
    Expression::Binary { left: Box::new(l), op, right: Box::new(r) }
}

#[test]
fn number_condition_is_rejected() {
    let program = parse("if 5\n\tprint 1\n");
    let mut checker = TypeChecker::new();
    assert_eq!(
        checker.check(&program).unwrap_err(),
        TypeError::NonBooleanCondition
    );
}

#[test]
fn relational_condition_is_accepted() {
    // if 1 > 0 / print 1
    let program = Program {
        statements: vec![Statement::If {
            condition: bin(Expression::Number(1), BinaryOp::Greater, Expression::Number(0)),
            then_body: vec![Statement::Print { args: vec![Expression::Number(1)] }],
            else_body: None,
        }],
    };
    let mut checker = TypeChecker::new();
    assert!(checker.check(&program).is_ok());
}

#[test]
fn arithmetic_wants_numbers() {
    let program = Program {
        statements: vec![Statement::Let {
            name: "x".to_string(),
            value: bin(
                Expression::String("a".to_string()),
                BinaryOp::Add,
                Expression::Number(1),
            ),
        }],
    };
    let mut checker = TypeChecker::new();
    assert_eq!(
        checker.check(&program).unwrap_err(),
        TypeError::NonNumericArithmetic
    );
}

#[test]
fn floats_spread_through_arithmetic() {
    // let x  1.5 / let y  x + 1 / if y ... — `y` infers as Float, and
    // the `if` then rejects it.
    let program = Program {
        statements: vec![
            Statement::Let { name: "x".to_string(), value: Expression::Float(1) },
            Statement::Let {
                name: "y".to_string(),
                value: bin(
                    Expression::Variable("x".to_string()),
                    BinaryOp::Add,
                    Expression::Number(1),
                ),
            },
            Statement::If {
                condition: Expression::Variable("y".to_string()),
                then_body: vec![Statement::Print { args: vec![Expression::Number(1)] }],
                else_body: None,
            },
        ],
    };
    let mut checker = TypeChecker::new();
    assert_eq!(
        checker.check(&program).unwrap_err(),
        TypeError::NonBooleanCondition
    );
}

#[test]
fn undefined_names_are_reported() {
    let mut checker = TypeChecker::new();
    assert_eq!(
        checker.check(&parse("let x  y\n")).unwrap_err(),
        TypeError::UndefinedVariable("y".to_string())
    );
    let mut checker = TypeChecker::new();
    assert_eq!(
        checker.check(&parse("let x  g 1\n")).unwrap_err(),
        TypeError::UndefinedFunction("g".to_string())
    );
}

#[test]
fn print_call_checks_arity_and_argument_type() {
    // The built-in print is declared with one string parameter.
    let mut checker = TypeChecker::new();
    let wrong_type = Program {
        statements: vec![Statement::Expression(Expression::Call {
            name: "print".to_string(),
            args: vec![Expression::Number(1)],
        })],
    };
    assert_eq!(
        checker.check(&wrong_type).unwrap_err(),
        TypeError::ArgumentTypeMismatch
    );
    let mut checker = TypeChecker::new();
    let ok = Program {
        statements: vec![Statement::Expression(Expression::Call {
            name: "print".to_string(),
            args: vec![Expression::String("hi".to_string())],
        })],
    };
    assert!(checker.check(&ok).is_ok());
    let mut checker = TypeChecker::new();
    let wrong_arity = Program {
        statements: vec![Statement::Expression(Expression::Call {
            name: "print".to_string(),
            args: vec![
                Expression::String("a".to_string()),
                Expression::String("b".to_string()),
            ],
        })],
    };
    assert_eq!(
        checker.check(&wrong_arity).unwrap_err(),
        TypeError::ArityMismatch { name: "print".to_string(), expected: 1, got: 2 }
    );
}

#[test]
fn registered_function_accepts_anything() {
    // A declared function has all-Unknown parameters, so any argument
    // type is compatible; its return type comes from its first valued
    // return.
    let mut program = parse("func f a\n\treturn 1\nlet x  f \"s\"\n");
    program.statements.push(Statement::Let {
        name: "y".to_string(),
        value: bin(
            Expression::Variable("x".to_string()),
            BinaryOp::Add,
            Expression::Number(1),
        ),
    });
    let mut checker = TypeChecker::new();
    assert!(checker.check(&program).is_ok());
}

#[test]
fn return_inference_reads_into_nested_blocks() {
    // The first valued return sits inside the if body; it types the
    // function as Number, so the final comparison checks.
    let program = Program {
        statements: vec![
            Statement::Function {
                name: "f".to_string(),
                params: vec!["a".to_string()],
                body: vec![Statement::If {
                    condition: Expression::Variable("g".to_string()),
                    then_body: vec![Statement::Return {
                        value: Some(Expression::Number(1)),
                    }],
                    else_body: None,
                }],
            },
            Statement::Let {
                name: "x".to_string(),
                value: Expression::Call {
                    name: "f".to_string(),
                    args: vec![Expression::Number(2)],
                },
            },
            Statement::If {
                condition: bin(
                    Expression::Variable("x".to_string()),
                    BinaryOp::Greater,
                    Expression::Number(0),
                ),
                then_body: vec![Statement::Print { args: vec![Expression::Number(1)] }],
                else_body: None,
            },
        ],
    };
    let mut checker = TypeChecker::new();
    assert!(checker.check(&program).is_ok());
}

#[test]
fn print_statement_arguments_are_only_evaluated() {
    // A `print` statement checks its arguments but imposes no type on
    // them — unlike a call of the built-in `print`.
    let program = parse("print 1\n");
    let mut checker = TypeChecker::new();
    assert!(checker.check(&program).is_ok());
}

#[test]
fn for_binds_its_variable_as_number() {
    let program = Program {
        statements: vec![Statement::For {
            var: "i".to_string(),
            iterable: Expression::Number(3),
            body: vec![Statement::Let {
                name: "x".to_string(),
                value: bin(
                    Expression::Variable("i".to_string()),
                    BinaryOp::Add,
                    Expression::Number(1),
                ),
            }],
        }],
    };
    let mut checker = TypeChecker::new();
    assert!(checker.check(&program).is_ok());
}

#[test]
fn type_error_messages() {
    assert_eq!(
        TypeError::NonBooleanCondition.message(),
        "If condition must be boolean"
    );
    assert_eq!(
        TypeError::NonNumericArithmetic.message(),
        "Cannot perform arithmetic on non-numeric types"
    );
    assert_eq!(
        TypeError::UndefinedVariable("v".to_string()).message(),
        "Undefined variable: v"
    );
    assert_eq!(
        TypeError::UndefinedFunction("f".to_string()).message(),
        "Undefined function: f"
    );
    assert_eq!(
        TypeError::ArityMismatch { name: "f".to_string(), expected: 2, got: 3 }.message(),
        "Function f expects 2 arguments, got 3"
    );
    assert_eq!(
        TypeError::ArgumentTypeMismatch.message(),
        "Type mismatch in function call"
    );
}
