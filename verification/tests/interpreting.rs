use luth_lang::ast::Expression;
use luth_lang::ast::Operator;
use luth_lang::ast::Statement;
use luth_lang::ast::Token;
use luth_lang::interpreter::ExecStatus;
use luth_lang::interpreter::Interpreter;
use luth_lang::parser::Parser;
use luth_lang::value::RuntimeError;

const FUEL: u64 = 1000;

fn ident(name: &str) -> Token {
    Token::Identifier(name.to_string())
}

fn run(tokens: Vec<Token>) -> (ExecStatus, Vec<String>) {
    let mut parser = Parser::new(tokens);
    let statements = parser.parse().unwrap();
    let mut interpreter = Interpreter::new();
    let status = interpreter.interpret(&statements, FUEL);
    (status, interpreter.output().clone())
}

#[test]
fn precedence_scenario_arithmetic() {
    // 2 + 3 * 4 evaluates to 14
    let (status, out) = run(vec![
        Token::Print,
        Token::LeftParen,
        Token::NumberLiteral(2),
        Token::Plus,
        Token::NumberLiteral(3),
        Token::Star,
        Token::NumberLiteral(4),
        Token::RightParen,
        Token::Semicolon,
        Token::EOF,
    ]);
    assert!(matches!(status, ExecStatus::Completed));
    assert_eq!(out, vec!["14".to_string()]);
}

#[test]
fn precedence_scenario_logical() {
    // true && false || true evaluates to true
    let (status, out) = run(vec![
        Token::Print,
        Token::LeftParen,
        Token::BooleanLiteral(true),
        Token::And,
        Token::BooleanLiteral(false),
        Token::Or,
        Token::BooleanLiteral(true),
        Token::RightParen,
        Token::Semicolon,
        Token::EOF,
    ]);
    assert!(matches!(status, ExecStatus::Completed));
    assert_eq!(out, vec!["true".to_string()]);
}

#[test]
fn control_flow_scenario_while_loop() {
    // var i = 0; while i < 3 { print(i); i++; } prints 0, 1, 2
    let (status, out) = run(vec![
        Token::Var,
        ident("i"),
        Token::Assign,
        Token::NumberLiteral(0),
        Token::Semicolon,
        Token::While,
        ident("i"),
        Token::LessThan,
        Token::NumberLiteral(3),
        Token::LeftBrace,
        Token::Print,
        Token::LeftParen,
        ident("i"),
        Token::RightParen,
        Token::Semicolon,
        ident("i"),
        Token::Increment,
        Token::Semicolon,
        Token::RightBrace,
        Token::EOF,
    ]);
    assert!(matches!(status, ExecStatus::Completed));
    assert_eq!(out, vec!["0".to_string(), "1".to_string(), "2".to_string()]);
}

#[test]
fn inline_if_scenario_takes_the_first_truthy_arm() {
    // var y = if false: 1 elif true: 2 else: 3; binds y to 2
    let (status, out) = run(vec![
        Token::Var,
        ident("y"),
        Token::Assign,
        Token::If,
        Token::BooleanLiteral(false),
        Token::Colon,
        Token::NumberLiteral(1),
        Token::Elif,
        Token::BooleanLiteral(true),
        Token::Colon,
        Token::NumberLiteral(2),
        Token::Else,
        Token::Colon,
        Token::NumberLiteral(3),
        Token::Semicolon,
        Token::Print,
        Token::LeftParen,
        ident("y"),
        Token::RightParen,
        Token::Semicolon,
        Token::EOF,
    ]);
    assert!(matches!(status, ExecStatus::Completed));
    assert_eq!(out, vec!["2".to_string()]);
}

#[test]
fn typed_declaration_then_mismatched_assignment_aborts() {
    // var x: Int = 5; x = "s"; fails with a type mismatch
    let (status, _) = run(vec![
        Token::Var,
        ident("x"),
        Token::Colon,
        Token::IntType,
        Token::Assign,
        Token::NumberLiteral(5),
        Token::Semicolon,
        ident("x"),
        Token::Assign,
        Token::StringLiteral("s".to_string()),
        Token::Semicolon,
        Token::EOF,
    ]);
    assert!(matches!(status, ExecStatus::Aborted(RuntimeError::TypeMismatch(n)) if n == "x"));
}

#[test]
fn dynamic_declaration_accepts_any_reassignment() {
    // var x = 5; x = "s"; print(x); prints s
    let (status, out) = run(vec![
        Token::Var,
        ident("x"),
        Token::Assign,
        Token::NumberLiteral(5),
        Token::Semicolon,
        ident("x"),
        Token::Assign,
        Token::StringLiteral("s".to_string()),
        Token::Semicolon,
        Token::Print,
        Token::LeftParen,
        ident("x"),
        Token::RightParen,
        Token::Semicolon,
        Token::EOF,
    ]);
    assert!(matches!(status, ExecStatus::Completed));
    assert_eq!(out, vec!["s".to_string()]);
}

#[test]
fn assignment_to_undeclared_variable_aborts() {
    let (status, _) = run(vec![
        ident("x"),
        Token::Assign,
        Token::NumberLiteral(1),
        Token::Semicolon,
        Token::EOF,
    ]);
    assert!(matches!(status, ExecStatus::Aborted(RuntimeError::UndeclaredVariable(n)) if n == "x"));
}

#[test]
fn reading_an_undeclared_identifier_aborts() {
    let (status, out) = run(vec![
        Token::Print,
        Token::LeftParen,
        ident("zz"),
        Token::RightParen,
        Token::Semicolon,
        Token::EOF,
    ]);
    assert!(matches!(status, ExecStatus::Aborted(RuntimeError::UndeclaredVariable(n)) if n == "zz"));
    assert!(out.is_empty());
}

#[test]
fn ordering_strings_aborts_with_invalid_comparison() {
    let (status, _) = run(vec![
        Token::Print,
        Token::LeftParen,
        Token::StringLiteral("a".to_string()),
        Token::LessThan,
        Token::NumberLiteral(1),
        Token::RightParen,
        Token::Semicolon,
        Token::EOF,
    ]);
    assert!(matches!(status, ExecStatus::Aborted(RuntimeError::InvalidComparison)));
}

#[test]
fn error_aborts_the_rest_of_the_run() {
    // output printed before the failing statement is kept; nothing after
    let (status, out) = run(vec![
        Token::Print,
        Token::LeftParen,
        Token::NumberLiteral(1),
        Token::RightParen,
        Token::Semicolon,
        ident("x"),
        Token::Assign,
        Token::NumberLiteral(1),
        Token::Semicolon,
        Token::Print,
        Token::LeftParen,
        Token::NumberLiteral(2),
        Token::RightParen,
        Token::Semicolon,
        Token::EOF,
    ]);
    assert!(matches!(status, ExecStatus::Aborted(_)));
    assert_eq!(out, vec!["1".to_string()]);
}

#[test]
fn division_by_zero_prints_nil() {
    let (status, out) = run(vec![
        Token::Print,
        Token::LeftParen,
        Token::NumberLiteral(1),
        Token::Slash,
        Token::NumberLiteral(0),
        Token::RightParen,
        Token::Semicolon,
        Token::EOF,
    ]);
    assert!(matches!(status, ExecStatus::Completed));
    assert_eq!(out, vec!["nil".to_string()]);
}

#[test]
fn power_operator_evaluates() {
    let (status, out) = run(vec![
        Token::Print,
        Token::LeftParen,
        Token::NumberLiteral(2),
        Token::Pow,
        Token::NumberLiteral(10),
        Token::RightParen,
        Token::Semicolon,
        Token::EOF,
    ]);
    assert!(matches!(status, ExecStatus::Completed));
    assert_eq!(out, vec!["1024".to_string()]);
}

#[test]
fn not_negates_truthiness() {
    let (status, out) = run(vec![
        Token::Print,
        Token::LeftParen,
        Token::Not,
        Token::NumberLiteral(0),
        Token::RightParen,
        Token::Semicolon,
        Token::EOF,
    ]);
    assert!(matches!(status, ExecStatus::Completed));
    assert_eq!(out, vec!["true".to_string()]);
}

#[test]
fn blocks_share_the_single_scope() {
    // if true { var a = 1; } print(a); prints 1: a block opens no scope
    let (status, out) = run(vec![
        Token::If,
        Token::BooleanLiteral(true),
        Token::LeftBrace,
        Token::Var,
        ident("a"),
        Token::Assign,
        Token::NumberLiteral(1),
        Token::Semicolon,
        Token::RightBrace,
        Token::Print,
        Token::LeftParen,
        ident("a"),
        Token::RightParen,
        Token::Semicolon,
        Token::EOF,
    ]);
    assert!(matches!(status, ExecStatus::Completed));
    assert_eq!(out, vec!["1".to_string()]);
}

#[test]
fn if_without_else_skips_on_falsy() {
    let (status, out) = run(vec![
        Token::If,
        Token::NumberLiteral(0),
        Token::LeftBrace,
        Token::Print,
        Token::LeftParen,
        Token::NumberLiteral(1),
        Token::RightParen,
        Token::Semicolon,
        Token::RightBrace,
        Token::EOF,
    ]);
    assert!(matches!(status, ExecStatus::Completed));
    assert!(out.is_empty());
}

#[test]
fn increment_of_a_bool_typed_number_aborts() {
    // var x: Bool = 5; x++; the write-back violates the declared type
    let (status, _) = run(vec![
        Token::Var,
        ident("x"),
        Token::Colon,
        Token::BooleanType,
        Token::Assign,
        Token::NumberLiteral(5),
        Token::Semicolon,
        ident("x"),
        Token::Increment,
        Token::Semicolon,
        Token::EOF,
    ]);
    assert!(matches!(status, ExecStatus::Aborted(RuntimeError::TypeMismatch(n)) if n == "x"));
}

#[test]
fn increment_of_a_non_number_degrades_to_nil() {
    // var s = "a"; s++; assigns nil to s without error
    let (status, out) = run(vec![
        Token::Var,
        ident("s"),
        Token::Assign,
        Token::StringLiteral("a".to_string()),
        Token::Semicolon,
        ident("s"),
        Token::Increment,
        Token::Semicolon,
        Token::Print,
        Token::LeftParen,
        ident("s"),
        Token::RightParen,
        Token::Semicolon,
        Token::EOF,
    ]);
    assert!(matches!(status, ExecStatus::Completed));
    assert_eq!(out, vec!["nil".to_string()]);
}

#[test]
fn decrement_lowers_a_number_by_one() {
    let (status, out) = run(vec![
        Token::Var,
        ident("i"),
        Token::Assign,
        Token::NumberLiteral(5),
        Token::Semicolon,
        ident("i"),
        Token::Decrement,
        Token::Semicolon,
        Token::Print,
        Token::LeftParen,
        ident("i"),
        Token::RightParen,
        Token::Semicolon,
        Token::EOF,
    ]);
    assert!(matches!(status, ExecStatus::Completed));
    assert_eq!(out, vec!["4".to_string()]);
}

#[test]
fn an_endless_loop_reports_fuel_exhaustion() {
    let tokens = vec![
        Token::While,
        Token::BooleanLiteral(true),
        Token::LeftBrace,
        Token::RightBrace,
        Token::EOF,
    ];
    let mut parser = Parser::new(tokens);
    let statements = parser.parse().unwrap();
    let mut interpreter = Interpreter::new();
    let status = interpreter.interpret(&statements, 5);
    assert!(matches!(status, ExecStatus::OutOfFuel));
}

#[test]
fn string_equality_is_by_content() {
    let (status, out) = run(vec![
        Token::Print,
        Token::LeftParen,
        Token::StringLiteral("ab".to_string()),
        Token::EqualEqual,
        Token::StringLiteral("ab".to_string()),
        Token::RightParen,
        Token::Semicolon,
        Token::EOF,
    ]);
    assert!(matches!(status, ExecStatus::Completed));
    assert_eq!(out, vec!["true".to_string()]);
}

#[test]
fn printing_a_negative_result() {
    let (status, out) = run(vec![
        Token::Print,
        Token::LeftParen,
        Token::NumberLiteral(0),
        Token::Minus,
        Token::NumberLiteral(5),
        Token::RightParen,
        Token::Semicolon,
        Token::EOF,
    ]);
    assert!(matches!(status, ExecStatus::Completed));
    assert_eq!(out, vec!["-5".to_string()]);
}

#[test]
fn increment_expression_writes_back_and_yields_the_new_value() {
    // built directly: var x = 5; print(x++-like expression); print(x);
    let statements = vec![
        Statement::VariableDeclaration {
            name: "x".to_string(),
            value: Expression::NumberLiteral(5),
            value_type: None,
        },
        Statement::Print(Expression::Increment(Box::new(Expression::Identifier(
            "x".to_string(),
        )))),
        Statement::Print(Expression::Identifier("x".to_string())),
    ];
    let mut interpreter = Interpreter::new();
    let status = interpreter.interpret(&statements, FUEL);
    assert!(matches!(status, ExecStatus::Completed));
    assert_eq!(interpreter.output().clone(), vec!["6".to_string(), "6".to_string()]);
}

#[test]
fn increment_overflow_yields_nil_without_a_write() {
    let statements = vec![
        Statement::VariableDeclaration {
            name: "x".to_string(),
            value: Expression::NumberLiteral(i64::MAX),
            value_type: None,
        },
        Statement::Print(Expression::Increment(Box::new(Expression::Identifier(
            "x".to_string(),
        )))),
        Statement::Print(Expression::Identifier("x".to_string())),
    ];
    let mut interpreter = Interpreter::new();
    let status = interpreter.interpret(&statements, FUEL);
    assert!(matches!(status, ExecStatus::Completed));
    assert_eq!(
        interpreter.output().clone(),
        vec!["nil".to_string(), "9223372036854775807".to_string()]
    );
}

#[test]
fn both_operands_are_evaluated_eagerly() {
    // false && (x++ truthiness) still increments x: no short-circuit
    let statements = vec![
        Statement::VariableDeclaration {
            name: "x".to_string(),
            value: Expression::NumberLiteral(0),
            value_type: None,
        },
        Statement::Print(Expression::Binary {
            left: Box::new(Expression::BooleanLiteral(false)),
            operator: Operator::And,
            right: Box::new(Expression::Increment(Box::new(Expression::Identifier(
                "x".to_string(),
            )))),
        }),
        Statement::Print(Expression::Identifier("x".to_string())),
    ];
    let mut interpreter = Interpreter::new();
    let status = interpreter.interpret(&statements, FUEL);
    assert!(matches!(status, ExecStatus::Completed));
    assert_eq!(interpreter.output().clone(), vec!["false".to_string(), "1".to_string()]);
}

#[test]
fn nested_loops_count_within_the_fuel_bound() {
    // var i = 0; while i < 2 { var j = 0; while j < 2 { print(i); j++; } i++; }
    let (status, out) = run(vec![
        Token::Var,
        ident("i"),
        Token::Assign,
        Token::NumberLiteral(0),
        Token::Semicolon,
        Token::While,
        ident("i"),
        Token::LessThan,
        Token::NumberLiteral(2),
        Token::LeftBrace,
        Token::Var,
        ident("j"),
        Token::Assign,
        Token::NumberLiteral(0),
        Token::Semicolon,
        Token::While,
        ident("j"),
        Token::LessThan,
        Token::NumberLiteral(2),
        Token::LeftBrace,
        Token::Print,
        Token::LeftParen,
        ident("i"),
        Token::RightParen,
        Token::Semicolon,
        ident("j"),
        Token::Increment,
        Token::Semicolon,
        Token::RightBrace,
        ident("i"),
        Token::Increment,
        Token::Semicolon,
        Token::RightBrace,
        Token::EOF,
    ]);
    assert!(matches!(status, ExecStatus::Completed));
    assert_eq!(
        out,
        vec!["0".to_string(), "0".to_string(), "1".to_string(), "1".to_string()]
    );
}
