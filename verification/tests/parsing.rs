use luth_lang::ast::Expression;
use luth_lang::ast::Operator;
use luth_lang::ast::Statement;
use luth_lang::ast::Token;
use luth_lang::ast::Type;
use luth_lang::parser::Parser;

fn ident(name: &str) -> Token {
    Token::Identifier(name.to_string())
}

#[test]
fn parses_a_typed_declaration() {
    let tokens = vec![
        Token::Var,
        ident("x"),
        Token::Colon,
        Token::IntType,
        Token::Assign,
        Token::NumberLiteral(5),
        Token::Semicolon,
        Token::EOF,
    ];
    let mut parser = Parser::new(tokens);
    let stmts = parser.parse().unwrap();
    assert_eq!(stmts.len(), 1);
    assert!(matches!(
        &stmts[0],
        Statement::VariableDeclaration {
            name,
            value: Expression::NumberLiteral(5),
            value_type: Some(Type::Int),
        } if name == "x"
    ));
}

#[test]
fn parses_an_untyped_declaration() {
    let tokens = vec![
        Token::Var,
        ident("x"),
        Token::Assign,
        Token::StringLiteral("hi".to_string()),
        Token::Semicolon,
        Token::EOF,
    ];
    let mut parser = Parser::new(tokens);
    let stmts = parser.parse().unwrap();
    assert!(matches!(
        &stmts[0],
        Statement::VariableDeclaration { name, value: Expression::StringLiteral(s), value_type: None }
            if name == "x" && s == "hi"
    ));
}

#[test]
fn multiplicative_binds_tighter_than_additive() {
    // 2 + 3 * 4 parses as 2 + (3 * 4)
    let tokens = vec![
        Token::Print,
        Token::LeftParen,
        Token::NumberLiteral(2),
        Token::Plus,
        Token::NumberLiteral(3),
        Token::Star,
        Token::NumberLiteral(4),
        Token::RightParen,
        Token::Semicolon,
        Token::EOF,
    ];
    let mut parser = Parser::new(tokens);
    let stmts = parser.parse().unwrap();
    assert!(matches!(
        &stmts[0],
        Statement::Print(Expression::Binary { left, operator: Operator::Plus, right })
            if matches!(**left, Expression::NumberLiteral(2))
                && matches!(
                    &**right,
                    Expression::Binary {
                        left: l2,
                        operator: Operator::Star,
                        right: r2,
                    } if matches!(**l2, Expression::NumberLiteral(3))
                        && matches!(**r2, Expression::NumberLiteral(4))
                )
    ));
}

#[test]
fn logical_operators_fold_left() {
    // true && false || true parses as (true && false) || true
    let tokens = vec![
        Token::Print,
        Token::LeftParen,
        Token::BooleanLiteral(true),
        Token::And,
        Token::BooleanLiteral(false),
        Token::Or,
        Token::BooleanLiteral(true),
        Token::RightParen,
        Token::Semicolon,
        Token::EOF,
    ];
    let mut parser = Parser::new(tokens);
    let stmts = parser.parse().unwrap();
    assert!(matches!(
        &stmts[0],
        Statement::Print(Expression::Binary { left, operator: Operator::Or, right })
            if matches!(**left, Expression::Binary { operator: Operator::And, .. })
                && matches!(**right, Expression::BooleanLiteral(true))
    ));
}

#[test]
fn parentheses_override_precedence() {
    // (2 + 3) * 4 parses as a product whose left side is the sum
    let tokens = vec![
        Token::Print,
        Token::LeftParen,
        Token::LeftParen,
        Token::NumberLiteral(2),
        Token::Plus,
        Token::NumberLiteral(3),
        Token::RightParen,
        Token::Star,
        Token::NumberLiteral(4),
        Token::RightParen,
        Token::Semicolon,
        Token::EOF,
    ];
    let mut parser = Parser::new(tokens);
    let stmts = parser.parse().unwrap();
    assert!(matches!(
        &stmts[0],
        Statement::Print(Expression::Binary { left, operator: Operator::Star, .. })
            if matches!(**left, Expression::Binary { operator: Operator::Plus, .. })
    ));
}

#[test]
fn assignment_desugars_to_its_right_hand_side() {
    let tokens = vec![ident("x"), Token::Assign, Token::NumberLiteral(1), Token::Semicolon, Token::EOF];
    let mut parser = Parser::new(tokens);
    let stmts = parser.parse().unwrap();
    assert!(matches!(
        &stmts[0],
        Statement::VariableAssignment { name, value: Expression::NumberLiteral(1) } if name == "x"
    ));
}

#[test]
fn increment_statement_targets_the_identifier() {
    let tokens = vec![ident("i"), Token::Increment, Token::Semicolon, Token::EOF];
    let mut parser = Parser::new(tokens);
    let stmts = parser.parse().unwrap();
    assert!(matches!(
        &stmts[0],
        Statement::VariableAssignment { name, value: Expression::Increment(t) }
            if name == "i" && matches!(&**t, Expression::Identifier(n) if n == "i")
    ));
}

#[test]
fn while_body_is_a_block() {
    let tokens = vec![
        Token::While,
        Token::BooleanLiteral(true),
        Token::LeftBrace,
        ident("i"),
        Token::Increment,
        Token::Semicolon,
        Token::RightBrace,
        Token::EOF,
    ];
    let mut parser = Parser::new(tokens);
    let stmts = parser.parse().unwrap();
    assert!(matches!(
        &stmts[0],
        Statement::While { condition: Expression::BooleanLiteral(true), body }
            if matches!(&**body, Statement::Block(inner) if inner.len() == 1)
    ));
}

#[test]
fn if_with_else_takes_two_blocks() {
    let tokens = vec![
        Token::If,
        Token::BooleanLiteral(false),
        Token::LeftBrace,
        Token::RightBrace,
        Token::Else,
        Token::LeftBrace,
        Token::RightBrace,
        Token::EOF,
    ];
    let mut parser = Parser::new(tokens);
    let stmts = parser.parse().unwrap();
    assert!(matches!(
        &stmts[0],
        Statement::If { condition: Expression::BooleanLiteral(false), then_branch, else_branch: Some(e) }
            if matches!(&**then_branch, Statement::Block(_)) && matches!(&**e, Statement::Block(_))
    ));
}

#[test]
fn inline_if_without_else_defaults_to_nil() {
    let tokens = vec![
        Token::Var,
        ident("y"),
        Token::Assign,
        Token::If,
        Token::BooleanLiteral(false),
        Token::Colon,
        Token::NumberLiteral(1),
        Token::Semicolon,
        Token::EOF,
    ];
    let mut parser = Parser::new(tokens);
    let stmts = parser.parse().unwrap();
    assert!(matches!(
        &stmts[0],
        Statement::VariableDeclaration { value: Expression::InlineIf { elif_branches, else_branch, .. }, .. }
            if elif_branches.is_empty() && matches!(**else_branch, Expression::Nil)
    ));
}

#[test]
fn inline_if_collects_elif_arms_in_order() {
    let tokens = vec![
        Token::Var,
        ident("y"),
        Token::Assign,
        Token::If,
        Token::BooleanLiteral(false),
        Token::Colon,
        Token::NumberLiteral(1),
        Token::Elif,
        Token::BooleanLiteral(true),
        Token::Colon,
        Token::NumberLiteral(2),
        Token::Elif,
        Token::BooleanLiteral(false),
        Token::Colon,
        Token::NumberLiteral(3),
        Token::Else,
        Token::Colon,
        Token::NumberLiteral(4),
        Token::Semicolon,
        Token::EOF,
    ];
    let mut parser = Parser::new(tokens);
    let stmts = parser.parse().unwrap();
    assert!(matches!(
        &stmts[0],
        Statement::VariableDeclaration { value: Expression::InlineIf { elif_branches, else_branch, .. }, .. }
            if elif_branches.len() == 2
                && matches!(*elif_branches[0].1, Expression::NumberLiteral(2))
                && matches!(*elif_branches[1].1, Expression::NumberLiteral(3))
                && matches!(**else_branch, Expression::NumberLiteral(4))
    ));
}

#[test]
fn missing_semicolon_is_a_syntax_error() {
    let tokens = vec![Token::Var, ident("x"), Token::Assign, Token::NumberLiteral(1), Token::EOF];
    let mut parser = Parser::new(tokens);
    assert!(parser.parse().is_err());
}

#[test]
fn missing_closing_paren_is_a_syntax_error() {
    let tokens = vec![
        Token::Print,
        Token::LeftParen,
        Token::NumberLiteral(1),
        Token::Semicolon,
        Token::EOF,
    ];
    let mut parser = Parser::new(tokens);
    assert!(parser.parse().is_err());
}

#[test]
fn unexpected_token_is_a_syntax_error() {
    let tokens = vec![Token::Semicolon, Token::EOF];
    let mut parser = Parser::new(tokens);
    assert!(parser.parse().is_err());
}

#[test]
fn unterminated_block_is_a_syntax_error() {
    let tokens = vec![Token::While, Token::BooleanLiteral(true), Token::LeftBrace, Token::EOF];
    let mut parser = Parser::new(tokens);
    assert!(parser.parse().is_err());
}

#[test]
fn empty_input_parses_to_no_statements() {
    let mut parser = Parser::new(vec![Token::EOF]);
    assert_eq!(parser.parse().unwrap().len(), 0);
    let mut bare = Parser::new(vec![]);
    assert_eq!(bare.parse().unwrap().len(), 0);
}
