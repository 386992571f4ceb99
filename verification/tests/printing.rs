use luth_lang::ast::Token;
use luth_lang::interpreter::ExecStatus;
use luth_lang::interpreter::Interpreter;
use luth_lang::parser::Parser;
use luth_lang::printer::print_program;

fn ident(name: &str) -> Token {
    Token::Identifier(name.to_string())
}

// A program touching every printable statement and expression form.
fn sample_tokens() -> Vec<Token> {
    vec![
        // var x: Int = 2 + 3 * 4;
        Token::Var,
        ident("x"),
        Token::Colon,
        Token::IntType,
        Token::Assign,
        Token::NumberLiteral(2),
        Token::Plus,
        Token::NumberLiteral(3),
        Token::Star,
        Token::NumberLiteral(4),
        Token::Semicolon,
        // var y = if false: 1 elif true: 2 else: 3;
        Token::Var,
        ident("y"),
        Token::Assign,
        Token::If,
        Token::BooleanLiteral(false),
        Token::Colon,
        Token::NumberLiteral(1),
        Token::Elif,
        Token::BooleanLiteral(true),
        Token::Colon,
        Token::NumberLiteral(2),
        Token::Else,
        Token::Colon,
        Token::NumberLiteral(3),
        Token::Semicolon,
        // while x > 0 { print(!(x == y) && true); x--; }
        Token::While,
        ident("x"),
        Token::GreaterThan,
        Token::NumberLiteral(0),
        Token::LeftBrace,
        Token::Print,
        Token::LeftParen,
        Token::Not,
        Token::LeftParen,
        ident("x"),
        Token::EqualEqual,
        ident("y"),
        Token::RightParen,
        Token::And,
        Token::BooleanLiteral(true),
        Token::RightParen,
        Token::Semicolon,
        ident("x"),
        Token::Decrement,
        Token::Semicolon,
        Token::RightBrace,
        // if y < 3 { y = "done"; } else { y++; }
        Token::If,
        ident("y"),
        Token::LessThan,
        Token::NumberLiteral(3),
        Token::LeftBrace,
        ident("y"),
        Token::Assign,
        Token::StringLiteral("done".to_string()),
        Token::Semicolon,
        Token::RightBrace,
        Token::Else,
        Token::LeftBrace,
        ident("y"),
        Token::Increment,
        Token::Semicolon,
        Token::RightBrace,
        // print(y);
        Token::Print,
        Token::LeftParen,
        ident("y"),
        Token::RightParen,
        Token::Semicolon,
        Token::EOF,
    ]
}

#[test]
fn printed_form_reparses_to_a_stable_form() {
    let mut parser = Parser::new(sample_tokens());
    let stmts = parser.parse().unwrap();
    let printed = print_program(&stmts);
    let mut parser2 = Parser::new(printed.clone());
    let stmts2 = parser2.parse().unwrap();
    // a structurally equal tree prints to the very same tokens
    let printed2 = print_program(&stmts2);
    assert_eq!(printed2, printed);
}

#[test]
fn printed_form_behaves_identically() {
    let mut parser = Parser::new(sample_tokens());
    let stmts = parser.parse().unwrap();
    let mut interp1 = Interpreter::new();
    let status1 = interp1.interpret(&stmts, 1000);
    let printed = print_program(&stmts);
    let mut parser2 = Parser::new(printed);
    let stmts2 = parser2.parse().unwrap();
    let mut interp2 = Interpreter::new();
    let status2 = interp2.interpret(&stmts2, 1000);
    assert!(matches!(status1, ExecStatus::Completed));
    assert!(matches!(status2, ExecStatus::Completed));
    assert_eq!(interp1.output(), interp2.output());
}

#[test]
fn printing_a_plain_expression_statement() {
    // x = a && b; prints back with the expression parenthesized
    let tokens = vec![
        ident("x"),
        Token::Assign,
        ident("a"),
        Token::And,
        ident("b"),
        Token::Semicolon,
        Token::EOF,
    ];
    let mut parser = Parser::new(tokens);
    let stmts = parser.parse().unwrap();
    let printed = print_program(&stmts);
    assert_eq!(
        printed,
        vec![
            ident("x"),
            Token::Assign,
            Token::LeftParen,
            ident("a"),
            Token::And,
            ident("b"),
            Token::RightParen,
            Token::Semicolon,
            Token::EOF,
        ]
    );
}
