//! A printer from syntax trees back to token sequences, with the round-trip
//! theorem: re-parsing the printed form of any printable tree yields a
//! structurally equal tree.
//!
//! Printable trees are exactly the shapes the grammar can express: composite
//! expressions are printed fully parenthesized, `x++;` / `x--;` statements
//! keep their surface form, and an inline-if whose else branch is the
//! implicit `nil` is printed without an else arm. Increment, decrement and
//! `nil` nodes in any other position have no surface syntax, so such trees
//! are not printable.

use vstd::prelude::*;

use crate::ast::ExprView;
use crate::ast::Expression;
use crate::ast::Operator;
use crate::ast::Statement;
use crate::ast::StmtView;
use crate::ast::Token;
use crate::ast::Type;
use crate::ast::elif_views;
use crate::ast::expr_view;
use crate::ast::stmt_view;
use crate::ast::stmts_view;
use crate::parser::is_cmp_op;
use crate::parser::sp_block;
use crate::parser::sp_block_items;
use crate::parser::sp_comparison;
use crate::parser::sp_comparison_rest;
use crate::parser::sp_elifs;
use crate::parser::sp_expression;
use crate::parser::sp_factor;
use crate::parser::sp_factor_rest;
use crate::parser::sp_if;
use crate::parser::sp_inline_if;
use crate::parser::sp_logical;
use crate::parser::sp_logical_rest;
use crate::parser::sp_parse;
use crate::parser::sp_primary;
use crate::parser::sp_print;
use crate::parser::sp_statement;
use crate::parser::sp_term;
use crate::parser::sp_term_rest;
use crate::parser::sp_type;
use crate::parser::sp_unary;
use crate::parser::sp_var_assign;
use crate::parser::sp_var_decl;
use crate::parser::sp_var_decl_tail;
use crate::parser::sp_while;
use crate::parser::is_factor_op;
use crate::parser::is_logical_op;
use crate::parser::is_term_op;
use crate::parser::sp_operator;
use crate::parser::tok_at;

verus! {

/// The token spelling a binary operator; the unary `!` and the `=` marker
/// have no binary spelling.
pub open spec fn op_token(op: Operator) -> Option<Token> {
    match op {
        Operator::Plus => Some(Token::Plus),
        Operator::Minus => Some(Token::Minus),
        Operator::Star => Some(Token::Star),
        Operator::Slash => Some(Token::Slash),
        Operator::Percent => Some(Token::Percent),
        Operator::Pow => Some(Token::Pow),
        Operator::And => Some(Token::And),
        Operator::Or => Some(Token::Or),
        Operator::EqualEqual => Some(Token::EqualEqual),
        Operator::NotEqual => Some(Token::NotEqual),
        Operator::LessThan => Some(Token::LessThan),
        Operator::LessThanEqual => Some(Token::LessThanEqual),
        Operator::GreaterThan => Some(Token::GreaterThan),
        Operator::GreaterThanEqual => Some(Token::GreaterThanEqual),
        Operator::Not => None,
        Operator::Assign => None,
    }
}

/// The token naming a primitive type.
pub open spec fn type_token(t: Type) -> Token {
    match t {
        Type::String => Token::StringType,
        Type::Int => Token::IntType,
        Type::Boolean => Token::BooleanType,
    }
}

/// An expression the grammar can spell: no bare increment, decrement or
/// `nil` node, binary nodes only with binary operators.
pub open spec fn printable_expr(e: Expression) -> bool
    decreases e,
    via printable_expr_decreases
{
    match e {
        Expression::StringLiteral(_) => true,
        Expression::NumberLiteral(_) => true,
        Expression::BooleanLiteral(_) => true,
        Expression::Identifier(_) => true,
        Expression::Binary { left, operator, right } => op_token(operator) is Some
            && printable_expr(*left) && printable_expr(*right),
        Expression::Unary { operator, right } => operator == Operator::Not && printable_expr(
            *right,
        ),
        Expression::Increment(_) => false,
        Expression::Decrement(_) => false,
        Expression::InlineIf { condition, then_branch, elif_branches, else_branch } =>
            printable_expr(*condition) && printable_expr(*then_branch) && printable_elifs(
            elif_branches@,
        ) && (*else_branch matches Expression::Nil || printable_expr(*else_branch)),
        Expression::Nil => false,
    }
}

#[via_fn]
proof fn printable_expr_decreases(e: Expression) {
    match e {
        Expression::InlineIf { condition, then_branch, elif_branches, else_branch } => {
            assert(decreases_to!(e => elif_branches));
            assert(decreases_to!(elif_branches => elif_branches@));
        },
        _ => {},
    }
}

pub open spec fn printable_elifs(es: Seq<(Box<Expression>, Box<Expression>)>) -> bool
    decreases es,
    via printable_elifs_decreases
{
    if es.len() == 0 {
        true
    } else {
        printable_expr(*es[0].0) && printable_expr(*es[0].1) && printable_elifs(es.drop_first())
    }
}

#[via_fn]
proof fn printable_elifs_decreases(es: Seq<(Box<Expression>, Box<Expression>)>) {
    if es.len() > 0 {
        assert(decreases_to!(es => es[0]));
        assert(decreases_to!(es[0] => *es[0].0));
        assert(decreases_to!(es[0] => *es[0].1));
        assert(es.drop_first() == es.subrange(1, es.len() as int));
        assert(decreases_to!(es => es.subrange(1, es.len() as int)));
    }
}

/// The printed form of an expression: literals and identifiers as their one
/// token, every composite wrapped in parentheses.
pub open spec fn pp_expr(e: Expression) -> Seq<Token>
    decreases e,
    via pp_expr_decreases
{
    match e {
        Expression::StringLiteral(s) => seq![Token::StringLiteral(s)],
        Expression::NumberLiteral(n) => seq![Token::NumberLiteral(n)],
        Expression::BooleanLiteral(b) => seq![Token::BooleanLiteral(b)],
        Expression::Identifier(s) => seq![Token::Identifier(s)],
        Expression::Binary { left, operator, right } => seq![Token::LeftParen] + pp_expr(*left)
            + seq![op_token(operator)->0] + pp_expr(*right) + seq![Token::RightParen],
        Expression::Unary { operator, right } => seq![Token::LeftParen, Token::Not] + pp_expr(
            *right,
        ) + seq![Token::RightParen],
        Expression::Increment(_) => Seq::empty(),
        Expression::Decrement(_) => Seq::empty(),
        Expression::InlineIf { condition, then_branch, elif_branches, else_branch } => seq![
            Token::LeftParen,
            Token::If,
        ] + pp_expr(*condition) + seq![Token::Colon] + pp_expr(*then_branch) + pp_elifs(
            elif_branches@,
        ) + (match *else_branch {
            Expression::Nil => Seq::<Token>::empty(),
            _ => seq![Token::Else, Token::Colon] + pp_expr(*else_branch),
        }) + seq![Token::RightParen],
        Expression::Nil => Seq::empty(),
    }
}

#[via_fn]
proof fn pp_expr_decreases(e: Expression) {
    match e {
        Expression::InlineIf { condition, then_branch, elif_branches, else_branch } => {
            assert(decreases_to!(e => elif_branches));
            assert(decreases_to!(elif_branches => elif_branches@));
        },
        _ => {},
    }
}

/// The printed elif arms, in order.
pub open spec fn pp_elifs(es: Seq<(Box<Expression>, Box<Expression>)>) -> Seq<Token>
    decreases es,
    via pp_elifs_decreases
{
    if es.len() == 0 {
        Seq::empty()
    } else {
        seq![Token::Elif] + pp_expr(*es[0].0) + seq![Token::Colon] + pp_expr(*es[0].1) + pp_elifs(
            es.drop_first(),
        )
    }
}

#[via_fn]
proof fn pp_elifs_decreases(es: Seq<(Box<Expression>, Box<Expression>)>) {
    if es.len() > 0 {
        assert(decreases_to!(es => es[0]));
        assert(decreases_to!(es[0] => *es[0].0));
        assert(decreases_to!(es[0] => *es[0].1));
        assert(es.drop_first() == es.subrange(1, es.len() as int));
        assert(decreases_to!(es => es.subrange(1, es.len() as int)));
    }
}

/// A statement the grammar can spell. An increment or decrement value is
/// printable only in its own statement form (`x++;`), targeting the assigned
/// name; the branches of `if` and `while` must be blocks, as the parser
/// builds them; a bare block has no statement syntax of its own (blocks
/// appear only as branches and bodies).
pub open spec fn printable_stmt(s: Statement) -> bool
    decreases s,
    via printable_stmt_decreases
{
    match s {
        Statement::VariableDeclaration { name, value, value_type } => printable_expr(value),
        Statement::VariableAssignment { name, value } => match value {
            Expression::Increment(t) => *t matches Expression::Identifier(n) && n@ == name@,
            Expression::Decrement(t) => *t matches Expression::Identifier(n) && n@ == name@,
            _ => printable_expr(value),
        },
        Statement::Print(e) => printable_expr(e),
        Statement::If { condition, then_branch, else_branch } => printable_expr(condition) && (
        *then_branch matches Statement::Block(_)) && printable_stmt(*then_branch) && (
        match else_branch {
            Some(b) => *b matches Statement::Block(_) && printable_stmt(*b),
            None => true,
        }),
        Statement::While { condition, body } => printable_expr(condition) && (*body
            matches Statement::Block(_)) && printable_stmt(*body),
        Statement::Block(ss) => printable_stmts(ss@),
    }
}

#[via_fn]
proof fn printable_stmt_decreases(s: Statement) {
    match s {
        Statement::Block(ss) => {
            assert(decreases_to!(s => ss));
            assert(decreases_to!(ss => ss@));
        },
        _ => {},
    }
}

/// Statements a block may hold: each printable, none itself a bare block.
pub open spec fn printable_stmts(ss: Seq<Statement>) -> bool
    decreases ss,
    via printable_stmts_decreases
{
    if ss.len() == 0 {
        true
    } else {
        printable_stmt(ss[0]) && !(ss[0] matches Statement::Block(_)) && printable_stmts(
            ss.drop_first(),
        )
    }
}

#[via_fn]
proof fn printable_stmts_decreases(ss: Seq<Statement>) {
    if ss.len() > 0 {
        assert(ss.drop_first() == ss.subrange(1, ss.len() as int));
        assert(decreases_to!(ss => ss.subrange(1, ss.len() as int)));
    }
}

/// The printed form of a statement; a block prints as its braced body.
pub open spec fn pp_stmt(s: Statement) -> Seq<Token>
    decreases s,
    via pp_stmt_decreases
{
    match s {
        Statement::VariableDeclaration { name, value, value_type } => seq![
            Token::Var,
            Token::Identifier(name),
        ] + (match value_type {
            Some(t) => seq![Token::Colon, type_token(t)],
            None => Seq::<Token>::empty(),
        }) + seq![Token::Assign] + pp_expr(value) + seq![Token::Semicolon],
        Statement::VariableAssignment { name, value } => match value {
            Expression::Increment(_) => seq![
                Token::Identifier(name),
                Token::Increment,
                Token::Semicolon,
            ],
            Expression::Decrement(_) => seq![
                Token::Identifier(name),
                Token::Decrement,
                Token::Semicolon,
            ],
            _ => seq![Token::Identifier(name), Token::Assign] + pp_expr(value) + seq![
                Token::Semicolon,
            ],
        },
        Statement::Print(e) => seq![Token::Print, Token::LeftParen] + pp_expr(e) + seq![
            Token::RightParen,
            Token::Semicolon,
        ],
        Statement::If { condition, then_branch, else_branch } => seq![Token::If] + pp_expr(
            condition,
        ) + pp_stmt(*then_branch) + (match else_branch {
            Some(b) => seq![Token::Else] + pp_stmt(*b),
            None => Seq::<Token>::empty(),
        }),
        Statement::While { condition, body } => seq![Token::While] + pp_expr(condition) + pp_stmt(
            *body,
        ),
        Statement::Block(ss) => seq![Token::LeftBrace] + pp_stmts(ss@) + seq![Token::RightBrace],
    }
}

#[via_fn]
proof fn pp_stmt_decreases(s: Statement) {
    match s {
        Statement::Block(ss) => {
            assert(decreases_to!(s => ss));
            assert(decreases_to!(ss => ss@));
        },
        _ => {},
    }
}

/// The printed statements of a block body, in order.
pub open spec fn pp_stmts(ss: Seq<Statement>) -> Seq<Token>
    decreases ss,
    via pp_stmts_decreases
{
    if ss.len() == 0 {
        Seq::empty()
    } else {
        pp_stmt(ss[0]) + pp_stmts(ss.drop_first())
    }
}

#[via_fn]
proof fn pp_stmts_decreases(ss: Seq<Statement>) {
    if ss.len() > 0 {
        assert(decreases_to!(ss => ss[0]));
        assert(ss.drop_first() == ss.subrange(1, ss.len() as int));
        assert(decreases_to!(ss => ss.subrange(1, ss.len() as int)));
    }
}

/// A whole printed program: the statements followed by the end marker.
pub open spec fn pp_program(ss: Seq<Statement>) -> Seq<Token> {
    pp_stmts(ss) + seq![Token::EOF]
}

/// The tokens `p` stand in `t` starting at `i`.
pub open spec fn tokens_at(t: Seq<Token>, i: int, p: Seq<Token>) -> bool {
    0 <= i && i + p.len() <= t.len() && (forall|k: int| 0 <= k < p.len() ==> t[i + k] == p[k])
}

/// A window over a concatenation splits into windows over the parts.
proof fn lemma_tokens_at_split(t: Seq<Token>, i: int, a: Seq<Token>, b: Seq<Token>)
    requires
        tokens_at(t, i, a + b),
    ensures
        tokens_at(t, i, a),
        tokens_at(t, i + a.len(), b),
{
    assert forall|k: int| 0 <= k < a.len() implies t[i + k] == a[k] by {
        assert((a + b)[k] == a[k]);
        assert(t[i + k] == (a + b)[k]);
    }
    assert forall|k: int| 0 <= k < b.len() implies t[i + a.len() + k] == b[k] by {
        assert((a + b)[a.len() + k] == b[k]);
        assert(t[i + (a.len() + k)] == (a + b)[a.len() + k]);
    }
}

/// The token under a window position.
proof fn lemma_window_token(t: Seq<Token>, i: int, p: Seq<Token>, k: int)
    requires
        tokens_at(t, i, p),
        0 <= k < p.len(),
    ensures
        tok_at(t, i + k) == p[k],
{
    assert(t[i + k] == p[k]);
}

/// Lift a parsed atom through the operator levels: each level's trailing
/// loop stops as soon as the following token is not in its operator class.
proof fn lemma_levels(t: Seq<Token>, i: int, v: ExprView, j: int)
    requires
        sp_logical(t, i) == Some::<(ExprView, int)>((v, j)),
        i < j,
    ensures
        !is_factor_op(tok_at(t, j)) ==> sp_factor(t, i) == Some::<(ExprView, int)>(
            (v, j),
        ),
        !is_factor_op(tok_at(t, j)) && !is_term_op(tok_at(t, j)) ==> sp_term(t, i)
            == Some::<(ExprView, int)>((v, j)),
        !is_factor_op(tok_at(t, j)) && !is_term_op(tok_at(t, j)) && !is_cmp_op(tok_at(t, j))
            ==> sp_comparison(t, i) == Some::<(ExprView, int)>((v, j)),
{
    if !is_factor_op(tok_at(t, j)) {
        assert(sp_factor_rest(t, v, j) == Some::<(ExprView, int)>((v, j)));
        assert(sp_factor(t, i) == Some::<(ExprView, int)>((v, j)));
        if !is_term_op(tok_at(t, j)) {
            assert(sp_term_rest(t, v, j) == Some::<(ExprView, int)>((v, j)));
            assert(sp_term(t, i) == Some::<(ExprView, int)>((v, j)));
            if !is_cmp_op(tok_at(t, j)) {
                assert(sp_comparison_rest(t, v, j) == Some::<(ExprView, int)>(
                    (v, j),
                ));
                assert(sp_comparison(t, i) == Some::<(ExprView, int)>((v, j)));
            }
        }
    }
}

/// A token that continues no operator chain: an expression ends before it at
/// every precedence level.
pub open spec fn expr_stopper(tok: Token) -> bool {
    !is_logical_op(tok) && !is_factor_op(tok) && !is_term_op(tok) && !is_cmp_op(tok)
}

/// Assemble a parenthesized binary expression from its parsed parts: the
/// chain below the operator's level keeps the left atom, the operator's own
/// level folds the two sides, and everything above passes the result along
/// to the closing parenthesis.
#[verifier::rlimit(100)]
#[verifier::spinoff_prover]
proof fn lemma_binary_chain(
    t: Seq<Token>,
    i: int,
    operator: Operator,
    opt: Token,
    lv: ExprView,
    rv: ExprView,
    iop: int,
    irp: int,
)
    requires
        op_token(operator) == Some(opt),
        tok_at(t, i) == Token::LeftParen,
        tok_at(t, iop) == opt,
        tok_at(t, irp) == Token::RightParen,
        sp_unary(t, i + 1) == Some::<(ExprView, int)>((lv, iop)),
        i + 1 < iop,
        sp_unary(t, iop + 1) == Some::<(ExprView, int)>((rv, irp)),
        iop + 1 < irp,
        !(tok_at(t, i + 1) matches Token::If),
    ensures
        sp_primary(t, i) == Some::<(ExprView, int)>(
            (
                ExprView::Binary { left: Box::new(lv), operator, right: Box::new(rv) },
                irp + 1,
            ),
        ),
        sp_unary(t, i) == Some::<(ExprView, int)>(
            (
                ExprView::Binary { left: Box::new(lv), operator, right: Box::new(rv) },
                irp + 1,
            ),
        ),
{
    let il = i + 1;
    let ir = iop + 1;
    let binv = ExprView::Binary { left: Box::new(lv), operator, right: Box::new(rv) };
    assert(sp_operator(opt) == Some(operator));
    if is_logical_op(opt) {
        assert(sp_logical_rest(t, binv, irp) == Some::<(ExprView, int)>((binv, irp)));
        assert(sp_logical_rest(t, lv, iop) == sp_logical_rest(t, binv, irp));
        assert(sp_logical(t, il) == Some::<(ExprView, int)>((binv, irp)));
        lemma_levels(t, il, binv, irp);
        assert(sp_comparison(t, il) == Some::<(ExprView, int)>((binv, irp)));
    } else if is_factor_op(opt) {
        assert(sp_logical_rest(t, lv, iop) == Some::<(ExprView, int)>((lv, iop)));
        assert(sp_logical(t, il) == Some::<(ExprView, int)>((lv, iop)));
        assert(sp_logical_rest(t, rv, irp) == Some::<(ExprView, int)>((rv, irp)));
        assert(sp_logical(t, ir) == Some::<(ExprView, int)>((rv, irp)));
        assert(sp_factor_rest(t, binv, irp) == Some::<(ExprView, int)>((binv, irp)));
        assert(sp_factor_rest(t, lv, iop) == sp_factor_rest(t, binv, irp));
        assert(sp_factor(t, il) == Some::<(ExprView, int)>((binv, irp)));
        assert(sp_term_rest(t, binv, irp) == Some::<(ExprView, int)>((binv, irp)));
        assert(sp_term(t, il) == Some::<(ExprView, int)>((binv, irp)));
        assert(sp_comparison_rest(t, binv, irp) == Some::<(ExprView, int)>((binv, irp)));
        assert(sp_comparison(t, il) == Some::<(ExprView, int)>((binv, irp)));
    } else if is_term_op(opt) {
        assert(sp_logical_rest(t, lv, iop) == Some::<(ExprView, int)>((lv, iop)));
        assert(sp_logical(t, il) == Some::<(ExprView, int)>((lv, iop)));
        assert(sp_factor_rest(t, lv, iop) == Some::<(ExprView, int)>((lv, iop)));
        assert(sp_factor(t, il) == Some::<(ExprView, int)>((lv, iop)));
        assert(sp_logical_rest(t, rv, irp) == Some::<(ExprView, int)>((rv, irp)));
        assert(sp_logical(t, ir) == Some::<(ExprView, int)>((rv, irp)));
        assert(sp_factor_rest(t, rv, irp) == Some::<(ExprView, int)>((rv, irp)));
        assert(sp_factor(t, ir) == Some::<(ExprView, int)>((rv, irp)));
        assert(sp_term_rest(t, binv, irp) == Some::<(ExprView, int)>((binv, irp)));
        assert(sp_term_rest(t, lv, iop) == sp_term_rest(t, binv, irp));
        assert(sp_term(t, il) == Some::<(ExprView, int)>((binv, irp)));
        assert(sp_comparison_rest(t, binv, irp) == Some::<(ExprView, int)>((binv, irp)));
        assert(sp_comparison(t, il) == Some::<(ExprView, int)>((binv, irp)));
    } else {
        assert(is_cmp_op(opt));
        assert(sp_logical_rest(t, lv, iop) == Some::<(ExprView, int)>((lv, iop)));
        assert(sp_logical(t, il) == Some::<(ExprView, int)>((lv, iop)));
        assert(sp_factor_rest(t, lv, iop) == Some::<(ExprView, int)>((lv, iop)));
        assert(sp_factor(t, il) == Some::<(ExprView, int)>((lv, iop)));
        assert(sp_term_rest(t, lv, iop) == Some::<(ExprView, int)>((lv, iop)));
        assert(sp_term(t, il) == Some::<(ExprView, int)>((lv, iop)));
        assert(sp_logical_rest(t, rv, irp) == Some::<(ExprView, int)>((rv, irp)));
        assert(sp_logical(t, ir) == Some::<(ExprView, int)>((rv, irp)));
        assert(sp_factor_rest(t, rv, irp) == Some::<(ExprView, int)>((rv, irp)));
        assert(sp_factor(t, ir) == Some::<(ExprView, int)>((rv, irp)));
        assert(sp_term_rest(t, rv, irp) == Some::<(ExprView, int)>((rv, irp)));
        assert(sp_term(t, ir) == Some::<(ExprView, int)>((rv, irp)));
        assert(sp_comparison_rest(t, binv, irp) == Some::<(ExprView, int)>((binv, irp)));
        assert(sp_comparison_rest(t, lv, iop) == sp_comparison_rest(t, binv, irp));
        assert(sp_comparison(t, il) == Some::<(ExprView, int)>((binv, irp)));
    }
    assert(sp_expression(t, il) == Some::<(ExprView, int)>((binv, irp)));
    assert(sp_primary(t, i) == Some::<(ExprView, int)>((binv, irp + 1)));
    assert(sp_unary(t, i) == Some::<(ExprView, int)>((binv, irp + 1)));
}

/// An atom followed by a stopper is a whole expression.
proof fn lemma_atom_expression(t: Seq<Token>, i: int, v: ExprView, j: int)
    requires
        sp_unary(t, i) == Some::<(ExprView, int)>((v, j)),
        i < j,
        !(tok_at(t, i) matches Token::If),
        expr_stopper(tok_at(t, j)),
    ensures
        sp_expression(t, i) == Some::<(ExprView, int)>((v, j)),
{
    assert(sp_logical_rest(t, v, j) == Some::<(ExprView, int)>((v, j)));
    assert(sp_logical(t, i) == Some::<(ExprView, int)>((v, j)));
    lemma_levels(t, i, v, j);
}

/// Re-parsing a printed expression, wherever it stands in a token sequence,
/// yields that expression and stops exactly at its end: the printed form is
/// an atom (one token, or one parenthesized group), so `primary` and `unary`
/// accept it whole.
#[verifier::rlimit(100)]
#[verifier::spinoff_prover]
proof fn lemma_pp_expr_parses(e: Expression, t: Seq<Token>, i: int)
    requires
        printable_expr(e),
        tokens_at(t, i, pp_expr(e)),
    ensures
        pp_expr(e).len() >= 1,
        !(pp_expr(e)[0] matches Token::If),
        !(pp_expr(e)[0] matches Token::Not),
        sp_primary(t, i) == Some::<(ExprView, int)>((expr_view(e), i + pp_expr(e).len())),
        sp_unary(t, i) == Some::<(ExprView, int)>((expr_view(e), i + pp_expr(e).len())),
    decreases e, 1int,
{
    let p = pp_expr(e);
    let j = i + p.len();
    match e {
        Expression::StringLiteral(s) => {
            lemma_window_token(t, i, p, 0);
            assert(tok_at(t, i) == Token::StringLiteral(s));
        },
        Expression::NumberLiteral(n) => {
            lemma_window_token(t, i, p, 0);
            assert(tok_at(t, i) == Token::NumberLiteral(n));
        },
        Expression::BooleanLiteral(b) => {
            lemma_window_token(t, i, p, 0);
            assert(tok_at(t, i) == Token::BooleanLiteral(b));
        },
        Expression::Identifier(s) => {
            lemma_window_token(t, i, p, 0);
            assert(tok_at(t, i) == Token::Identifier(s));
        },
        Expression::Binary { left, operator, right } => {
            lemma_pp_binary_parses(e, t, i);
        },
        Expression::Unary { operator, right } => {
            lemma_pp_unary_parses(e, t, i);
        },
        Expression::InlineIf { condition, then_branch, elif_branches, else_branch } => {
            lemma_pp_inline_if_parses(e, t, i);
        },
        Expression::Increment(_) => {
            assert(false);
        },
        Expression::Decrement(_) => {
            assert(false);
        },
        Expression::Nil => {
            assert(false);
        },
    }
}



/// The parenthesized binary case of the round-trip argument, in its own step.
#[verifier::rlimit(100)]
#[verifier::spinoff_prover]
proof fn lemma_pp_binary_parses(e: Expression, t: Seq<Token>, i: int)
    requires
        printable_expr(e),
        tokens_at(t, i, pp_expr(e)),
        e matches Expression::Binary { .. },
    ensures
        pp_expr(e).len() >= 1,
        !(pp_expr(e)[0] matches Token::If),
        !(pp_expr(e)[0] matches Token::Not),
        sp_primary(t, i) == Some::<(ExprView, int)>((expr_view(e), i + pp_expr(e).len())),
        sp_unary(t, i) == Some::<(ExprView, int)>((expr_view(e), i + pp_expr(e).len())),
    decreases e, 0int,
{
    let p = pp_expr(e);
    let j = i + p.len();
    match e {
        Expression::Binary { left, operator, right } => {
            let opt = op_token(operator)->0;
            let pl = pp_expr(*left);
            let pr = pp_expr(*right);
            let s1 = seq![Token::LeftParen];
            let sop = seq![opt];
            let s2 = seq![Token::RightParen];
            assert(p == s1 + pl + sop + pr + s2);
            lemma_tokens_at_split(t, i, s1 + pl + sop + pr, s2);
            lemma_tokens_at_split(t, i, s1 + pl + sop, pr);
            lemma_tokens_at_split(t, i, s1 + pl, sop);
            lemma_tokens_at_split(t, i, s1, pl);
            let il = i + 1;
            let iop = il + pl.len();
            let ir = iop + 1;
            let irp = ir + pr.len();
            lemma_window_token(t, i, s1, 0);
            lemma_window_token(t, iop, sop, 0);
            lemma_window_token(t, irp, s2, 0);
            lemma_pp_expr_parses(*left, t, il);
            lemma_pp_expr_parses(*right, t, ir);
            lemma_window_token(t, il, pl, 0);
            let lv = expr_view(*left);
            let rv = expr_view(*right);
            lemma_binary_chain(t, i, operator, opt, lv, rv, iop, irp);
            assert(expr_view(e) == ExprView::Binary {
                left: Box::new(lv),
                operator,
                right: Box::new(rv),
            });
            assert(irp + 1 == j);
        },
        _ => {},
    }
}


/// The parenthesized unary case of the round-trip argument, in its own step.
#[verifier::rlimit(100)]
#[verifier::spinoff_prover]
proof fn lemma_pp_unary_parses(e: Expression, t: Seq<Token>, i: int)
    requires
        printable_expr(e),
        tokens_at(t, i, pp_expr(e)),
        e matches Expression::Unary { .. },
    ensures
        pp_expr(e).len() >= 1,
        !(pp_expr(e)[0] matches Token::If),
        !(pp_expr(e)[0] matches Token::Not),
        sp_primary(t, i) == Some::<(ExprView, int)>((expr_view(e), i + pp_expr(e).len())),
        sp_unary(t, i) == Some::<(ExprView, int)>((expr_view(e), i + pp_expr(e).len())),
    decreases e, 0int,
{
    let p = pp_expr(e);
    let j = i + p.len();
    match e {
        Expression::Unary { operator, right } => {
            let pr = pp_expr(*right);
            let s1 = seq![Token::LeftParen, Token::Not];
            let s2 = seq![Token::RightParen];
            assert(p == s1 + pr + s2);
            lemma_tokens_at_split(t, i, s1 + pr, s2);
            lemma_tokens_at_split(t, i, s1, pr);
            let ir = i + 2;
            let irp = ir + pr.len();
            lemma_window_token(t, i, s1, 0);
            lemma_window_token(t, i, s1, 1);
            lemma_window_token(t, irp, s2, 0);
            assert(tok_at(t, i) == Token::LeftParen);
            assert(tok_at(t, i + 1) == Token::Not);
            assert(tok_at(t, irp) == Token::RightParen);
            lemma_pp_expr_parses(*right, t, ir);
            let rv = expr_view(*right);
            let uv = ExprView::Unary { operator: Operator::Not, right: Box::new(rv) };
            assert(sp_unary(t, ir) == Some::<(ExprView, int)>((rv, irp)));
            assert(sp_unary(t, i + 1) == Some::<(ExprView, int)>((uv, irp)));
            lemma_atom_expression(t, i + 1, uv, irp);
            assert(sp_expression(t, i + 1) == Some::<(ExprView, int)>((uv, irp)));
            assert(sp_primary(t, i) == Some::<(ExprView, int)>((uv, j)));
            assert(sp_unary(t, i) == Some::<(ExprView, int)>((uv, j)));
        },
        _ => {},
    }
}

/// The inline-if case of the round-trip argument, in its own step.
#[verifier::rlimit(100)]
#[verifier::spinoff_prover]
proof fn lemma_pp_inline_if_parses(e: Expression, t: Seq<Token>, i: int)
    requires
        printable_expr(e),
        tokens_at(t, i, pp_expr(e)),
        e matches Expression::InlineIf { .. },
    ensures
        pp_expr(e).len() >= 1,
        !(pp_expr(e)[0] matches Token::If),
        !(pp_expr(e)[0] matches Token::Not),
        sp_primary(t, i) == Some::<(ExprView, int)>((expr_view(e), i + pp_expr(e).len())),
        sp_unary(t, i) == Some::<(ExprView, int)>((expr_view(e), i + pp_expr(e).len())),
    decreases e, 0int,
{
    let p = pp_expr(e);
    let j = i + p.len();
    match e {
        Expression::InlineIf { condition, then_branch, elif_branches, else_branch } => {
            let pc = pp_expr(*condition);
            let pt = pp_expr(*then_branch);
            let pe = pp_elifs(elif_branches@);
            let pels = (match *else_branch {
                Expression::Nil => Seq::<Token>::empty(),
                _ => seq![Token::Else, Token::Colon] + pp_expr(*else_branch),
            });
            let s1 = seq![Token::LeftParen, Token::If];
            let scol = seq![Token::Colon];
            let s2 = seq![Token::RightParen];
            assert(p == s1 + pc + scol + pt + pe + pels + s2);
            lemma_tokens_at_split(t, i, s1 + pc + scol + pt + pe + pels, s2);
            lemma_tokens_at_split(t, i, s1 + pc + scol + pt + pe, pels);
            lemma_tokens_at_split(t, i, s1 + pc + scol + pt, pe);
            lemma_tokens_at_split(t, i, s1 + pc + scol, pt);
            lemma_tokens_at_split(t, i, s1 + pc, scol);
            lemma_tokens_at_split(t, i, s1, pc);
            let ic = i + 2;
            let icol = ic + pc.len();
            let it = icol + 1;
            let ie = it + pt.len();
            let iels = ie + pe.len();
            let irp = iels + pels.len();
            lemma_window_token(t, i, s1, 0);
            lemma_window_token(t, i, s1, 1);
            lemma_window_token(t, icol, scol, 0);
            lemma_window_token(t, irp, s2, 0);
            assert(tok_at(t, i) == Token::LeftParen);
            assert(tok_at(t, i + 1) == Token::If);
            assert(tok_at(t, icol) == Token::Colon);
            assert(tok_at(t, irp) == Token::RightParen);
            lemma_pp_expr_parses(*condition, t, ic);
            let cv = expr_view(*condition);
            lemma_atom_expression(t, ic, cv, icol);
            lemma_pp_expr_parses(*then_branch, t, it);
            let tv = expr_view(*then_branch);
            // the token after the then branch stops it: the first elif, the
            // else arm, or the closing parenthesis
            assert(pe.len() > 0 ==> pe[0] == Token::Elif) by {
                if elif_branches@.len() > 0 {
                    let h = elif_branches@[0];
                    assert(pe == seq![Token::Elif] + pp_expr(*h.0) + seq![Token::Colon] + pp_expr(
                        *h.1,
                    ) + pp_elifs(elif_branches@.drop_first()));
                    assert(pe[0] == (seq![Token::Elif] + pp_expr(*h.0))[0]);
                }
            }
            assert(pels.len() > 0 ==> pels[0] == Token::Else) by {
                if !(*else_branch matches Expression::Nil) {
                    assert(pels[0] == (seq![Token::Else, Token::Colon] + pp_expr(*else_branch))[0]);
                }
            }
            let follow_t = tok_at(t, ie);
            assert(follow_t == Token::Elif || follow_t == Token::Else || follow_t
                == Token::RightParen) by {
                if pe.len() > 0 {
                    lemma_window_token(t, ie, pe, 0);
                } else if pels.len() > 0 {
                    lemma_window_token(t, iels, pels, 0);
                }
            }
            lemma_atom_expression(t, it, tv, ie);
            // the elif arms
            assert(decreases_to!(e => elif_branches));
            assert(decreases_to!(elif_branches => elif_branches@));
            let follow_e = tok_at(t, iels);
            assert(follow_e == Token::Else || follow_e == Token::RightParen) by {
                if pels.len() > 0 {
                    lemma_window_token(t, iels, pels, 0);
                }
            }
            lemma_pp_elifs_parses(elif_branches@, t, ie);
            let ev = elif_views(elif_branches@);
            assert(sp_elifs(t, ie) == Some::<(Seq<(ExprView, ExprView)>, int)>((ev, iels)));
            let elsv = expr_view(*else_branch);
            let iifv = ExprView::InlineIf {
                condition: Box::new(cv),
                then_branch: Box::new(tv),
                elif_branches: ev,
                else_branch: Box::new(elsv),
            };
            match *else_branch {
                Expression::Nil => {
                    assert(tok_at(t, iels) == Token::RightParen);
                    assert(sp_inline_if(t, i + 1) == Some::<(ExprView, int)>((iifv, iels)));
                },
                _ => {
                    lemma_tokens_at_split(
                        t,
                        iels,
                        seq![Token::Else, Token::Colon],
                        pp_expr(*else_branch),
                    );
                    lemma_window_token(t, iels, seq![Token::Else, Token::Colon], 0);
                    lemma_window_token(t, iels, seq![Token::Else, Token::Colon], 1);
                    assert(tok_at(t, iels) == Token::Else);
                    assert(tok_at(t, iels + 1) == Token::Colon);
                    lemma_pp_expr_parses(*else_branch, t, iels + 2);
                    lemma_atom_expression(t, iels + 2, elsv, irp);
                    assert(sp_inline_if(t, i + 1) == Some::<(ExprView, int)>((iifv, irp)));
                },
            }
            assert(sp_expression(t, i + 1) == Some::<(ExprView, int)>((iifv, irp)));
            assert(sp_primary(t, i) == Some::<(ExprView, int)>((iifv, j)));
            assert(sp_unary(t, i) == Some::<(ExprView, int)>((iifv, j)));
            assert(expr_view(e) == iifv);
        },
        _ => {},
    }
}

/// Re-parsing printed elif arms yields them in order, stopping at the
/// following `else` or closing parenthesis.
proof fn lemma_pp_elifs_parses(
    es: Seq<(Box<Expression>, Box<Expression>)>,
    t: Seq<Token>,
    i: int,
)
    requires
        printable_elifs(es),
        tokens_at(t, i, pp_elifs(es)),
        tok_at(t, i + pp_elifs(es).len()) == Token::Else || tok_at(t, i + pp_elifs(es).len())
            == Token::RightParen,
    ensures
        sp_elifs(t, i) == Some::<(Seq<(ExprView, ExprView)>, int)>(
            (elif_views(es), i + pp_elifs(es).len()),
        ),
    decreases es,
{
    let p = pp_elifs(es);
    let j = i + p.len();
    if es.len() == 0 {
        assert(elif_views(es) =~= Seq::<(ExprView, ExprView)>::empty());
        assert(sp_elifs(t, i) == Some::<(Seq<(ExprView, ExprView)>, int)>((Seq::empty(), i)));
    } else {
        let h = es[0];
        let rest = es.drop_first();
        let pc = pp_expr(*h.0);
        let pb = pp_expr(*h.1);
        let prest = pp_elifs(rest);
        let s1 = seq![Token::Elif];
        let scol = seq![Token::Colon];
        assert(p == s1 + pc + scol + pb + prest);
        lemma_tokens_at_split(t, i, s1 + pc + scol + pb, prest);
        lemma_tokens_at_split(t, i, s1 + pc + scol, pb);
        lemma_tokens_at_split(t, i, s1 + pc, scol);
        lemma_tokens_at_split(t, i, s1, pc);
        let ic = i + 1;
        let icol = ic + pc.len();
        let ib = icol + 1;
        let irest = ib + pb.len();
        lemma_window_token(t, i, s1, 0);
        lemma_window_token(t, icol, scol, 0);
        assert(tok_at(t, i) == Token::Elif);
        assert(tok_at(t, icol) == Token::Colon);
        assert(decreases_to!(es => es[0]));
        assert(decreases_to!(es[0] => *es[0].0));
        assert(decreases_to!(es[0] => *es[0].1));
        lemma_pp_expr_parses(*h.0, t, ic);
        let cv = expr_view(*h.0);
        lemma_atom_expression(t, ic, cv, icol);
        lemma_pp_expr_parses(*h.1, t, ib);
        let bv = expr_view(*h.1);
        assert(prest.len() > 0 ==> prest[0] == Token::Elif) by {
            if rest.len() > 0 {
                let h2 = rest[0];
                assert(prest == seq![Token::Elif] + pp_expr(*h2.0) + seq![Token::Colon] + pp_expr(
                    *h2.1,
                ) + pp_elifs(rest.drop_first()));
                assert(prest[0] == (seq![Token::Elif] + pp_expr(*h2.0))[0]);
            }
        }
        assert(tok_at(t, irest) == Token::Elif || tok_at(t, irest) == Token::Else || tok_at(
            t,
            irest,
        ) == Token::RightParen) by {
            if prest.len() > 0 {
                lemma_window_token(t, irest, prest, 0);
            }
        }
        lemma_atom_expression(t, ib, bv, irest);
        assert(es.drop_first() == es.subrange(1, es.len() as int));
        assert(decreases_to!(es => es.subrange(1, es.len() as int)));
        lemma_pp_elifs_parses(rest, t, irest);
        assert(sp_elifs(t, i) == Some::<(Seq<(ExprView, ExprView)>, int)>(
            (seq![(cv, bv)] + elif_views(rest), j),
        ));
        crate::ast::lemma_elif_views_index(es);
        crate::ast::lemma_elif_views_index(rest);
        assert(elif_views(es) =~= seq![(cv, bv)] + elif_views(rest)) by {
            assert(elif_views(es).len() == es.len());
            assert forall|k: int| 0 <= k < es.len() implies elif_views(es)[k] == (seq![(cv, bv)]
                + elif_views(rest))[k] by {
                if k > 0 {
                    assert(rest[k - 1] == es[k]);
                    assert(elif_views(rest)[k - 1] == (expr_view(*es[k].0), expr_view(*es[k].1)));
                }
            }
        }
    }
}

/// Tokens that can begin a statement.
pub open spec fn stmt_start(tok: Token) -> bool {
    match tok {
        Token::Var | Token::Identifier(_) | Token::Print | Token::If | Token::While => true,
        _ => false,
    }
}

/// A printed statement begins with a statement-start token.
proof fn lemma_pp_stmt_first_token(s: Statement)
    requires
        printable_stmt(s),
        !(s matches Statement::Block(_)),
    ensures
        pp_stmt(s).len() >= 1,
        stmt_start(pp_stmt(s)[0]),
{
    match s {
        Statement::VariableDeclaration { name, value, value_type } => {
            let s1 = seq![Token::Var, Token::Identifier(name)];
            assert(pp_stmt(s)[0] == s1[0]);
        },
        Statement::VariableAssignment { name, value } => {
            match value {
                Expression::Increment(_) => {},
                Expression::Decrement(_) => {},
                _ => {
                    let s1 = seq![Token::Identifier(name), Token::Assign];
                    assert(pp_stmt(s)[0] == s1[0]);
                },
            }
        },
        Statement::Print(e) => {
            let s1 = seq![Token::Print, Token::LeftParen];
            assert(pp_stmt(s)[0] == s1[0]);
        },
        Statement::If { condition, then_branch, else_branch } => {
            let s1 = seq![Token::If];
            assert(pp_stmt(s)[0] == s1[0]);
        },
        Statement::While { condition, body } => {
            let s1 = seq![Token::While];
            assert(pp_stmt(s)[0] == s1[0]);
        },
        Statement::Block(_) => {},
    }
}

/// A printed block begins with its opening brace.
proof fn lemma_pp_block_first_token(s: Statement)
    requires
        s matches Statement::Block(_),
    ensures
        pp_stmt(s).len() >= 2,
        pp_stmt(s)[0] == Token::LeftBrace,
{
    match s {
        Statement::Block(ss) => {
            let s1 = seq![Token::LeftBrace];
            assert(pp_stmt(s) == s1 + pp_stmts(ss@) + seq![Token::RightBrace]);
            assert(pp_stmt(s)[0] == (s1 + pp_stmts(ss@))[0]);
        },
        _ => {},
    }
}

/// Re-parsing a printed statement yields that statement, provided the next
/// token is not an `else` (which would be taken as this statement's own else
/// arm); inside blocks and programs the next token always begins a statement
/// or closes a block, never an `else`.
#[verifier::rlimit(100)]
#[verifier::spinoff_prover]
proof fn lemma_pp_stmt_parses(s: Statement, t: Seq<Token>, i: int)
    requires
        printable_stmt(s),
        !(s matches Statement::Block(_)),
        tokens_at(t, i, pp_stmt(s)),
        tok_at(t, i + pp_stmt(s).len()) != Token::Else,
    ensures
        sp_statement(t, i) == Some::<(StmtView, int)>((stmt_view(s), i + pp_stmt(s).len())),
    decreases s, 1int,
{
    let p = pp_stmt(s);
    let j = i + p.len();
    lemma_pp_stmt_first_token(s);
    match s {
        Statement::VariableDeclaration { name, value, value_type } => {
            let s1 = seq![Token::Var, Token::Identifier(name)];
            let tyo = (match value_type {
                Some(ty) => seq![Token::Colon, type_token(ty)],
                None => Seq::<Token>::empty(),
            });
            let sa = seq![Token::Assign];
            let pv = pp_expr(value);
            let ssem = seq![Token::Semicolon];
            assert(p == s1 + tyo + sa + pv + ssem);
            lemma_tokens_at_split(t, i, s1 + tyo + sa + pv, ssem);
            lemma_tokens_at_split(t, i, s1 + tyo + sa, pv);
            lemma_tokens_at_split(t, i, s1 + tyo, sa);
            lemma_tokens_at_split(t, i, s1, tyo);
            let itail = i + 2 + tyo.len();
            let iv = itail + 1;
            let isem = iv + pv.len();
            lemma_window_token(t, i, s1, 0);
            lemma_window_token(t, i, s1, 1);
            lemma_window_token(t, itail, sa, 0);
            lemma_window_token(t, isem, ssem, 0);
            assert(tok_at(t, i) == Token::Var);
            assert(tok_at(t, i + 1) == Token::Identifier(name));
            assert(tok_at(t, itail) == Token::Assign);
            assert(tok_at(t, isem) == Token::Semicolon);
            lemma_pp_expr_parses(value, t, iv);
            lemma_atom_expression(t, iv, expr_view(value), isem);
            match value_type {
                Some(ty) => {
                    lemma_window_token(t, i + 2, tyo, 0);
                    lemma_window_token(t, i + 2, tyo, 1);
                    assert(tok_at(t, i + 2) == Token::Colon);
                    assert(tok_at(t, i + 3) == type_token(ty));
                    assert(sp_type(type_token(ty)) == Some(ty));
                    assert(sp_var_decl_tail(t, name@, Some(ty), i + 4) == Some::<(StmtView, int)>(
                        (stmt_view(s), j),
                    ));
                },
                None => {
                    assert(itail == i + 2);
                    assert(tok_at(t, i + 2) != Token::Colon);
                    assert(sp_var_decl_tail(t, name@, None, i + 2) == Some::<(StmtView, int)>(
                        (stmt_view(s), j),
                    ));
                },
            }
            assert(sp_var_decl(t, i) == Some::<(StmtView, int)>((stmt_view(s), j)));
            assert(sp_statement(t, i) == Some::<(StmtView, int)>((stmt_view(s), j)));
        },
        Statement::VariableAssignment { name, value } => {
            match value {
                Expression::Increment(target) => {
                    lemma_window_token(t, i, p, 0);
                    lemma_window_token(t, i, p, 1);
                    lemma_window_token(t, i, p, 2);
                    assert(tok_at(t, i) == Token::Identifier(name));
                    assert(tok_at(t, i + 1) == Token::Increment);
                    assert(tok_at(t, i + 2) == Token::Semicolon);
                    assert(expr_view(*target) == ExprView::Identifier(name@));
                    assert(expr_view(value) == ExprView::Increment(
                        Box::new(expr_view(*target)),
                    ));
                    assert(stmt_view(s) == StmtView::VariableAssignment {
                        name: name@,
                        value: ExprView::Increment(Box::new(ExprView::Identifier(name@))),
                    });
                    assert(sp_var_assign(t, i) == Some::<(StmtView, int)>((stmt_view(s), j)));
                },
                Expression::Decrement(target) => {
                    lemma_window_token(t, i, p, 0);
                    lemma_window_token(t, i, p, 1);
                    lemma_window_token(t, i, p, 2);
                    assert(tok_at(t, i) == Token::Identifier(name));
                    assert(tok_at(t, i + 1) == Token::Decrement);
                    assert(tok_at(t, i + 2) == Token::Semicolon);
                    assert(expr_view(*target) == ExprView::Identifier(name@));
                    assert(expr_view(value) == ExprView::Decrement(
                        Box::new(expr_view(*target)),
                    ));
                    assert(stmt_view(s) == StmtView::VariableAssignment {
                        name: name@,
                        value: ExprView::Decrement(Box::new(ExprView::Identifier(name@))),
                    });
                    assert(sp_var_assign(t, i) == Some::<(StmtView, int)>((stmt_view(s), j)));
                },
                _ => {
                    let s1 = seq![Token::Identifier(name), Token::Assign];
                    let pv = pp_expr(value);
                    let ssem = seq![Token::Semicolon];
                    assert(p == s1 + pv + ssem);
                    lemma_tokens_at_split(t, i, s1 + pv, ssem);
                    lemma_tokens_at_split(t, i, s1, pv);
                    let iv = i + 2;
                    let isem = iv + pv.len();
                    lemma_window_token(t, i, s1, 0);
                    lemma_window_token(t, i, s1, 1);
                    lemma_window_token(t, isem, ssem, 0);
                    assert(tok_at(t, i) == Token::Identifier(name));
                    assert(tok_at(t, i + 1) == Token::Assign);
                    assert(tok_at(t, isem) == Token::Semicolon);
                    lemma_pp_expr_parses(value, t, iv);
                    lemma_atom_expression(t, iv, expr_view(value), isem);
                    assert(sp_var_assign(t, i) == Some::<(StmtView, int)>((stmt_view(s), j)));
                },
            }
            assert(sp_statement(t, i) == Some::<(StmtView, int)>((stmt_view(s), j)));
        },
        Statement::Print(e) => {
            let s1 = seq![Token::Print, Token::LeftParen];
            let pv = pp_expr(e);
            let s2 = seq![Token::RightParen, Token::Semicolon];
            assert(p == s1 + pv + s2);
            lemma_tokens_at_split(t, i, s1 + pv, s2);
            lemma_tokens_at_split(t, i, s1, pv);
            let iv = i + 2;
            let irp = iv + pv.len();
            lemma_window_token(t, i, s1, 0);
            lemma_window_token(t, i, s1, 1);
            lemma_window_token(t, irp, s2, 0);
            lemma_window_token(t, irp, s2, 1);
            assert(tok_at(t, i) == Token::Print);
            assert(tok_at(t, i + 1) == Token::LeftParen);
            assert(tok_at(t, irp) == Token::RightParen);
            assert(tok_at(t, irp + 1) == Token::Semicolon);
            lemma_pp_expr_parses(e, t, iv);
            lemma_atom_expression(t, iv, expr_view(e), irp);
            assert(sp_print(t, i) == Some::<(StmtView, int)>((stmt_view(s), j)));
            assert(sp_statement(t, i) == Some::<(StmtView, int)>((stmt_view(s), j)));
        },
        Statement::If { condition, then_branch, else_branch } => {
            let s1 = seq![Token::If];
            let pc = pp_expr(condition);
            let pt = pp_stmt(*then_branch);
            let pelse = (match else_branch {
                Some(b) => seq![Token::Else] + pp_stmt(*b),
                None => Seq::<Token>::empty(),
            });
            assert(p == s1 + pc + pt + pelse);
            lemma_tokens_at_split(t, i, s1 + pc + pt, pelse);
            lemma_tokens_at_split(t, i, s1 + pc, pt);
            lemma_tokens_at_split(t, i, s1, pc);
            let ic = i + 1;
            let it = ic + pc.len();
            let iels = it + pt.len();
            lemma_window_token(t, i, s1, 0);
            assert(tok_at(t, i) == Token::If);
            lemma_pp_block_first_token(*then_branch);
            lemma_window_token(t, it, pt, 0);
            assert(tok_at(t, it) == Token::LeftBrace);
            lemma_pp_expr_parses(condition, t, ic);
            lemma_atom_expression(t, ic, expr_view(condition), it);
            lemma_pp_block_parses(*then_branch, t, it);
            match else_branch {
                Some(b) => {
                    lemma_tokens_at_split(t, iels, seq![Token::Else], pp_stmt(*b));
                    lemma_window_token(t, iels, seq![Token::Else], 0);
                    assert(tok_at(t, iels) == Token::Else);
                    lemma_pp_block_parses(*b, t, iels + 1);
                    assert(sp_if(t, i) == Some::<(StmtView, int)>((stmt_view(s), j)));
                },
                None => {
                    assert(iels == j);
                    assert(tok_at(t, iels) != Token::Else);
                    assert(sp_if(t, i) == Some::<(StmtView, int)>((stmt_view(s), j)));
                },
            }
            assert(sp_statement(t, i) == Some::<(StmtView, int)>((stmt_view(s), j)));
        },
        Statement::While { condition, body } => {
            let s1 = seq![Token::While];
            let pc = pp_expr(condition);
            let pb = pp_stmt(*body);
            assert(p == s1 + pc + pb);
            lemma_tokens_at_split(t, i, s1 + pc, pb);
            lemma_tokens_at_split(t, i, s1, pc);
            let ic = i + 1;
            let ib = ic + pc.len();
            lemma_window_token(t, i, s1, 0);
            assert(tok_at(t, i) == Token::While);
            lemma_pp_block_first_token(*body);
            lemma_window_token(t, ib, pb, 0);
            assert(tok_at(t, ib) == Token::LeftBrace);
            lemma_pp_expr_parses(condition, t, ic);
            lemma_atom_expression(t, ic, expr_view(condition), ib);
            lemma_pp_block_parses(*body, t, ib);
            assert(sp_while(t, i) == Some::<(StmtView, int)>((stmt_view(s), j)));
            assert(sp_statement(t, i) == Some::<(StmtView, int)>((stmt_view(s), j)));
        },
        Statement::Block(_) => {
            assert(false);
        },
    }
}

/// Re-parsing a printed block yields that block.
#[verifier::rlimit(100)]
#[verifier::spinoff_prover]
proof fn lemma_pp_block_parses(s: Statement, t: Seq<Token>, i: int)
    requires
        printable_stmt(s),
        s matches Statement::Block(_),
        tokens_at(t, i, pp_stmt(s)),
    ensures
        sp_block(t, i) == Some::<(StmtView, int)>((stmt_view(s), i + pp_stmt(s).len())),
    decreases s, 0int,
{
    let p = pp_stmt(s);
    let j = i + p.len();
    match s {
        Statement::Block(ss) => {
            let s1 = seq![Token::LeftBrace];
            let pb = pp_stmts(ss@);
            let s2 = seq![Token::RightBrace];
            assert(p == s1 + pb + s2);
            lemma_tokens_at_split(t, i, s1 + pb, s2);
            lemma_tokens_at_split(t, i, s1, pb);
            lemma_window_token(t, i, s1, 0);
            lemma_window_token(t, i + 1 + pb.len(), s2, 0);
            assert(tok_at(t, i) == Token::LeftBrace);
            assert(tok_at(t, i + 1 + pb.len()) == Token::RightBrace);
            assert(decreases_to!(s => ss));
            assert(decreases_to!(ss => ss@));
            lemma_pp_stmts_parses(ss@, t, i + 1);
            assert(sp_block(t, i) == Some::<(StmtView, int)>((stmt_view(s), j)));
        },
        _ => {
            assert(false);
        },
    }
}

/// Re-parsing the printed statements of a block body yields them in order,
/// consuming the closing brace.
#[verifier::rlimit(100)]
#[verifier::spinoff_prover]
proof fn lemma_pp_stmts_parses(ss: Seq<Statement>, t: Seq<Token>, i: int)
    requires
        printable_stmts(ss),
        tokens_at(t, i, pp_stmts(ss)),
        tok_at(t, i + pp_stmts(ss).len()) == Token::RightBrace,
    ensures
        sp_block_items(t, i) == Some::<(Seq<StmtView>, int)>(
            (stmts_view(ss), i + pp_stmts(ss).len() + 1),
        ),
    decreases ss, 2int,
{
    let p = pp_stmts(ss);
    let j = i + p.len();
    if ss.len() == 0 {
        assert(tok_at(t, i) == Token::RightBrace);
        assert(stmts_view(ss) =~= Seq::<StmtView>::empty());
        assert(sp_block_items(t, i) == Some::<(Seq<StmtView>, int)>((Seq::empty(), i + 1)));
    } else {
        let h = ss[0];
        let rest = ss.drop_first();
        let ph = pp_stmt(h);
        let prest = pp_stmts(rest);
        assert(p == ph + prest);
        lemma_tokens_at_split(t, i, ph, prest);
        let irest = i + ph.len();
        assert(decreases_to!(ss => ss[0]));
        lemma_pp_stmt_first_token(h);
        assert(printable_stmts(rest));
        assert(prest.len() > 0 ==> stmt_start(prest[0])) by {
            if rest.len() > 0 {
                assert(printable_stmt(rest[0]) && !(rest[0] matches Statement::Block(_)));
                assert(prest == pp_stmt(rest[0]) + pp_stmts(rest.drop_first()));
                lemma_pp_stmt_first_token(rest[0]);
                assert(prest[0] == pp_stmt(rest[0])[0]);
            }
        }
        assert(tok_at(t, irest) == Token::RightBrace || stmt_start(tok_at(t, irest))) by {
            if prest.len() > 0 {
                lemma_window_token(t, irest, prest, 0);
            }
        }
        assert(tok_at(t, irest) != Token::Else);
        lemma_pp_stmt_parses(h, t, i);
        assert(ss.drop_first() == ss.subrange(1, ss.len() as int));
        assert(decreases_to!(ss => ss.subrange(1, ss.len() as int)));
        lemma_pp_stmts_parses(rest, t, irest);
        lemma_window_token(t, i, ph, 0);
        assert(tok_at(t, i) == ph[0]);
        assert(!(tok_at(t, i) matches Token::RightBrace) && tok_at(t, i) != Token::EOF);
        assert(sp_block_items(t, i) == Some::<(Seq<StmtView>, int)>(
            (seq![stmt_view(h)] + stmts_view(rest), j + 1),
        ));
        crate::ast::lemma_stmts_view_index(ss);
        crate::ast::lemma_stmts_view_index(rest);
        assert(stmts_view(ss) =~= seq![stmt_view(h)] + stmts_view(rest)) by {
            assert forall|k: int| 0 <= k < ss.len() implies stmts_view(ss)[k] == (seq![
                stmt_view(h),
            ] + stmts_view(rest))[k] by {
                if k > 0 {
                    assert(rest[k - 1] == ss[k]);
                }
            }
        }
    }
}

/// Re-parsing a printed statement sequence, ended by the end marker, yields
/// the same sequence.
#[verifier::rlimit(100)]
#[verifier::spinoff_prover]
proof fn lemma_pp_program_parses(ss: Seq<Statement>, t: Seq<Token>, i: int)
    requires
        printable_stmts(ss),
        tokens_at(t, i, pp_stmts(ss)),
        tok_at(t, i + pp_stmts(ss).len()) == Token::EOF,
    ensures
        sp_parse(t, i) == Some::<(Seq<StmtView>, int)>((stmts_view(ss), i + pp_stmts(ss).len())),
    decreases ss,
{
    let p = pp_stmts(ss);
    let j = i + p.len();
    if ss.len() == 0 {
        assert(tok_at(t, i) == Token::EOF);
        assert(stmts_view(ss) =~= Seq::<StmtView>::empty());
    } else {
        let h = ss[0];
        let rest = ss.drop_first();
        let ph = pp_stmt(h);
        let prest = pp_stmts(rest);
        assert(p == ph + prest);
        lemma_tokens_at_split(t, i, ph, prest);
        let irest = i + ph.len();
        assert(decreases_to!(ss => ss[0]));
        lemma_pp_stmt_first_token(h);
        assert(printable_stmts(rest));
        assert(prest.len() > 0 ==> stmt_start(prest[0])) by {
            if rest.len() > 0 {
                assert(printable_stmt(rest[0]) && !(rest[0] matches Statement::Block(_)));
                assert(prest == pp_stmt(rest[0]) + pp_stmts(rest.drop_first()));
                lemma_pp_stmt_first_token(rest[0]);
                assert(prest[0] == pp_stmt(rest[0])[0]);
            }
        }
        assert(tok_at(t, irest) == Token::EOF || stmt_start(tok_at(t, irest))) by {
            if prest.len() > 0 {
                lemma_window_token(t, irest, prest, 0);
            }
        }
        assert(tok_at(t, irest) != Token::Else);
        lemma_pp_stmt_parses(h, t, i);
        assert(ss.drop_first() == ss.subrange(1, ss.len() as int));
        assert(decreases_to!(ss => ss.subrange(1, ss.len() as int)));
        lemma_pp_program_parses(rest, t, irest);
        lemma_window_token(t, i, ph, 0);
        assert(tok_at(t, i) == ph[0]);
        assert(tok_at(t, i) != Token::EOF);
        assert(sp_parse(t, i) == Some::<(Seq<StmtView>, int)>(
            (seq![stmt_view(h)] + stmts_view(rest), j),
        ));
        crate::ast::lemma_stmts_view_index(ss);
        crate::ast::lemma_stmts_view_index(rest);
        assert(stmts_view(ss) =~= seq![stmt_view(h)] + stmts_view(rest)) by {
            assert forall|k: int| 0 <= k < ss.len() implies stmts_view(ss)[k] == (seq![
                stmt_view(h),
            ] + stmts_view(rest))[k] by {
                if k > 0 {
                    assert(rest[k - 1] == ss[k]);
                }
            }
        }
    }
}

/// The token spelling an operator, for the printable ones.
fn op_token_of(op: Operator) -> (r: Token)
    requires
        op_token(op) is Some,
    ensures
        r == op_token(op)->0,
{
    match op {
        Operator::Plus => Token::Plus,
        Operator::Minus => Token::Minus,
        Operator::Star => Token::Star,
        Operator::Slash => Token::Slash,
        Operator::Percent => Token::Percent,
        Operator::Pow => Token::Pow,
        Operator::And => Token::And,
        Operator::Or => Token::Or,
        Operator::EqualEqual => Token::EqualEqual,
        Operator::NotEqual => Token::NotEqual,
        Operator::LessThan => Token::LessThan,
        Operator::LessThanEqual => Token::LessThanEqual,
        Operator::GreaterThan => Token::GreaterThan,
        Operator::GreaterThanEqual => Token::GreaterThanEqual,
        Operator::Not => Token::Not,
        Operator::Assign => Token::Assign,
    }
}

impl Expression {
    /// Print this (printable) expression back to tokens.
    #[verifier::loop_isolation(false)]
    pub fn to_tokens(&self) -> (r: Vec<Token>)
        requires
            printable_expr(*self),
        ensures
            r@ == pp_expr(*self),
        decreases self,
    {
        match self {
            Expression::StringLiteral(s) => {
                let mut v: Vec<Token> = Vec::new();
                v.push(Token::StringLiteral(s.clone()));
                proof {
                    assert(v@ =~= pp_expr(*self));
                }
                v
            },
            Expression::NumberLiteral(n) => {
                let mut v: Vec<Token> = Vec::new();
                v.push(Token::NumberLiteral(*n));
                proof {
                    assert(v@ =~= pp_expr(*self));
                }
                v
            },
            Expression::BooleanLiteral(b) => {
                let mut v: Vec<Token> = Vec::new();
                v.push(Token::BooleanLiteral(*b));
                proof {
                    assert(v@ =~= pp_expr(*self));
                }
                v
            },
            Expression::Identifier(s) => {
                let mut v: Vec<Token> = Vec::new();
                v.push(Token::Identifier(s.clone()));
                proof {
                    assert(v@ =~= pp_expr(*self));
                }
                v
            },
            Expression::Binary { left, operator, right } => {
                let mut v: Vec<Token> = Vec::new();
                v.push(Token::LeftParen);
                let mut lt = (&**left).to_tokens();
                v.append(&mut lt);
                v.push(op_token_of(*operator));
                let mut rt = (&**right).to_tokens();
                v.append(&mut rt);
                v.push(Token::RightParen);
                proof {
                    assert(v@ =~= pp_expr(*self));
                }
                v
            },
            Expression::Unary { operator, right } => {
                let mut v: Vec<Token> = Vec::new();
                v.push(Token::LeftParen);
                v.push(Token::Not);
                let mut rt = (&**right).to_tokens();
                v.append(&mut rt);
                v.push(Token::RightParen);
                proof {
                    assert(v@ =~= pp_expr(*self));
                }
                v
            },
            Expression::Increment(_) => {
                proof {
                    assert(false);
                }
                Vec::new()
            },
            Expression::Decrement(_) => {
                proof {
                    assert(false);
                }
                Vec::new()
            },
            Expression::InlineIf { condition, then_branch, elif_branches, else_branch } => {
                let mut v: Vec<Token> = Vec::new();
                v.push(Token::LeftParen);
                v.push(Token::If);
                let mut ct = (&**condition).to_tokens();
                v.append(&mut ct);
                v.push(Token::Colon);
                let mut tt = (&**then_branch).to_tokens();
                v.append(&mut tt);
                let ghost head = v@;
                proof {
                    assert(elif_branches@.skip(0) =~= elif_branches@);
                }
                let n: usize = elif_branches.len();
                let mut k: usize = 0;
                while k < n
                    invariant
                        k <= n,
                        n == elif_branches@.len(),
                        printable_elifs(elif_branches@.skip(k as int)),
                        v@ + pp_elifs(elif_branches@.skip(k as int)) =~= head + pp_elifs(
                            elif_branches@,
                        ),
                    decreases n - k,
                {
                    proof {
                        assert(decreases_to!(*self => (*self)->elif_branches));
                        assert(decreases_to!(*elif_branches => elif_branches@));
                        assert(decreases_to!(elif_branches@ => elif_branches@[k as int]));
                        assert(decreases_to!(
                            elif_branches@[k as int] => *elif_branches@[k as int].0));
                        assert(decreases_to!(
                            elif_branches@[k as int] => *elif_branches@[k as int].1));
                        assert(elif_branches@.skip(k as int)[0] == elif_branches@[k as int]);
                    }
                    let ghost v0 = v@;
                    v.push(Token::Elif);
                    let mut et = (&*elif_branches[k].0).to_tokens();
                    v.append(&mut et);
                    v.push(Token::Colon);
                    let mut bt = (&*elif_branches[k].1).to_tokens();
                    v.append(&mut bt);
                    proof {
                        assert(elif_branches@.skip(k as int).drop_first() =~= elif_branches@.skip(
                            k as int + 1,
                        ));
                        assert(pp_elifs(elif_branches@.skip(k as int)) =~= seq![Token::Elif]
                            + pp_expr(*elif_branches@[k as int].0) + seq![Token::Colon] + pp_expr(
                            *elif_branches@[k as int].1,
                        ) + pp_elifs(elif_branches@.skip(k as int + 1)));
                        assert(v@ =~= v0 + seq![Token::Elif] + pp_expr(
                            *elif_branches@[k as int].0,
                        ) + seq![Token::Colon] + pp_expr(*elif_branches@[k as int].1));
                        assert(v@ + pp_elifs(elif_branches@.skip(k as int + 1)) =~= head
                            + pp_elifs(elif_branches@));
                    }
                    k = k + 1;
                }
                proof {
                    assert(elif_branches@.skip(n as int) =~= Seq::<
                        (Box<Expression>, Box<Expression>),
                    >::empty());
                    assert(v@ =~= head + pp_elifs(elif_branches@));
                }
                match &**else_branch {
                    Expression::Nil => {},
                    _ => {
                        v.push(Token::Else);
                        v.push(Token::Colon);
                        let mut et = (&**else_branch).to_tokens();
                        v.append(&mut et);
                    },
                }
                v.push(Token::RightParen);
                proof {
                    assert(v@ =~= pp_expr(*self));
                }
                v
            },
            Expression::Nil => {
                proof {
                    assert(false);
                }
                Vec::new()
            },
        }
    }
}

impl Statement {
    /// Print this (printable) statement back to tokens.
    #[verifier::loop_isolation(false)]
    pub fn to_tokens(&self) -> (r: Vec<Token>)
        requires
            printable_stmt(*self),
        ensures
            r@ == pp_stmt(*self),
        decreases self,
    {
        match self {
            Statement::VariableDeclaration { name, value, value_type } => {
                let mut v: Vec<Token> = Vec::new();
                v.push(Token::Var);
                v.push(Token::Identifier(name.clone()));
                match value_type {
                    Some(ty) => {
                        v.push(Token::Colon);
                        match ty {
                            Type::String => v.push(Token::StringType),
                            Type::Int => v.push(Token::IntType),
                            Type::Boolean => v.push(Token::BooleanType),
                        }
                    },
                    None => {},
                }
                v.push(Token::Assign);
                let mut vt = value.to_tokens();
                v.append(&mut vt);
                v.push(Token::Semicolon);
                proof {
                    assert(v@ =~= pp_stmt(*self));
                }
                v
            },
            Statement::VariableAssignment { name, value } => {
                let mut v: Vec<Token> = Vec::new();
                v.push(Token::Identifier(name.clone()));
                match value {
                    Expression::Increment(_) => {
                        v.push(Token::Increment);
                        v.push(Token::Semicolon);
                    },
                    Expression::Decrement(_) => {
                        v.push(Token::Decrement);
                        v.push(Token::Semicolon);
                    },
                    _ => {
                        v.push(Token::Assign);
                        let mut vt = value.to_tokens();
                        v.append(&mut vt);
                        v.push(Token::Semicolon);
                    },
                }
                proof {
                    assert(v@ =~= pp_stmt(*self));
                }
                v
            },
            Statement::Print(e) => {
                let mut v: Vec<Token> = Vec::new();
                v.push(Token::Print);
                v.push(Token::LeftParen);
                let mut et = e.to_tokens();
                v.append(&mut et);
                v.push(Token::RightParen);
                v.push(Token::Semicolon);
                proof {
                    assert(v@ =~= pp_stmt(*self));
                }
                v
            },
            Statement::If { condition, then_branch, else_branch } => {
                let mut v: Vec<Token> = Vec::new();
                v.push(Token::If);
                let mut ct = condition.to_tokens();
                v.append(&mut ct);
                let mut bt = (&**then_branch).to_tokens();
                v.append(&mut bt);
                match else_branch {
                    Some(b) => {
                        v.push(Token::Else);
                        let mut et = (&**b).to_tokens();
                        v.append(&mut et);
                    },
                    None => {},
                }
                proof {
                    assert(v@ =~= pp_stmt(*self));
                }
                v
            },
            Statement::While { condition, body } => {
                let mut v: Vec<Token> = Vec::new();
                v.push(Token::While);
                let mut ct = condition.to_tokens();
                v.append(&mut ct);
                let mut bt = (&**body).to_tokens();
                v.append(&mut bt);
                proof {
                    assert(v@ =~= pp_stmt(*self));
                }
                v
            },
            Statement::Block(ss) => {
                let mut v: Vec<Token> = Vec::new();
                v.push(Token::LeftBrace);
                let ghost head = v@;
                proof {
                    assert(ss@.skip(0) =~= ss@);
                }
                let n: usize = ss.len();
                let mut k: usize = 0;
                while k < n
                    invariant
                        k <= n,
                        n == ss@.len(),
                        printable_stmts(ss@.skip(k as int)),
                        v@ + pp_stmts(ss@.skip(k as int)) =~= head + pp_stmts(ss@),
                    decreases n - k,
                {
                    proof {
                        assert(decreases_to!(*self => (*self)->Block_0));
                        assert(decreases_to!(*ss => ss@));
                        assert(decreases_to!(ss@ => ss@[k as int]));
                        assert(ss@.skip(k as int)[0] == ss@[k as int]);
                    }
                    let ghost v0 = v@;
                    let mut st = ss[k].to_tokens();
                    v.append(&mut st);
                    proof {
                        assert(ss@.skip(k as int).drop_first() =~= ss@.skip(k as int + 1));
                        assert(pp_stmts(ss@.skip(k as int)) =~= pp_stmt(ss@[k as int]) + pp_stmts(
                            ss@.skip(k as int + 1),
                        ));
                        assert(v@ + pp_stmts(ss@.skip(k as int + 1)) =~= head + pp_stmts(ss@));
                    }
                    k = k + 1;
                }
                proof {
                    assert(ss@.skip(n as int) =~= Seq::<Statement>::empty());
                }
                v.push(Token::RightBrace);
                proof {
                    assert(v@ =~= pp_stmt(*self));
                }
                v
            },
        }
    }
}

/// Print a whole program back to tokens, the end marker appended.
#[verifier::loop_isolation(false)]
pub fn print_program(statements: &Vec<Statement>) -> (r: Vec<Token>)
    requires
        printable_stmts(statements@),
    ensures
        r@ == pp_program(statements@),
{
    let mut v: Vec<Token> = Vec::new();
    let ghost head = v@;
    proof {
        assert(statements@.skip(0) =~= statements@);
    }
    let n: usize = statements.len();
    let mut k: usize = 0;
    while k < n
        invariant
            k <= n,
            n == statements@.len(),
            printable_stmts(statements@.skip(k as int)),
            v@ + pp_stmts(statements@.skip(k as int)) =~= pp_stmts(statements@),
        decreases n - k,
    {
        proof {
            assert(statements@.skip(k as int)[0] == statements@[k as int]);
        }
        let ghost v0 = v@;
        let mut st = statements[k].to_tokens();
        v.append(&mut st);
        proof {
            assert(statements@.skip(k as int).drop_first() =~= statements@.skip(k as int + 1));
            assert(pp_stmts(statements@.skip(k as int)) =~= pp_stmt(statements@[k as int])
                + pp_stmts(statements@.skip(k as int + 1)));
            assert(v@ + pp_stmts(statements@.skip(k as int + 1)) =~= pp_stmts(statements@));
        }
        k = k + 1;
    }
    proof {
        assert(statements@.skip(n as int) =~= Seq::<Statement>::empty());
        assert(v@ =~= pp_stmts(statements@));
    }
    v.push(Token::EOF);
    proof {
        assert(v@ =~= pp_program(statements@));
    }
    v
}

/// Round trip: re-parsing the printed form of any printable statement
/// sequence yields a structurally equal sequence (the same views), the
/// whole input consumed up to the end marker.
pub proof fn lemma_print_parse_round_trip(ss: Seq<Statement>)
    requires
        printable_stmts(ss),
    ensures
        sp_parse(pp_program(ss), 0) == Some::<(Seq<StmtView>, int)>(
            (stmts_view(ss), pp_stmts(ss).len() as int),
        ),
{
    let t = pp_program(ss);
    let n = pp_stmts(ss).len() as int;
    assert(tokens_at(t, 0, pp_stmts(ss))) by {
        assert forall|k: int| 0 <= k < n implies t[0 + k] == pp_stmts(ss)[k] by {
            assert(t[k] == (pp_stmts(ss) + seq![Token::EOF])[k]);
        }
    }
    assert(t[n] == (pp_stmts(ss) + seq![Token::EOF])[n]);
    assert(tok_at(t, n) == Token::EOF);
    lemma_pp_program_parses(ss, t, 0);
}

} // verus!
