//! The syntax trees of the language: tokens, statements, expressions,
//! operators and the three primitive types, together with their
//! mathematical views: statements and expressions have `StmtView` /
//! `ExprView` counterparts whose strings are `Seq<char>` and whose numbers
//! are `int`. Tokens carry plain values and need no view of their own.

use vstd::prelude::*;

verus! {

/// A classified lexical unit. The scanner (outside the library) produces an
/// ordered, finite sequence of these, ended by `EOF`.
#[derive(Clone, Debug, PartialEq)]
pub enum Token {
    Var,
    Identifier(String),
    Assign,
    StringLiteral(String),
    NumberLiteral(i64),
    BooleanLiteral(bool),
    StringType,
    IntType,
    BooleanType,
    Semicolon,
    Colon,
    Print,
    If,
    Else,
    Elif,
    While,
    Plus,
    Minus,
    Star,
    Slash,
    Percent,
    Pow,
    And,
    Or,
    Not,
    EqualEqual,
    NotEqual,
    LessThan,
    LessThanEqual,
    GreaterThan,
    GreaterThanEqual,
    Increment,
    Decrement,
    LeftParen,
    RightParen,
    LeftBrace,
    RightBrace,
    EOF,
}

/// The three primitive types a declaration may name. A binding declared
/// without one is dynamically typed for its lifetime.
#[derive(Clone, Copy, Debug, PartialEq, Eq, Structural)]
pub enum Type {
    String,
    Int,
    Boolean,
}

/// A binary or unary operator. `Assign` exists as a marker token in the
/// operator set; the parser never places it inside an expression, and the
/// evaluator treats it (like any operator it has no rule for) as yielding
/// `nil`.
#[derive(Clone, Copy, Debug, PartialEq, Eq, Structural)]
pub enum Operator {
    Plus,
    Minus,
    Star,
    Slash,
    Percent,
    Pow,
    And,
    Or,
    Not,
    EqualEqual,
    NotEqual,
    LessThan,
    LessThanEqual,
    GreaterThan,
    GreaterThanEqual,
    Assign,
}

/// An expression node.
#[derive(Debug)]
pub enum Expression {
    StringLiteral(String),
    NumberLiteral(i64),
    BooleanLiteral(bool),
    Identifier(String),
    Binary { left: Box<Expression>, operator: Operator, right: Box<Expression> },
    Unary { operator: Operator, right: Box<Expression> },
    Increment(Box<Expression>),
    Decrement(Box<Expression>),
    InlineIf {
        condition: Box<Expression>,
        then_branch: Box<Expression>,
        elif_branches: Vec<(Box<Expression>, Box<Expression>)>,
        else_branch: Box<Expression>,
    },
    Nil,
}

/// A statement node. `then_branch`, `else_branch` and `body` are always
/// `Block` nodes when produced by the parser.
#[derive(Debug)]
pub enum Statement {
    VariableDeclaration { name: String, value: Expression, value_type: Option<Type> },
    VariableAssignment { name: String, value: Expression },
    Print(Expression),
    If { condition: Expression, then_branch: Box<Statement>, else_branch: Option<Box<Statement>> },
    While { condition: Expression, body: Box<Statement> },
    Block(Vec<Statement>),
}

/// Mathematical counterpart of `Expression`: names and string literals are
/// `Seq<char>`, numbers are unbounded `int`.
pub enum ExprView {
    StringLiteral(Seq<char>),
    NumberLiteral(int),
    BooleanLiteral(bool),
    Identifier(Seq<char>),
    Binary { left: Box<ExprView>, operator: Operator, right: Box<ExprView> },
    Unary { operator: Operator, right: Box<ExprView> },
    Increment(Box<ExprView>),
    Decrement(Box<ExprView>),
    InlineIf {
        condition: Box<ExprView>,
        then_branch: Box<ExprView>,
        elif_branches: Seq<(ExprView, ExprView)>,
        else_branch: Box<ExprView>,
    },
    Nil,
}

/// Mathematical counterpart of `Statement`.
pub enum StmtView {
    VariableDeclaration { name: Seq<char>, value: ExprView, value_type: Option<Type> },
    VariableAssignment { name: Seq<char>, value: ExprView },
    Print(ExprView),
    If { condition: ExprView, then_branch: Box<StmtView>, else_branch: Option<Box<StmtView>> },
    While { condition: ExprView, body: Box<StmtView> },
    Block(Seq<StmtView>),
}

pub open spec fn expr_view(e: Expression) -> ExprView
    decreases e,
    via expr_view_decreases
{
    match e {
        Expression::StringLiteral(s) => ExprView::StringLiteral(s@),
        Expression::NumberLiteral(n) => ExprView::NumberLiteral(n as int),
        Expression::BooleanLiteral(b) => ExprView::BooleanLiteral(b),
        Expression::Identifier(s) => ExprView::Identifier(s@),
        Expression::Binary { left, operator, right } => ExprView::Binary {
            left: Box::new(expr_view(*left)),
            operator,
            right: Box::new(expr_view(*right)),
        },
        Expression::Unary { operator, right } => ExprView::Unary {
            operator,
            right: Box::new(expr_view(*right)),
        },
        Expression::Increment(t) => ExprView::Increment(Box::new(expr_view(*t))),
        Expression::Decrement(t) => ExprView::Decrement(Box::new(expr_view(*t))),
        Expression::InlineIf { condition, then_branch, elif_branches, else_branch } =>
            ExprView::InlineIf {
                condition: Box::new(expr_view(*condition)),
                then_branch: Box::new(expr_view(*then_branch)),
                elif_branches: elif_views(elif_branches@),
                else_branch: Box::new(expr_view(*else_branch)),
            },
        Expression::Nil => ExprView::Nil,
    }
}

#[via_fn]
proof fn expr_view_decreases(e: Expression) {
    match e {
        Expression::InlineIf { condition, then_branch, elif_branches, else_branch } => {
            assert(decreases_to!(e => elif_branches));
            assert(decreases_to!(elif_branches => elif_branches@));
        },
        _ => {},
    }
}

/// The views of an elif list, in order.
pub open spec fn elif_views(es: Seq<(Box<Expression>, Box<Expression>)>) -> Seq<
    (ExprView, ExprView),
>
    decreases es,
    via elif_views_decreases
{
    if es.len() == 0 {
        Seq::empty()
    } else {
        elif_views(es.drop_last()).push(
            (expr_view(*es.last().0), expr_view(*es.last().1)),
        )
    }
}

#[via_fn]
proof fn elif_views_decreases(es: Seq<(Box<Expression>, Box<Expression>)>) {
    if es.len() > 0 {
        assert(decreases_to!(es => es[es.len() - 1]));
        assert(decreases_to!(es[es.len() - 1] => *es[es.len() - 1].0));
        assert(decreases_to!(es[es.len() - 1] => *es[es.len() - 1].1));
    }
}

pub open spec fn stmt_view(s: Statement) -> StmtView
    decreases s,
    via stmt_view_decreases
{
    match s {
        Statement::VariableDeclaration { name, value, value_type } =>
            StmtView::VariableDeclaration { name: name@, value: expr_view(value), value_type },
        Statement::VariableAssignment { name, value } =>
            StmtView::VariableAssignment { name: name@, value: expr_view(value) },
        Statement::Print(e) => StmtView::Print(expr_view(e)),
        Statement::If { condition, then_branch, else_branch } => StmtView::If {
            condition: expr_view(condition),
            then_branch: Box::new(stmt_view(*then_branch)),
            else_branch: match else_branch {
                Some(b) => Some(Box::new(stmt_view(*b))),
                None => None,
            },
        },
        Statement::While { condition, body } => StmtView::While {
            condition: expr_view(condition),
            body: Box::new(stmt_view(*body)),
        },
        Statement::Block(ss) => StmtView::Block(stmts_view(ss@)),
    }
}

#[via_fn]
proof fn stmt_view_decreases(s: Statement) {
    match s {
        Statement::Block(ss) => {
            assert(decreases_to!(s => ss));
            assert(decreases_to!(ss => ss@));
        },
        _ => {},
    }
}

/// The views of a sequence of statements, in order.
pub open spec fn stmts_view(ss: Seq<Statement>) -> Seq<StmtView>
    decreases ss,
    via stmts_view_decreases
{
    if ss.len() == 0 {
        Seq::empty()
    } else {
        stmts_view(ss.drop_last()).push(stmt_view(ss.last()))
    }
}

#[via_fn]
proof fn stmts_view_decreases(ss: Seq<Statement>) {
    if ss.len() > 0 {
        assert(decreases_to!(ss => ss[ss.len() - 1]));
    }
}

impl View for Expression {
    type V = ExprView;

    open spec fn view(&self) -> ExprView {
        expr_view(*self)
    }
}

impl View for Statement {
    type V = StmtView;

    open spec fn view(&self) -> StmtView {
        stmt_view(*self)
    }
}

/// `stmts_view` maps the sequence elementwise.
pub proof fn lemma_stmts_view_index(ss: Seq<Statement>)
    ensures
        stmts_view(ss).len() == ss.len(),
        forall|i: int| 0 <= i < ss.len() ==> stmts_view(ss)[i] == stmt_view(ss[i]),
    decreases ss.len(),
{
    if ss.len() > 0 {
        lemma_stmts_view_index(ss.drop_last());
    }
}

/// `elif_views` maps the sequence elementwise.
pub proof fn lemma_elif_views_index(es: Seq<(Box<Expression>, Box<Expression>)>)
    ensures
        elif_views(es).len() == es.len(),
        forall|i: int|
            0 <= i < es.len() ==> elif_views(es)[i] == (expr_view(*es[i].0), expr_view(*es[i].1)),
    decreases es.len(),
{
    if es.len() > 0 {
        lemma_elif_views_index(es.drop_last());
    }
}

} // verus!
