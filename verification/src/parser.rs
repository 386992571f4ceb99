//! The recursive-descent parser: one left-to-right pass over the token
//! sequence, no backtracking, producing the statement list or failing at the
//! first malformed statement.
//!
//! The grammar is written out twice: once as spec functions (`sp_*`), which
//! are the contract, and once as the executable parser, proved to return
//! exactly what the spec functions describe. Positions in the spec are
//! cursor indexes into the token sequence; reading past the end yields the
//! end marker, and every successful parse consumes at least one token.
//!
//! Precedence, lowest to highest binding: comparison, additive, then
//! multiplicative, then logical `&&`/`||`, then unary `!` — this ordering
//! (logical tighter than multiplicative tighter than additive) is the
//! language's own, deliberate design. Operators fold left, except where
//! parentheses say otherwise.

use vstd::prelude::*;

use crate::ast::ExprView;
use crate::ast::elif_views;
use crate::ast::lemma_elif_views_index;
use crate::ast::lemma_stmts_view_index;
use crate::ast::stmts_view;
use crate::ast::Expression;
use crate::ast::Operator;
use crate::ast::Statement;
use crate::ast::StmtView;
use crate::ast::Token;
use crate::ast::Type;

verus! {

/// The token under the cursor; past the end it is the end marker.
pub open spec fn tok_at(t: Seq<Token>, i: int) -> Token {
    if 0 <= i < t.len() {
        t[i]
    } else {
        Token::EOF
    }
}

/// Tokens not yet consumed: the measure every recursive descent shrinks.
pub open spec fn toks_left(t: Seq<Token>, i: int) -> int {
    if i <= t.len() {
        t.len() - i
    } else {
        0
    }
}

/// The operator a single token denotes, if any (the `=` marker is not an
/// expression operator).
pub open spec fn sp_operator(tok: Token) -> Option<Operator> {
    match tok {
        Token::Plus => Some(Operator::Plus),
        Token::Minus => Some(Operator::Minus),
        Token::Star => Some(Operator::Star),
        Token::Slash => Some(Operator::Slash),
        Token::Percent => Some(Operator::Percent),
        Token::Pow => Some(Operator::Pow),
        Token::And => Some(Operator::And),
        Token::Or => Some(Operator::Or),
        Token::Not => Some(Operator::Not),
        Token::EqualEqual => Some(Operator::EqualEqual),
        Token::NotEqual => Some(Operator::NotEqual),
        Token::LessThan => Some(Operator::LessThan),
        Token::LessThanEqual => Some(Operator::LessThanEqual),
        Token::GreaterThan => Some(Operator::GreaterThan),
        Token::GreaterThanEqual => Some(Operator::GreaterThanEqual),
        _ => None,
    }
}

/// The type a single token names, if any.
pub open spec fn sp_type(tok: Token) -> Option<Type> {
    match tok {
        Token::StringType => Some(Type::String),
        Token::IntType => Some(Type::Int),
        Token::BooleanType => Some(Type::Boolean),
        _ => None,
    }
}

pub open spec fn is_cmp_op(tok: Token) -> bool {
    match tok {
        Token::EqualEqual | Token::NotEqual | Token::LessThan | Token::LessThanEqual
            | Token::GreaterThan | Token::GreaterThanEqual => true,
        _ => false,
    }
}

pub open spec fn is_term_op(tok: Token) -> bool {
    match tok {
        Token::Plus | Token::Minus => true,
        _ => false,
    }
}

pub open spec fn is_factor_op(tok: Token) -> bool {
    match tok {
        Token::Star | Token::Slash | Token::Percent | Token::Pow => true,
        _ => false,
    }
}

pub open spec fn is_logical_op(tok: Token) -> bool {
    match tok {
        Token::And | Token::Or => true,
        _ => false,
    }
}

/// primary := literal | identifier | '(' expression ')'
pub open spec fn sp_primary(t: Seq<Token>, i: int) -> Option<(ExprView, int)>
    decreases toks_left(t, i), 2int,
{
    match tok_at(t, i) {
        Token::StringLiteral(s) => Some((ExprView::StringLiteral(s@), i + 1)),
        Token::NumberLiteral(n) => Some((ExprView::NumberLiteral(n as int), i + 1)),
        Token::BooleanLiteral(b) => Some((ExprView::BooleanLiteral(b), i + 1)),
        Token::Identifier(id) => Some((ExprView::Identifier(id@), i + 1)),
        Token::LeftParen => match sp_expression(t, i + 1) {
            Some((e, j)) => if j <= i + 1 {
                None
            } else if tok_at(t, j) == Token::RightParen {
                Some((e, j + 1))
            } else {
                None
            },
            None => None,
        },
        _ => None,
    }
}

/// unary := '!' unary | primary
pub open spec fn sp_unary(t: Seq<Token>, i: int) -> Option<(ExprView, int)>
    decreases toks_left(t, i), 3int,
{
    if tok_at(t, i) == Token::Not {
        match sp_unary(t, i + 1) {
            Some((e, j)) => Some(
                (ExprView::Unary { operator: Operator::Not, right: Box::new(e) }, j),
            ),
            None => None,
        }
    } else {
        sp_primary(t, i)
    }
}

/// logical := unary (('&&' | '||') unary)*
pub open spec fn sp_logical(t: Seq<Token>, i: int) -> Option<(ExprView, int)>
    decreases toks_left(t, i), 4int,
{
    match sp_unary(t, i) {
        Some((e, j)) => if j <= i {
            None
        } else {
            sp_logical_rest(t, e, j)
        },
        None => None,
    }
}

pub open spec fn sp_logical_rest(t: Seq<Token>, acc: ExprView, i: int) -> Option<(ExprView, int)>
    decreases toks_left(t, i), 1int,
{
    if is_logical_op(tok_at(t, i)) {
        match sp_operator(tok_at(t, i)) {
            Some(op) => match sp_unary(t, i + 1) {
                Some((rhs, j)) => if j <= i + 1 {
                    None
                } else {
                    sp_logical_rest(
                        t,
                        ExprView::Binary { left: Box::new(acc), operator: op, right: Box::new(rhs) },
                        j,
                    )
                },
                None => None,
            },
            None => None,
        }
    } else {
        Some((acc, i))
    }
}

/// factor := logical (('*' | '/' | '%' | '**') logical)*
pub open spec fn sp_factor(t: Seq<Token>, i: int) -> Option<(ExprView, int)>
    decreases toks_left(t, i), 5int,
{
    match sp_logical(t, i) {
        Some((e, j)) => if j <= i {
            None
        } else {
            sp_factor_rest(t, e, j)
        },
        None => None,
    }
}

pub open spec fn sp_factor_rest(t: Seq<Token>, acc: ExprView, i: int) -> Option<(ExprView, int)>
    decreases toks_left(t, i), 1int,
{
    if is_factor_op(tok_at(t, i)) {
        match sp_operator(tok_at(t, i)) {
            Some(op) => match sp_logical(t, i + 1) {
                Some((rhs, j)) => if j <= i + 1 {
                    None
                } else {
                    sp_factor_rest(
                        t,
                        ExprView::Binary { left: Box::new(acc), operator: op, right: Box::new(rhs) },
                        j,
                    )
                },
                None => None,
            },
            None => None,
        }
    } else {
        Some((acc, i))
    }
}

/// term := factor (('+' | '-') factor)*
pub open spec fn sp_term(t: Seq<Token>, i: int) -> Option<(ExprView, int)>
    decreases toks_left(t, i), 6int,
{
    match sp_factor(t, i) {
        Some((e, j)) => if j <= i {
            None
        } else {
            sp_term_rest(t, e, j)
        },
        None => None,
    }
}

pub open spec fn sp_term_rest(t: Seq<Token>, acc: ExprView, i: int) -> Option<(ExprView, int)>
    decreases toks_left(t, i), 1int,
{
    if is_term_op(tok_at(t, i)) {
        match sp_operator(tok_at(t, i)) {
            Some(op) => match sp_factor(t, i + 1) {
                Some((rhs, j)) => if j <= i + 1 {
                    None
                } else {
                    sp_term_rest(
                        t,
                        ExprView::Binary { left: Box::new(acc), operator: op, right: Box::new(rhs) },
                        j,
                    )
                },
                None => None,
            },
            None => None,
        }
    } else {
        Some((acc, i))
    }
}

/// comparison := term (('==' | '!=' | '<' | '<=' | '>' | '>=') term)*
pub open spec fn sp_comparison(t: Seq<Token>, i: int) -> Option<(ExprView, int)>
    decreases toks_left(t, i), 7int,
{
    match sp_term(t, i) {
        Some((e, j)) => if j <= i {
            None
        } else {
            sp_comparison_rest(t, e, j)
        },
        None => None,
    }
}

pub open spec fn sp_comparison_rest(t: Seq<Token>, acc: ExprView, i: int) -> Option<
    (ExprView, int),
>
    decreases toks_left(t, i), 1int,
{
    if is_cmp_op(tok_at(t, i)) {
        match sp_operator(tok_at(t, i)) {
            Some(op) => match sp_term(t, i + 1) {
                Some((rhs, j)) => if j <= i + 1 {
                    None
                } else {
                    sp_comparison_rest(
                        t,
                        ExprView::Binary { left: Box::new(acc), operator: op, right: Box::new(rhs) },
                        j,
                    )
                },
                None => None,
            },
            None => None,
        }
    } else {
        Some((acc, i))
    }
}

/// expression := inline-if | comparison
pub open spec fn sp_expression(t: Seq<Token>, i: int) -> Option<(ExprView, int)>
    decreases toks_left(t, i), 9int,
{
    if tok_at(t, i) == Token::If {
        sp_inline_if(t, i)
    } else {
        sp_comparison(t, i)
    }
}

/// inline-if := 'if' expression ':' expression ('elif' expression ':'
/// expression)* ('else' ':' expression)?  — the else branch defaults to nil.
pub open spec fn sp_inline_if(t: Seq<Token>, i: int) -> Option<(ExprView, int)>
    decreases toks_left(t, i), 8int,
{
    if tok_at(t, i) != Token::If {
        None
    } else {
        match sp_expression(t, i + 1) {
            Some((cond, j)) => if j <= i + 1 || tok_at(t, j) != Token::Colon {
                None
            } else {
                match sp_expression(t, j + 1) {
                    Some((thenb, k)) => if k <= j + 1 {
                        None
                    } else {
                        match sp_elifs(t, k) {
                            Some((elifs, m)) => if m < k {
                                None
                            } else if tok_at(t, m) == Token::Else {
                                if tok_at(t, m + 1) != Token::Colon {
                                    None
                                } else {
                                    match sp_expression(t, m + 2) {
                                        Some((elseb, p)) => Some(
                                            (
                                                ExprView::InlineIf {
                                                    condition: Box::new(cond),
                                                    then_branch: Box::new(thenb),
                                                    elif_branches: elifs,
                                                    else_branch: Box::new(elseb),
                                                },
                                                p,
                                            ),
                                        ),
                                        None => None,
                                    }
                                }
                            } else {
                                Some(
                                    (
                                        ExprView::InlineIf {
                                            condition: Box::new(cond),
                                            then_branch: Box::new(thenb),
                                            elif_branches: elifs,
                                            else_branch: Box::new(ExprView::Nil),
                                        },
                                        m,
                                    ),
                                )
                            },
                            None => None,
                        }
                    },
                    None => None,
                }
            },
            None => None,
        }
    }
}

/// The elif arms: zero or more of 'elif' expression ':' expression.
pub open spec fn sp_elifs(t: Seq<Token>, i: int) -> Option<(Seq<(ExprView, ExprView)>, int)>
    decreases toks_left(t, i), 1int,
{
    if tok_at(t, i) != Token::Elif {
        Some((Seq::empty(), i))
    } else {
        match sp_expression(t, i + 1) {
            Some((c, j)) => if j <= i + 1 || tok_at(t, j) != Token::Colon {
                None
            } else {
                match sp_expression(t, j + 1) {
                    Some((b, k)) => if k <= j + 1 {
                        None
                    } else {
                        match sp_elifs(t, k) {
                            Some((rest, m)) => Some((seq![(c, b)] + rest, m)),
                            None => None,
                        }
                    },
                    None => None,
                }
            },
            None => None,
        }
    }
}

/// statement := declaration | assignment | print | if | while
pub open spec fn sp_statement(t: Seq<Token>, i: int) -> Option<(StmtView, int)>
    decreases toks_left(t, i), 11int,
{
    match tok_at(t, i) {
        Token::Var => sp_var_decl(t, i),
        Token::Identifier(_) => sp_var_assign(t, i),
        Token::Print => sp_print(t, i),
        Token::If => sp_if(t, i),
        Token::While => sp_while(t, i),
        _ => None,
    }
}

/// 'var' NAME (':' TYPE)? '=' expression ';'
pub open spec fn sp_var_decl(t: Seq<Token>, i: int) -> Option<(StmtView, int)>
    decreases toks_left(t, i), 10int,
{
    if tok_at(t, i) != Token::Var {
        None
    } else {
        match tok_at(t, i + 1) {
            Token::Identifier(name) => if tok_at(t, i + 2) == Token::Colon {
                match sp_type(tok_at(t, i + 3)) {
                    Some(ty) => sp_var_decl_tail(t, name@, Some(ty), i + 4),
                    None => None,
                }
            } else {
                sp_var_decl_tail(t, name@, None, i + 2)
            },
            _ => None,
        }
    }
}

/// The '=' expression ';' tail of a declaration.
pub open spec fn sp_var_decl_tail(t: Seq<Token>, name: Seq<char>, vt: Option<Type>, i: int) -> Option<
    (StmtView, int),
>
    decreases toks_left(t, i), 10int,
{
    if tok_at(t, i) != Token::Assign {
        None
    } else {
        match sp_expression(t, i + 1) {
            Some((e, j)) => if j <= i + 1 {
                None
            } else if tok_at(t, j) == Token::Semicolon {
                Some((StmtView::VariableDeclaration { name: name, value: e, value_type: vt }, j + 1))
            } else {
                None
            },
            None => None,
        }
    }
}

/// NAME ('++' | '--' | '=' expression) ';' — the right-hand side of `=`
/// becomes the assignment's value directly.
pub open spec fn sp_var_assign(t: Seq<Token>, i: int) -> Option<(StmtView, int)>
    decreases toks_left(t, i), 10int,
{
    match tok_at(t, i) {
        Token::Identifier(name) => match tok_at(t, i + 1) {
            Token::Increment => if tok_at(t, i + 2) == Token::Semicolon {
                Some(
                    (
                        StmtView::VariableAssignment {
                            name: name@,
                            value: ExprView::Increment(Box::new(ExprView::Identifier(name@))),
                        },
                        i + 3,
                    ),
                )
            } else {
                None
            },
            Token::Decrement => if tok_at(t, i + 2) == Token::Semicolon {
                Some(
                    (
                        StmtView::VariableAssignment {
                            name: name@,
                            value: ExprView::Decrement(Box::new(ExprView::Identifier(name@))),
                        },
                        i + 3,
                    ),
                )
            } else {
                None
            },
            Token::Assign => match sp_expression(t, i + 2) {
                Some((e, j)) => if j <= i + 2 {
                    None
                } else if tok_at(t, j) == Token::Semicolon {
                    Some((StmtView::VariableAssignment { name: name@, value: e }, j + 1))
                } else {
                    None
                },
                None => None,
            },
            _ => None,
        },
        _ => None,
    }
}

/// 'print' '(' expression ')' ';'
pub open spec fn sp_print(t: Seq<Token>, i: int) -> Option<(StmtView, int)>
    decreases toks_left(t, i), 10int,
{
    if tok_at(t, i) != Token::Print || tok_at(t, i + 1) != Token::LeftParen {
        None
    } else {
        match sp_expression(t, i + 2) {
            Some((e, j)) => if j <= i + 2 {
                None
            } else if tok_at(t, j) == Token::RightParen && tok_at(t, j + 1) == Token::Semicolon {
                Some((StmtView::Print(e), j + 2))
            } else {
                None
            },
            None => None,
        }
    }
}

/// 'if' expression block ('else' block)?
pub open spec fn sp_if(t: Seq<Token>, i: int) -> Option<(StmtView, int)>
    decreases toks_left(t, i), 10int,
{
    if tok_at(t, i) != Token::If {
        None
    } else {
        match sp_expression(t, i + 1) {
            Some((c, j)) => if j <= i + 1 {
                None
            } else {
                match sp_block(t, j) {
                    Some((thenb, k)) => if k <= j {
                        None
                    } else if tok_at(t, k) == Token::Else {
                        match sp_block(t, k + 1) {
                            Some((elseb, m)) => Some(
                                (
                                    StmtView::If {
                                        condition: c,
                                        then_branch: Box::new(thenb),
                                        else_branch: Some(Box::new(elseb)),
                                    },
                                    m,
                                ),
                            ),
                            None => None,
                        }
                    } else {
                        Some(
                            (
                                StmtView::If {
                                    condition: c,
                                    then_branch: Box::new(thenb),
                                    else_branch: None,
                                },
                                k,
                            ),
                        )
                    },
                    None => None,
                }
            },
            None => None,
        }
    }
}

/// 'while' expression block
pub open spec fn sp_while(t: Seq<Token>, i: int) -> Option<(StmtView, int)>
    decreases toks_left(t, i), 10int,
{
    if tok_at(t, i) != Token::While {
        None
    } else {
        match sp_expression(t, i + 1) {
            Some((c, j)) => if j <= i + 1 {
                None
            } else {
                match sp_block(t, j) {
                    Some((b, k)) => Some(
                        (StmtView::While { condition: c, body: Box::new(b) }, k),
                    ),
                    None => None,
                }
            },
            None => None,
        }
    }
}

/// block := '{' statement* '}'
pub open spec fn sp_block(t: Seq<Token>, i: int) -> Option<(StmtView, int)>
    decreases toks_left(t, i), 10int,
{
    if tok_at(t, i) != Token::LeftBrace {
        None
    } else {
        match sp_block_items(t, i + 1) {
            Some((items, j)) => Some((StmtView::Block(items), j)),
            None => None,
        }
    }
}

/// The statements of a block, up to and including the closing brace.
pub open spec fn sp_block_items(t: Seq<Token>, i: int) -> Option<(Seq<StmtView>, int)>
    decreases toks_left(t, i), 13int,
{
    if tok_at(t, i) == Token::RightBrace {
        Some((Seq::empty(), i + 1))
    } else if tok_at(t, i) == Token::EOF {
        None
    } else {
        match sp_statement(t, i) {
            Some((s, j)) => if j <= i {
                None
            } else {
                match sp_block_items(t, j) {
                    Some((rest, k)) => Some((seq![s] + rest, k)),
                    None => None,
                }
            },
            None => None,
        }
    }
}

/// The whole input: statements until the end marker (or the end of the
/// sequence); the first malformed statement fails the parse.
pub open spec fn sp_parse(t: Seq<Token>, i: int) -> Option<(Seq<StmtView>, int)>
    decreases toks_left(t, i), 12int,
{
    if tok_at(t, i) == Token::EOF {
        Some((Seq::empty(), i))
    } else {
        match sp_statement(t, i) {
            Some((s, j)) => if j <= i {
                None
            } else {
                match sp_parse(t, j) {
                    Some((rest, k)) => Some((seq![s] + rest, k)),
                    None => None,
                }
            },
            None => None,
        }
    }
}

/// Owns a read cursor over the token sequence.
pub struct Parser {
    tokens: Vec<Token>,
    current: usize,
}

impl Parser {
    /// The token sequence being parsed.
    pub closed spec fn toks(&self) -> Seq<Token> {
        self.tokens@
    }

    /// The cursor position.
    pub closed spec fn cur(&self) -> int {
        self.current as int
    }

    /// The cursor never passes the end of the sequence.
    pub closed spec fn wf(&self) -> bool {
        self.current <= self.tokens@.len()
    }

    /// A parser over `tokens`, cursor at the start.
    pub fn new(tokens: Vec<Token>) -> (r: Parser)
        ensures
            r.wf(),
            r.toks() == tokens@,
            r.cur() == 0,
    {
        Parser { tokens, current: 0 }
    }

    fn next_is_eof(&self) -> (r: bool)
        ensures
            r == (tok_at(self.toks(), self.cur()) == Token::EOF),
    {
        if self.current >= self.tokens.len() {
            true
        } else {
            match &self.tokens[self.current] {
                Token::EOF => true,
                _ => false,
            }
        }
    }

    fn next_is_colon(&self) -> (r: bool)
        ensures
            r == (tok_at(self.toks(), self.cur()) == Token::Colon),
    {
        if self.current >= self.tokens.len() {
            false
        } else {
            match &self.tokens[self.current] {
                Token::Colon => true,
                _ => false,
            }
        }
    }

    fn next_is_assign(&self) -> (r: bool)
        ensures
            r == (tok_at(self.toks(), self.cur()) == Token::Assign),
    {
        if self.current >= self.tokens.len() {
            false
        } else {
            match &self.tokens[self.current] {
                Token::Assign => true,
                _ => false,
            }
        }
    }

    fn next_is_semicolon(&self) -> (r: bool)
        ensures
            r == (tok_at(self.toks(), self.cur()) == Token::Semicolon),
    {
        if self.current >= self.tokens.len() {
            false
        } else {
            match &self.tokens[self.current] {
                Token::Semicolon => true,
                _ => false,
            }
        }
    }

    fn next_is_rparen(&self) -> (r: bool)
        ensures
            r == (tok_at(self.toks(), self.cur()) == Token::RightParen),
    {
        if self.current >= self.tokens.len() {
            false
        } else {
            match &self.tokens[self.current] {
                Token::RightParen => true,
                _ => false,
            }
        }
    }

    fn next_is_lbrace(&self) -> (r: bool)
        ensures
            r == (tok_at(self.toks(), self.cur()) == Token::LeftBrace),
    {
        if self.current >= self.tokens.len() {
            false
        } else {
            match &self.tokens[self.current] {
                Token::LeftBrace => true,
                _ => false,
            }
        }
    }

    fn next_is_rbrace(&self) -> (r: bool)
        ensures
            r == (tok_at(self.toks(), self.cur()) == Token::RightBrace),
    {
        if self.current >= self.tokens.len() {
            false
        } else {
            match &self.tokens[self.current] {
                Token::RightBrace => true,
                _ => false,
            }
        }
    }

    fn next_is_else(&self) -> (r: bool)
        ensures
            r == (tok_at(self.toks(), self.cur()) == Token::Else),
    {
        if self.current >= self.tokens.len() {
            false
        } else {
            match &self.tokens[self.current] {
                Token::Else => true,
                _ => false,
            }
        }
    }

    fn next_is_elif(&self) -> (r: bool)
        ensures
            r == (tok_at(self.toks(), self.cur()) == Token::Elif),
    {
        if self.current >= self.tokens.len() {
            false
        } else {
            match &self.tokens[self.current] {
                Token::Elif => true,
                _ => false,
            }
        }
    }

    fn next_is_if(&self) -> (r: bool)
        ensures
            r == (tok_at(self.toks(), self.cur()) == Token::If),
    {
        if self.current >= self.tokens.len() {
            false
        } else {
            match &self.tokens[self.current] {
                Token::If => true,
                _ => false,
            }
        }
    }

    fn next_is_not(&self) -> (r: bool)
        ensures
            r == (tok_at(self.toks(), self.cur()) == Token::Not),
    {
        if self.current >= self.tokens.len() {
            false
        } else {
            match &self.tokens[self.current] {
                Token::Not => true,
                _ => false,
            }
        }
    }

    fn next_is_cmp_op(&self) -> (r: bool)
        ensures
            r == is_cmp_op(tok_at(self.toks(), self.cur())),
    {
        if self.current >= self.tokens.len() {
            false
        } else {
            match &self.tokens[self.current] {
                Token::EqualEqual | Token::NotEqual | Token::LessThan | Token::LessThanEqual
                    | Token::GreaterThan | Token::GreaterThanEqual => true,
                _ => false,
            }
        }
    }

    fn next_is_term_op(&self) -> (r: bool)
        ensures
            r == is_term_op(tok_at(self.toks(), self.cur())),
    {
        if self.current >= self.tokens.len() {
            false
        } else {
            match &self.tokens[self.current] {
                Token::Plus | Token::Minus => true,
                _ => false,
            }
        }
    }

    fn next_is_factor_op(&self) -> (r: bool)
        ensures
            r == is_factor_op(tok_at(self.toks(), self.cur())),
    {
        if self.current >= self.tokens.len() {
            false
        } else {
            match &self.tokens[self.current] {
                Token::Star | Token::Slash | Token::Percent | Token::Pow => true,
                _ => false,
            }
        }
    }

    fn next_is_logical_op(&self) -> (r: bool)
        ensures
            r == is_logical_op(tok_at(self.toks(), self.cur())),
    {
        if self.current >= self.tokens.len() {
            false
        } else {
            match &self.tokens[self.current] {
                Token::And | Token::Or => true,
                _ => false,
            }
        }
    }

    /// Consume one token and yield the operator it denotes.
    fn parse_operator(&mut self) -> (r: Result<Operator, String>)
        requires
            old(self).wf(),
        ensures
            final(self).wf(),
            final(self).toks() == old(self).toks(),
            match r {
                Ok(op) => sp_operator(tok_at(old(self).toks(), old(self).cur())) == Some(op)
                    && final(self).cur() == old(self).cur() + 1,
                Err(_) => sp_operator(tok_at(old(self).toks(), old(self).cur())) is None
                    && final(self).cur() == old(self).cur(),
            },
    {
        if self.current >= self.tokens.len() {
            return Err(String::from_str("Unexpected token in operator"));
        }
        let op = match &self.tokens[self.current] {
            Token::Plus => Operator::Plus,
            Token::Minus => Operator::Minus,
            Token::Star => Operator::Star,
            Token::Slash => Operator::Slash,
            Token::Percent => Operator::Percent,
            Token::Pow => Operator::Pow,
            Token::And => Operator::And,
            Token::Or => Operator::Or,
            Token::Not => Operator::Not,
            Token::EqualEqual => Operator::EqualEqual,
            Token::NotEqual => Operator::NotEqual,
            Token::LessThan => Operator::LessThan,
            Token::LessThanEqual => Operator::LessThanEqual,
            Token::GreaterThan => Operator::GreaterThan,
            Token::GreaterThanEqual => Operator::GreaterThanEqual,
            _ => {
                return Err(String::from_str("Unexpected token in operator"));
            },
        };
        self.current = self.current + 1;
        Ok(op)
    }

    /// Consume one token and yield the type it names.
    fn parse_type(&mut self) -> (r: Result<Type, String>)
        requires
            old(self).wf(),
        ensures
            final(self).wf(),
            final(self).toks() == old(self).toks(),
            match r {
                Ok(ty) => sp_type(tok_at(old(self).toks(), old(self).cur())) == Some(ty)
                    && final(self).cur() == old(self).cur() + 1,
                Err(_) => sp_type(tok_at(old(self).toks(), old(self).cur())) is None,
            },
    {
        if self.current >= self.tokens.len() {
            return Err(String::from_str("Unexpected token in type"));
        }
        let ty = match &self.tokens[self.current] {
            Token::StringType => Type::String,
            Token::IntType => Type::Int,
            Token::BooleanType => Type::Boolean,
            _ => {
                return Err(String::from_str("Unexpected token in type"));
            },
        };
        self.current = self.current + 1;
        Ok(ty)
    }

    /// Move the cursor past the current (real) token.
    fn advance(&mut self)
        requires
            old(self).wf(),
            tok_at(old(self).toks(), old(self).cur()) != Token::EOF,
        ensures
            final(self).wf(),
            final(self).toks() == old(self).toks(),
            final(self).cur() == old(self).cur() + 1,
    {
        let n: usize = self.tokens.len();
        self.current = self.current + 1;
    }

    /// primary := literal | identifier | '(' expression ')'
    fn primary(&mut self) -> (r: Result<Expression, String>)
        requires
            old(self).wf(),
        ensures
            final(self).wf(),
            final(self).toks() == old(self).toks(),
            match r {
                Ok(e) => sp_primary(old(self).toks(), old(self).cur()) == Some(
                    (e@, final(self).cur()),
                ) && final(self).cur() > old(self).cur(),
                Err(_) => sp_primary(old(self).toks(), old(self).cur()) is None,
            },
        decreases toks_left(self.tokens@, self.current as int), 2int,
    {
        if self.current >= self.tokens.len() {
            return Err(String::from_str("Unexpected token in expression"));
        }
        let is_lparen = match &self.tokens[self.current] {
            Token::LeftParen => true,
            _ => false,
        };
        if is_lparen {
            self.current = self.current + 1;
            let inner = match self.expression() {
                Ok(e) => e,
                Err(m) => {
                    return Err(m);
                },
            };
            if self.next_is_rparen() {
                self.current = self.current + 1;
                Ok(inner)
            } else {
                Err(String::from_str("Expected ')' after expression"))
            }
        } else {
            let e = match &self.tokens[self.current] {
                Token::StringLiteral(s) => Expression::StringLiteral(s.clone()),
                Token::NumberLiteral(n) => Expression::NumberLiteral(*n),
                Token::BooleanLiteral(b) => Expression::BooleanLiteral(*b),
                Token::Identifier(id) => Expression::Identifier(id.clone()),
                _ => {
                    return Err(String::from_str("Unexpected token in expression"));
                },
            };
            self.current = self.current + 1;
            Ok(e)
        }
    }

    /// unary := '!' unary | primary
    fn unary(&mut self) -> (r: Result<Expression, String>)
        requires
            old(self).wf(),
        ensures
            final(self).wf(),
            final(self).toks() == old(self).toks(),
            match r {
                Ok(e) => sp_unary(old(self).toks(), old(self).cur()) == Some(
                    (e@, final(self).cur()),
                ) && final(self).cur() > old(self).cur(),
                Err(_) => sp_unary(old(self).toks(), old(self).cur()) is None,
            },
        decreases toks_left(self.tokens@, self.current as int), 3int,
    {
        if self.next_is_not() {
            let op = match self.parse_operator() {
                Ok(op) => op,
                Err(m) => {
                    return Err(m);
                },
            };
            let rhs = match self.unary() {
                Ok(e) => e,
                Err(m) => {
                    return Err(m);
                },
            };
            Ok(Expression::Unary { operator: op, right: Box::new(rhs) })
        } else {
            self.primary()
        }
    }

    /// logical := unary (('&&' | '||') unary)*
    #[verifier::loop_isolation(false)]
    fn logical(&mut self) -> (r: Result<Expression, String>)
        requires
            old(self).wf(),
        ensures
            final(self).wf(),
            final(self).toks() == old(self).toks(),
            match r {
                Ok(e) => sp_logical(old(self).toks(), old(self).cur()) == Some(
                    (e@, final(self).cur()),
                ) && final(self).cur() > old(self).cur(),
                Err(_) => sp_logical(old(self).toks(), old(self).cur()) is None,
            },
        decreases toks_left(self.tokens@, self.current as int), 4int,
    {
        let mut expr = match self.unary() {
            Ok(e) => e,
            Err(m) => {
                return Err(m);
            },
        };
        while self.next_is_logical_op()
            invariant
                self.wf(),
                self.toks() == old(self).toks(),
                self.cur() > old(self).cur(),
                sp_logical(old(self).toks(), old(self).cur()) == sp_logical_rest(
                    self.toks(),
                    expr@,
                    self.cur(),
                ),
            decreases self.tokens@.len() - self.current,
        {
            let op = match self.parse_operator() {
                Ok(op) => op,
                Err(m) => {
                    return Err(m);
                },
            };
            let rhs = match self.unary() {
                Ok(e) => e,
                Err(m) => {
                    return Err(m);
                },
            };
            expr = Expression::Binary { left: Box::new(expr), operator: op, right: Box::new(rhs) };
        }
        Ok(expr)
    }

    /// factor := logical (('*' | '/' | '%' | '**') logical)*
    #[verifier::loop_isolation(false)]
    fn factor(&mut self) -> (r: Result<Expression, String>)
        requires
            old(self).wf(),
        ensures
            final(self).wf(),
            final(self).toks() == old(self).toks(),
            match r {
                Ok(e) => sp_factor(old(self).toks(), old(self).cur()) == Some(
                    (e@, final(self).cur()),
                ) && final(self).cur() > old(self).cur(),
                Err(_) => sp_factor(old(self).toks(), old(self).cur()) is None,
            },
        decreases toks_left(self.tokens@, self.current as int), 5int,
    {
        let mut expr = match self.logical() {
            Ok(e) => e,
            Err(m) => {
                return Err(m);
            },
        };
        while self.next_is_factor_op()
            invariant
                self.wf(),
                self.toks() == old(self).toks(),
                self.cur() > old(self).cur(),
                sp_factor(old(self).toks(), old(self).cur()) == sp_factor_rest(
                    self.toks(),
                    expr@,
                    self.cur(),
                ),
            decreases self.tokens@.len() - self.current,
        {
            let op = match self.parse_operator() {
                Ok(op) => op,
                Err(m) => {
                    return Err(m);
                },
            };
            let rhs = match self.logical() {
                Ok(e) => e,
                Err(m) => {
                    return Err(m);
                },
            };
            expr = Expression::Binary { left: Box::new(expr), operator: op, right: Box::new(rhs) };
        }
        Ok(expr)
    }

    /// term := factor (('+' | '-') factor)*
    #[verifier::loop_isolation(false)]
    fn term(&mut self) -> (r: Result<Expression, String>)
        requires
            old(self).wf(),
        ensures
            final(self).wf(),
            final(self).toks() == old(self).toks(),
            match r {
                Ok(e) => sp_term(old(self).toks(), old(self).cur()) == Some(
                    (e@, final(self).cur()),
                ) && final(self).cur() > old(self).cur(),
                Err(_) => sp_term(old(self).toks(), old(self).cur()) is None,
            },
        decreases toks_left(self.tokens@, self.current as int), 6int,
    {
        let mut expr = match self.factor() {
            Ok(e) => e,
            Err(m) => {
                return Err(m);
            },
        };
        while self.next_is_term_op()
            invariant
                self.wf(),
                self.toks() == old(self).toks(),
                self.cur() > old(self).cur(),
                sp_term(old(self).toks(), old(self).cur()) == sp_term_rest(
                    self.toks(),
                    expr@,
                    self.cur(),
                ),
            decreases self.tokens@.len() - self.current,
        {
            let op = match self.parse_operator() {
                Ok(op) => op,
                Err(m) => {
                    return Err(m);
                },
            };
            let rhs = match self.factor() {
                Ok(e) => e,
                Err(m) => {
                    return Err(m);
                },
            };
            expr = Expression::Binary { left: Box::new(expr), operator: op, right: Box::new(rhs) };
        }
        Ok(expr)
    }

    /// comparison := term (('==' | '!=' | '<' | '<=' | '>' | '>=') term)*
    #[verifier::loop_isolation(false)]
    fn comparison(&mut self) -> (r: Result<Expression, String>)
        requires
            old(self).wf(),
        ensures
            final(self).wf(),
            final(self).toks() == old(self).toks(),
            match r {
                Ok(e) => sp_comparison(old(self).toks(), old(self).cur()) == Some(
                    (e@, final(self).cur()),
                ) && final(self).cur() > old(self).cur(),
                Err(_) => sp_comparison(old(self).toks(), old(self).cur()) is None,
            },
        decreases toks_left(self.tokens@, self.current as int), 7int,
    {
        let mut expr = match self.term() {
            Ok(e) => e,
            Err(m) => {
                return Err(m);
            },
        };
        while self.next_is_cmp_op()
            invariant
                self.wf(),
                self.toks() == old(self).toks(),
                self.cur() > old(self).cur(),
                sp_comparison(old(self).toks(), old(self).cur()) == sp_comparison_rest(
                    self.toks(),
                    expr@,
                    self.cur(),
                ),
            decreases self.tokens@.len() - self.current,
        {
            let op = match self.parse_operator() {
                Ok(op) => op,
                Err(m) => {
                    return Err(m);
                },
            };
            let rhs = match self.term() {
                Ok(e) => e,
                Err(m) => {
                    return Err(m);
                },
            };
            expr = Expression::Binary { left: Box::new(expr), operator: op, right: Box::new(rhs) };
        }
        Ok(expr)
    }

    /// expression := inline-if | comparison
    fn expression(&mut self) -> (r: Result<Expression, String>)
        requires
            old(self).wf(),
        ensures
            final(self).wf(),
            final(self).toks() == old(self).toks(),
            match r {
                Ok(e) => sp_expression(old(self).toks(), old(self).cur()) == Some(
                    (e@, final(self).cur()),
                ) && final(self).cur() > old(self).cur(),
                Err(_) => sp_expression(old(self).toks(), old(self).cur()) is None,
            },
        decreases toks_left(self.tokens@, self.current as int), 9int,
    {
        if self.next_is_if() {
            self.inline_if()
        } else {
            self.comparison()
        }
    }

    /// inline-if := 'if' expression ':' expression ('elif' expression ':'
    /// expression)* ('else' ':' expression)?
    #[verifier::loop_isolation(false)]
    fn inline_if(&mut self) -> (r: Result<Expression, String>)
        requires
            old(self).wf(),
        ensures
            final(self).wf(),
            final(self).toks() == old(self).toks(),
            match r {
                Ok(e) => sp_inline_if(old(self).toks(), old(self).cur()) == Some(
                    (e@, final(self).cur()),
                ) && final(self).cur() > old(self).cur(),
                Err(_) => sp_inline_if(old(self).toks(), old(self).cur()) is None,
            },
        decreases toks_left(self.tokens@, self.current as int), 8int,
    {
        if !self.next_is_if() {
            return Err(String::from_str("Unexpected token in expression"));
        }
        self.advance();
        let cond = match self.expression() {
            Ok(e) => e,
            Err(m) => {
                return Err(m);
            },
        };
        if !self.next_is_colon() {
            return Err(String::from_str("Expected ':' after if condition"));
        }
        self.advance();
        let then_b = match self.expression() {
            Ok(e) => e,
            Err(m) => {
                return Err(m);
            },
        };
        let ghost k0 = self.cur();
        let mut elif_branches: Vec<(Box<Expression>, Box<Expression>)> = Vec::new();
        proof {
            lemma_elif_views_index(elif_branches@);
            assert(elif_views(elif_branches@) =~= Seq::<(ExprView, ExprView)>::empty());
        }
        while self.next_is_elif()
            invariant
                self.wf(),
                self.toks() == old(self).toks(),
                self.cur() >= k0,
                sp_elifs(self.toks(), k0) == (match sp_elifs(self.toks(), self.cur()) {
                    Some((rest, m)) => Some(
                        (elif_views(elif_branches@) + rest, m),
                    ),
                    None => None,
                }),
            decreases self.tokens@.len() - self.current,
        {
            let ghost head = self.cur();
            let ghost acc0 = elif_branches@;
            self.advance();
            let c = match self.expression() {
                Ok(e) => e,
                Err(m) => {
                    return Err(m);
                },
            };
            if !self.next_is_colon() {
                return Err(String::from_str("Expected ':' after elif condition"));
            }
            self.advance();
            let b = match self.expression() {
                Ok(e) => e,
                Err(m) => {
                    return Err(m);
                },
            };
            let ghost cv = c@;
            let ghost bv = b@;
            elif_branches.push((Box::new(c), Box::new(b)));
            proof {
                lemma_elif_views_index(acc0);
                lemma_elif_views_index(elif_branches@);
                assert(elif_branches@ =~= acc0.push(
                    (elif_branches@[acc0.len() as int].0, elif_branches@[acc0.len() as int].1),
                ));
                assert(elif_views(elif_branches@) =~= elif_views(acc0)
                    + seq![(cv, bv)]);
                assert forall|rest: Seq<(ExprView, ExprView)>|
                    true implies #[trigger] (elif_views(acc0) + (seq![(cv, bv)]
                    + rest)) =~= elif_views(elif_branches@) + rest by {}
            }
        }
        let else_b = if self.next_is_else() {
            self.advance();
            if !self.next_is_colon() {
                return Err(String::from_str("Expected ':' after else"));
            }
            self.advance();
            match self.expression() {
                Ok(e) => e,
                Err(m) => {
                    return Err(m);
                },
            }
        } else {
            Expression::Nil
        };
        Ok(
            Expression::InlineIf {
                condition: Box::new(cond),
                then_branch: Box::new(then_b),
                elif_branches,
                else_branch: Box::new(else_b),
            },
        )
    }

    fn next_is_var(&self) -> (r: bool)
        ensures
            r == (tok_at(self.toks(), self.cur()) == Token::Var),
    {
        if self.current >= self.tokens.len() {
            false
        } else {
            match &self.tokens[self.current] {
                Token::Var => true,
                _ => false,
            }
        }
    }

    fn next_is_identifier(&self) -> (r: bool)
        ensures
            r == (tok_at(self.toks(), self.cur()) is Identifier),
    {
        if self.current >= self.tokens.len() {
            false
        } else {
            match &self.tokens[self.current] {
                Token::Identifier(_) => true,
                _ => false,
            }
        }
    }

    fn next_is_print(&self) -> (r: bool)
        ensures
            r == (tok_at(self.toks(), self.cur()) == Token::Print),
    {
        if self.current >= self.tokens.len() {
            false
        } else {
            match &self.tokens[self.current] {
                Token::Print => true,
                _ => false,
            }
        }
    }

    fn next_is_while(&self) -> (r: bool)
        ensures
            r == (tok_at(self.toks(), self.cur()) == Token::While),
    {
        if self.current >= self.tokens.len() {
            false
        } else {
            match &self.tokens[self.current] {
                Token::While => true,
                _ => false,
            }
        }
    }

    fn next_is_lparen(&self) -> (r: bool)
        ensures
            r == (tok_at(self.toks(), self.cur()) == Token::LeftParen),
    {
        if self.current >= self.tokens.len() {
            false
        } else {
            match &self.tokens[self.current] {
                Token::LeftParen => true,
                _ => false,
            }
        }
    }

    fn next_is_increment(&self) -> (r: bool)
        ensures
            r == (tok_at(self.toks(), self.cur()) == Token::Increment),
    {
        if self.current >= self.tokens.len() {
            false
        } else {
            match &self.tokens[self.current] {
                Token::Increment => true,
                _ => false,
            }
        }
    }

    fn next_is_decrement(&self) -> (r: bool)
        ensures
            r == (tok_at(self.toks(), self.cur()) == Token::Decrement),
    {
        if self.current >= self.tokens.len() {
            false
        } else {
            match &self.tokens[self.current] {
                Token::Decrement => true,
                _ => false,
            }
        }
    }

    /// Consume the identifier under the cursor and yield its name.
    fn take_identifier(&mut self) -> (r: Result<String, String>)
        requires
            old(self).wf(),
        ensures
            final(self).wf(),
            final(self).toks() == old(self).toks(),
            match r {
                Ok(name) => tok_at(old(self).toks(), old(self).cur()) == Token::Identifier(name)
                    && final(self).cur() == old(self).cur() + 1,
                Err(_) => !(tok_at(old(self).toks(), old(self).cur()) is Identifier),
            },
    {
        if self.current >= self.tokens.len() {
            return Err(String::from_str("Expected variable name"));
        }
        let name = match &self.tokens[self.current] {
            Token::Identifier(n) => n.clone(),
            _ => {
                return Err(String::from_str("Expected variable name"));
            },
        };
        proof {
            // the clone of the token's name is equal to it, so the token is
            // the identifier bearing `name`
            assert(Token::Identifier(name) == self.tokens@[self.current as int]);
        }
        self.advance();
        Ok(name)
    }

    /// statement := declaration | assignment | print | if | while
    fn statement(&mut self) -> (r: Result<Statement, String>)
        requires
            old(self).wf(),
        ensures
            final(self).wf(),
            final(self).toks() == old(self).toks(),
            match r {
                Ok(s) => sp_statement(old(self).toks(), old(self).cur()) == Some(
                    (s@, final(self).cur()),
                ) && final(self).cur() > old(self).cur(),
                Err(_) => sp_statement(old(self).toks(), old(self).cur()) is None,
            },
        decreases toks_left(self.tokens@, self.current as int), 11int,
    {
        if self.next_is_var() {
            self.variable_declaration()
        } else if self.next_is_identifier() {
            self.variable_assignment()
        } else if self.next_is_print() {
            self.print_statement()
        } else if self.next_is_if() {
            self.if_statement()
        } else if self.next_is_while() {
            self.while_statement()
        } else {
            Err(String::from_str("Unexpected token in statement"))
        }
    }

    /// 'var' NAME (':' TYPE)? '=' expression ';'
    fn variable_declaration(&mut self) -> (r: Result<Statement, String>)
        requires
            old(self).wf(),
        ensures
            final(self).wf(),
            final(self).toks() == old(self).toks(),
            match r {
                Ok(s) => sp_var_decl(old(self).toks(), old(self).cur()) == Some(
                    (s@, final(self).cur()),
                ) && final(self).cur() > old(self).cur(),
                Err(_) => sp_var_decl(old(self).toks(), old(self).cur()) is None,
            },
        decreases toks_left(self.tokens@, self.current as int), 10int,
    {
        if !self.next_is_var() {
            return Err(String::from_str("Unexpected token in statement"));
        }
        self.advance();
        let name = match self.take_identifier() {
            Ok(n) => n,
            Err(m) => {
                return Err(m);
            },
        };
        let value_type = if self.next_is_colon() {
            self.advance();
            match self.parse_type() {
                Ok(ty) => Some(ty),
                Err(m) => {
                    return Err(m);
                },
            }
        } else {
            None
        };
        if !self.next_is_assign() {
            return Err(String::from_str("Invalid variable declaration"));
        }
        self.advance();
        let value = match self.expression() {
            Ok(e) => e,
            Err(m) => {
                return Err(m);
            },
        };
        if !self.next_is_semicolon() {
            return Err(String::from_str("Invalid variable declaration"));
        }
        self.advance();
        Ok(Statement::VariableDeclaration { name, value, value_type })
    }

    /// NAME ('++' | '--' | '=' expression) ';'
    fn variable_assignment(&mut self) -> (r: Result<Statement, String>)
        requires
            old(self).wf(),
        ensures
            final(self).wf(),
            final(self).toks() == old(self).toks(),
            match r {
                Ok(s) => sp_var_assign(old(self).toks(), old(self).cur()) == Some(
                    (s@, final(self).cur()),
                ) && final(self).cur() > old(self).cur(),
                Err(_) => sp_var_assign(old(self).toks(), old(self).cur()) is None,
            },
        decreases toks_left(self.tokens@, self.current as int), 10int,
    {
        let name = match self.take_identifier() {
            Ok(n) => n,
            Err(m) => {
                return Err(m);
            },
        };
        let value = if self.next_is_increment() {
            self.advance();
            let target = Expression::Identifier(name.clone());
            proof {
                assert(target@ == ExprView::Identifier(name@));
            }
            Expression::Increment(Box::new(target))
        } else if self.next_is_decrement() {
            self.advance();
            let target = Expression::Identifier(name.clone());
            proof {
                assert(target@ == ExprView::Identifier(name@));
            }
            Expression::Decrement(Box::new(target))
        } else if self.next_is_assign() {
            self.advance();
            match self.expression() {
                Ok(e) => e,
                Err(m) => {
                    return Err(m);
                },
            }
        } else {
            return Err(String::from_str("Expected increment, decrement, or assignment operator"));
        };
        if !self.next_is_semicolon() {
            return Err(String::from_str("Invalid variable assignment"));
        }
        self.advance();
        Ok(Statement::VariableAssignment { name, value })
    }

    /// 'print' '(' expression ')' ';'
    fn print_statement(&mut self) -> (r: Result<Statement, String>)
        requires
            old(self).wf(),
        ensures
            final(self).wf(),
            final(self).toks() == old(self).toks(),
            match r {
                Ok(s) => sp_print(old(self).toks(), old(self).cur()) == Some(
                    (s@, final(self).cur()),
                ) && final(self).cur() > old(self).cur(),
                Err(_) => sp_print(old(self).toks(), old(self).cur()) is None,
            },
        decreases toks_left(self.tokens@, self.current as int), 10int,
    {
        if !self.next_is_print() {
            return Err(String::from_str("Unexpected token in statement"));
        }
        self.advance();
        if !self.next_is_lparen() {
            return Err(String::from_str("Invalid print statement"));
        }
        self.advance();
        let value = match self.expression() {
            Ok(e) => e,
            Err(m) => {
                return Err(m);
            },
        };
        if !self.next_is_rparen() {
            return Err(String::from_str("Invalid print statement"));
        }
        self.advance();
        if !self.next_is_semicolon() {
            return Err(String::from_str("Invalid print statement"));
        }
        self.advance();
        Ok(Statement::Print(value))
    }

    /// 'if' expression block ('else' block)?
    fn if_statement(&mut self) -> (r: Result<Statement, String>)
        requires
            old(self).wf(),
        ensures
            final(self).wf(),
            final(self).toks() == old(self).toks(),
            match r {
                Ok(s) => sp_if(old(self).toks(), old(self).cur()) == Some(
                    (s@, final(self).cur()),
                ) && final(self).cur() > old(self).cur(),
                Err(_) => sp_if(old(self).toks(), old(self).cur()) is None,
            },
        decreases toks_left(self.tokens@, self.current as int), 10int,
    {
        if !self.next_is_if() {
            return Err(String::from_str("Unexpected token in statement"));
        }
        self.advance();
        let condition = match self.expression() {
            Ok(e) => e,
            Err(m) => {
                return Err(m);
            },
        };
        let then_branch = match self.block() {
            Ok(b) => Box::new(b),
            Err(m) => {
                return Err(m);
            },
        };
        let else_branch = if self.next_is_else() {
            self.advance();
            match self.block() {
                Ok(b) => Some(Box::new(b)),
                Err(m) => {
                    return Err(m);
                },
            }
        } else {
            None
        };
        Ok(Statement::If { condition, then_branch, else_branch })
    }

    /// 'while' expression block
    fn while_statement(&mut self) -> (r: Result<Statement, String>)
        requires
            old(self).wf(),
        ensures
            final(self).wf(),
            final(self).toks() == old(self).toks(),
            match r {
                Ok(s) => sp_while(old(self).toks(), old(self).cur()) == Some(
                    (s@, final(self).cur()),
                ) && final(self).cur() > old(self).cur(),
                Err(_) => sp_while(old(self).toks(), old(self).cur()) is None,
            },
        decreases toks_left(self.tokens@, self.current as int), 10int,
    {
        if !self.next_is_while() {
            return Err(String::from_str("Unexpected token in statement"));
        }
        self.advance();
        let condition = match self.expression() {
            Ok(e) => e,
            Err(m) => {
                return Err(m);
            },
        };
        let body = match self.block() {
            Ok(b) => Box::new(b),
            Err(m) => {
                return Err(m);
            },
        };
        Ok(Statement::While { condition, body })
    }

    /// block := '{' statement* '}'
    #[verifier::loop_isolation(false)]
    fn block(&mut self) -> (r: Result<Statement, String>)
        requires
            old(self).wf(),
        ensures
            final(self).wf(),
            final(self).toks() == old(self).toks(),
            match r {
                Ok(s) => sp_block(old(self).toks(), old(self).cur()) == Some(
                    (s@, final(self).cur()),
                ) && final(self).cur() > old(self).cur(),
                Err(_) => sp_block(old(self).toks(), old(self).cur()) is None,
            },
        decreases toks_left(self.tokens@, self.current as int), 10int,
    {
        if !self.next_is_lbrace() {
            return Err(String::from_str("Expected '{' to start block"));
        }
        self.advance();
        let ghost k0 = self.cur();
        let mut statements: Vec<Statement> = Vec::new();
        proof {
            lemma_stmts_view_index(statements@);
            assert(stmts_view(statements@) =~= Seq::<StmtView>::empty());
        }
        while !self.next_is_rbrace()
            invariant
                self.wf(),
                self.toks() == old(self).toks(),
                self.cur() >= k0,
                sp_block_items(self.toks(), k0) == (match sp_block_items(self.toks(), self.cur()) {
                    Some((rest, m)) => Some((stmts_view(statements@) + rest, m)),
                    None => None,
                }),
            decreases self.tokens@.len() - self.current,
        {
            let ghost acc0 = statements@;
            let s = match self.statement() {
                Ok(s) => s,
                Err(m) => {
                    return Err(m);
                },
            };
            let ghost sv = s@;
            statements.push(s);
            proof {
                lemma_stmts_view_index(acc0);
                lemma_stmts_view_index(statements@);
                assert(stmts_view(statements@) =~= stmts_view(acc0)
                    + seq![sv]);
                assert forall|rest: Seq<StmtView>|
                    true implies #[trigger] (stmts_view(acc0) + (seq![sv] + rest))
                    =~= stmts_view(statements@) + rest by {}
            }
        }
        self.advance();
        proof {
            assert(stmts_view(statements@) + Seq::<StmtView>::empty()
                =~= stmts_view(statements@));
        }
        Ok(Statement::Block(statements))
    }

    /// Parse the whole token sequence into the statement list, stopping at
    /// the end marker; the first malformed statement fails the parse with a
    /// description of what was expected.
    #[verifier::loop_isolation(false)]
    pub fn parse(&mut self) -> (r: Result<Vec<Statement>, String>)
        requires
            old(self).wf(),
        ensures
            final(self).wf(),
            final(self).toks() == old(self).toks(),
            match r {
                Ok(ss) => sp_parse(old(self).toks(), old(self).cur()) == Some(
                    (stmts_view(ss@), final(self).cur()),
                ),
                Err(_) => sp_parse(old(self).toks(), old(self).cur()) is None,
            },
    {
        let mut statements: Vec<Statement> = Vec::new();
        proof {
            lemma_stmts_view_index(statements@);
            assert(stmts_view(statements@) =~= Seq::<StmtView>::empty());
        }
        while !self.next_is_eof()
            invariant
                self.wf(),
                self.toks() == old(self).toks(),
                self.cur() >= old(self).cur(),
                sp_parse(old(self).toks(), old(self).cur()) == (match sp_parse(
                    self.toks(),
                    self.cur(),
                ) {
                    Some((rest, m)) => Some((stmts_view(statements@) + rest, m)),
                    None => None,
                }),
            decreases self.tokens@.len() - self.current,
        {
            let ghost acc0 = statements@;
            let s = match self.statement() {
                Ok(s) => s,
                Err(m) => {
                    return Err(m);
                },
            };
            let ghost sv = s@;
            statements.push(s);
            proof {
                lemma_stmts_view_index(acc0);
                lemma_stmts_view_index(statements@);
                assert(stmts_view(statements@) =~= stmts_view(acc0)
                    + seq![sv]);
                assert forall|rest: Seq<StmtView>|
                    true implies #[trigger] (stmts_view(acc0) + (seq![sv] + rest))
                    =~= stmts_view(statements@) + rest by {}
            }
        }
        proof {
            assert(stmts_view(statements@) + Seq::<StmtView>::empty()
                =~= stmts_view(statements@));
        }
        Ok(statements)
    }
}

} // verus!
