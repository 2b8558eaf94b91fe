//! The parser: tokens in, statement trees out.

use vstd::prelude::*;
use crate::error::{ErrorView, RosellaError};
use crate::grammar::{
    arguments, arguments_rest, binary, binary_op, binary_rest, block, body, condition, else_branch,
    expect, expect_name, expression, function_statement, if_statement, lemma_arguments_moves,
    lemma_binary_moves, lemma_body_moves, lemma_condition_moves, lemma_expression_moves,
    lemma_statement_moves, let_statement, level_operator, level_rank, moved, next_index,
    precedence, primary, program, raw_items, raw_statement, remaining, statement, statements_of, token_at,
    while_statement, with_statement, Parsed,
};
use crate::lexer::{token_views, Token, TokenView};
use crate::number::Number;

verus! {

/// The operating system that a script is generated for.
#[derive(Debug, Clone, Copy, PartialEq, Eq, Structural)]
pub enum OS {
    Windows,
    Linux,
}

/// A binary operator.
#[derive(Debug, Clone, Copy, PartialEq, Eq, Structural)]
pub enum BinaryOp {
    Add,
    Subtract,
    Multiply,
    Divide,
    Equal,
    NotEqual,
    LessThan,
    LessThanEq,
    GreaterThan,
    GreaterThanEq,
}

/// An expression tree.
#[derive(Debug, PartialEq)]
pub enum Expr {
    Number(Number),
    String(String),
    Identifier(String),
    Binary { left: Box<Expr>, operator: BinaryOp, right: Box<Expr> },
    Call { name: String, args: Vec<Expr> },
}

/// A statement tree.
#[derive(Debug, PartialEq)]
pub enum Stmt {
    /// A bare call used as a statement.
    Expression(Expr),
    /// A typed binding.
    Let { variable_type: String, name: String, value: Expr },
    /// A conditional, with the type tag of its condition.
    If {
        condition_type: String,
        condition: Expr,
        then_branch: Vec<Stmt>,
        else_branch: Option<Vec<Stmt>>,
    },
    /// A block that is kept only for one operating system.
    With { os: String, body: Vec<Stmt> },
    /// A loop, with the type tag of its condition.
    While { condition_type: String, condition: Expr, body: Vec<Stmt> },
    /// A function declaration; `arguments` is `None` where the list is empty.
    Function { name: String, arguments: Option<Vec<Expr>>, body: Vec<Stmt> },
    /// Expressions that are passed through nearly as they stand.
    RawInstruction(Vec<Expr>),
}

/// The mathematical value of an expression.
pub enum ExprView {
    Number(Seq<char>),
    String(Seq<char>),
    Identifier(Seq<char>),
    Binary { left: Box<ExprView>, operator: BinaryOp, right: Box<ExprView> },
    Call { name: Seq<char>, args: Seq<ExprView> },
}

/// The mathematical value of a statement.
pub enum StmtView {
    Expression(ExprView),
    Let { variable_type: Seq<char>, name: Seq<char>, value: ExprView },
    If {
        condition_type: Seq<char>,
        condition: ExprView,
        then_branch: Seq<StmtView>,
        else_branch: Option<Seq<StmtView>>,
    },
    With { os: Seq<char>, body: Seq<StmtView> },
    While { condition_type: Seq<char>, condition: ExprView, body: Seq<StmtView> },
    Function { name: Seq<char>, arguments: Option<Seq<ExprView>>, body: Seq<StmtView> },
    RawInstruction(Seq<ExprView>),
}

/// The values of a sequence of expressions, one for one.
pub open spec fn expr_views(v: Seq<Expr>) -> Seq<ExprView>
    decreases v, 0nat,
{
    Seq::new(
        v.len(),
        |i: int|
            if 0 <= i < v.len() {
                v[i].model()
            } else {
                ExprView::String(Seq::empty())
            },
    )
}

/// The values of a sequence of statements, one for one.
pub open spec fn stmt_views(v: Seq<Stmt>) -> Seq<StmtView>
    decreases v, 0nat,
{
    Seq::new(
        v.len(),
        |i: int|
            if 0 <= i < v.len() {
                v[i].model()
            } else {
                StmtView::RawInstruction(Seq::empty())
            },
    )
}

impl Expr {
    /// The value of the expression.
    pub open spec fn model(self) -> ExprView
        decreases self, 1nat,
    {
        match self {
            Expr::Number(n) => ExprView::Number(n@),
            Expr::String(s) => ExprView::String(s@),
            Expr::Identifier(s) => ExprView::Identifier(s@),
            Expr::Binary { left, operator, right } => ExprView::Binary {
                left: Box::new((*left).model()),
                operator,
                right: Box::new((*right).model()),
            },
            Expr::Call { name, args } => ExprView::Call { name: name@, args: expr_views(args@) },
        }
    }
}

impl Stmt {
    /// The value of the statement.
    pub open spec fn model(self) -> StmtView
        decreases self, 1nat,
    {
        match self {
            Stmt::Expression(e) => StmtView::Expression(e@),
            Stmt::Let { variable_type, name, value } => StmtView::Let {
                variable_type: variable_type@,
                name: name@,
                value: value@,
            },
            Stmt::If { condition_type, condition, then_branch, else_branch } => StmtView::If {
                condition_type: condition_type@,
                condition: condition@,
                then_branch: stmt_views(then_branch@),
                else_branch: match else_branch {
                    Some(b) => Some(stmt_views(b@)),
                    None => None,
                },
            },
            Stmt::With { os, body } => StmtView::With { os: os@, body: stmt_views(body@) },
            Stmt::While { condition_type, condition, body } => StmtView::While {
                condition_type: condition_type@,
                condition: condition@,
                body: stmt_views(body@),
            },
            Stmt::Function { name, arguments, body } => StmtView::Function {
                name: name@,
                arguments: match arguments {
                    Some(a) => Some(expr_views(a@)),
                    None => None,
                },
                body: stmt_views(body@),
            },
            Stmt::RawInstruction(v) => StmtView::RawInstruction(expr_views(v@)),
        }
    }
}

impl View for Expr {
    type V = ExprView;

    open spec fn view(&self) -> ExprView {
        self.model()
    }
}

impl View for Stmt {
    type V = StmtView;

    open spec fn view(&self) -> StmtView {
        self.model()
    }
}

/// Appending an expression appends its value.
pub proof fn lemma_expr_views_push(v: Seq<Expr>, e: Expr)
    ensures
        expr_views(v.push(e)) == expr_views(v).push(e@),
{
    assert(expr_views(v.push(e)) =~= expr_views(v).push(e@));
}

/// Appending a statement appends its value.
pub proof fn lemma_stmt_views_push(v: Seq<Stmt>, s: Stmt)
    ensures
        stmt_views(v.push(s)) == stmt_views(v).push(s@),
{
    assert(stmt_views(v.push(s)) =~= stmt_views(v).push(s@));
}

/// Copies a list of expressions.
fn clone_exprs(v: &Vec<Expr>) -> (r: Vec<Expr>)
    ensures
        expr_views(r@) == expr_views(v@),
    decreases v, 0nat,
{
    let mut out: Vec<Expr> = Vec::new();
    let mut i: usize = 0;
    while i < v.len()
        invariant
            i <= v.len(),
            out.len() == i,
            forall|j: int| 0 <= j < i ==> out@[j]@ == v@[j]@,
        decreases v.len() - i,
    {
        out.push(v[i].clone());
        i += 1;
    }
    assert(expr_views(out@) =~= expr_views(v@));
    out
}

/// Copies a list of statements.
fn clone_stmts(v: &Vec<Stmt>) -> (r: Vec<Stmt>)
    ensures
        stmt_views(r@) == stmt_views(v@),
    decreases v, 0nat,
{
    let mut out: Vec<Stmt> = Vec::new();
    let mut i: usize = 0;
    while i < v.len()
        invariant
            i <= v.len(),
            out.len() == i,
            forall|j: int| 0 <= j < i ==> out@[j]@ == v@[j]@,
        decreases v.len() - i,
    {
        out.push(v[i].clone());
        i += 1;
    }
    assert(stmt_views(out@) =~= stmt_views(v@));
    out
}

impl Clone for Expr {
    fn clone(&self) -> (r: Self)
        ensures
            r@ == self@,
        decreases self, 1nat,
    {
        match self {
            Expr::Number(n) => Expr::Number(n.clone()),
            Expr::String(s) => Expr::String(s.clone()),
            Expr::Identifier(s) => Expr::Identifier(s.clone()),
            Expr::Binary { left, operator, right } => {
                let l = (**left).clone();
                let r = (**right).clone();
                Expr::Binary { left: Box::new(l), operator: *operator, right: Box::new(r) }
            },
            Expr::Call { name, args } => Expr::Call { name: name.clone(), args: clone_exprs(args) },
        }
    }
}

impl Clone for Stmt {
    fn clone(&self) -> (r: Self)
        ensures
            r@ == self@,
        decreases self, 1nat,
    {
        match self {
            Stmt::Expression(e) => Stmt::Expression(e.clone()),
            Stmt::Let { variable_type, name, value } => Stmt::Let {
                variable_type: variable_type.clone(),
                name: name.clone(),
                value: value.clone(),
            },
            Stmt::If { condition_type, condition, then_branch, else_branch } => {
                let other = match else_branch {
                    Some(b) => Some(clone_stmts(b)),
                    None => None,
                };
                Stmt::If {
                    condition_type: condition_type.clone(),
                    condition: condition.clone(),
                    then_branch: clone_stmts(then_branch),
                    else_branch: other,
                }
            },
            Stmt::With { os, body } => Stmt::With { os: os.clone(), body: clone_stmts(body) },
            Stmt::While { condition_type, condition, body } => Stmt::While {
                condition_type: condition_type.clone(),
                condition: condition.clone(),
                body: clone_stmts(body),
            },
            Stmt::Function { name, arguments, body } => {
                let list = match arguments {
                    Some(a) => Some(clone_exprs(a)),
                    None => None,
                };
                Stmt::Function { name: name.clone(), arguments: list, body: clone_stmts(body) }
            },
            Stmt::RawInstruction(v) => Stmt::RawInstruction(clone_exprs(v)),
        }
    }
}

/// Whether a parsed expression and the cursor after it are what the grammar gives.
pub open spec fn expr_outcome(
    r: Result<Expr, RosellaError>,
    stop: int,
    rule: Parsed<ExprView>,
) -> bool {
    match rule {
        Ok((e, next)) => r matches Ok(x) && x@ == e && stop == next,
        Err(f) => r matches Err(x) && x@ == f.error && stop == f.at,
    }
}

/// Whether parsed expressions and the cursor after them are what the grammar gives.
pub open spec fn exprs_outcome(
    r: Result<Vec<Expr>, RosellaError>,
    stop: int,
    rule: Parsed<Seq<ExprView>>,
) -> bool {
    match rule {
        Ok((e, next)) => r matches Ok(x) && expr_views(x@) == e && stop == next,
        Err(f) => r matches Err(x) && x@ == f.error && stop == f.at,
    }
}

/// Whether a parsed statement and the cursor after it are what the grammar gives.
pub open spec fn stmt_outcome(
    r: Result<Stmt, RosellaError>,
    stop: int,
    rule: Parsed<StmtView>,
) -> bool {
    match rule {
        Ok((s, next)) => r matches Ok(x) && x@ == s && stop == next,
        Err(f) => r matches Err(x) && x@ == f.error && stop == f.at,
    }
}

/// Whether parsed statements and the cursor after them are what the grammar gives.
pub open spec fn stmts_outcome(
    r: Result<Vec<Stmt>, RosellaError>,
    stop: int,
    rule: Parsed<Seq<StmtView>>,
) -> bool {
    match rule {
        Ok((s, next)) => r matches Ok(x) && stmt_views(x@) == s && stop == next,
        Err(f) => r matches Err(x) && x@ == f.error && stop == f.at,
    }
}

/// The level of an operator, from the loosest.
fn precedence_of(op: BinaryOp) -> (level: usize)
    ensures
        level == precedence(op),
{
    match op {
        BinaryOp::Equal | BinaryOp::NotEqual => 0,
        BinaryOp::GreaterThan | BinaryOp::GreaterThanEq | BinaryOp::LessThan
        | BinaryOp::LessThanEq => 1,
        BinaryOp::Add | BinaryOp::Subtract => 2,
        BinaryOp::Multiply | BinaryOp::Divide => 3,
    }
}

/// The operator that a token stands for.
fn token_to_binary_op(token: &Token) -> (r: Result<BinaryOp, RosellaError>)
    ensures
        match binary_op(token@) {
            Some(op) => r == Ok::<BinaryOp, RosellaError>(op),
            None => r matches Err(e) && e@ == ErrorView::ParseError(
                "Not a valid binary operator"@,
            ),
        },
{
    match token {
        Token::Equal => Ok(BinaryOp::Equal),
        Token::NotEqual => Ok(BinaryOp::NotEqual),
        Token::GreaterThan => Ok(BinaryOp::GreaterThan),
        Token::GreaterThanEq => Ok(BinaryOp::GreaterThanEq),
        Token::LessThan => Ok(BinaryOp::LessThan),
        Token::LessThanEq => Ok(BinaryOp::LessThanEq),
        Token::Plus => Ok(BinaryOp::Add),
        Token::Minus => Ok(BinaryOp::Subtract),
        Token::Multiply => Ok(BinaryOp::Multiply),
        Token::Divide => Ok(BinaryOp::Divide),
        _ => Err(RosellaError::parse("Not a valid binary operator")),
    }
}

/// Whether a token stands for an operator of the given level.
fn is_level_operator(token: &Token, level: usize) -> (r: bool)
    ensures
        r == level_operator(level as nat, token@) is Some,
{
    match token_to_binary_op(token) {
        Ok(op) => precedence_of(op) == level,
        Err(_) => false,
    }
}

/// Reads tokens from left to right and builds the statement trees.
pub struct Parser {
    tokens: Vec<Token>,
    position: usize,
}

impl Parser {
    /// The values of the tokens that are read.
    pub closed spec fn stream(&self) -> Seq<TokenView> {
        token_views(self.tokens@)
    }

    /// The index of the token that is read next.
    pub closed spec fn cursor(&self) -> int {
        self.position as int
    }

    /// A parser at the first of `tokens`.
    pub fn new(tokens: Vec<Token>) -> (parser: Self)
        ensures
            parser.stream() == token_views(tokens@),
            parser.cursor() == 0,
    {
        Parser { tokens, position: 0 }
    }

    /// The token under the cursor; past the end it is the end-of-stream token.
    fn current_token(&self) -> (t: Token)
        ensures
            t@ == token_at(self.stream(), self.cursor()),
    {
        if self.position < self.tokens.len() {
            self.tokens[self.position].clone()
        } else {
            Token::EOF
        }
    }

    /// The token before the cursor; at the start it is the end-of-stream token.
    fn peek_previous(&self) -> (t: Token)
        ensures
            t@ == if self.cursor() > 0 {
                token_at(self.stream(), self.cursor() - 1)
            } else {
                TokenView::EOF
            },
    {
        if self.position > 0 {
            if self.position - 1 < self.tokens.len() {
                self.tokens[self.position - 1].clone()
            } else {
                Token::EOF
            }
        } else {
            Token::EOF
        }
    }

    /// Whether the token under the cursor is `token`.
    fn at(&self, token: &Token) -> (r: bool)
        ensures
            r == (token_at(self.stream(), self.cursor()) == token@),
    {
        if self.position < self.tokens.len() {
            self.tokens[self.position].same_as(token)
        } else {
            Token::EOF.same_as(token)
        }
    }

    /// Moves the cursor one token on; at the end of the tokens it stays.
    fn advance(&mut self)
        ensures
            final(self).tokens == old(self).tokens,
            final(self).cursor() == next_index(old(self).stream(), old(self).cursor()),
    {
        if self.position < self.tokens.len() {
            self.position += 1;
        }
    }

    /// Demands the token `expected` under the cursor and moves past it.
    fn expect_token(&mut self, expected: &Token) -> (r: Result<(), RosellaError>)
        ensures
            final(self).tokens == old(self).tokens,
            match expect(old(self).stream(), old(self).cursor(), expected@) {
                Ok(next) => r is Ok && final(self).cursor() == next,
                Err(f) => r matches Err(e) && e@ == f.error && final(self).cursor() == f.at,
            },
    {
        if self.at(expected) {
            self.advance();
            Ok(())
        } else {
            Err(RosellaError::UnexpectedToken(expected.clone(), self.current_token()))
        }
    }

    /// Demands an identifier under the cursor and moves past it, or fails with `message`.
    fn expect_name(&mut self, message: &str) -> (r: Result<String, RosellaError>)
        ensures
            final(self).tokens == old(self).tokens,
            match expect_name(old(self).stream(), old(self).cursor(), message@) {
                Ok((name, next)) => r matches Ok(x) && x@ == name && final(self).cursor() == next,
                Err(f) => r matches Err(e) && e@ == f.error && final(self).cursor() == f.at,
            },
    {
        match self.current_token() {
            Token::Identifier(name) => {
                self.advance();
                Ok(name)
            },
            _ => Err(RosellaError::parse(message)),
        }
    }

    /// An expression.
    fn parse_expression(&mut self) -> (r: Result<Expr, RosellaError>)
        ensures
            final(self).tokens == old(self).tokens,
            expr_outcome(
                r,
                final(self).cursor(),
                expression(old(self).stream(), old(self).cursor()),
            ),
            r is Ok ==> moved(old(self).stream(), old(self).cursor(), final(self).cursor()),
        decreases remaining(old(self).stream(), old(self).cursor()), 6nat,
    {
        proof {
            lemma_expression_moves(self.stream(), self.cursor());
        }
        self.binary_expression(0)
    }

    /// A chain of operands of the next level, joined by operators of level `level` from the left.
    fn binary_expression(&mut self, level: usize) -> (r: Result<Expr, RosellaError>)
        ensures
            final(self).tokens == old(self).tokens,
            expr_outcome(
                r,
                final(self).cursor(),
                binary(old(self).stream(), old(self).cursor(), level as nat),
            ),
        decreases remaining(old(self).stream(), old(self).cursor()), level_rank(level as nat),
    {
        if level >= 4 {
            return self.primary();
        }
        let ghost ts = self.stream();
        let ghost start = self.cursor();
        let mut expr = self.binary_expression(level + 1)?;
        proof {
            lemma_binary_moves(ts, start, (level + 1) as nat);
        }
        loop
            invariant
                self.tokens == old(self).tokens,
                ts == self.stream(),
                level < 4,
                moved(ts, start, self.cursor()),
                start == old(self).cursor(),
                binary(ts, start, level as nat) == binary_rest(
                    ts,
                    self.cursor(),
                    level as nat,
                    expr@,
                ),
            decreases remaining(ts, self.cursor()),
        {
            let ghost here = self.cursor();
            if !is_level_operator(&self.current_token(), level) {
                return Ok(expr);
            }
            self.advance();
            let operator = token_to_binary_op(&self.peek_previous())?;
            let right = self.binary_expression(level + 1)?;
            proof {
                lemma_binary_moves(ts, here + 1, (level + 1) as nat);
            }
            expr = Expr::Binary { left: Box::new(expr), operator, right: Box::new(right) };
        }
    }

    /// A primary: a number, a string, a name, a call, or an expression in parentheses.
    fn primary(&mut self) -> (r: Result<Expr, RosellaError>)
        ensures
            final(self).tokens == old(self).tokens,
            expr_outcome(r, final(self).cursor(), primary(old(self).stream(), old(self).cursor())),
        decreases remaining(old(self).stream(), old(self).cursor()), 0nat,
    {
        match self.current_token() {
            Token::Number(n) => {
                self.advance();
                Ok(Expr::Number(n))
            },
            Token::String(s) => {
                self.advance();
                Ok(Expr::String(s))
            },
            Token::Identifier(name) => {
                self.advance();
                if self.at(&Token::LParen) {
                    self.advance();
                    let args = self.parse_arguments()?;
                    self.expect_token(&Token::Semicolon)?;
                    Ok(Expr::Call { name, args })
                } else {
                    Ok(Expr::Identifier(name))
                }
            },
            Token::LParen => {
                self.advance();
                let expr = self.parse_expression()?;
                self.expect_token(&Token::RParen)?;
                Ok(expr)
            },
            other => Err(RosellaError::InvalidStatement(other)),
        }
    }

    /// The arguments of a call, from the token after `(` up to and with `)`.
    fn parse_arguments(&mut self) -> (r: Result<Vec<Expr>, RosellaError>)
        ensures
            final(self).tokens == old(self).tokens,
            exprs_outcome(
                r,
                final(self).cursor(),
                arguments(old(self).stream(), old(self).cursor()),
            ),
        decreases remaining(old(self).stream(), old(self).cursor()), 8nat,
    {
        let mut list: Vec<Expr> = Vec::new();
        if self.at(&Token::RParen) {
            self.advance();
            assert(expr_views(list@) =~= Seq::empty());
            return Ok(list);
        }
        let ghost ts = self.stream();
        let ghost start = self.cursor();
        assert(expr_views(list@) =~= Seq::empty());
        loop
            invariant
                self.tokens == old(self).tokens,
                ts == self.stream(),
                start == old(self).cursor(),
                start <= self.cursor(),
                remaining(ts, self.cursor()) <= remaining(ts, start),
                arguments(ts, start) == arguments_rest(
                    ts,
                    self.cursor(),
                    expr_views(list@),
                ),
            decreases remaining(ts, self.cursor()),
        {
            let ghost done = list@;
            let argument = self.parse_expression()?;
            proof {
                lemma_expr_views_push(done, argument);
            }
            list.push(argument);
            if self.at(&Token::Comma) {
                self.advance();
            } else if self.at(&Token::RParen) {
                self.advance();
                return Ok(list);
            } else {
                return Err(RosellaError::parse("Expected ',' or ')' after argument"));
            }
        }
    }

    /// An expression between `(` and `)`.
    fn parse_condition(&mut self) -> (r: Result<Expr, RosellaError>)
        ensures
            final(self).tokens == old(self).tokens,
            expr_outcome(
                r,
                final(self).cursor(),
                condition(old(self).stream(), old(self).cursor()),
            ),
    {
        self.expect_token(&Token::LParen)?;
        let test = self.parse_expression()?;
        self.expect_token(&Token::RParen)?;
        Ok(test)
    }

    /// Statements between `{` and `}`.
    fn parse_body(&mut self) -> (r: Result<Vec<Stmt>, RosellaError>)
        ensures
            final(self).tokens == old(self).tokens,
            stmts_outcome(r, final(self).cursor(), body(old(self).stream(), old(self).cursor())),
        decreases remaining(old(self).stream(), old(self).cursor()), 4nat,
    {
        self.expect_token(&Token::LBrace)?;
        let ghost ts = self.stream();
        let ghost inside = self.cursor();
        let mut statements: Vec<Stmt> = Vec::new();
        assert(stmt_views(statements@) =~= Seq::empty());
        while !self.at(&Token::RBrace)
            invariant
                self.tokens == old(self).tokens,
                ts == self.stream(),
                inside == old(self).cursor() + 1,
                token_at(ts, old(self).cursor()) == TokenView::LBrace,
                inside <= self.cursor(),
                block(ts, inside, Seq::empty()) == block(
                    ts,
                    self.cursor(),
                    stmt_views(statements@),
                ),
            decreases remaining(ts, self.cursor()),
        {
            let ghost done = statements@;
            let ghost here = self.cursor();
            proof {
                lemma_statement_moves(ts, here);
            }
            let statement = self.parse_stmt()?;
            proof {
                lemma_stmt_views_push(done, statement);
            }
            statements.push(statement);
        }
        self.expect_token(&Token::RBrace)?;
        Ok(statements)
    }

    /// A function declaration.
    fn parse_fn_stmt(&mut self) -> (r: Result<Stmt, RosellaError>)
        ensures
            final(self).tokens == old(self).tokens,
            stmt_outcome(
                r,
                final(self).cursor(),
                function_statement(old(self).stream(), old(self).cursor()),
            ),
        decreases remaining(old(self).stream(), old(self).cursor()), 1nat,
    {
        let ghost ts = self.stream();
        self.expect_token(&Token::Function)?;
        let name = self.expect_name("Expected identifer after 'fn'")?;
        self.expect_token(&Token::LParen)?;
        proof {
            lemma_arguments_moves(ts, self.cursor());
        }
        let arguments = self.parse_arguments()?;
        let body = self.parse_body()?;
        let arguments = if arguments.len() == 0 {
            None
        } else {
            Some(arguments)
        };
        Ok(Stmt::Function { name, arguments, body })
    }

    /// A binding.
    fn parse_let_stmt(&mut self) -> (r: Result<Stmt, RosellaError>)
        ensures
            final(self).tokens == old(self).tokens,
            stmt_outcome(
                r,
                final(self).cursor(),
                let_statement(old(self).stream(), old(self).cursor()),
            ),
    {
        self.expect_token(&Token::Let)?;
        let variable_type = self.expect_name("Expected identifer (for variable type) after 'let'")?;
        let name = self.expect_name("Expected identifer after 'let'")?;
        self.expect_token(&Token::Assign)?;
        let value = self.parse_expression()?;
        self.expect_token(&Token::Semicolon)?;
        Ok(Stmt::Let { variable_type, name, value })
    }

    /// A conditional.
    fn parse_if_stmt(&mut self) -> (r: Result<Stmt, RosellaError>)
        ensures
            final(self).tokens == old(self).tokens,
            stmt_outcome(
                r,
                final(self).cursor(),
                if_statement(old(self).stream(), old(self).cursor()),
            ),
        decreases remaining(old(self).stream(), old(self).cursor()), 1nat,
    {
        let ghost ts = self.stream();
        self.expect_token(&Token::If)?;
        let condition_type = self.expect_name(
            "Expected identifer (for comparison type) after 'if'",
        )?;
        proof {
            lemma_condition_moves(ts, self.cursor());
        }
        let condition = self.parse_condition()?;
        proof {
            lemma_body_moves(ts, self.cursor());
        }
        let then_branch = self.parse_body()?;
        let else_branch = if self.at(&Token::Else) {
            self.advance();
            if self.at(&Token::If) {
                let nested = self.parse_if_stmt()?;
                let mut branch: Vec<Stmt> = Vec::new();
                branch.push(nested);
                assert(stmt_views(branch@) =~= seq![nested@]);
                Some(branch)
            } else {
                Some(self.parse_body()?)
            }
        } else {
            None
        };
        Ok(Stmt::If { condition_type, condition, then_branch, else_branch })
    }

    /// A block for one operating system.
    fn parse_with_stmt(&mut self) -> (r: Result<Stmt, RosellaError>)
        ensures
            final(self).tokens == old(self).tokens,
            stmt_outcome(
                r,
                final(self).cursor(),
                with_statement(old(self).stream(), old(self).cursor()),
            ),
        decreases remaining(old(self).stream(), old(self).cursor()), 1nat,
    {
        self.expect_token(&Token::With)?;
        let os = self.expect_name("Expected identifier after 'with'")?;
        let body = self.parse_body()?;
        Ok(Stmt::With { os, body })
    }

    /// A loop.
    fn parse_while_stmt(&mut self) -> (r: Result<Stmt, RosellaError>)
        ensures
            final(self).tokens == old(self).tokens,
            stmt_outcome(
                r,
                final(self).cursor(),
                while_statement(old(self).stream(), old(self).cursor()),
            ),
        decreases remaining(old(self).stream(), old(self).cursor()), 1nat,
    {
        let ghost ts = self.stream();
        self.expect_token(&Token::While)?;
        let condition_type = self.expect_name(
            "Expected identifer (for comparison type) after 'with'",
        )?;
        proof {
            lemma_condition_moves(ts, self.cursor());
        }
        let condition = self.parse_condition()?;
        let body = self.parse_body()?;
        Ok(Stmt::While { condition_type, condition, body })
    }

    /// A raw instruction.
    fn parse_raw_stmt(&mut self) -> (r: Result<Stmt, RosellaError>)
        ensures
            final(self).tokens == old(self).tokens,
            stmt_outcome(
                r,
                final(self).cursor(),
                raw_statement(old(self).stream(), old(self).cursor()),
            ),
    {
        self.expect_token(&Token::RawInstruction)?;
        let ghost ts = self.stream();
        let ghost first = self.cursor();
        let mut instructions: Vec<Expr> = Vec::new();
        assert(expr_views(instructions@) =~= Seq::empty());
        while !self.at(&Token::Semicolon) && !self.at(&Token::EOF)
            invariant
                self.tokens == old(self).tokens,
                ts == self.stream(),
                first == old(self).cursor() + 1,
                token_at(ts, old(self).cursor()) == TokenView::RawInstruction,
                first <= self.cursor(),
                raw_items(ts, first, Seq::empty()) == raw_items(
                    ts,
                    self.cursor(),
                    expr_views(instructions@),
                ),
            decreases remaining(ts, self.cursor()),
        {
            let ghost done = instructions@;
            let item = self.parse_expression()?;
            proof {
                lemma_expr_views_push(done, item);
            }
            instructions.push(item);
        }
        self.expect_token(&Token::Semicolon)?;
        Ok(Stmt::RawInstruction(instructions))
    }

    /// A statement, chosen by its first token.
    fn parse_stmt(&mut self) -> (r: Result<Stmt, RosellaError>)
        ensures
            final(self).tokens == old(self).tokens,
            stmt_outcome(
                r,
                final(self).cursor(),
                statement(old(self).stream(), old(self).cursor()),
            ),
        decreases remaining(old(self).stream(), old(self).cursor()), 2nat,
    {
        match self.current_token() {
            Token::Function => self.parse_fn_stmt(),
            Token::Let => self.parse_let_stmt(),
            Token::If => self.parse_if_stmt(),
            Token::With => self.parse_with_stmt(),
            Token::While => self.parse_while_stmt(),
            Token::RawInstruction => self.parse_raw_stmt(),
            _ => {
                let expr = self.parse_expression()?;
                Ok(Stmt::Expression(expr))
            },
        }
    }

    /// Reads the tokens from the cursor to the end of the stream and returns the statements in
    /// order. The first token that fits no rule ends the run with its error, and the cursor
    /// stays on it.
    pub fn parse(&mut self) -> (r: Result<Vec<Stmt>, RosellaError>)
        ensures
            final(self).stream() == old(self).stream(),
            stmts_outcome(
                r,
                final(self).cursor(),
                program(old(self).stream(), old(self).cursor(), Seq::empty()),
            ),
            old(self).cursor() == 0 ==> match statements_of(old(self).stream()) {
                Ok(statements) => r matches Ok(v) && stmt_views(v@) == statements,
                Err(error) => r matches Err(e) && e@ == error,
            },
    {
        let ghost ts = self.stream();
        let ghost start = self.cursor();
        let mut statements: Vec<Stmt> = Vec::new();
        assert(stmt_views(statements@) =~= Seq::empty());
        while !self.at(&Token::EOF)
            invariant
                self.tokens == old(self).tokens,
                ts == self.stream(),
                start == old(self).cursor(),
                program(ts, start, Seq::empty()) == program(
                    ts,
                    self.cursor(),
                    stmt_views(statements@),
                ),
            decreases remaining(ts, self.cursor()),
        {
            let ghost done = statements@;
            proof {
                lemma_statement_moves(ts, self.cursor());
            }
            let statement = self.parse_stmt()?;
            proof {
                lemma_stmt_views_push(done, statement);
            }
            statements.push(statement);
        }
        Ok(statements)
    }
}

} // verus!
