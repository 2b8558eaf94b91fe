//! What the parser yields, stated over sequences of token values.

use vstd::prelude::*;
use crate::error::ErrorView;
use crate::lexer::TokenView;
use crate::parser::{BinaryOp, ExprView, StmtView};

verus! {

/// A parse that failed: the error, and the index of the token at which the cursor rests.
pub struct Failure {
    pub error: ErrorView,
    pub at: int,
}

/// A value and the index of the token after it, or a failure.
pub type Parsed<T> = Result<(T, int), Failure>;

/// The token at `pos`; past the end it is the end-of-stream token.
pub open spec fn token_at(ts: Seq<TokenView>, pos: int) -> TokenView {
    if 0 <= pos < ts.len() {
        ts[pos]
    } else {
        TokenView::EOF
    }
}

/// The index after `pos`; at the end of the tokens the cursor stays.
pub open spec fn next_index(ts: Seq<TokenView>, pos: int) -> int {
    if pos < ts.len() {
        pos + 1
    } else {
        pos
    }
}

/// The number of tokens from `pos` on.
pub open spec fn remaining(ts: Seq<TokenView>, pos: int) -> nat {
    if 0 <= pos <= ts.len() {
        (ts.len() - pos) as nat
    } else {
        0
    }
}

/// A parse that began at `pos` and ended at `next` has read at least one token.
pub open spec fn moved(ts: Seq<TokenView>, pos: int, next: int) -> bool {
    0 <= pos < next <= ts.len()
}

/// A failure with a message.
pub open spec fn malformed(message: Seq<char>, at: int) -> Failure {
    Failure { error: ErrorView::ParseError(message), at }
}

/// Demands the token `expected` at `pos` and yields the index after it.
pub open spec fn expect(ts: Seq<TokenView>, pos: int, expected: TokenView) -> Result<int, Failure> {
    if token_at(ts, pos) == expected {
        Ok(next_index(ts, pos))
    } else {
        Err(Failure { error: ErrorView::UnexpectedToken(expected, token_at(ts, pos)), at: pos })
    }
}

/// Demands an identifier at `pos` and yields its name, or fails with `message`.
pub open spec fn expect_name(ts: Seq<TokenView>, pos: int, message: Seq<char>) -> Parsed<
    Seq<char>,
> {
    match token_at(ts, pos) {
        TokenView::Identifier(name) => Ok((name, pos + 1)),
        _ => Err(malformed(message, pos)),
    }
}

/// The operator that a token stands for.
pub open spec fn binary_op(t: TokenView) -> Option<BinaryOp> {
    match t {
        TokenView::Equal => Some(BinaryOp::Equal),
        TokenView::NotEqual => Some(BinaryOp::NotEqual),
        TokenView::GreaterThan => Some(BinaryOp::GreaterThan),
        TokenView::GreaterThanEq => Some(BinaryOp::GreaterThanEq),
        TokenView::LessThan => Some(BinaryOp::LessThan),
        TokenView::LessThanEq => Some(BinaryOp::LessThanEq),
        TokenView::Plus => Some(BinaryOp::Add),
        TokenView::Minus => Some(BinaryOp::Subtract),
        TokenView::Multiply => Some(BinaryOp::Multiply),
        TokenView::Divide => Some(BinaryOp::Divide),
        _ => None,
    }
}

/// The level of an operator, from the loosest: equality, relation, sum, product.
pub open spec fn precedence(op: BinaryOp) -> nat {
    match op {
        BinaryOp::Equal | BinaryOp::NotEqual => 0,
        BinaryOp::GreaterThan | BinaryOp::GreaterThanEq | BinaryOp::LessThan
        | BinaryOp::LessThanEq => 1,
        BinaryOp::Add | BinaryOp::Subtract => 2,
        BinaryOp::Multiply | BinaryOp::Divide => 3,
    }
}

/// The number of operator levels.
pub open spec fn levels() -> nat {
    4
}

/// The operator of level `level` that a token stands for.
pub open spec fn level_operator(level: nat, t: TokenView) -> Option<BinaryOp> {
    match binary_op(t) {
        Some(op) => if precedence(op) == level {
            Some(op)
        } else {
            None
        },
        None => None,
    }
}

/// The rank of the operand parser of a level among the parsers that start at one token.
pub open spec fn level_rank(level: nat) -> nat {
    if level >= levels() {
        1
    } else {
        (5 - level) as nat
    }
}

/// An expression: a chain at the loosest level.
pub open spec fn expression(ts: Seq<TokenView>, pos: int) -> Parsed<ExprView>
    decreases remaining(ts, pos), 6nat,
{
    binary(ts, pos, 0)
}

/// A chain of operands of the next level, joined by operators of level `level` from the left.
pub open spec fn binary(ts: Seq<TokenView>, pos: int, level: nat) -> Parsed<ExprView>
    decreases remaining(ts, pos), level_rank(level),
{
    if level >= levels() {
        primary(ts, pos)
    } else {
        match binary(ts, pos, level + 1) {
            Err(f) => Err(f),
            Ok((left, next)) => if moved(ts, pos, next) {
                binary_rest(ts, next, level, left)
            } else {
                Ok((left, next))
            },
        }
    }
}

/// The rest of a chain: as long as an operator of the level follows, one more operand.
pub open spec fn binary_rest(ts: Seq<TokenView>, pos: int, level: nat, left: ExprView) -> Parsed<
    ExprView,
>
    decreases remaining(ts, pos), 6nat,
{
    match level_operator(level, token_at(ts, pos)) {
        None => Ok((left, pos)),
        Some(operator) => match binary(ts, pos + 1, level + 1) {
            Err(f) => Err(f),
            Ok((right, next)) => {
                let joined = ExprView::Binary {
                    left: Box::new(left),
                    operator,
                    right: Box::new(right),
                };
                if moved(ts, pos, next) {
                    binary_rest(ts, next, level, joined)
                } else {
                    Ok((joined, next))
                }
            },
        },
    }
}

/// A primary: a number, a string, a name, a call, or an expression in parentheses.
pub open spec fn primary(ts: Seq<TokenView>, pos: int) -> Parsed<ExprView>
    decreases remaining(ts, pos), 0nat,
{
    match token_at(ts, pos) {
        TokenView::Number(n) => Ok((ExprView::Number(n), pos + 1)),
        TokenView::String(s) => Ok((ExprView::String(s), pos + 1)),
        TokenView::Identifier(name) => if token_at(ts, pos + 1) == TokenView::LParen {
            // A call: the arguments, and the semicolon that has to follow them.
            match arguments(ts, pos + 2) {
                Err(f) => Err(f),
                Ok((args, next)) => match expect(ts, next, TokenView::Semicolon) {
                    Err(f) => Err(f),
                    Ok(end) => Ok((ExprView::Call { name, args }, end)),
                },
            }
        } else {
            Ok((ExprView::Identifier(name), pos + 1))
        },
        TokenView::LParen => match expression(ts, pos + 1) {
            Err(f) => Err(f),
            Ok((inner, next)) => match expect(ts, next, TokenView::RParen) {
                Err(f) => Err(f),
                Ok(end) => Ok((inner, end)),
            },
        },
        other => Err(Failure { error: ErrorView::InvalidStatement(other), at: pos }),
    }
}

/// The arguments of a call, from the token after `(` up to and with `)`.
pub open spec fn arguments(ts: Seq<TokenView>, pos: int) -> Parsed<Seq<ExprView>>
    decreases remaining(ts, pos), 8nat,
{
    if token_at(ts, pos) == TokenView::RParen {
        Ok((Seq::empty(), pos + 1))
    } else {
        arguments_rest(ts, pos, Seq::empty())
    }
}

/// One more argument after those in `done`, then `,` and the rest, or `)`.
pub open spec fn arguments_rest(ts: Seq<TokenView>, pos: int, done: Seq<ExprView>) -> Parsed<
    Seq<ExprView>,
>
    decreases remaining(ts, pos), 7nat,
{
    match expression(ts, pos) {
        Err(f) => Err(f),
        Ok((argument, next)) => if token_at(ts, next) == TokenView::Comma && moved(ts, pos, next) {
            arguments_rest(ts, next + 1, done.push(argument))
        } else if token_at(ts, next) == TokenView::RParen {
            Ok((done.push(argument), next + 1))
        } else {
            Err(malformed("Expected ',' or ')' after argument"@, next))
        },
    }
}

/// An expression between `(` and `)`.
pub open spec fn condition(ts: Seq<TokenView>, pos: int) -> Parsed<ExprView> {
    match expect(ts, pos, TokenView::LParen) {
        Err(f) => Err(f),
        Ok(inside) => match expression(ts, inside) {
            Err(f) => Err(f),
            Ok((e, next)) => match expect(ts, next, TokenView::RParen) {
                Err(f) => Err(f),
                Ok(end) => Ok((e, end)),
            },
        },
    }
}

/// A binding: `let`, the type tag, the name, `=`, the value, `;`.
pub open spec fn let_statement(ts: Seq<TokenView>, pos: int) -> Parsed<StmtView> {
    match expect(ts, pos, TokenView::Let) {
        Err(f) => Err(f),
        Ok(at_type) => match expect_name(
            ts,
            at_type,
            "Expected identifer (for variable type) after 'let'"@,
        ) {
            Err(f) => Err(f),
            Ok((variable_type, at_name)) => match expect_name(
                ts,
                at_name,
                "Expected identifer after 'let'"@,
            ) {
                Err(f) => Err(f),
                Ok((name, at_sign)) => match expect(ts, at_sign, TokenView::Assign) {
                    Err(f) => Err(f),
                    Ok(at_value) => match expression(ts, at_value) {
                        Err(f) => Err(f),
                        Ok((value, at_close)) => match expect(ts, at_close, TokenView::Semicolon) {
                            Err(f) => Err(f),
                            Ok(end) => Ok((StmtView::Let { variable_type, name, value }, end)),
                        },
                    },
                },
            },
        },
    }
}

/// The expressions of a raw instruction after those in `done`, up to `;` or the end.
pub open spec fn raw_items(ts: Seq<TokenView>, pos: int, done: Seq<ExprView>) -> Parsed<
    Seq<ExprView>,
>
    decreases remaining(ts, pos),
{
    if token_at(ts, pos) == TokenView::Semicolon || token_at(ts, pos) == TokenView::EOF {
        Ok((done, pos))
    } else {
        match expression(ts, pos) {
            Err(f) => Err(f),
            Ok((item, next)) => {
                proof {
                    lemma_expression_moves(ts, pos);
                }
                raw_items(ts, next, done.push(item))
            },
        }
    }
}

/// A raw instruction: `|>`, expressions, `;`.
pub open spec fn raw_statement(ts: Seq<TokenView>, pos: int) -> Parsed<StmtView> {
    match expect(ts, pos, TokenView::RawInstruction) {
        Err(f) => Err(f),
        Ok(at_items) => match raw_items(ts, at_items, Seq::empty()) {
            Err(f) => Err(f),
            Ok((items, at_close)) => match expect(ts, at_close, TokenView::Semicolon) {
                Err(f) => Err(f),
                Ok(end) => Ok((StmtView::RawInstruction(items), end)),
            },
        },
    }
}

/// A statement, chosen by its first token; what begins with no keyword is an expression.
pub open spec fn statement(ts: Seq<TokenView>, pos: int) -> Parsed<StmtView>
    decreases remaining(ts, pos), 2nat,
{
    match token_at(ts, pos) {
        TokenView::Function => function_statement(ts, pos),
        TokenView::Let => let_statement(ts, pos),
        TokenView::If => if_statement(ts, pos),
        TokenView::With => with_statement(ts, pos),
        TokenView::While => while_statement(ts, pos),
        TokenView::RawInstruction => raw_statement(ts, pos),
        _ => match expression(ts, pos) {
            Err(f) => Err(f),
            Ok((e, next)) => Ok((StmtView::Expression(e), next)),
        },
    }
}

/// The statements after those in `done`, up to a `}`, which is left where it is.
pub open spec fn block(ts: Seq<TokenView>, pos: int, done: Seq<StmtView>) -> Parsed<Seq<StmtView>>
    decreases remaining(ts, pos), 3nat,
{
    if token_at(ts, pos) == TokenView::RBrace {
        Ok((done, pos))
    } else {
        match statement(ts, pos) {
            Err(f) => Err(f),
            Ok((s, next)) => if moved(ts, pos, next) {
                block(ts, next, done.push(s))
            } else {
                Ok((done.push(s), next))
            },
        }
    }
}

/// Statements between `{` and `}`.
pub open spec fn body(ts: Seq<TokenView>, pos: int) -> Parsed<Seq<StmtView>>
    decreases remaining(ts, pos), 4nat,
{
    match expect(ts, pos, TokenView::LBrace) {
        Err(f) => Err(f),
        Ok(inside) => match block(ts, inside, Seq::empty()) {
            Err(f) => Err(f),
            Ok((statements, next)) => match expect(ts, next, TokenView::RBrace) {
                Err(f) => Err(f),
                Ok(end) => Ok((statements, end)),
            },
        },
    }
}

/// What follows the first block of a conditional, which began at `start`: nothing, or `else`
/// with a block, or `else` with one more conditional, which then is the whole other branch.
pub open spec fn else_branch(ts: Seq<TokenView>, start: int, pos: int) -> Parsed<
    Option<Seq<StmtView>>,
>
    decreases remaining(ts, start), 0nat,
{
    if token_at(ts, pos) == TokenView::Else && moved(ts, start, pos) {
        if token_at(ts, pos + 1) == TokenView::If {
            match if_statement(ts, pos + 1) {
                Err(f) => Err(f),
                Ok((nested, end)) => Ok((Some(seq![nested]), end)),
            }
        } else {
            match body(ts, pos + 1) {
                Err(f) => Err(f),
                Ok((other, end)) => Ok((Some(other), end)),
            }
        }
    } else {
        Ok((None, pos))
    }
}

/// A conditional: `if`, the type tag, the condition, a block, and what follows it.
pub open spec fn if_statement(ts: Seq<TokenView>, pos: int) -> Parsed<StmtView>
    decreases remaining(ts, pos), 1nat,
{
    match expect(ts, pos, TokenView::If) {
        Err(f) => Err(f),
        Ok(at_type) => match expect_name(
            ts,
            at_type,
            "Expected identifer (for comparison type) after 'if'"@,
        ) {
            Err(f) => Err(f),
            Ok((condition_type, at_test)) => match condition(ts, at_test) {
                Err(f) => Err(f),
                Ok((test, at_block)) => {
                    proof {
                        lemma_condition_moves(ts, at_test);
                    }
                    match body(ts, at_block) {
                        Err(f) => Err(f),
                        Ok((then_branch, at_rest)) => match else_branch(ts, pos, at_rest) {
                            Err(f) => Err(f),
                            Ok((other, end)) => Ok(
                                (
                                    StmtView::If {
                                        condition_type,
                                        condition: test,
                                        then_branch,
                                        else_branch: other,
                                    },
                                    end,
                                ),
                            ),
                        },
                    }
                },
            },
        },
    }
}

/// A block for one operating system: `with`, the name of the system, a block.
pub open spec fn with_statement(ts: Seq<TokenView>, pos: int) -> Parsed<StmtView>
    decreases remaining(ts, pos), 1nat,
{
    match expect(ts, pos, TokenView::With) {
        Err(f) => Err(f),
        Ok(at_name) => match expect_name(ts, at_name, "Expected identifier after 'with'"@) {
            Err(f) => Err(f),
            Ok((os, at_block)) => match body(ts, at_block) {
                Err(f) => Err(f),
                Ok((statements, end)) => Ok((StmtView::With { os, body: statements }, end)),
            },
        },
    }
}

/// A loop: `while`, the type tag, the condition, a block.
pub open spec fn while_statement(ts: Seq<TokenView>, pos: int) -> Parsed<StmtView>
    decreases remaining(ts, pos), 1nat,
{
    match expect(ts, pos, TokenView::While) {
        Err(f) => Err(f),
        Ok(at_type) => match expect_name(
            ts,
            at_type,
            "Expected identifer (for comparison type) after 'with'"@,
        ) {
            Err(f) => Err(f),
            Ok((condition_type, at_test)) => match condition(ts, at_test) {
                Err(f) => Err(f),
                Ok((test, at_block)) => {
                    proof {
                        lemma_condition_moves(ts, at_test);
                    }
                    match body(ts, at_block) {
                        Err(f) => Err(f),
                        Ok((statements, end)) => Ok(
                            (
                                StmtView::While {
                                    condition_type,
                                    condition: test,
                                    body: statements,
                                },
                                end,
                            ),
                        ),
                    }
                },
            },
        },
    }
}

/// A function declaration: `fn`, the name, the parameters in parentheses, a block. An empty
/// list of parameters is no list.
pub open spec fn function_statement(ts: Seq<TokenView>, pos: int) -> Parsed<StmtView>
    decreases remaining(ts, pos), 1nat,
{
    match expect(ts, pos, TokenView::Function) {
        Err(f) => Err(f),
        Ok(at_name) => match expect_name(ts, at_name, "Expected identifer after 'fn'"@) {
            Err(f) => Err(f),
            Ok((name, at_list)) => match expect(ts, at_list, TokenView::LParen) {
                Err(f) => Err(f),
                Ok(at_first) => match arguments(ts, at_first) {
                    Err(f) => Err(f),
                    Ok((parameters, at_block)) => {
                        proof {
                            lemma_arguments_moves(ts, at_first);
                        }
                        match body(ts, at_block) {
                            Err(f) => Err(f),
                            Ok((statements, end)) => Ok(
                                (
                                    StmtView::Function {
                                        name,
                                        arguments: if parameters.len() == 0 {
                                            None
                                        } else {
                                            Some(parameters)
                                        },
                                        body: statements,
                                    },
                                    end,
                                ),
                            ),
                        }
                    },
                },
            },
        },
    }
}

/// The statements of a program after those in `done`, up to the end of the stream.
pub open spec fn program(ts: Seq<TokenView>, pos: int, done: Seq<StmtView>) -> Parsed<
    Seq<StmtView>,
>
    decreases remaining(ts, pos),
{
    if token_at(ts, pos) == TokenView::EOF {
        Ok((done, pos))
    } else {
        match statement(ts, pos) {
            Err(f) => Err(f),
            Ok((s, next)) => {
                proof {
                    lemma_statement_moves(ts, pos);
                }
                program(ts, next, done.push(s))
            },
        }
    }
}

/// The statements of a whole token sequence.
pub open spec fn statements_of(ts: Seq<TokenView>) -> Result<Seq<StmtView>, ErrorView> {
    match program(ts, 0, Seq::empty()) {
        Ok((statements, _)) => Ok(statements),
        Err(f) => Err(f.error),
    }
}

/// An expression that is parsed reads at least one token.
pub proof fn lemma_expression_moves(ts: Seq<TokenView>, pos: int)
    requires
        0 <= pos,
    ensures
        expression(ts, pos) matches Ok((_, next)) ==> moved(ts, pos, next),
    decreases remaining(ts, pos), 6nat,
{
    lemma_binary_moves(ts, pos, 0);
}

pub proof fn lemma_binary_moves(ts: Seq<TokenView>, pos: int, level: nat)
    requires
        0 <= pos,
    ensures
        binary(ts, pos, level) matches Ok((_, next)) ==> moved(ts, pos, next),
    decreases remaining(ts, pos), level_rank(level),
{
    if level >= levels() {
        lemma_primary_moves(ts, pos);
    } else {
        lemma_binary_moves(ts, pos, level + 1);
        match binary(ts, pos, level + 1) {
            Err(f) => {},
            Ok((left, next)) => {
                lemma_binary_rest_moves(ts, next, level, left);
            },
        }
    }
}

pub proof fn lemma_binary_rest_moves(ts: Seq<TokenView>, pos: int, level: nat, left: ExprView)
    requires
        0 <= pos <= ts.len(),
    ensures
        binary_rest(ts, pos, level, left) matches Ok((_, next)) ==> pos <= next <= ts.len(),
    decreases remaining(ts, pos), 6nat,
{
    match level_operator(level, token_at(ts, pos)) {
        None => {},
        Some(operator) => {
            lemma_binary_moves(ts, pos + 1, level + 1);
            match binary(ts, pos + 1, level + 1) {
                Err(f) => {},
                Ok((right, next)) => {
                    let joined = ExprView::Binary {
                        left: Box::new(left),
                        operator,
                        right: Box::new(right),
                    };
                    lemma_binary_rest_moves(ts, next, level, joined);
                },
            }
        },
    }
}

pub proof fn lemma_primary_moves(ts: Seq<TokenView>, pos: int)
    requires
        0 <= pos,
    ensures
        primary(ts, pos) matches Ok((_, next)) ==> moved(ts, pos, next),
    decreases remaining(ts, pos), 0nat,
{
    match token_at(ts, pos) {
        TokenView::Identifier(name) => {
            if token_at(ts, pos + 1) == TokenView::LParen {
                lemma_arguments_moves(ts, pos + 2);
            }
        },
        TokenView::LParen => {
            lemma_expression_moves(ts, pos + 1);
        },
        _ => {},
    }
}

/// The arguments of a call that are parsed read at least one token.
pub proof fn lemma_arguments_moves(ts: Seq<TokenView>, pos: int)
    requires
        0 <= pos,
    ensures
        arguments(ts, pos) matches Ok((_, next)) ==> moved(ts, pos, next),
    decreases remaining(ts, pos), 8nat,
{
    if token_at(ts, pos) != TokenView::RParen {
        lemma_arguments_rest_moves(ts, pos, Seq::empty());
    }
}

pub proof fn lemma_arguments_rest_moves(ts: Seq<TokenView>, pos: int, done: Seq<ExprView>)
    requires
        0 <= pos,
    ensures
        arguments_rest(ts, pos, done) matches Ok((_, next)) ==> moved(ts, pos, next),
    decreases remaining(ts, pos), 7nat,
{
    lemma_expression_moves(ts, pos);
    match expression(ts, pos) {
        Err(f) => {},
        Ok((argument, next)) => {
            if token_at(ts, next) == TokenView::Comma && moved(ts, pos, next) {
                lemma_arguments_rest_moves(ts, next + 1, done.push(argument));
            }
        },
    }
}

/// A condition that is parsed reads at least one token.
pub proof fn lemma_condition_moves(ts: Seq<TokenView>, pos: int)
    requires
        0 <= pos,
    ensures
        condition(ts, pos) matches Ok((_, next)) ==> moved(ts, pos, next),
{
    if token_at(ts, pos) == TokenView::LParen {
        lemma_expression_moves(ts, pos + 1);
    }
}

/// The items of a raw instruction end at or after their start, within the tokens.
pub proof fn lemma_raw_items_moves(ts: Seq<TokenView>, pos: int, done: Seq<ExprView>)
    requires
        0 <= pos <= ts.len(),
    ensures
        raw_items(ts, pos, done) matches Ok((_, next)) ==> pos <= next <= ts.len(),
    decreases remaining(ts, pos),
{
    if !(token_at(ts, pos) == TokenView::Semicolon || token_at(ts, pos) == TokenView::EOF) {
        lemma_expression_moves(ts, pos);
        match expression(ts, pos) {
            Err(f) => {},
            Ok((item, next)) => {
                lemma_raw_items_moves(ts, next, done.push(item));
            },
        }
    }
}

/// A statement that is parsed reads at least one token.
pub proof fn lemma_statement_moves(ts: Seq<TokenView>, pos: int)
    requires
        0 <= pos,
    ensures
        statement(ts, pos) matches Ok((_, next)) ==> moved(ts, pos, next),
    decreases remaining(ts, pos), 2nat,
{
    match token_at(ts, pos) {
        TokenView::Function => {
            lemma_function_moves(ts, pos);
        },
        TokenView::Let => {
            lemma_expression_moves(ts, pos + 4);
        },
        TokenView::If => {
            lemma_if_moves(ts, pos);
        },
        TokenView::With => {
            lemma_body_moves(ts, pos + 2);
        },
        TokenView::While => {
            lemma_condition_moves(ts, pos + 2);
            match condition(ts, pos + 2) {
                Err(f) => {},
                Ok((test, at_block)) => {
                    lemma_body_moves(ts, at_block);
                },
            }
        },
        TokenView::RawInstruction => {
            lemma_raw_items_moves(ts, pos + 1, Seq::empty());
        },
        _ => {
            lemma_expression_moves(ts, pos);
        },
    }
}

pub proof fn lemma_block_moves(ts: Seq<TokenView>, pos: int, done: Seq<StmtView>)
    requires
        0 <= pos <= ts.len(),
    ensures
        block(ts, pos, done) matches Ok((_, next)) ==> pos <= next <= ts.len(),
    decreases remaining(ts, pos), 3nat,
{
    if token_at(ts, pos) != TokenView::RBrace {
        lemma_statement_moves(ts, pos);
        match statement(ts, pos) {
            Err(f) => {},
            Ok((s, next)) => {
                lemma_block_moves(ts, next, done.push(s));
            },
        }
    }
}

pub proof fn lemma_body_moves(ts: Seq<TokenView>, pos: int)
    requires
        0 <= pos,
    ensures
        body(ts, pos) matches Ok((_, next)) ==> moved(ts, pos, next),
    decreases remaining(ts, pos), 4nat,
{
    if token_at(ts, pos) == TokenView::LBrace {
        lemma_block_moves(ts, pos + 1, Seq::empty());
    }
}

pub proof fn lemma_else_moves(ts: Seq<TokenView>, start: int, pos: int)
    requires
        0 <= start,
        moved(ts, start, pos),
    ensures
        else_branch(ts, start, pos) matches Ok((_, next)) ==> pos <= next <= ts.len(),
    decreases remaining(ts, start), 0nat,
{
    if token_at(ts, pos) == TokenView::Else {
        if token_at(ts, pos + 1) == TokenView::If {
            lemma_if_moves(ts, pos + 1);
        } else {
            lemma_body_moves(ts, pos + 1);
        }
    }
}

pub proof fn lemma_if_moves(ts: Seq<TokenView>, pos: int)
    requires
        0 <= pos,
    ensures
        if_statement(ts, pos) matches Ok((_, next)) ==> moved(ts, pos, next),
    decreases remaining(ts, pos), 1nat,
{
    if token_at(ts, pos) == TokenView::If {
        if token_at(ts, pos + 1) is Identifier {
            lemma_condition_moves(ts, pos + 2);
            match condition(ts, pos + 2) {
                Err(f) => {},
                Ok((test, at_block)) => {
                    lemma_body_moves(ts, at_block);
                    match body(ts, at_block) {
                        Err(f) => {},
                        Ok((then_branch, at_rest)) => {
                            lemma_else_moves(ts, pos, at_rest);
                        },
                    }
                },
            }
        }
    }
}

pub proof fn lemma_function_moves(ts: Seq<TokenView>, pos: int)
    requires
        0 <= pos,
    ensures
        function_statement(ts, pos) matches Ok((_, next)) ==> moved(ts, pos, next),
    decreases remaining(ts, pos), 1nat,
{
    if token_at(ts, pos) == TokenView::Function {
        if token_at(ts, pos + 1) is Identifier {
            if token_at(ts, pos + 2) == TokenView::LParen {
                lemma_arguments_moves(ts, pos + 3);
                match arguments(ts, pos + 3) {
                    Err(f) => {},
                    Ok((parameters, at_block)) => {
                        lemma_body_moves(ts, at_block);
                    },
                }
            }
        }
    }
}

/// An operand chain fails where its first primary fails, with the same failure.
pub proof fn lemma_primary_failure_is_kept(ts: Seq<TokenView>, pos: int, level: nat)
    requires
        primary(ts, pos) is Err,
    ensures
        binary(ts, pos, level) == primary(ts, pos),
    decreases level_rank(level),
{
    if level < levels() {
        lemma_primary_failure_is_kept(ts, pos, level + 1);
    }
}

/// A call has to be followed by a semicolon at once. Where a name, `(` and arguments up to `)`
/// are followed by another token, as they are inside a larger expression or in a list of
/// arguments, the expression that begins with the name fails on that token.
pub proof fn lemma_call_needs_semicolon(ts: Seq<TokenView>, pos: int)
    requires
        token_at(ts, pos) is Identifier,
        token_at(ts, pos + 1) == TokenView::LParen,
        arguments(ts, pos + 2) is Ok,
        token_at(ts, arguments(ts, pos + 2)->Ok_0.1) != TokenView::Semicolon,
    ensures
        expression(ts, pos) == Err::<(ExprView, int), Failure>(
            Failure {
                error: ErrorView::UnexpectedToken(
                    TokenView::Semicolon,
                    token_at(ts, arguments(ts, pos + 2)->Ok_0.1),
                ),
                at: arguments(ts, pos + 2)->Ok_0.1,
            },
        ),
{
    lemma_primary_failure_is_kept(ts, pos, 0);
}

/// A program that is parsed is read up to the end of the stream, and holds the statements that
/// were there before in front of those that were read.
pub proof fn lemma_program_reads_to_end(ts: Seq<TokenView>, pos: int, done: Seq<StmtView>)
    requires
        0 <= pos,
    ensures
        program(ts, pos, done) matches Ok((statements, next)) ==> {
            &&& token_at(ts, next) == TokenView::EOF
            &&& pos <= next
            &&& done.len() <= statements.len()
            &&& statements.take(done.len() as int) == done
        },
    decreases remaining(ts, pos),
{
    if token_at(ts, pos) == TokenView::EOF {
        assert(done.take(done.len() as int) =~= done);
    } else {
        lemma_statement_moves(ts, pos);
        match statement(ts, pos) {
            Err(f) => {},
            Ok((s, next)) => {
                lemma_program_reads_to_end(ts, next, done.push(s));
                match program(ts, next, done.push(s)) {
                    Ok((statements, end)) => {
                        assert(statements.take(done.len() as int) =~= statements.take(
                            done.len() as int + 1,
                        ).take(done.len() as int));
                        assert(done.push(s).take(done.len() as int) =~= done);
                    },
                    Err(f) => {},
                }
            },
        }
    }
}

/// A token that is no operator ends every chain.
proof fn lemma_chain_ends(ts: Seq<TokenView>, pos: int, level: nat, left: ExprView)
    requires
        binary_op(token_at(ts, pos)) is None,
    ensures
        binary_rest(ts, pos, level, left) == Ok::<(ExprView, int), Failure>((left, pos)),
{
}

/// A number that is followed by no operator of a level or a tighter one is an operand of that
/// level.
proof fn lemma_number_operand(ts: Seq<TokenView>, pos: int, level: nat, n: Seq<char>)
    requires
        0 <= pos < ts.len(),
        ts[pos] == TokenView::Number(n),
        match binary_op(token_at(ts, pos + 1)) {
            Some(op) => precedence(op) < level,
            None => true,
        },
    ensures
        binary(ts, pos, level) == Ok::<(ExprView, int), Failure>((ExprView::Number(n), pos + 1)),
    decreases level_rank(level),
{
    let operand = ExprView::Number(n);
    if level < levels() {
        lemma_number_operand(ts, pos, level + 1, n);
        assert(moved(ts, pos, pos + 1));
        assert(level_operator(level, token_at(ts, pos + 1)) is None);
        assert(binary_rest(ts, pos + 1, level, operand) == Ok::<(ExprView, int), Failure>(
            (operand, pos + 1),
        ));
    } else {
        assert(token_at(ts, pos) == TokenView::Number(n));
        assert(primary(ts, pos) == Ok::<(ExprView, int), Failure>((operand, pos + 1)));
    }
}

/// A sum binds tighter than an equality: `x + y == z` is the equality of the sum `x + y`
/// with `z`, whatever the three numbers are.
pub proof fn lemma_sum_binds_tighter_than_equality(x: Seq<char>, y: Seq<char>, z: Seq<char>)
    ensures
        statements_of(
            seq![
                TokenView::Number(x),
                TokenView::Plus,
                TokenView::Number(y),
                TokenView::Equal,
                TokenView::Number(z),
                TokenView::EOF,
            ],
        ) == Ok::<Seq<StmtView>, ErrorView>(
            seq![
                StmtView::Expression(
                    ExprView::Binary {
                        left: Box::new(
                            ExprView::Binary {
                                left: Box::new(ExprView::Number(x)),
                                operator: BinaryOp::Add,
                                right: Box::new(ExprView::Number(y)),
                            },
                        ),
                        operator: BinaryOp::Equal,
                        right: Box::new(ExprView::Number(z)),
                    },
                ),
            ],
        ),
{
    let ts = seq![
        TokenView::Number(x),
        TokenView::Plus,
        TokenView::Number(y),
        TokenView::Equal,
        TokenView::Number(z),
        TokenView::EOF,
    ];
    let sum = ExprView::Binary {
        left: Box::new(ExprView::Number(x)),
        operator: BinaryOp::Add,
        right: Box::new(ExprView::Number(y)),
    };
    let whole = ExprView::Binary {
        left: Box::new(sum),
        operator: BinaryOp::Equal,
        right: Box::new(ExprView::Number(z)),
    };
    // The operands of the sum, at the level of products.
    lemma_number_operand(ts, 0, 3, x);
    lemma_number_operand(ts, 2, 3, y);
    // The sum: x, then `+ y`, then `==` ends the chain of level 2.
    assert(binary_rest(ts, 3, 2, sum) == Ok::<(ExprView, int), Failure>((sum, 3)));
    assert(binary_rest(ts, 1, 2, ExprView::Number(x)) == Ok::<(ExprView, int), Failure>((sum, 3)));
    assert(binary(ts, 0, 2) == Ok::<(ExprView, int), Failure>((sum, 3)));
    // No relation follows the sum.
    assert(binary_rest(ts, 3, 1, sum) == Ok::<(ExprView, int), Failure>((sum, 3)));
    assert(binary(ts, 0, 1) == Ok::<(ExprView, int), Failure>((sum, 3)));
    // The equality: the sum, then `== z`, then the end.
    lemma_number_operand(ts, 4, 1, z);
    lemma_chain_ends(ts, 5, 0, whole);
    assert(binary_rest(ts, 3, 0, sum) == Ok::<(ExprView, int), Failure>((whole, 5)));
    assert(binary(ts, 0, 0) == Ok::<(ExprView, int), Failure>((whole, 5)));
    assert(expression(ts, 0) == Ok::<(ExprView, int), Failure>((whole, 5)));
    let one = StmtView::Expression(whole);
    assert(statement(ts, 0) == Ok::<(StmtView, int), Failure>((one, 5)));
    assert(program(ts, 5, Seq::empty().push(one)) == Ok::<(Seq<StmtView>, int), Failure>(
        (Seq::empty().push(one), 5),
    ));
    assert(program(ts, 0, Seq::empty()) == Ok::<(Seq<StmtView>, int), Failure>(
        (Seq::empty().push(one), 5),
    ));
    assert(Seq::<StmtView>::empty().push(one) =~= seq![one]);
}

} // verus!
