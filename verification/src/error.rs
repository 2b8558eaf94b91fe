//! The one error type of the three stages.

use vstd::prelude::*;
use crate::lexer::{Token, TokenView};

verus! {

/// What can go wrong while a program is tokenized, parsed or generated.
#[derive(Debug, PartialEq)]
pub enum RosellaError {
    /// An ASCII punctuation character that the language has no use for.
    InvalidPunctuation(Option<char>),
    /// A character that can begin no token.
    InvalidToken(Option<char>),
    /// A token that can begin neither a statement nor an expression.
    InvalidStatement(Token),
    /// A token other than the one the grammar demands here: first the expected, then the found.
    UnexpectedToken(Token, Token),
    /// A construct that is malformed or left open, with a message.
    ParseError(String),
    /// A construct that cannot be translated for the chosen target, with a message.
    CompilerError(String),
}

/// The mathematical value of an error: the same variants over plain text.
pub enum ErrorView {
    InvalidPunctuation(Option<char>),
    InvalidToken(Option<char>),
    InvalidStatement(TokenView),
    UnexpectedToken(TokenView, TokenView),
    ParseError(Seq<char>),
    CompilerError(Seq<char>),
}

impl View for RosellaError {
    type V = ErrorView;

    open spec fn view(&self) -> ErrorView {
        match self {
            RosellaError::InvalidPunctuation(c) => ErrorView::InvalidPunctuation(*c),
            RosellaError::InvalidToken(c) => ErrorView::InvalidToken(*c),
            RosellaError::InvalidStatement(t) => ErrorView::InvalidStatement(t@),
            RosellaError::UnexpectedToken(e, f) => ErrorView::UnexpectedToken(e@, f@),
            RosellaError::ParseError(m) => ErrorView::ParseError(m@),
            RosellaError::CompilerError(m) => ErrorView::CompilerError(m@),
        }
    }
}

impl Clone for RosellaError {
    fn clone(&self) -> (r: Self)
        ensures
            r@ == self@,
    {
        match self {
            RosellaError::InvalidPunctuation(c) => RosellaError::InvalidPunctuation(*c),
            RosellaError::InvalidToken(c) => RosellaError::InvalidToken(*c),
            RosellaError::InvalidStatement(t) => RosellaError::InvalidStatement(t.clone()),
            RosellaError::UnexpectedToken(e, f) => RosellaError::UnexpectedToken(
                e.clone(),
                f.clone(),
            ),
            RosellaError::ParseError(m) => RosellaError::ParseError(m.clone()),
            RosellaError::CompilerError(m) => RosellaError::CompilerError(m.clone()),
        }
    }
}

impl RosellaError {
    /// A parse error with the given message.
    pub fn parse(message: &str) -> (e: RosellaError)
        ensures
            e@ == ErrorView::ParseError(message@),
    {
        RosellaError::ParseError(String::from_str(message))
    }

    /// A compile error with the given message.
    pub fn compile(message: &str) -> (e: RosellaError)
        ensures
            e@ == ErrorView::CompilerError(message@),
    {
        RosellaError::CompilerError(String::from_str(message))
    }
}

} // verus!
