//! The tokenizer: characters in, lexical tokens out.

use vstd::prelude::*;
use crate::error::RosellaError;
use crate::number::{run_value, Number};
use crate::scanning::{
    after, char_at, comment_close, identifier_end, lemma_comment_close, lemma_identifier_end,
    lemma_number_end, lemma_quote_index, lemma_step_advances, number_end, open_comment,
    open_string, punctuation_step, quote_index, scan, tokens_of, word_token, Scan, Step,
};
use crate::text::{
    continues_identifier, continues_number, is_digit, is_punctuation, is_whitespace, same_text,
    starts_identifier, to_chars, to_text,
};

verus! {

/// A lexical token.
#[derive(Debug, PartialEq)]
pub enum Token {
    /// The keyword `fn`.
    Function,
    /// The keyword `let`.
    Let,
    /// The keyword `if`.
    If,
    /// The keyword `else`.
    Else,
    /// The keyword `with`.
    With,
    /// The keyword `while`.
    While,
    /// A numeric literal.
    Number(Number),
    /// A string literal, without its quotes.
    String(String),
    /// A name.
    Identifier(String),
    /// `=`.
    Assign,
    /// `+`.
    Plus,
    /// `-`.
    Minus,
    /// `*`.
    Multiply,
    /// `/`.
    Divide,
    /// `==`.
    Equal,
    /// `!=`.
    NotEqual,
    /// `<`.
    LessThan,
    /// `>`.
    GreaterThan,
    /// `<=`.
    LessThanEq,
    /// `>=`.
    GreaterThanEq,
    /// `|>`.
    RawInstruction,
    /// `(`.
    LParen,
    /// `)`.
    RParen,
    /// `{`.
    LBrace,
    /// `}`.
    RBrace,
    /// `[`.
    LBraceSquare,
    /// `]`.
    RBraceSquare,
    /// `,`.
    Comma,
    /// `;`.
    Semicolon,
    /// The end of the stream.
    EOF,
}

/// The mathematical value of a token: the same variants over plain text.
pub enum TokenView {
    Function,
    Let,
    If,
    Else,
    With,
    While,
    Number(Seq<char>),
    String(Seq<char>),
    Identifier(Seq<char>),
    Assign,
    Plus,
    Minus,
    Multiply,
    Divide,
    Equal,
    NotEqual,
    LessThan,
    GreaterThan,
    LessThanEq,
    GreaterThanEq,
    RawInstruction,
    LParen,
    RParen,
    LBrace,
    RBrace,
    LBraceSquare,
    RBraceSquare,
    Comma,
    Semicolon,
    EOF,
}

impl View for Token {
    type V = TokenView;

    open spec fn view(&self) -> TokenView {
        match self {
            Token::Function => TokenView::Function,
            Token::Let => TokenView::Let,
            Token::If => TokenView::If,
            Token::Else => TokenView::Else,
            Token::With => TokenView::With,
            Token::While => TokenView::While,
            Token::Number(n) => TokenView::Number(n@),
            Token::String(s) => TokenView::String(s@),
            Token::Identifier(s) => TokenView::Identifier(s@),
            Token::Assign => TokenView::Assign,
            Token::Plus => TokenView::Plus,
            Token::Minus => TokenView::Minus,
            Token::Multiply => TokenView::Multiply,
            Token::Divide => TokenView::Divide,
            Token::Equal => TokenView::Equal,
            Token::NotEqual => TokenView::NotEqual,
            Token::LessThan => TokenView::LessThan,
            Token::GreaterThan => TokenView::GreaterThan,
            Token::LessThanEq => TokenView::LessThanEq,
            Token::GreaterThanEq => TokenView::GreaterThanEq,
            Token::RawInstruction => TokenView::RawInstruction,
            Token::LParen => TokenView::LParen,
            Token::RParen => TokenView::RParen,
            Token::LBrace => TokenView::LBrace,
            Token::RBrace => TokenView::RBrace,
            Token::LBraceSquare => TokenView::LBraceSquare,
            Token::RBraceSquare => TokenView::RBraceSquare,
            Token::Comma => TokenView::Comma,
            Token::Semicolon => TokenView::Semicolon,
            Token::EOF => TokenView::EOF,
        }
    }
}

impl Clone for Token {
    fn clone(&self) -> (r: Self)
        ensures
            r@ == self@,
    {
        match self {
            Token::Function => Token::Function,
            Token::Let => Token::Let,
            Token::If => Token::If,
            Token::Else => Token::Else,
            Token::With => Token::With,
            Token::While => Token::While,
            Token::Number(n) => Token::Number(n.clone()),
            Token::String(s) => Token::String(s.clone()),
            Token::Identifier(s) => Token::Identifier(s.clone()),
            Token::Assign => Token::Assign,
            Token::Plus => Token::Plus,
            Token::Minus => Token::Minus,
            Token::Multiply => Token::Multiply,
            Token::Divide => Token::Divide,
            Token::Equal => Token::Equal,
            Token::NotEqual => Token::NotEqual,
            Token::LessThan => Token::LessThan,
            Token::GreaterThan => Token::GreaterThan,
            Token::LessThanEq => Token::LessThanEq,
            Token::GreaterThanEq => Token::GreaterThanEq,
            Token::RawInstruction => Token::RawInstruction,
            Token::LParen => Token::LParen,
            Token::RParen => Token::RParen,
            Token::LBrace => Token::LBrace,
            Token::RBrace => Token::RBrace,
            Token::LBraceSquare => Token::LBraceSquare,
            Token::RBraceSquare => Token::RBraceSquare,
            Token::Comma => Token::Comma,
            Token::Semicolon => Token::Semicolon,
            Token::EOF => Token::EOF,
        }
    }
}

impl Token {
    /// Whether two tokens are the same variant with the same text.
    pub fn same_as(&self, other: &Token) -> (r: bool)
        ensures
            r == (self@ == other@),
    {
        match (self, other) {
            (Token::Function, Token::Function) => true,
            (Token::Let, Token::Let) => true,
            (Token::If, Token::If) => true,
            (Token::Else, Token::Else) => true,
            (Token::With, Token::With) => true,
            (Token::While, Token::While) => true,
            (Token::Number(a), Token::Number(b)) => same_text(a.as_str(), b.as_str()),
            (Token::String(a), Token::String(b)) => same_text(a.as_str(), b.as_str()),
            (Token::Identifier(a), Token::Identifier(b)) => same_text(a.as_str(), b.as_str()),
            (Token::Assign, Token::Assign) => true,
            (Token::Plus, Token::Plus) => true,
            (Token::Minus, Token::Minus) => true,
            (Token::Multiply, Token::Multiply) => true,
            (Token::Divide, Token::Divide) => true,
            (Token::Equal, Token::Equal) => true,
            (Token::NotEqual, Token::NotEqual) => true,
            (Token::LessThan, Token::LessThan) => true,
            (Token::GreaterThan, Token::GreaterThan) => true,
            (Token::LessThanEq, Token::LessThanEq) => true,
            (Token::GreaterThanEq, Token::GreaterThanEq) => true,
            (Token::RawInstruction, Token::RawInstruction) => true,
            (Token::LParen, Token::LParen) => true,
            (Token::RParen, Token::RParen) => true,
            (Token::LBrace, Token::LBrace) => true,
            (Token::RBrace, Token::RBrace) => true,
            (Token::LBraceSquare, Token::LBraceSquare) => true,
            (Token::RBraceSquare, Token::RBraceSquare) => true,
            (Token::Comma, Token::Comma) => true,
            (Token::Semicolon, Token::Semicolon) => true,
            (Token::EOF, Token::EOF) => true,
            _ => false,
        }
    }
}

/// The values of a sequence of tokens, one for one.
pub open spec fn token_views(v: Seq<Token>) -> Seq<TokenView> {
    Seq::new(v.len(), |i: int| v[i]@)
}

/// Appending a token appends its value.
pub proof fn lemma_token_views_push(v: Seq<Token>, t: Token)
    ensures
        token_views(v.push(t)) == token_views(v).push(t@),
{
    assert(token_views(v.push(t)) =~= token_views(v).push(t@));
}

/// A scan with the values of `tokens` in front.
pub open spec fn after_all(tokens: Seq<TokenView>, rest: Scan) -> Scan {
    Scan {
        result: match rest.result {
            Ok(more) => Ok(tokens + more),
            Err(e) => Err(e),
        },
        stop: rest.stop,
    }
}

/// A token in front of a scan may as well end what stands before the scan.
proof fn lemma_after_all_push(tokens: Seq<TokenView>, token: TokenView, rest: Scan)
    ensures
        after_all(tokens, after(token, rest)) == after_all(tokens.push(token), rest),
{
    match rest.result {
        Ok(more) => {
            assert(tokens + (seq![token] + more) =~= tokens.push(token) + more);
        },
        Err(e) => {},
    }
}

/// Reads a text token by token, with one character of lookahead.
pub struct Lexer {
    input: Vec<char>,
    position: usize,
    current_character: Option<char>,
}

impl Lexer {
    /// The text that is read.
    pub closed spec fn source(&self) -> Seq<char> {
        self.input@
    }

    /// The index of the character that is read next.
    pub closed spec fn cursor(&self) -> int {
        self.position as int
    }

    /// The cursor lies within the text or at its end, and the lookahead is the character under it.
    pub closed spec fn wf(&self) -> bool {
        &&& self.position <= self.input.len()
        &&& self.current_character == char_at(self.input@, self.position as int)
    }

    /// A tokenizer at the start of `input`.
    pub fn new(input: &str) -> (lexer: Self)
        ensures
            lexer.wf(),
            lexer.source() == input@,
            lexer.cursor() == 0,
    {
        let characters = to_chars(input);
        let current = if characters.len() > 0 {
            Some(characters[0])
        } else {
            None
        };
        Lexer { input: characters, position: 0, current_character: current }
    }

    /// Moves the cursor one character on; at the end of the text it stays.
    fn advance(&mut self)
        requires
            old(self).wf(),
        ensures
            final(self).wf(),
            final(self).source() == old(self).source(),
            final(self).cursor() == if old(self).cursor() < old(self).source().len() {
                old(self).cursor() + 1
            } else {
                old(self).cursor()
            },
    {
        if self.position < self.input.len() {
            self.position += 1;
        }
        self.current_character = if self.position < self.input.len() {
            Some(self.input[self.position])
        } else {
            None
        };
    }

    /// Whether the character under the cursor is `c`.
    fn at(&self, c: char) -> (r: bool)
        requires
            self.wf(),
        ensures
            r == (char_at(self.source(), self.cursor()) == Some(c)),
    {
        match self.current_character {
            Some(ch) => ch == c,
            None => false,
        }
    }

    /// Reads the run of digits and decimal points under the cursor.
    fn read_number(&mut self) -> (number: Number)
        requires
            old(self).wf(),
        ensures
            final(self).wf(),
            final(self).source() == old(self).source(),
            final(self).cursor() == number_end(old(self).source(), old(self).cursor()),
            number@ == run_value(
                old(self).source().subrange(old(self).cursor(), final(self).cursor()),
            ),
    {
        let start = self.position;
        proof {
            lemma_number_end(self.input@, start as int);
        }
        loop
            invariant
                self.wf(),
                self.input@ == old(self).input@,
                start <= self.position <= self.input.len(),
                number_end(self.input@, start as int) == number_end(
                    self.input@,
                    self.position as int,
                ),
            ensures
                self.wf(),
                self.input@ == old(self).input@,
                start <= self.position <= self.input.len(),
                self.position == number_end(self.input@, start as int),
            decreases self.input.len() - self.position,
        {
            match self.current_character {
                Some(ch) => {
                    if continues_number(ch) {
                        self.advance();
                    } else {
                        break ;
                    }
                },
                None => {
                    break ;
                },
            }
        }
        let string = to_text(&self.input, start, self.position);
        match Number::parse(string.as_str()) {
            Some(number) => number,
            None => Number::zero(),
        }
    }

    /// Reads a string literal whose opening quote is under the cursor.
    fn read_string(&mut self) -> (r: Result<String, RosellaError>)
        requires
            old(self).wf(),
            old(self).cursor() < old(self).source().len(),
        ensures
            final(self).wf(),
            final(self).source() == old(self).source(),
            ({
                let s = old(self).source();
                let close = quote_index(s, old(self).cursor() + 1);
                if close < s.len() {
                    &&& r matches Ok(text)
                    &&& text@ == s.subrange(old(self).cursor() + 1, close)
                    &&& final(self).cursor() == close + 1
                } else {
                    &&& r matches Err(e)
                    &&& e@ == open_string()
                    &&& final(self).cursor() == s.len()
                }
            }),
    {
        // Skip the opening quote.
        self.advance();
        let start = self.position;
        proof {
            lemma_quote_index(self.input@, start as int);
        }
        loop
            invariant
                self.wf(),
                self.input@ == old(self).input@,
                start <= self.position <= self.input.len(),
                quote_index(self.input@, start as int) == quote_index(
                    self.input@,
                    self.position as int,
                ),
            ensures
                self.wf(),
                self.input@ == old(self).input@,
                start <= self.position <= self.input.len(),
                self.position == quote_index(self.input@, start as int),
            decreases self.input.len() - self.position,
        {
            match self.current_character {
                Some(ch) => {
                    if ch == '"' {
                        break ;
                    }
                    self.advance();
                },
                None => {
                    break ;
                },
            }
        }
        if self.position < self.input.len() {
            let string = to_text(&self.input, start, self.position);
            // Skip the closing quote.
            self.advance();
            Ok(string)
        } else {
            Err(RosellaError::parse("Expected \" to end string"))
        }
    }

    /// Reads the identifier or keyword whose first character is under the cursor.
    fn read_identifer(&mut self) -> (word: String)
        requires
            old(self).wf(),
            old(self).cursor() < old(self).source().len(),
        ensures
            final(self).wf(),
            final(self).source() == old(self).source(),
            final(self).cursor() == identifier_end(old(self).source(), old(self).cursor() + 1),
            word@ == old(self).source().subrange(old(self).cursor(), final(self).cursor()),
    {
        let start = self.position;
        self.advance();
        proof {
            lemma_identifier_end(self.input@, start + 1);
        }
        loop
            invariant
                self.wf(),
                self.input@ == old(self).input@,
                start < self.position <= self.input.len(),
                identifier_end(self.input@, start + 1) == identifier_end(
                    self.input@,
                    self.position as int,
                ),
            ensures
                self.wf(),
                self.input@ == old(self).input@,
                start < self.position <= self.input.len(),
                self.position == identifier_end(self.input@, start + 1),
            decreases self.input.len() - self.position,
        {
            match self.current_character {
                Some(ch) => {
                    if continues_identifier(ch) {
                        self.advance();
                    } else {
                        break ;
                    }
                },
                None => {
                    break ;
                },
            }
        }
        to_text(&self.input, start, self.position)
    }

    /// The token of a word: a keyword where the word is one, else an identifier.
    fn determine_keyword(text: String) -> (token: Token)
        ensures
            token@ == word_token(text@),
    {
        let word = text.as_str();
        if same_text(word, "fn") {
            Token::Function
        } else if same_text(word, "let") {
            Token::Let
        } else if same_text(word, "if") {
            Token::If
        } else if same_text(word, "else") {
            Token::Else
        } else if same_text(word, "with") {
            Token::With
        } else if same_text(word, "while") {
            Token::While
        } else {
            Token::Identifier(text)
        }
    }

    /// Skips a block comment; the cursor is on the `*` that opens it.
    fn consume_comment(&mut self) -> (r: Result<(), RosellaError>)
        requires
            old(self).wf(),
            old(self).cursor() < old(self).source().len(),
        ensures
            final(self).wf(),
            final(self).source() == old(self).source(),
            ({
                let s = old(self).source();
                let close = comment_close(s, old(self).cursor() + 1);
                if close < s.len() {
                    r is Ok && final(self).cursor() == close + 2
                } else {
                    &&& r matches Err(e)
                    &&& e@ == open_comment()
                    &&& final(self).cursor() == s.len()
                }
            }),
    {
        // Skip the opening `*`.
        self.advance();
        let ghost start = self.position as int;
        proof {
            lemma_comment_close(self.input@, start);
        }
        loop
            invariant
                self.wf(),
                self.input@ == old(self).input@,
                start == old(self).position + 1,
                start <= self.position <= self.input.len(),
                comment_close(self.input@, start) == comment_close(
                    self.input@,
                    self.position as int,
                ),
            decreases self.input.len() - self.position,
        {
            proof {
                lemma_comment_close(self.input@, self.position as int);
            }
            match self.current_character {
                Some(ch) => {
                    if ch == '*' {
                        self.advance();
                        if self.at('/') {
                            self.advance();
                            return Ok(());
                        }
                    } else {
                        self.advance();
                    }
                },
                None => {
                    return Err(RosellaError::parse("Expected */ to end comment"));
                },
            }
        }
    }

    /// The token that opens with the punctuation character under the cursor, or nothing where it
    /// opens a comment.
    fn determine_punctuation(&mut self, current_char: char) -> (r: Result<
        Option<Token>,
        RosellaError,
    >)
        requires
            old(self).wf(),
            char_at(old(self).source(), old(self).cursor()) == Some(current_char),
        ensures
            final(self).wf(),
            final(self).source() == old(self).source(),
            ({
                let stop = final(self).cursor();
                match punctuation_step(old(self).source(), old(self).cursor()) {
                    Step::Emit { token, next } => r matches Ok(Some(t)) && t@ == token && stop
                        == next,
                    Step::Skip { next } => r matches Ok(None) && stop == next,
                    Step::Fail { error, at } => r matches Err(e) && e@ == error && stop == at,
                }
            }),
    {
        self.advance();
        if current_char == '=' {
            if self.at('=') {
                self.advance();
                Ok(Some(Token::Equal))
            } else {
                Ok(Some(Token::Assign))
            }
        } else if current_char == '<' {
            if self.at('=') {
                self.advance();
                Ok(Some(Token::LessThanEq))
            } else {
                Ok(Some(Token::LessThan))
            }
        } else if current_char == '>' {
            if self.at('=') {
                self.advance();
                Ok(Some(Token::GreaterThanEq))
            } else {
                Ok(Some(Token::GreaterThan))
            }
        } else if current_char == '/' {
            if self.at('*') {
                self.consume_comment()?;
                Ok(None)
            } else {
                Ok(Some(Token::Divide))
            }
        } else if current_char == '+' {
            Ok(Some(Token::Plus))
        } else if current_char == '-' {
            Ok(Some(Token::Minus))
        } else if current_char == '*' {
            Ok(Some(Token::Multiply))
        } else if current_char == '(' {
            Ok(Some(Token::LParen))
        } else if current_char == ')' {
            Ok(Some(Token::RParen))
        } else if current_char == '{' {
            Ok(Some(Token::LBrace))
        } else if current_char == '}' {
            Ok(Some(Token::RBrace))
        } else if current_char == '[' {
            Ok(Some(Token::LBraceSquare))
        } else if current_char == ']' {
            Ok(Some(Token::RBraceSquare))
        } else if current_char == ',' {
            Ok(Some(Token::Comma))
        } else if current_char == ';' {
            Ok(Some(Token::Semicolon))
        } else {
            Err(RosellaError::InvalidPunctuation(Some(current_char)))
        }
    }

    /// Reads the text from the cursor to its end and returns the tokens in order; the last of them,
    /// and only the last, is the end-of-stream token. The first character that fits no token ends
    /// the run with its error.
    pub fn tokenise(&mut self) -> (r: Result<Vec<Token>, RosellaError>)
        requires
            old(self).wf(),
        ensures
            final(self).wf(),
            final(self).source() == old(self).source(),
            final(self).cursor() == scan(old(self).source(), old(self).cursor()).stop,
            match scan(old(self).source(), old(self).cursor()).result {
                Ok(tokens) => r matches Ok(v) && token_views(v@) == tokens,
                Err(error) => r matches Err(e) && e@ == error,
            },
            old(self).cursor() == 0 ==> match tokens_of(old(self).source()) {
                Ok(tokens) => r matches Ok(v) && token_views(v@) == tokens,
                Err(error) => r matches Err(e) && e@ == error,
            },
    {
        let mut tokens: Vec<Token> = Vec::new();
        let ghost whole = scan(self.input@, self.position as int);
        assert(after_all(token_views(tokens@), whole) == whole) by {
            match whole.result {
                Ok(more) => {
                    assert(token_views(tokens@) + more =~= more);
                },
                Err(e) => {},
            }
        }
        loop
            invariant
                self.wf(),
                self.input@ == old(self).input@,
                whole == scan(old(self).input@, old(self).position as int),
                whole == after_all(token_views(tokens@), scan(self.input@, self.position as int)),
            decreases self.input.len() - self.position,
        {
            let ghost here = self.position as int;
            let ghost before = token_views(tokens@);
            let ch = match self.current_character {
                Some(ch) => ch,
                None => {
                    proof {
                        lemma_token_views_push(tokens@, Token::EOF);
                        assert(before + seq![TokenView::EOF] =~= before.push(TokenView::EOF));
                    }
                    tokens.push(Token::EOF);
                    return Ok(tokens);
                },
            };
            proof {
                lemma_step_advances(self.input@, here);
            }
            let token = if is_whitespace(ch) {
                self.advance();
                None
            } else if is_digit(ch) {
                Some(Token::Number(self.read_number()))
            } else if starts_identifier(ch) {
                let ident = self.read_identifer();
                Some(Self::determine_keyword(ident))
            } else if ch == '"' {
                Some(Token::String(self.read_string()?))
            } else if ch == '!' {
                self.advance();
                if self.at('=') {
                    self.advance();
                    Some(Token::NotEqual)
                } else {
                    None
                }
            } else if ch == '|' {
                self.advance();
                if self.at('>') {
                    self.advance();
                    Some(Token::RawInstruction)
                } else {
                    None
                }
            } else if is_punctuation(ch) {
                self.determine_punctuation(ch)?
            } else {
                return Err(RosellaError::InvalidToken(Some(ch)));
            };
            match token {
                Some(token) => {
                    proof {
                        lemma_token_views_push(tokens@, token);
                        lemma_after_all_push(
                            before,
                            token@,
                            scan(self.input@, self.position as int),
                        );
                    }
                    tokens.push(token);
                },
                None => {},
            }
        }
    }
}

} // verus!
