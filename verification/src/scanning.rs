//! What the tokenizer yields, stated over sequences of characters.

use vstd::prelude::*;
use crate::error::ErrorView;
use crate::lexer::TokenView;
use crate::number::run_value;
use crate::text::{
    spec_continues_identifier, spec_continues_number, spec_is_digit, spec_is_punctuation,
    spec_is_whitespace, spec_starts_identifier,
};

verus! {

/// The character at `pos`, where there is one.
pub open spec fn char_at(s: Seq<char>, pos: int) -> Option<char> {
    if 0 <= pos < s.len() {
        Some(s[pos])
    } else {
        None
    }
}

/// Where the run of digits and decimal points that holds `pos` ends.
pub open spec fn number_end(s: Seq<char>, pos: int) -> int
    decreases s.len() - pos,
{
    if 0 <= pos < s.len() && spec_continues_number(s[pos]) {
        number_end(s, pos + 1)
    } else {
        pos
    }
}

/// Where the run of identifier characters that holds `pos` ends.
pub open spec fn identifier_end(s: Seq<char>, pos: int) -> int
    decreases s.len() - pos,
{
    if 0 <= pos < s.len() && spec_continues_identifier(s[pos]) {
        identifier_end(s, pos + 1)
    } else {
        pos
    }
}

/// The index of the first double quote at or after `pos`, or the length where there is none.
pub open spec fn quote_index(s: Seq<char>, pos: int) -> int
    decreases s.len() - pos,
{
    if 0 <= pos < s.len() && s[pos] != '"' {
        quote_index(s, pos + 1)
    } else {
        pos
    }
}

/// The index of the first `*/` at or after `pos`, or the length where there is none.
pub open spec fn comment_close(s: Seq<char>, pos: int) -> int
    decreases s.len() - pos,
{
    if 0 <= pos < s.len() && !(s[pos] == '*' && char_at(s, pos + 1) == Some('/')) {
        comment_close(s, pos + 1)
    } else {
        pos
    }
}

/// The token of a word: a keyword where the word is one, else an identifier.
pub open spec fn word_token(word: Seq<char>) -> TokenView {
    if word == "fn"@ {
        TokenView::Function
    } else if word == "let"@ {
        TokenView::Let
    } else if word == "if"@ {
        TokenView::If
    } else if word == "else"@ {
        TokenView::Else
    } else if word == "with"@ {
        TokenView::With
    } else if word == "while"@ {
        TokenView::While
    } else {
        TokenView::Identifier(word)
    }
}

/// The message of a string literal that is left open.
pub open spec fn open_string() -> ErrorView {
    ErrorView::ParseError("Expected \" to end string"@)
}

/// The message of a block comment that is left open.
pub open spec fn open_comment() -> ErrorView {
    ErrorView::ParseError("Expected */ to end comment"@)
}

/// What the tokenizer does at one position.
pub enum Step {
    /// A token, and where the next one is looked for.
    Emit { token: TokenView, next: int },
    /// Nothing to emit: whitespace, a comment, a stray `!` or `|`.
    Skip { next: int },
    /// An error, and where the cursor rests.
    Fail { error: ErrorView, at: int },
}

/// An operator that may be followed by `=`: `with` where it is, `without` where it is not.
pub open spec fn with_equals(s: Seq<char>, pos: int, with: TokenView, without: TokenView) -> Step {
    if char_at(s, pos + 1) == Some('=') {
        Step::Emit { token: with, next: pos + 2 }
    } else {
        Step::Emit { token: without, next: pos + 1 }
    }
}

/// The step at a `/`: a block comment where `*` follows, else the division operator.
pub open spec fn slash_step(s: Seq<char>, pos: int) -> Step {
    if char_at(s, pos + 1) == Some('*') {
        let close = comment_close(s, pos + 2);
        if close < s.len() {
            Step::Skip { next: close + 2 }
        } else {
            Step::Fail { error: open_comment(), at: s.len() as int }
        }
    } else {
        Step::Emit { token: TokenView::Divide, next: pos + 1 }
    }
}

/// The step at a punctuation character other than `"`, `!`, `|` and `_`.
pub open spec fn punctuation_step(s: Seq<char>, pos: int) -> Step {
    let c = s[pos];
    if c == '=' {
        with_equals(s, pos, TokenView::Equal, TokenView::Assign)
    } else if c == '<' {
        with_equals(s, pos, TokenView::LessThanEq, TokenView::LessThan)
    } else if c == '>' {
        with_equals(s, pos, TokenView::GreaterThanEq, TokenView::GreaterThan)
    } else if c == '/' {
        slash_step(s, pos)
    } else {
        match single_token(c) {
            Some(token) => Step::Emit { token, next: pos + 1 },
            None => Step::Fail { error: ErrorView::InvalidPunctuation(Some(c)), at: pos + 1 },
        }
    }
}

/// The token of a punctuation character that stands for itself.
pub open spec fn single_token(c: char) -> Option<TokenView> {
    if c == '+' {
        Some(TokenView::Plus)
    } else if c == '-' {
        Some(TokenView::Minus)
    } else if c == '*' {
        Some(TokenView::Multiply)
    } else if c == '(' {
        Some(TokenView::LParen)
    } else if c == ')' {
        Some(TokenView::RParen)
    } else if c == '{' {
        Some(TokenView::LBrace)
    } else if c == '}' {
        Some(TokenView::RBrace)
    } else if c == '[' {
        Some(TokenView::LBraceSquare)
    } else if c == ']' {
        Some(TokenView::RBraceSquare)
    } else if c == ',' {
        Some(TokenView::Comma)
    } else if c == ';' {
        Some(TokenView::Semicolon)
    } else {
        None
    }
}

/// The step at a two-character operator whose first character alone means nothing.
pub open spec fn pair_step(s: Seq<char>, pos: int, second: char, token: TokenView) -> Step {
    if char_at(s, pos + 1) == Some(second) {
        Step::Emit { token, next: pos + 2 }
    } else {
        Step::Skip { next: pos + 1 }
    }
}

/// The step at a double quote: the text up to the next double quote.
pub open spec fn string_step(s: Seq<char>, pos: int) -> Step {
    let close = quote_index(s, pos + 1);
    if close < s.len() {
        Step::Emit { token: TokenView::String(s.subrange(pos + 1, close)), next: close + 1 }
    } else {
        Step::Fail { error: open_string(), at: s.len() as int }
    }
}

/// The step at position `pos` of `s`, which holds a character.
pub open spec fn step(s: Seq<char>, pos: int) -> Step {
    let c = s[pos];
    if spec_is_whitespace(c) {
        Step::Skip { next: pos + 1 }
    } else if spec_is_digit(c) {
        let end = number_end(s, pos);
        Step::Emit { token: TokenView::Number(run_value(s.subrange(pos, end))), next: end }
    } else if spec_starts_identifier(c) {
        let end = identifier_end(s, pos + 1);
        Step::Emit { token: word_token(s.subrange(pos, end)), next: end }
    } else if c == '"' {
        string_step(s, pos)
    } else if c == '!' {
        pair_step(s, pos, '=', TokenView::NotEqual)
    } else if c == '|' {
        pair_step(s, pos, '>', TokenView::RawInstruction)
    } else if spec_is_punctuation(c) {
        punctuation_step(s, pos)
    } else {
        Step::Fail { error: ErrorView::InvalidToken(Some(c)), at: pos }
    }
}

/// The tokens of a text, or the error that ended the scan; and where the cursor rests.
pub struct Scan {
    pub result: Result<Seq<TokenView>, ErrorView>,
    pub stop: int,
}

/// A scan with one more token in front.
pub open spec fn after(token: TokenView, rest: Scan) -> Scan {
    Scan {
        result: match rest.result {
            Ok(tokens) => Ok(seq![token] + tokens),
            Err(e) => Err(e),
        },
        stop: rest.stop,
    }
}

/// The scan of `s` from `pos` on. It ends with the end-of-stream token.
pub open spec fn scan(s: Seq<char>, pos: int) -> Scan
    decreases s.len() - pos,
{
    if pos < 0 || pos >= s.len() {
        Scan { result: Ok(seq![TokenView::EOF]), stop: pos }
    } else {
        proof {
            lemma_step_advances(s, pos);
        }
        match step(s, pos) {
            Step::Emit { token, next } => after(token, scan(s, next)),
            Step::Skip { next } => scan(s, next),
            Step::Fail { error, at } => Scan { result: Err(error), stop: at },
        }
    }
}

/// The tokens of a whole text.
pub open spec fn tokens_of(s: Seq<char>) -> Result<Seq<TokenView>, ErrorView> {
    scan(s, 0).result
}

/// A run ends at or after its start, within the text, at a character that does not continue it.
pub proof fn lemma_number_end(s: Seq<char>, pos: int)
    requires
        0 <= pos <= s.len(),
    ensures
        pos <= number_end(s, pos) <= s.len(),
        forall|i: int| pos <= i < number_end(s, pos) ==> spec_continues_number(s[i]),
        number_end(s, pos) < s.len() ==> !spec_continues_number(s[number_end(s, pos)]),
    decreases s.len() - pos,
{
    if pos < s.len() && spec_continues_number(s[pos]) {
        lemma_number_end(s, pos + 1);
    }
}

pub proof fn lemma_identifier_end(s: Seq<char>, pos: int)
    requires
        0 <= pos <= s.len(),
    ensures
        pos <= identifier_end(s, pos) <= s.len(),
        forall|i: int| pos <= i < identifier_end(s, pos) ==> spec_continues_identifier(s[i]),
        identifier_end(s, pos) < s.len() ==> !spec_continues_identifier(
            s[identifier_end(s, pos)],
        ),
    decreases s.len() - pos,
{
    if pos < s.len() && spec_continues_identifier(s[pos]) {
        lemma_identifier_end(s, pos + 1);
    }
}

pub proof fn lemma_quote_index(s: Seq<char>, pos: int)
    requires
        0 <= pos <= s.len(),
    ensures
        pos <= quote_index(s, pos) <= s.len(),
        forall|i: int| pos <= i < quote_index(s, pos) ==> s[i] != '"',
        quote_index(s, pos) < s.len() ==> s[quote_index(s, pos)] == '"',
    decreases s.len() - pos,
{
    if pos < s.len() && s[pos] != '"' {
        lemma_quote_index(s, pos + 1);
    }
}

pub proof fn lemma_comment_close(s: Seq<char>, pos: int)
    requires
        0 <= pos <= s.len(),
    ensures
        pos <= comment_close(s, pos) <= s.len(),
        forall|i: int|
            pos <= i < comment_close(s, pos) ==> !(s[i] == '*' && char_at(s, i + 1) == Some('/')),
        comment_close(s, pos) < s.len() ==> s[comment_close(s, pos)] == '*' && comment_close(
            s,
            pos,
        ) + 1 < s.len() && s[comment_close(s, pos) + 1] == '/',
    decreases s.len() - pos,
{
    if pos < s.len() && !(s[pos] == '*' && char_at(s, pos + 1) == Some('/')) {
        lemma_comment_close(s, pos + 1);
    }
}

/// Every step moves on: a token or a skip ends beyond its start, and nothing ends beyond the text.
pub proof fn lemma_step_advances(s: Seq<char>, pos: int)
    requires
        0 <= pos < s.len(),
    ensures
        match step(s, pos) {
            Step::Emit { next, .. } => pos < next <= s.len(),
            Step::Skip { next } => pos < next <= s.len(),
            Step::Fail { at, .. } => pos <= at <= s.len(),
        },
{
    lemma_number_end(s, pos);
    lemma_identifier_end(s, pos + 1);
    lemma_quote_index(s, pos + 1);
    if pos + 2 <= s.len() {
        lemma_comment_close(s, pos + 2);
    }
}

/// No step emits the end-of-stream token.
pub proof fn lemma_step_emits_no_end(s: Seq<char>, pos: int)
    requires
        0 <= pos < s.len(),
    ensures
        step(s, pos) matches Step::Emit { token, .. } ==> token != TokenView::EOF,
{
}

/// The tokens of a scan end with the end-of-stream token, and hold it nowhere else; and a scan
/// that yields tokens has read the text to its end.
pub proof fn lemma_scan_ends_with_end(s: Seq<char>, pos: int)
    requires
        0 <= pos <= s.len(),
    ensures
        scan(s, pos).result matches Ok(tokens) ==> {
            &&& tokens.len() >= 1
            &&& tokens.last() == TokenView::EOF
            &&& forall|i: int| 0 <= i < tokens.len() - 1 ==> tokens[i] != TokenView::EOF
            &&& scan(s, pos).stop == s.len()
        },
    decreases s.len() - pos,
{
    if pos < s.len() {
        lemma_step_advances(s, pos);
        match step(s, pos) {
            Step::Emit { token, next } => {
                lemma_step_emits_no_end(s, pos);
                lemma_scan_ends_with_end(s, next);
            },
            Step::Skip { next } => {
                lemma_scan_ends_with_end(s, next);
            },
            Step::Fail { .. } => {},
        }
    }
}

/// The tokens of a text end with the end-of-stream token, and hold it nowhere else.
pub proof fn lemma_tokens_end_with_end(s: Seq<char>)
    ensures
        tokens_of(s) matches Ok(tokens) ==> {
            &&& tokens.len() >= 1
            &&& tokens.last() == TokenView::EOF
            &&& forall|i: int| 0 <= i < tokens.len() - 1 ==> tokens[i] != TokenView::EOF
        },
{
    lemma_scan_ends_with_end(s, 0);
}

/// A run of digits and decimal points from `pos` to the end of the text ends there.
proof fn lemma_number_runs_to_end(s: Seq<char>, pos: int)
    requires
        0 <= pos <= s.len(),
        forall|i: int| pos <= i < s.len() ==> spec_continues_number(s[i]),
    ensures
        number_end(s, pos) == s.len(),
    decreases s.len() - pos,
{
    if pos < s.len() {
        lemma_number_runs_to_end(s, pos + 1);
    }
}

/// A numeric literal is tokenized to one number token with the value of the literal, followed by
/// the end of the stream.
pub proof fn lemma_literal_is_one_number(d: Seq<char>)
    requires
        crate::number::is_literal(d),
    ensures
        tokens_of(d) == Ok::<Seq<TokenView>, ErrorView>(
            seq![TokenView::Number(crate::number::canonical(d)), TokenView::EOF],
        ),
{
    assert forall|i: int| 0 <= i < d.len() implies spec_continues_number(d[i]) by {
        assert(spec_is_digit(d[i]) || d[i] == '.');
    }
    lemma_number_runs_to_end(d, 0);
    assert(d.subrange(0, d.len() as int) =~= d);
    let number = TokenView::Number(crate::number::canonical(d));
    assert(step(d, 0) == Step::Emit { token: number, next: d.len() as int });
    assert(scan(d, d.len() as int).result == Ok::<Seq<TokenView>, ErrorView>(seq![TokenView::EOF]));
    assert(seq![number] + seq![TokenView::EOF] =~= seq![number, TokenView::EOF]);
}

/// A string literal that is opened at `pos` and never closed ends the scan with an error.
pub proof fn lemma_open_string_fails(s: Seq<char>, pos: int)
    requires
        0 <= pos < s.len(),
        s[pos] == '"',
        forall|i: int| pos < i < s.len() ==> s[i] != '"',
    ensures
        scan(s, pos).result == Err::<Seq<TokenView>, ErrorView>(open_string()),
{
    lemma_quote_index(s, pos + 1);
}

/// A block comment that is opened at `pos` and never closed ends the scan with an error.
pub proof fn lemma_open_comment_fails(s: Seq<char>, pos: int)
    requires
        0 <= pos < s.len() - 1,
        s[pos] == '/',
        s[pos + 1] == '*',
        forall|i: int|
            pos + 2 <= i < s.len() ==> !(#[trigger] s[i] == '*' && char_at(s, i + 1) == Some('/')),
    ensures
        scan(s, pos).result == Err::<Seq<TokenView>, ErrorView>(open_comment()),
{
    lemma_comment_close(s, pos + 2);
}

/// What comes before an error in the text does not mend it: where the scan from `pos` on fails,
/// the scan from any earlier position that reaches `pos` fails with the same error.
pub proof fn lemma_failure_is_kept(s: Seq<char>, from: int, pos: int)
    requires
        0 <= from <= pos <= s.len(),
        reaches(s, from, pos),
        scan(s, pos).result is Err,
    ensures
        scan(s, from).result is Err,
        scan(s, from).result->Err_0 == scan(s, pos).result->Err_0,
    decreases pos - from,
{
    if from < pos {
        lemma_step_advances(s, from);
        match step(s, from) {
            Step::Emit { token, next } => {
                assert(reaches(s, next, pos));
                assert(next <= pos);
                lemma_failure_is_kept(s, next, pos);
            },
            Step::Skip { next } => {
                assert(reaches(s, next, pos));
                assert(next <= pos);
                lemma_failure_is_kept(s, next, pos);
            },
            Step::Fail { .. } => {},
        }
    }
}

/// Whether the scan that starts at `from` comes to look for a token at `pos`.
pub open spec fn reaches(s: Seq<char>, from: int, pos: int) -> bool
    decreases s.len() - from,
{
    if from == pos {
        true
    } else if from < 0 || from >= s.len() || from > pos {
        false
    } else {
        match step(s, from) {
            Step::Emit { next, .. } => from < next <= s.len() && reaches(s, next, pos),
            Step::Skip { next } => from < next <= s.len() && reaches(s, next, pos),
            Step::Fail { .. } => false,
        }
    }
}

} // verus!
