//! The parser: a tape of tokens, read from left to right.
//!
//! The grammar is stated as functions from a tape and a position on it to
//! what is read there and the position afterwards. The parsing functions
//! compute exactly these.

pub mod expression;
pub mod query;

use crate::ast::query::Query;
use crate::results::result_view;
use crate::lexer::{in_order, reach, Token, TokenView};
use crate::spans::{Span, M};
use vstd::prelude::*;

verus! {

/// Why a tape of tokens is no query.
#[derive(Debug, Clone, PartialEq)]
pub enum ParserError {
    /// The tape ended where a token was needed.
    EndOfInput,
    /// The text at `span` cannot be parsed. The parsing functions of this
    /// library say more: they report one of the other errors.
    Simple { span: Span },
    /// The text at `span` cannot be parsed, for the reason in `message`.
    General { span: Span, message: String },
    /// The token at `span` is not the one that `description` asks for.
    UnexpectedToken { span: Span, description: String, token: Token },
    /// The text at `span` uses a feature that is not parsed yet.
    NotYetSupported { span: Span, feature: String },
}

/// The view of [`ParserError`]: the same value, with sequences for its strings and vectors.
pub enum ParserErrorView {
    EndOfInput,
    Simple { span: Span },
    General { span: Span, message: Seq<char> },
    UnexpectedToken { span: Span, description: Seq<char>, token: TokenView },
    NotYetSupported { span: Span, feature: Seq<char> },
}

impl DeepView for ParserError {
    type V = ParserErrorView;

    open spec fn deep_view(&self) -> ParserErrorView {
        match self {
            ParserError::EndOfInput => ParserErrorView::EndOfInput,
            ParserError::Simple { span } => ParserErrorView::Simple { span: *span },
            ParserError::General { span, message } => ParserErrorView::General {
                span: *span,
                message: message@,
            },
            ParserError::UnexpectedToken { span, description, token } => {
                ParserErrorView::UnexpectedToken {
                    span: *span,
                    description: description@,
                    token: token.deep_view(),
                }
            },
            ParserError::NotYetSupported { span, feature } => ParserErrorView::NotYetSupported {
                span: *span,
                feature: feature@,
            },
        }
    }
}

/// What was read from a tape, and the position afterwards.
pub struct Parsed<T> {
    pub index: usize,
    pub result: Result<T, ParserErrorView>,
}

/// The tape of a list of tokens.
pub type Tape = Seq<M<TokenView>>;

/// The position after one more token. It stops at the largest position a
/// machine can hold.
pub open spec fn advanced(index: usize) -> usize {
    if index < usize::MAX {
        (index + 1) as usize
    } else {
        index
    }
}

/// The token at a position, if the tape reaches that far.
pub open spec fn token_at(tape: Tape, index: int) -> Option<M<TokenView>> {
    if 0 <= index < tape.len() {
        Some(tape[index])
    } else {
        None
    }
}

/// The error `message` at the token read last, the one before the
/// position. Where no token stands there, it is the end of input.
pub open spec fn general_failure(tape: Tape, index: usize, message: Seq<char>) -> ParserErrorView {
    match token_at(tape, index - 1) {
        Some(token) => ParserErrorView::General { span: token.span, message },
        None => ParserErrorView::EndOfInput,
    }
}

/// The error of a feature without support, at the token read last.
pub open spec fn unsupported_failure(tape: Tape, index: usize, feature: Seq<char>) -> ParserErrorView {
    match token_at(tape, index - 1) {
        Some(token) => ParserErrorView::NotYetSupported { span: token.span, feature },
        None => ParserErrorView::EndOfInput,
    }
}

/// The error of a token that was not expected: the one read last.
pub open spec fn unexpected_failure(tape: Tape, index: usize, description: Seq<char>) -> ParserErrorView {
    match token_at(tape, index - 1) {
        Some(token) => ParserErrorView::UnexpectedToken {
            span: token.span,
            description,
            token: token.value,
        },
        None => ParserErrorView::EndOfInput,
    }
}

/// Reads one token. The position moves on even where the tape has ended.
pub open spec fn read_next(tape: Tape, index: usize) -> Parsed<M<TokenView>> {
    Parsed {
        index: advanced(index),
        result: match token_at(tape, index as int) {
            Some(token) => Ok(token),
            None => Err(ParserErrorView::EndOfInput),
        },
    }
}

/// Reads one token, which has to be `token`, and yields its range.
pub open spec fn read_expected(
    tape: Tape,
    index: usize,
    token: TokenView,
    description: Seq<char>,
) -> Parsed<Span> {
    Parsed {
        index: advanced(index),
        result: match token_at(tape, index as int) {
            Some(found) => if found.value == token {
                Ok(found.span)
            } else {
                Err(unexpected_failure(tape, advanced(index), description))
            },
            None => Err(ParserErrorView::EndOfInput),
        },
    }
}

/// Whether the token at a position is `token`.
pub open spec fn stands_at(tape: Tape, index: usize, token: TokenView) -> bool {
    index < tape.len() && tape[index as int].value == token
}

/// Reads one token where it is a term.
pub open spec fn term(tape: Tape, index: usize) -> Parsed<M<Seq<char>>> {
    Parsed {
        index: advanced(index),
        result: match token_at(tape, index as int) {
            Some(found) => match found.value {
                TokenView::Term(name) => Ok(M { span: found.span, value: name }),
                _ => Err(unexpected_failure(tape, advanced(index), "Term expected"@)),
            },
            None => Err(ParserErrorView::EndOfInput),
        },
    }
}

/// Reads one token where it is a term that begins with `$`.
pub open spec fn dollar_term(tape: Tape, index: usize) -> Parsed<M<Seq<char>>> {
    Parsed {
        index: advanced(index),
        result: match token_at(tape, index as int) {
            Some(found) => match found.value {
                TokenView::DollarTerm(name) => Ok(M { span: found.span, value: name }),
                _ => Err(unexpected_failure(tape, advanced(index), "Dollar term expected"@)),
            },
            None => Err(ParserErrorView::EndOfInput),
        },
    }
}

/// The tokens to parse, and how many of them have been read.
#[derive(Debug, Clone)]
pub struct ParseInput {
    tokens: Vec<M<Token>>,
    index: usize,
}

/// A position on the tape to come back to.
#[derive(Debug, Clone, Copy)]
pub struct Checkpoint {
    index: usize,
}

impl Checkpoint {
    pub closed spec fn position(&self) -> usize {
        self.index
    }
}

/// Whether a parsing function left the input as the grammar says: the tape
/// as it was, the position and the result those of `expected`.
pub open spec fn agrees<T: DeepView>(
    before: ParseInput,
    after: ParseInput,
    result: Result<T, ParserError>,
    expected: Parsed<T::V>,
) -> bool {
    &&& after.tape() == before.tape()
    &&& after.position() == expected.index
    &&& result_view(result) == expected.result
}

impl ParseInput {
    /// The tokens.
    pub closed spec fn tape(&self) -> Tape {
        self.tokens.deep_view()
    }

    /// How many tokens have been read.
    pub closed spec fn position(&self) -> usize {
        self.index
    }

    /// A tape is no longer than a machine can count.
    pub proof fn lemma_tape_fits(&self)
        ensures
            self.tape().len() <= usize::MAX,
    {
        assert(self.tokens@.len() == self.tokens.len());
    }

    pub fn new(tokens: Vec<M<Token>>) -> (input: Self)
        ensures
            input.tape() == tokens.deep_view(),
            input.position() == 0,
    {
        ParseInput { tokens, index: 0 }
    }

    fn last_read(&self) -> (token: Option<&M<Token>>)
        ensures
            token.deep_view() == token_at(self.tape(), self.position() - 1),
    {
        if 0 < self.index && self.index - 1 < self.tokens.len() {
            Some(&self.tokens[self.index - 1])
        } else {
            None
        }
    }

    /// The error `message`, at the token read last.
    pub fn general_error(&self, message: &str) -> (error: ParserError)
        ensures
            error.deep_view() == general_failure(self.tape(), self.position(), message@),
    {
        match self.last_read() {
            Some(data) => ParserError::General {
                span: data.span,
                message: String::from_str(message),
            },
            None => ParserError::EndOfInput,
        }
    }

    /// The error of a feature without support, at the token read last.
    pub fn unsupported_error(&self, feature: &str) -> (error: ParserError)
        ensures
            error.deep_view() == unsupported_failure(self.tape(), self.position(), feature@),
    {
        match self.last_read() {
            Some(data) => ParserError::NotYetSupported {
                span: data.span,
                feature: String::from_str(feature),
            },
            None => ParserError::EndOfInput,
        }
    }

    /// The error of a token that was not expected: the one read last.
    pub fn unexpected_token(&self, description: &str) -> (error: ParserError)
        ensures
            error.deep_view() == unexpected_failure(self.tape(), self.position(), description@),
    {
        match self.last_read() {
            Some(data) => ParserError::UnexpectedToken {
                span: data.span,
                description: String::from_str(description),
                token: data.value.duplicate(),
            },
            None => ParserError::EndOfInput,
        }
    }

    pub fn checkpoint(&self) -> (checkpoint: Checkpoint)
        ensures
            checkpoint.position() == self.position(),
    {
        Checkpoint { index: self.index }
    }

    pub fn restore(&mut self, checkpoint: Checkpoint)
        ensures
            final(self).tape() == old(self).tape(),
            final(self).position() == checkpoint.position(),
    {
        self.index = checkpoint.index
    }

    pub fn done(&self) -> (done: bool)
        ensures
            done == (self.position() >= self.tape().len()),
    {
        self.index >= self.tokens.len()
    }

    /// The next token, which stays to be read.
    pub fn peek(&self) -> (result: Result<&M<Token>, ParserError>)
        ensures
            result_view(result) == read_next(self.tape(), self.position()).result,
    {
        if self.index < self.tokens.len() {
            Ok(&self.tokens[self.index])
        } else {
            Err(ParserError::EndOfInput)
        }
    }

    /// Reads the next token.
    pub fn next(&mut self) -> (result: Result<&M<Token>, ParserError>)
        ensures
            agrees(
                *old(self),
                *final(self),
                result,
                read_next(old(self).tape(), old(self).position()),
            ),
            result is Ok ==> final(self).position() == old(self).position() + 1,
    {
        let at = self.index;
        if self.index < usize::MAX {
            self.index += 1;
        }
        if at < self.tokens.len() {
            Ok(&self.tokens[at])
        } else {
            Err(ParserError::EndOfInput)
        }
    }

    pub fn assert_next(&mut self, token: Token, description: &str) -> (result: Result<
        Span,
        ParserError,
    >)
        ensures
            agrees(
                *old(self),
                *final(self),
                result,
                read_expected(
                    old(self).tape(),
                    old(self).position(),
                    token.deep_view(),
                    description@,
                ),
            ),
    {
        let next = self.next()?;
        if next.value.same(&token) {
            Ok(next.span)
        } else {
            Err(self.unexpected_token(description))
        }
    }

    /// Reads the next token if it is `token`, and yields its range.
    pub fn next_if(&mut self, token: Token) -> (found: Option<Span>)
        ensures
            final(self).tape() == old(self).tape(),
            match found {
                Some(span) => stands_at(old(self).tape(), old(self).position(), token.deep_view())
                    && span == old(self).tape()[old(self).position() as int].span
                    && final(self).position() == old(self).position() + 1,
                None => !stands_at(old(self).tape(), old(self).position(), token.deep_view())
                    && final(self).position() == old(self).position(),
            },
    {
        match self.peek() {
            Ok(next) => {
                if !next.value.same(&token) {
                    return None;
                }
            },
            Err(_) => {
                return None;
            },
        }
        match self.next() {
            Ok(next) => Some(next.span),
            Err(_) => None,
        }
    }

    /// Whether `num` more tokens can be read.
    pub fn has(&self, num: usize) -> (enough: bool)
        ensures
            enough == (self.position() + num <= self.tape().len()),
    {
        let len = self.tokens.len();
        match self.index.checked_add(num) {
            Some(end) => end <= len,
            None => false,
        }
    }
}

/// Parses a tape of tokens as one query, read from its start. What follows
/// the query on the tape is not looked at.
pub fn parse(tokens: Vec<M<Token>>) -> (result: Result<Query, ParserError>)
    requires
        in_order(tokens.deep_view()),
    ensures
        result_view(result) == query::query(tokens.deep_view(), 0).result,
        result matches Ok(parsed) ==> query::query_fits(
            parsed.deep_view(),
            reach(tokens.deep_view()),
        ),
{
    let mut parse_input = ParseInput::new(tokens);
    query::parse_query(&mut parse_input)
}

impl ParseInput {
    /// Reads the next `num` tokens at once, where that many are left.
    pub fn slice_next(&mut self, num: usize) -> (result: Result<&[M<Token>], ParserError>)
        ensures
            final(self).tape() == old(self).tape(),
            match result {
                Ok(tokens) => old(self).position() + num <= old(self).tape().len()
                    && final(self).position() == old(self).position() + num
                    && tokens.deep_view() == old(self).tape().subrange(
                    old(self).position() as int,
                    old(self).position() + num,
                ),
                Err(error) => old(self).position() + num > old(self).tape().len()
                    && final(self).position() == old(self).position() && error
                    == ParserError::EndOfInput,
            },
    {
        proof {
            self.lemma_tape_fits();
        }
        if self.has(num) {
            let from = self.index;
            self.index += num;
            let result = vstd::slice::slice_subrange(self.tokens.as_slice(), from, from + num);
            assert(result.deep_view() =~= old(self).tape().subrange(from as int, from + num));
            Ok(result)
        } else {
            Err(ParserError::EndOfInput)
        }
    }
}

pub(crate) fn parse_term(input: &mut ParseInput) -> (result: Result<M<String>, ParserError>)
    ensures
        agrees(*old(input), *final(input), result, term(old(input).tape(), old(input).position())),
{
    let token = input.next()?;
    match &token.value {
        Token::Term(s) => Ok(M::new(s.clone(), token.span)),
        _ => Err(input.unexpected_token("Term expected")),
    }
}

pub(crate) fn parse_dollar_term(input: &mut ParseInput) -> (result: Result<M<String>, ParserError>)
    ensures
        agrees(
            *old(input),
            *final(input),
            result,
            dollar_term(old(input).tape(), old(input).position()),
        ),
{
    let token = input.next()?;
    match &token.value {
        Token::DollarTerm(s) => Ok(M::new(s.clone(), token.span)),
        _ => Err(input.unexpected_token("Dollar term expected")),
    }
}

} // verus!
