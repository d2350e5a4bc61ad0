//! Tokens, and the split of a query's text into them.

pub mod chars;
pub mod scan;

use crate::numbers::{Real, RealView};
use crate::spans::{Span, M};
use crate::text::{decimal, decimal_digits, hex_digits};
use chars::{
    at, byte_len, byte_offset, char_width, is_digit, is_hex_digit, lemma_byte_len_of_part,
    lemma_byte_offset_grows,
    lemma_byte_offset_step, lemma_decimal_digits_are_digits, lemma_hex_digits_are_digits,
    lemma_number_of_decimal_digits, lemma_number_of_hex_digits, lemma_run_end_is, number, width,
    CharClass,
};
use scan::{
    chars_of, is_number, lemma_lexeme_bounds, lemma_number_is_read_again, lexeme, scan,
};
use vstd::prelude::*;
use vstd::utf8::{encode_scalar, encode_utf8};

verus! {

/// A token of the language.
#[derive(Debug, PartialEq, Clone)]
pub enum Token {
    /// Text that is no token.
    Error,
    /// Term (e.g. summarize, OrderNumber, count)
    Term(String),
    /// Terms that begin with "!" (e.g. !between), without the "!"
    BangTerm(String),
    /// Terms that begin with "$" (e.g. $left), without the "$"
    DollarTerm(String),
    /// `bool` literal
    BoolLiteral(bool),
    BoolNullLiteral,
    /// `int` literal
    IntLiteral(i32),
    IntNullLiteral,
    /// `long` literal
    LongLiteral(i64),
    LongNullLiteral,
    /// `real` literal
    RealLiteral(Real),
    RealNullLiteral,
    /// `string` literal
    StringLiteral(String),
    /// Pipe Symbol "|"
    Pipe,
    /// Left Parenthesis Symbol "("
    LParen,
    /// Right Parenthesis Symbol ")"
    RParen,
    /// Left Brace Symbol "{"
    LBrace,
    /// Right Brace Symbol "}"
    RBrace,
    /// Left Bracket Symbol "["
    LBracket,
    /// Right Bracket Symbol "]"
    RBracket,
    /// The Comma Delimiter ","
    Comma,
    /// The Period or Dot Operator "."
    Dot,
    /// Assignment Operator "="
    Assign,
    /// Addition Operator "+"
    Add,
    /// Subtraction Operator "-"
    Sub,
    /// Star Operator "*" (used for multiply and wildcard)
    Star,
    /// Division Operator "/"
    Div,
    /// Modulo Operator "%"
    Mod,
    /// Logical And Operator
    LogicalAnd,
    /// Logical Or Operator
    LogicalOr,
    /// Less-than Operator "<"
    LT,
    /// Less-than or Equal Operator "<="
    LTE,
    /// Greater-than Operator ">"
    GT,
    /// Greater-than or Equal Operator ">="
    GTE,
    /// Equals Operator "=="
    EQ,
    /// Not Equals Operator "!="
    NEQ,
}

/// The view of [`Token`]: the same value, with sequences for its strings and vectors.
pub enum TokenView {
    Error,
    Term(Seq<char>),
    BangTerm(Seq<char>),
    DollarTerm(Seq<char>),
    BoolLiteral(bool),
    BoolNullLiteral,
    IntLiteral(i32),
    IntNullLiteral,
    LongLiteral(i64),
    LongNullLiteral,
    RealLiteral(RealView),
    RealNullLiteral,
    StringLiteral(Seq<char>),
    Pipe,
    LParen,
    RParen,
    LBrace,
    RBrace,
    LBracket,
    RBracket,
    Comma,
    Dot,
    Assign,
    Add,
    Sub,
    Star,
    Div,
    Mod,
    LogicalAnd,
    LogicalOr,
    LT,
    LTE,
    GT,
    GTE,
    EQ,
    NEQ,
}

impl DeepView for Token {
    type V = TokenView;

    open spec fn deep_view(&self) -> TokenView {
        match self {
            Token::Error => TokenView::Error,
            Token::Term(s) => TokenView::Term(s@),
            Token::BangTerm(s) => TokenView::BangTerm(s@),
            Token::DollarTerm(s) => TokenView::DollarTerm(s@),
            Token::BoolLiteral(v) => TokenView::BoolLiteral(*v),
            Token::BoolNullLiteral => TokenView::BoolNullLiteral,
            Token::IntLiteral(v) => TokenView::IntLiteral(*v),
            Token::IntNullLiteral => TokenView::IntNullLiteral,
            Token::LongLiteral(v) => TokenView::LongLiteral(*v),
            Token::LongNullLiteral => TokenView::LongNullLiteral,
            Token::RealLiteral(v) => TokenView::RealLiteral(v.deep_view()),
            Token::RealNullLiteral => TokenView::RealNullLiteral,
            Token::StringLiteral(s) => TokenView::StringLiteral(s@),
            Token::Pipe => TokenView::Pipe,
            Token::LParen => TokenView::LParen,
            Token::RParen => TokenView::RParen,
            Token::LBrace => TokenView::LBrace,
            Token::RBrace => TokenView::RBrace,
            Token::LBracket => TokenView::LBracket,
            Token::RBracket => TokenView::RBracket,
            Token::Comma => TokenView::Comma,
            Token::Dot => TokenView::Dot,
            Token::Assign => TokenView::Assign,
            Token::Add => TokenView::Add,
            Token::Sub => TokenView::Sub,
            Token::Star => TokenView::Star,
            Token::Div => TokenView::Div,
            Token::Mod => TokenView::Mod,
            Token::LogicalAnd => TokenView::LogicalAnd,
            Token::LogicalOr => TokenView::LogicalOr,
            Token::LT => TokenView::LT,
            Token::LTE => TokenView::LTE,
            Token::GT => TokenView::GT,
            Token::GTE => TokenView::GTE,
            Token::EQ => TokenView::EQ,
            Token::NEQ => TokenView::NEQ,
        }
    }
}

impl TokenView {
    /// A number for each kind of token.
    pub open spec fn kind(self) -> int {
        match self {
            TokenView::Error => 0,
            TokenView::Term(_) => 1,
            TokenView::BangTerm(_) => 2,
            TokenView::DollarTerm(_) => 3,
            TokenView::BoolLiteral(_) => 4,
            TokenView::BoolNullLiteral => 5,
            TokenView::IntLiteral(_) => 6,
            TokenView::IntNullLiteral => 7,
            TokenView::LongLiteral(_) => 8,
            TokenView::LongNullLiteral => 9,
            TokenView::RealLiteral(_) => 10,
            TokenView::RealNullLiteral => 11,
            TokenView::StringLiteral(_) => 12,
            TokenView::Pipe => 13,
            TokenView::LParen => 14,
            TokenView::RParen => 15,
            TokenView::LBrace => 16,
            TokenView::RBrace => 17,
            TokenView::LBracket => 18,
            TokenView::RBracket => 19,
            TokenView::Comma => 20,
            TokenView::Dot => 21,
            TokenView::Assign => 22,
            TokenView::Add => 23,
            TokenView::Sub => 24,
            TokenView::Star => 25,
            TokenView::Div => 26,
            TokenView::Mod => 27,
            TokenView::LogicalAnd => 28,
            TokenView::LogicalOr => 29,
            TokenView::LT => 30,
            TokenView::LTE => 31,
            TokenView::GT => 32,
            TokenView::GTE => 33,
            TokenView::EQ => 34,
            TokenView::NEQ => 35,
        }
    }
}

impl Token {
    fn kind(&self) -> (kind: u8)
        ensures
            kind == self.deep_view().kind(),
    {
        match self {
            Token::Error => 0,
            Token::Term(_) => 1,
            Token::BangTerm(_) => 2,
            Token::DollarTerm(_) => 3,
            Token::BoolLiteral(_) => 4,
            Token::BoolNullLiteral => 5,
            Token::IntLiteral(_) => 6,
            Token::IntNullLiteral => 7,
            Token::LongLiteral(_) => 8,
            Token::LongNullLiteral => 9,
            Token::RealLiteral(_) => 10,
            Token::RealNullLiteral => 11,
            Token::StringLiteral(_) => 12,
            Token::Pipe => 13,
            Token::LParen => 14,
            Token::RParen => 15,
            Token::LBrace => 16,
            Token::RBrace => 17,
            Token::LBracket => 18,
            Token::RBracket => 19,
            Token::Comma => 20,
            Token::Dot => 21,
            Token::Assign => 22,
            Token::Add => 23,
            Token::Sub => 24,
            Token::Star => 25,
            Token::Div => 26,
            Token::Mod => 27,
            Token::LogicalAnd => 28,
            Token::LogicalOr => 29,
            Token::LT => 30,
            Token::LTE => 31,
            Token::GT => 32,
            Token::GTE => 33,
            Token::EQ => 34,
            Token::NEQ => 35,
        }
    }

    /// Whether two tokens are of the same kind and hold the same value.
    pub fn same(&self, other: &Token) -> (equal: bool)
        ensures
            equal == (self.deep_view() == other.deep_view()),
    {
        match (self, other) {
            (Token::Term(a), Token::Term(b)) => *a == *b,
            (Token::BangTerm(a), Token::BangTerm(b)) => *a == *b,
            (Token::DollarTerm(a), Token::DollarTerm(b)) => *a == *b,
            (Token::StringLiteral(a), Token::StringLiteral(b)) => *a == *b,
            (Token::BoolLiteral(a), Token::BoolLiteral(b)) => *a == *b,
            (Token::IntLiteral(a), Token::IntLiteral(b)) => *a == *b,
            (Token::LongLiteral(a), Token::LongLiteral(b)) => *a == *b,
            (Token::RealLiteral(a), Token::RealLiteral(b)) => a.same(b),
            _ => self.kind() == other.kind(),
        }
    }

    /// A copy of the token.
    pub fn duplicate(&self) -> (copy: Token)
        ensures
            copy.deep_view() == self.deep_view(),
    {
        match self {
            Token::Error => Token::Error,
            Token::Term(s) => Token::Term(s.clone()),
            Token::BangTerm(s) => Token::BangTerm(s.clone()),
            Token::DollarTerm(s) => Token::DollarTerm(s.clone()),
            Token::BoolLiteral(v) => Token::BoolLiteral(*v),
            Token::BoolNullLiteral => Token::BoolNullLiteral,
            Token::IntLiteral(v) => Token::IntLiteral(*v),
            Token::IntNullLiteral => Token::IntNullLiteral,
            Token::LongLiteral(v) => Token::LongLiteral(*v),
            Token::LongNullLiteral => Token::LongNullLiteral,
            Token::RealLiteral(v) => Token::RealLiteral(v.duplicate()),
            Token::RealNullLiteral => Token::RealNullLiteral,
            Token::StringLiteral(s) => Token::StringLiteral(s.clone()),
            Token::Pipe => Token::Pipe,
            Token::LParen => Token::LParen,
            Token::RParen => Token::RParen,
            Token::LBrace => Token::LBrace,
            Token::RBrace => Token::RBrace,
            Token::LBracket => Token::LBracket,
            Token::RBracket => Token::RBracket,
            Token::Comma => Token::Comma,
            Token::Dot => Token::Dot,
            Token::Assign => Token::Assign,
            Token::Add => Token::Add,
            Token::Sub => Token::Sub,
            Token::Star => Token::Star,
            Token::Div => Token::Div,
            Token::Mod => Token::Mod,
            Token::LogicalAnd => Token::LogicalAnd,
            Token::LogicalOr => Token::LogicalOr,
            Token::LT => Token::LT,
            Token::LTE => Token::LTE,
            Token::GT => Token::GT,
            Token::GTE => Token::GTE,
            Token::EQ => Token::EQ,
            Token::NEQ => Token::NEQ,
        }
    }
}

/// A token and the range of the text it was read from.
pub type TokenData = M<Token>;

/// Text that is no token.
#[derive(Debug, Clone, Copy, PartialEq, Eq, Structural)]
pub struct LexerError {
    pub span: Span,
}

impl DeepView for LexerError {
    type V = LexerError;

    open spec fn deep_view(&self) -> LexerError {
        *self
    }
}

/// Whether the ranges of the tokens lie one after the other in the text,
/// without overlap, none of them empty, each within what a machine can
/// address. The starts of such tokens increase strictly.
pub open spec fn in_order(tokens: Seq<M<TokenView>>) -> bool {
    &&& forall|i: int| 0 <= i < tokens.len() ==> (#[trigger] tokens[i]).span.end() <= usize::MAX
    &&& forall|i: int| 0 <= i < tokens.len() ==> (#[trigger] tokens[i]).span.len > 0
    &&& forall|i: int, j: int|
        0 <= i < j < tokens.len() ==> (#[trigger] tokens[i]).span.end() <= (
        #[trigger] tokens[j]).span.offset
}

/// Where the last token of a list ends: no token of a list in order ends
/// after that.
pub open spec fn reach(tokens: Seq<M<TokenView>>) -> int {
    if tokens.len() == 0 {
        0
    } else {
        tokens.last().span.end()
    }
}

/// No token of a list in order ends after the last one.
pub proof fn lemma_token_within_reach(tokens: Seq<M<TokenView>>, index: int)
    requires
        in_order(tokens),
        0 <= index < tokens.len(),
    ensures
        tokens[index].span.offset <= tokens[index].span.end() <= reach(tokens),
{
    if index < tokens.len() - 1 {
        assert(tokens[index].span.end() <= tokens[tokens.len() - 1].span.offset);
    }
}

/// The range of bytes that the characters from `from` up to `to` take.
pub open spec fn span_between(text: Seq<char>, from: int, to: int) -> Span {
    Span {
        offset: byte_offset(text, from) as usize,
        len: (byte_offset(text, to) - byte_offset(text, from)) as usize,
    }
}

/// The tokens of a text from a position on: what stands there, unless it is
/// white space or a comment, and then the tokens from its end on.
///
/// What stands at a position ends after it and within the text, so the
/// definition never stops before the end of the text.
pub open spec fn tokens_from(text: Seq<char>, index: int) -> Seq<M<TokenView>>
    decreases text.len() - index,
{
    if index < 0 || index >= text.len() {
        Seq::empty()
    } else {
        let (end, token) = lexeme(text, index);
        if end <= index || end > text.len() {
            Seq::empty()
        } else {
            match token {
                Some(value) => seq![M { span: span_between(text, index, end), value }]
                    + tokens_from(text, end),
                None => tokens_from(text, end),
            }
        }
    }
}

/// The tokens of a text, errors among them.
pub open spec fn tokens_of(text: Seq<char>) -> Seq<M<TokenView>> {
    tokens_from(text, 0)
}

/// A piece of a text: a token, white space or a comment, with its range.
pub struct Piece {
    pub span: Span,
    /// The token, or none for white space and comments.
    pub token: Option<TokenView>,
}

/// The pieces of a text from a position on: what stands there, and then the
/// pieces from its end on, up to the end of the text.
pub open spec fn pieces_from(text: Seq<char>, index: int) -> Seq<Piece>
    decreases text.len() - index,
{
    if index < 0 || index >= text.len() {
        Seq::empty()
    } else {
        let (end, token) = lexeme(text, index);
        if end <= index || end > text.len() {
            Seq::empty()
        } else {
            seq![Piece { span: span_between(text, index, end), token }] + pieces_from(text, end)
        }
    }
}

/// The tokens among some pieces, in their order.
pub open spec fn tokens_among(pieces: Seq<Piece>) -> Seq<M<TokenView>>
    decreases pieces.len(),
{
    if pieces.len() == 0 {
        Seq::empty()
    } else {
        let rest = tokens_among(pieces.drop_first());
        match pieces[0].token {
            Some(value) => seq![M { span: pieces[0].span, value }] + rest,
            None => rest,
        }
    }
}

/// The pieces of a text cover it from the position they start at up to its
/// end, without a gap and without overlap: the first begins at that
/// position, each of the others begins where the one before it ends, the
/// last ends with the text, and none is empty. The tokens of the text are
/// the tokens among these pieces; what lies between two tokens is white
/// space and comments.
pub proof fn lemma_pieces_cover(text: Seq<char>, index: int)
    requires
        0 <= index <= text.len(),
        byte_len(text) <= usize::MAX,
    ensures
        ({
            let pieces = pieces_from(text, index);
            &&& tokens_from(text, index) == tokens_among(pieces)
            &&& index < text.len() ==> pieces.len() > 0 && pieces[0].span.offset == byte_offset(
                text,
                index,
            )
            &&& forall|k: int| 0 <= k < pieces.len() ==> (#[trigger] pieces[k]).span.len > 0
            &&& forall|k: int|
                0 <= k < pieces.len() - 1 ==> (#[trigger] pieces[k]).span.end() == pieces[k
                    + 1].span.offset
            &&& pieces.len() > 0 ==> pieces.last().span.end() == byte_len(text)
        }),
    decreases text.len() - index,
{
    if index < text.len() {
        lemma_lexeme_bounds(text, index);
        let (end, token) = lexeme(text, index);
        lemma_pieces_cover(text, end);
        lemma_byte_offset_grows(text, index, end);
        lemma_byte_offset_grows(text, end, text.len() as int);
        let first = Piece { span: span_between(text, index, end), token };
        let rest = pieces_from(text, end);
        let pieces = pieces_from(text, index);
        assert(pieces == seq![first] + rest);
        assert(pieces.drop_first() =~= rest);
        assert(first.span.end() == byte_offset(text, end));
        assert forall|k: int| 0 <= k < pieces.len() - 1 implies (#[trigger] pieces[k]).span.end()
            == pieces[k + 1].span.offset by {
            if k > 0 {
                assert(pieces[k] == rest[k - 1]);
                assert(pieces[k + 1] == rest[k]);
            } else {
                assert(pieces[1] == rest[0]);
            }
        }
        assert forall|k: int| 0 <= k < pieces.len() implies (#[trigger] pieces[k]).span.len
            > 0 by {
            if k > 0 {
                assert(pieces[k] == rest[k - 1]);
            }
        }
        if rest.len() > 0 {
            assert(pieces.last() == rest.last());
        }
    }
}

/// A text that is one token and nothing else.
pub open spec fn one_token(text: Seq<char>, value: TokenView) -> Seq<M<TokenView>> {
    seq![M { span: span_between(text, 0, text.len() as int), value }]
}

/// The literal of a number that is read again from its own text is the same
/// literal: where the literal of a number stands in a text, the characters
/// that it takes are, read by themselves, one token, and that token holds
/// the same number.
pub proof fn lemma_number_token_is_read_again(text: Seq<char>, index: int)
    requires
        0 <= index < text.len(),
        is_number(lexeme(text, index).1),
    ensures
        tokens_of(text.subrange(index, lexeme(text, index).0)) == one_token(
            text.subrange(index, lexeme(text, index).0),
            lexeme(text, index).1->0,
        ),
{
    lemma_lexeme_bounds(text, index);
    lemma_number_is_read_again(text, index);
    let part = text.subrange(index, lexeme(text, index).0);
    assert(tokens_from(part, part.len() as int) =~= Seq::empty());
    assert(tokens_of(part) =~= one_token(part, lexeme(text, index).1->0));
}

/// Every token of a text is what stands at some position of the text, and
/// its range is the range of the characters that stand there.
pub proof fn lemma_token_is_lexeme(text: Seq<char>, start: int, k: int)
    requires
        0 <= start <= text.len(),
        0 <= k < tokens_from(text, start).len(),
    ensures
        exists|index: int|
            start <= index < text.len() && (#[trigger] lexeme(text, index)).1 == Some(
                tokens_from(text, start)[k].value,
            ) && tokens_from(text, start)[k].span == span_between(
                text,
                index,
                lexeme(text, index).0,
            ),
    decreases text.len() - start,
{
    if start < text.len() {
        lemma_lexeme_bounds(text, start);
        let (end, token) = lexeme(text, start);
        let rest = tokens_from(text, end);
        match token {
            Some(value) => {
                let first = M { span: span_between(text, start, end), value };
                assert(tokens_from(text, start) == seq![first] + rest);
                if k == 0 {
                    assert(lexeme(text, start).1 == Some(tokens_from(text, start)[k].value));
                } else {
                    assert(tokens_from(text, start)[k] == rest[k - 1]);
                    lemma_token_is_lexeme(text, end, k - 1);
                }
            },
            None => {
                lemma_token_is_lexeme(text, end, k);
            },
        }
    }
}

/// The literal of a number that is cut out of a text at its range and read
/// again is the same literal. For every token of a text that is the literal
/// of a number, the characters that take the bytes of its range are, read
/// by themselves, one token: the same literal, from the first byte to the
/// last.
pub proof fn lemma_number_cut_out_is_read_again(text: Seq<char>, k: int)
    requires
        byte_len(text) <= usize::MAX,
        0 <= k < tokens_of(text).len(),
        is_number(Some(tokens_of(text)[k].value)),
    ensures
        exists|from: int, to: int|
            #![trigger text.subrange(from, to)]
            0 <= from < to <= text.len() && tokens_of(text)[k].span.offset == byte_offset(
                text,
                from,
            ) && tokens_of(text)[k].span.len == byte_len(text.subrange(from, to)) && tokens_of(
                text.subrange(from, to),
            ) == seq![
                M {
                    span: Span { offset: 0, len: tokens_of(text)[k].span.len },
                    value: tokens_of(text)[k].value,
                },
            ],
{
    let token = tokens_of(text)[k];
    lemma_token_is_lexeme(text, 0, k);
    let from = choose|index: int|
        0 <= index < text.len() && (#[trigger] lexeme(text, index)).1 == Some(token.value)
            && token.span == span_between(text, index, lexeme(text, index).0);
    let to = lexeme(text, from).0;
    let part = text.subrange(from, to);
    lemma_lexeme_bounds(text, from);
    lemma_number_token_is_read_again(text, from);
    lemma_byte_len_of_part(text, from, to);
    lemma_byte_offset_grows(text, from, to);
    lemma_byte_offset_grows(text, to, text.len() as int);
    assert(part.take(0) =~= Seq::empty());
    assert(part.take(part.len() as int) =~= part);
    assert(span_between(part, 0, part.len() as int) == Span { offset: 0, len: token.span.len });
    assert(tokens_of(text.subrange(from, to)) == seq![
        M { span: Span { offset: 0, len: token.span.len }, value: token.value },
    ]);
}

/// The decimal text of an integer stands for its size and its sign.
pub proof fn lemma_decimal_literal_of_printed(v: int)
    ensures
        scan::decimal_literal(decimal(v)) == Some(
            (
                (if v < 0 {
                    -v
                } else {
                    v
                }) as nat,
                v < 0,
            ),
        ),
{
    let text = decimal(v);
    let n = (if v < 0 {
        -v
    } else {
        v
    }) as nat;
    let digits = decimal_digits(n);
    let first: int = if v < 0 {
        1
    } else {
        0
    };
    let len = text.len() as int;
    lemma_decimal_digits_are_digits(n);
    assert forall|j: int| first <= j < len implies is_digit(#[trigger] text[j]) by {
        assert(text[j] == digits[j - first]);
    }
    assert(text.subrange(first, len) =~= digits);
    lemma_number_of_decimal_digits(text, first, n);
    scan::lemma_decimal_literal_in_text(text, 0, first, len);
    assert(text.subrange(0, len) =~= text);
}

/// Every `int` is read from its decimal text, alone or between `int(` and
/// `)` with these four and that one character trimmed.
pub proof fn lemma_int_is_read_from_decimal(v: i32)
    ensures
        scan::int_dec_literal(decimal(v as int)) == Some(v),
        scan::trimmed("int("@ + decimal(v as int) + ")"@, 4, 1) == decimal(v as int),
{
    reveal_strlit("int(");
    reveal_strlit(")");
    lemma_decimal_literal_of_printed(v as int);
    assert(scan::trimmed("int("@ + decimal(v as int) + ")"@, 4, 1) =~= decimal(v as int));
}

/// Every `long` is read from its decimal text, alone or between `long(` and
/// `)` with these five and that one character trimmed.
pub proof fn lemma_long_is_read_from_decimal(v: i64)
    ensures
        scan::long_dec_literal(decimal(v as int)) == Some(v),
        scan::trimmed(decimal(v as int), 0, 0) == decimal(v as int),
        scan::trimmed("long("@ + decimal(v as int) + ")"@, 5, 1) == decimal(v as int),
{
    reveal_strlit("long(");
    reveal_strlit(")");
    lemma_decimal_literal_of_printed(v as int);
    assert(scan::trimmed(decimal(v as int), 0, 0) =~= decimal(v as int));
    assert(scan::trimmed("long("@ + decimal(v as int) + ")"@, 5, 1) =~= decimal(v as int));
}

/// A number is read from its hexadecimal text after `0x`, in capital or
/// small letters: as an `int` where it is at most the largest `int`, as a
/// `long` where it is at most the largest `long`, and as none above that.
pub proof fn lemma_number_is_read_from_hexadecimal(n: nat, upper: spec_fn(nat) -> bool)
    ensures
        scan::hexadecimal_literal("0x"@ + hex_digits(n, upper)) == Some(n),
        scan::int_hex_literal("0x"@ + hex_digits(n, upper)) == scan::int_value(n, false),
        scan::long_hex_literal("0x"@ + hex_digits(n, upper)) == scan::long_value(n, false),
        scan::trimmed("int(0x"@ + hex_digits(n, upper) + ")"@, 4, 1) == "0x"@ + hex_digits(
            n,
            upper,
        ),
{
    reveal_strlit("0x");
    reveal_strlit("int(0x");
    reveal_strlit(")");
    let digits = hex_digits(n, upper);
    let text = "0x"@ + digits;
    let len = text.len() as int;
    lemma_hex_digits_are_digits(n, upper);
    assert forall|j: int| 2 <= j < len implies is_hex_digit(#[trigger] text[j]) by {
        assert(text[j] == digits[j - 2]);
    }
    assert(text.subrange(2, len) =~= digits);
    lemma_number_of_hex_digits(text, 2, n, upper);
    scan::lemma_hexadecimal_literal_in_text(text, 0, len);
    assert(text.subrange(0, len) =~= text);
    assert(scan::trimmed("int(0x"@ + digits + ")"@, 4, 1) =~= text);
}

/// A `long` that is printed and read again is the same number: the decimal
/// text of every `long`, the least and the largest among them, is read as
/// one token, the literal of that number.
pub proof fn lemma_printed_long_is_read_back(v: i64)
    ensures
        tokens_of(decimal(v as int)) == one_token(decimal(v as int), TokenView::LongLiteral(v)),
{
    let text = decimal(v as int);
    let len = text.len() as int;
    if v >= 0 {
        let n = v as nat;
        lemma_decimal_digits_are_digits(n);
        lemma_run_end_is(text, 0, len, CharClass::Digit);
        assert(text.subrange(0, len) =~= decimal_digits(n));
        lemma_number_of_decimal_digits(text, 0, n);
        assert(!(at(text, 1) == 'x'));
        assert(lexeme(text, 0) == (len, Some(TokenView::LongLiteral(v))));
    } else {
        let n = (-v) as nat;
        let digits = decimal_digits(n);
        lemma_decimal_digits_are_digits(n);
        assert forall|j: int| 1 <= j < len implies is_digit(#[trigger] text[j]) by {
            assert(text[j] == digits[j - 1]);
        }
        lemma_run_end_is(text, 1, len, CharClass::Digit);
        assert(text.subrange(1, len) =~= digits);
        lemma_number_of_decimal_digits(text, 1, n);
        assert(text[0] == '-');
        assert(text[1] == digits[0]);
        assert(lexeme(text, 0) == (len, Some(TokenView::LongLiteral(v))));
    }
    assert(tokens_from(text, len) =~= Seq::empty());
    assert(tokens_of(text) =~= one_token(text, TokenView::LongLiteral(v)));
}

/// An `int` that is printed and read again is the same number: the decimal
/// text of every `int`, the least and the largest among them, between
/// `int(` and `)`, is read as one token, the literal of that number.
pub proof fn lemma_printed_int_is_read_back(v: i32)
    ensures
        tokens_of("int("@ + decimal(v as int) + ")"@) == one_token(
            "int("@ + decimal(v as int) + ")"@,
            TokenView::IntLiteral(v),
        ),
{
    reveal_strlit("int(");
    reveal_strlit("int");
    reveal_strlit("bool");
    reveal_strlit(")");
    reveal_strlit("(null)");
    let text = "int("@ + decimal(v as int) + ")"@;
    let len = text.len() as int;
    let n = (if v >= 0 {
        v as int
    } else {
        -v
    }) as nat;
    let digits = decimal_digits(n);
    let first: int = if v >= 0 {
        4
    } else {
        5
    };
    lemma_decimal_digits_are_digits(n);
    assert(text[0] == 'i' && text[1] == 'n' && text[2] == 't' && text[3] == '(');
    assert(first + digits.len() == len - 1);
    assert(text[len - 1] == ')');
    assert forall|j: int| first <= j < len - 1 implies is_digit(#[trigger] text[j]) by {
        assert(text[j] == digits[j - first]);
    }
    assert(text[first] == digits[0]);
    lemma_run_end_is(text, 0, 3, CharClass::Word);
    lemma_run_end_is(text, first, len - 1, CharClass::Digit);
    assert(text.subrange(first, len - 1) =~= digits);
    lemma_number_of_decimal_digits(text, first, n);
    assert(text.subrange(0, 3) =~= "int"@);
    assert(scan::is_text(text, 0, 3, "int"@));
    assert(!scan::is_text(text, 0, 3, "bool"@));
    assert(!scan::starts(text, 3, "(null)"@)) by {
        if scan::starts(text, 3, "(null)"@) {
            assert(text.subrange(3, 9)[1] == 'n');
        }
    }
    assert(scan::typed_number(text, 3) == Some((len, first, len - 1, 10nat, v < 0)));
    assert(scan::typed_literal(text, 0, 3) == Some((len, TokenView::IntLiteral(v))));
    assert(lexeme(text, 0) == (len, Some(TokenView::IntLiteral(v))));
    assert(tokens_from(text, len) =~= Seq::empty());
    assert(tokens_of(text) =~= one_token(text, TokenView::IntLiteral(v)));
}

/// A `long` that is printed between `long(` and `)` and read again is the
/// same number: the decimal text of every `long`, the least and the largest
/// among them, is read there as one token, the literal of that number.
pub proof fn lemma_printed_typed_long_is_read_back(v: i64)
    ensures
        tokens_of("long("@ + decimal(v as int) + ")"@) == one_token(
            "long("@ + decimal(v as int) + ")"@,
            TokenView::LongLiteral(v),
        ),
{
    reveal_strlit("long(");
    reveal_strlit("long");
    reveal_strlit("int");
    reveal_strlit("bool");
    reveal_strlit(")");
    reveal_strlit("(null)");
    let text = "long("@ + decimal(v as int) + ")"@;
    let len = text.len() as int;
    let n = (if v >= 0 {
        v as int
    } else {
        -v
    }) as nat;
    let digits = decimal_digits(n);
    let first: int = if v >= 0 {
        5
    } else {
        6
    };
    lemma_decimal_digits_are_digits(n);
    assert(text[0] == 'l' && text[1] == 'o' && text[2] == 'n' && text[3] == 'g' && text[4] == '(');
    assert(first + digits.len() == len - 1);
    assert(text[len - 1] == ')');
    assert forall|j: int| first <= j < len - 1 implies is_digit(#[trigger] text[j]) by {
        assert(text[j] == digits[j - first]);
    }
    assert(text[first] == digits[0]);
    lemma_run_end_is(text, 0, 4, CharClass::Word);
    lemma_run_end_is(text, first, len - 1, CharClass::Digit);
    assert(text.subrange(first, len - 1) =~= digits);
    lemma_number_of_decimal_digits(text, first, n);
    assert(text.subrange(0, 4) =~= "long"@);
    assert(scan::is_text(text, 0, 4, "long"@));
    assert(!scan::is_text(text, 0, 4, "bool"@)) by {
        if scan::is_text(text, 0, 4, "bool"@) {
            assert(text.subrange(0, 4)[0] == 'b');
        }
    }
    assert(!scan::is_text(text, 0, 4, "int"@));
    assert(!scan::starts(text, 4, "(null)"@)) by {
        if scan::starts(text, 4, "(null)"@) {
            assert(text.subrange(4, 10)[1] == 'n');
        }
    }
    assert(scan::typed_number(text, 4) == Some((len, first, len - 1, 10nat, v < 0)));
    assert(scan::typed_literal(text, 0, 4) == Some((len, TokenView::LongLiteral(v))));
    assert(lexeme(text, 0) == (len, Some(TokenView::LongLiteral(v))));
    assert(tokens_from(text, len) =~= Seq::empty());
    assert(tokens_of(text) =~= one_token(text, TokenView::LongLiteral(v)));
}

/// A number that is printed in hexadecimal digits after `0x`, in capital or
/// small letters, is read as one token: the `long` literal of that number
/// where it is at most the largest `long`, and an error where it is larger.
pub proof fn lemma_printed_hex_long_is_read_back(n: nat, upper: spec_fn(nat) -> bool)
    ensures
        tokens_of("0x"@ + hex_digits(n, upper)) == one_token(
            "0x"@ + hex_digits(n, upper),
            scan::long_token(n, false),
        ),
{
    reveal_strlit("0x");
    let digits = hex_digits(n, upper);
    let text = "0x"@ + digits;
    let len = text.len() as int;
    lemma_hex_digits_are_digits(n, upper);
    assert(text[0] == '0' && text[1] == 'x');
    assert forall|j: int| 2 <= j < len implies is_hex_digit(#[trigger] text[j]) by {
        assert(text[j] == digits[j - 2]);
    }
    assert(text[2] == digits[0]);
    lemma_run_end_is(text, 2, len, CharClass::HexDigit);
    assert(text.subrange(2, len) =~= digits);
    lemma_number_of_hex_digits(text, 2, n, upper);
    assert(lexeme(text, 0) == (len, Some(scan::long_token(n, false))));
    assert(tokens_from(text, len) =~= Seq::empty());
    assert(tokens_of(text) =~= one_token(text, scan::long_token(n, false)));
}

/// A number that is printed in hexadecimal digits between `int(0x` and `)`,
/// in capital or small letters, is read as one token: the `int` literal of
/// that number where it is at most the largest `int`, and an error where it
/// is larger.
pub proof fn lemma_printed_hex_int_is_read_back(n: nat, upper: spec_fn(nat) -> bool)
    ensures
        tokens_of("int(0x"@ + hex_digits(n, upper) + ")"@) == one_token(
            "int(0x"@ + hex_digits(n, upper) + ")"@,
            scan::int_token(n, false),
        ),
{
    reveal_strlit("int(0x");
    reveal_strlit("int");
    reveal_strlit("bool");
    reveal_strlit(")");
    reveal_strlit("(null)");
    let digits = hex_digits(n, upper);
    let text = "int(0x"@ + digits + ")"@;
    let len = text.len() as int;
    lemma_hex_digits_are_digits(n, upper);
    assert(text[0] == 'i' && text[1] == 'n' && text[2] == 't' && text[3] == '(');
    assert(text[4] == '0' && text[5] == 'x');
    assert(text[len - 1] == ')');
    assert forall|j: int| 6 <= j < len - 1 implies is_hex_digit(#[trigger] text[j]) by {
        assert(text[j] == digits[j - 6]);
    }
    assert(text[6] == digits[0]);
    lemma_run_end_is(text, 0, 3, CharClass::Word);
    lemma_run_end_is(text, 4, 5, CharClass::Digit);
    lemma_run_end_is(text, 6, len - 1, CharClass::HexDigit);
    assert(text.subrange(6, len - 1) =~= digits);
    lemma_number_of_hex_digits(text, 6, n, upper);
    assert(text.subrange(0, 3) =~= "int"@);
    assert(scan::is_text(text, 0, 3, "int"@));
    assert(!scan::is_text(text, 0, 3, "bool"@));
    assert(!scan::starts(text, 3, "(null)"@)) by {
        if scan::starts(text, 3, "(null)"@) {
            assert(text.subrange(3, 9)[1] == 'n');
        }
    }
    assert(scan::typed_number(text, 3) == Some((len, 6int, len - 1, 16nat, false)));
    assert(scan::typed_literal(text, 0, 3) == Some((len, scan::int_token(n, false))));
    assert(lexeme(text, 0) == (len, Some(scan::int_token(n, false))));
    assert(tokens_from(text, len) =~= Seq::empty());
    assert(tokens_of(text) =~= one_token(text, scan::int_token(n, false)));
}

/// A real number that is written as digits, a point and digits is read as
/// one token that holds these characters unchanged, so that printing it
/// gives them back.
pub proof fn lemma_real_keeps_its_digits(whole: Seq<char>, fraction: Seq<char>)
    requires
        whole.len() > 0,
        fraction.len() > 0,
        forall|i: int| 0 <= i < whole.len() ==> is_digit(#[trigger] whole[i]),
        forall|i: int| 0 <= i < fraction.len() ==> is_digit(#[trigger] fraction[i]),
    ensures
        tokens_of(whole + seq!['.'] + fraction) == one_token(
            whole + seq!['.'] + fraction,
            TokenView::RealLiteral(RealView::Decimal(whole + seq!['.'] + fraction)),
        ),
{
    let text = whole + seq!['.'] + fraction;
    let len = text.len() as int;
    let point = whole.len() as int;
    assert forall|j: int| 0 <= j < point implies is_digit(#[trigger] text[j]) by {
        assert(text[j] == whole[j]);
    }
    assert forall|j: int| point + 1 <= j < len implies is_digit(#[trigger] text[j]) by {
        assert(text[j] == fraction[j - point - 1]);
    }
    assert(text[point] == '.');
    assert(text[0] == whole[0]);
    assert(text[point + 1] == fraction[0]);
    lemma_run_end_is(text, 0, point, CharClass::Digit);
    lemma_run_end_is(text, point + 1, len, CharClass::Digit);
    assert(text.subrange(0, len) =~= text);
    assert(!(at(text, 1) == 'x'));
    assert(lexeme(text, 0) == (
        len,
        Some(TokenView::RealLiteral(RealView::Decimal(text))),
    ));
    assert(tokens_from(text, len) =~= Seq::empty());
    assert(tokens_of(text) =~= one_token(
        text,
        TokenView::RealLiteral(RealView::Decimal(text)),
    ));
}

/// The ranges of the errors among some tokens, in their order.
pub open spec fn error_spans(tokens: Seq<M<TokenView>>) -> Seq<LexerError>
    decreases tokens.len(),
{
    if tokens.len() == 0 {
        Seq::empty()
    } else {
        let rest = error_spans(tokens.drop_last());
        if tokens.last().value is Error {
            rest.push(LexerError { span: tokens.last().span })
        } else {
            rest
        }
    }
}

/// Whether every token lies within the first `bytes` bytes.
pub open spec fn within(tokens: Seq<M<TokenView>>, bytes: nat) -> bool {
    forall|i: int| 0 <= i < tokens.len() ==> (#[trigger] tokens[i]).span.end() <= bytes
}

/// The length of a text in bytes is the sum of the widths of its characters.
pub proof fn lemma_byte_len_is_encoded_len(text: Seq<char>)
    ensures
        encode_utf8(text).len() == byte_len(text),
    decreases text.len(),
{
    if text.len() > 0 {
        let rest = text.drop_first();
        lemma_byte_len_is_encoded_len(rest);
        lemma_byte_len_first(text);
        vstd::utf8::char_is_scalar(text[0]);
        assert(encode_scalar(text[0] as u32).len() == width(text[0]));
    }
}

/// The length of a text in bytes is the width of its first character and
/// the length of the rest.
proof fn lemma_byte_len_first(text: Seq<char>)
    requires
        text.len() > 0,
    ensures
        byte_len(text) == width(text[0]) + byte_len(text.drop_first()),
    decreases text.len(),
{
    if text.len() == 1 {
        assert(text.drop_last() =~= Seq::empty());
        assert(text.drop_first() =~= Seq::empty());
    } else {
        lemma_byte_len_first(text.drop_last());
        assert(text.drop_last().drop_first() =~= text.drop_first().drop_last());
    }
}

/// Splits a text into its tokens. Text that is no token becomes an error
/// token; white space and comments are left out.
///
/// The tokens lie in the text one after the other, without overlap, and
/// none reaches past its end.
pub fn lex(contents: &str) -> (tokens: Vec<M<Token>>)
    ensures
        tokens.deep_view() == tokens_of(contents@),
        in_order(tokens.deep_view()),
        within(tokens.deep_view(), byte_len(contents@)),
        forall|i: int| 0 <= i < tokens.len() ==> (#[trigger] tokens.deep_view()[i]).span.len > 0,
{
    let text = chars_of(contents);
    let total = contents.as_bytes().len();
    proof {
        lemma_byte_len_is_encoded_len(contents@);
        assert(text@.take(0) =~= Seq::empty());
    }
    let mut tokens: Vec<M<Token>> = Vec::new();
    let mut index: usize = 0;
    let mut offset: usize = 0;
    assert(tokens.deep_view() =~= Seq::empty());
    while index < text.len()
        invariant
            text@ == contents@,
            total == byte_len(text@),
            index <= text.len(),
            offset == byte_offset(text@, index as int),
            tokens_of(text@) == tokens.deep_view() + tokens_from(text@, index as int),
            in_order(tokens.deep_view()),
            within(tokens.deep_view(), offset as nat),
            forall|i: int|
                0 <= i < tokens.len() ==> (#[trigger] tokens.deep_view()[i]).span.len > 0,
        decreases text.len() - index,
    {
        let (end, found) = scan(&text, index);
        let start = offset;
        let ghost before = tokens.deep_view();
        let mut at = index;
        while at < end
            invariant
                index <= at <= end <= text.len(),
                total == byte_len(text@),
                start == byte_offset(text@, index as int),
                offset == byte_offset(text@, at as int),
                start + (at - index) <= offset,
            decreases end - at,
        {
            proof {
                lemma_byte_offset_step(text@, at as int);
                lemma_byte_offset_grows(text@, at + 1, text@.len() as int);
            }
            offset += char_width(text[at]);
            at += 1;
        }
        match found {
            Some(value) => {
                let token = M::new(value, Span::new(start, offset - start));
                let ghost token_view = token.deep_view();
                tokens.push(token);
                proof {
                    assert(tokens.deep_view() =~= before.push(token_view));
                    assert(token_view.span == span_between(text@, index as int, end as int));
                    assert(tokens.deep_view() + tokens_from(text@, end as int) =~= before
                        + tokens_from(text@, index as int));
                    assert forall|i: int, j: int|
                        0 <= i < j < tokens.len() implies (#[trigger] tokens.deep_view()[i]).span.end()
                        <= (#[trigger] tokens.deep_view()[j]).span.offset by {
                        if j < before.len() {
                            assert(tokens.deep_view()[i] == before[i]);
                            assert(tokens.deep_view()[j] == before[j]);
                        } else {
                            assert(tokens.deep_view()[i] == before[i]);
                        }
                    }
                    assert forall|i: int| 0 <= i < tokens.len() implies (
                    #[trigger] tokens.deep_view()[i]).span.end() <= offset
                        && tokens.deep_view()[i].span.len > 0 by {
                        if i < before.len() {
                            assert(tokens.deep_view()[i] == before[i]);
                        }
                    }
                }
            },
            None => {},
        }
        index = end;
    }
    assert(tokens.deep_view() + tokens_from(text@, index as int) =~= tokens.deep_view());
    proof {
        lemma_byte_offset_grows(text@, index as int, text@.len() as int);
    }
    tokens
}

/// Returns a token vector or collection of errors: the tokens of the text
/// where none of them is an error, else the range of each error.
pub fn tokenize(contents: String) -> (result: Result<Vec<TokenData>, Vec<LexerError>>)
    ensures
        match result {
            Ok(tokens) => {
                &&& tokens.deep_view() == tokens_of(contents@)
                &&& error_spans(tokens_of(contents@)).len() == 0
                &&& in_order(tokens.deep_view())
                &&& within(tokens.deep_view(), byte_len(contents@))
                &&& forall|i: int|
                    0 <= i < tokens.len() ==> (#[trigger] tokens.deep_view()[i]).span.len > 0
            },
            Err(errors) => errors@ == error_spans(tokens_of(contents@)) && errors.len() > 0,
        },
{
    let tokens = lex(contents.as_str());
    let ghost all = tokens.deep_view();
    let mut errors: Vec<LexerError> = Vec::new();
    let mut index: usize = 0;
    assert(all.take(0) =~= Seq::empty());
    while index < tokens.len()
        invariant
            index <= tokens.len(),
            all == tokens.deep_view(),
            errors@ == error_spans(all.take(index as int)),
        decreases tokens.len() - index,
    {
        assert(all.take(index + 1).drop_last() =~= all.take(index as int));
        assert(all.take(index + 1).last() == tokens@[index as int].deep_view());
        if tokens[index].value.same(&Token::Error) {
            errors.push(LexerError { span: tokens[index].span });
        }
        index += 1;
    }
    assert(all.take(all.len() as int) =~= all);
    if errors.len() == 0 {
        Ok(tokens)
    } else {
        Err(errors)
    }
}

} // verus!
