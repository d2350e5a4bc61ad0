//! The rules of the tokens: what stands at a position of the text, and how
//! far it reaches.

use crate::lexer::chars::{
    all_digits, at, char_at, digits_of, find_run_end, is_digit, is_hex_digit, is_letter, is_space,
    lemma_number_in_part, lemma_run_end_bounds, lemma_run_end_in_part, letter, number,
    read_number, run_end, CharClass, LARGEST,
};
use crate::lexer::{Token, TokenView};
use crate::numbers::{Real, RealView};
use crate::text::push_char;
use vstd::prelude::*;

verus! {

/// The characters of a text, one by one.
pub(crate) fn chars_of(text: &str) -> (chars: Vec<char>)
    ensures
        chars@ == text@,
{
    let mut chars: Vec<char> = Vec::new();
    for c in it: text.chars()
        invariant
            it.seq() == text@,
            chars@ == text@.take(it.index() as int),
    {
        chars.push(c);
    }
    assert(chars@ =~= text@);
    chars
}

/// Whether `pattern` stands in the text at `index`.
pub open spec fn starts(text: Seq<char>, index: int, pattern: Seq<char>) -> bool {
    &&& 0 <= index
    &&& index + pattern.len() <= text.len()
    &&& text.subrange(index, index + pattern.len()) == pattern
}

pub(crate) fn starts_with(text: &Vec<char>, index: usize, pattern: &str) -> (found: bool)
    ensures
        found == starts(text@, index as int, pattern@),
{
    let wanted = chars_of(pattern);
    if wanted.len() > text.len() || index > text.len() - wanted.len() {
        return false;
    }
    let mut k: usize = 0;
    while k < wanted.len()
        invariant
            k <= wanted.len(),
            wanted@ == pattern@,
            index + wanted.len() <= text.len(),
            forall|j: int| 0 <= j < k ==> text@[index + j] == wanted@[j],
        decreases wanted.len() - k,
    {
        if text[index + k] != wanted[k] {
            assert(text@.subrange(index as int, index + pattern@.len())[k as int] != pattern@[k as int]);
            return false;
        }
        k += 1;
    }
    assert(text@.subrange(index as int, index + pattern@.len()) =~= pattern@);
    true
}

/// Whether the characters from `from` up to `to` are `word`.
pub open spec fn is_text(text: Seq<char>, from: int, to: int, word: Seq<char>) -> bool {
    to - from == word.len() && starts(text, from, word)
}

pub(crate) fn text_is(text: &Vec<char>, from: usize, to: usize, word: &str) -> (equal: bool)
    requires
        from <= to,
    ensures
        equal == is_text(text@, from as int, to as int, word@),
{
    let found = starts_with(text, from, word);
    if !found {
        return false;
    }
    let wanted = chars_of(word);
    to - from == wanted.len()
}

/// The characters from `from` up to `to`, as a string.
pub(crate) fn collect(text: &Vec<char>, from: usize, to: usize) -> (copy: String)
    requires
        from <= to <= text.len(),
    ensures
        copy@ == text@.subrange(from as int, to as int),
{
    let mut copy = String::new();
    let mut index = from;
    while index < to
        invariant
            from <= index <= to <= text.len(),
            copy@ == text@.subrange(from as int, index as int),
        decreases to - index,
    {
        push_char(&mut copy, text[index]);
        index += 1;
        assert(copy@ =~= text@.subrange(from as int, index as int));
    }
    copy
}

/// The character that stands for the one after a backslash.
pub open spec fn escaped(c: char) -> Option<char> {
    if c == '"' {
        Some('"')
    } else if c == '\'' {
        Some('\'')
    } else if c == '\\' {
        Some('\\')
    } else if c == 'n' {
        Some('\n')
    } else if c == 'r' {
        Some('\r')
    } else if c == 't' {
        Some('\t')
    } else {
        None
    }
}

/// Parses an escaped character: the one after the backslash.
pub fn parse_escaped_char(c: char) -> (result: Option<(char, usize)>)
    ensures
        match result {
            Some((found, len)) => escaped(c) == Some(found) && len == 1,
            None => escaped(c) is None,
        },
{
    let res = if c == '"' {
        ('"', 1)
    } else if c == '\'' {
        ('\'', 1)
    } else if c == '\\' {
        ('\\', 1)
    } else if c == 'n' {
        ('\n', 1)
    } else if c == 'r' {
        ('\r', 1)
    } else if c == 't' {
        ('\t', 1)
    } else {
        return None;
    };
    Some(res)
}

/// Reads the rest of a string that ends with `quote`, from `index` on, after
/// `content` has been read: where the string ends, and what it holds.
///
/// A line feed or carriage return ends it before that character, without a
/// content; so does the end of the text. Where `escapes` holds, a backslash
/// and the character after it stand for one character; a backslash before
/// any other character ends the string after the backslash, without a
/// content.
pub open spec fn string_end(
    text: Seq<char>,
    index: int,
    quote: char,
    escapes: bool,
    content: Seq<char>,
) -> (int, Option<Seq<char>>)
    decreases text.len() - index,
{
    if index < 0 || index >= text.len() {
        (text.len() as int, None)
    } else if text[index] == quote {
        (index + 1, Some(content))
    } else if text[index] == '\n' || text[index] == '\r' {
        (index, None)
    } else if escapes && text[index] == '\\' {
        match escaped(at(text, index + 1)) {
            Some(c) => string_end(text, index + 2, quote, escapes, content.push(c)),
            None => (index + 1, None),
        }
    } else {
        string_end(text, index + 1, quote, escapes, content.push(text[index]))
    }
}

/// A string ends within the text, at or after where its rest begins.
pub proof fn lemma_string_end_bounds(
    text: Seq<char>,
    index: int,
    quote: char,
    escapes: bool,
    content: Seq<char>,
)
    requires
        0 <= index <= text.len(),
    ensures
        index <= string_end(text, index, quote, escapes, content).0 <= text.len(),
    decreases text.len() - index,
{
    if index < text.len() && text[index] != quote && text[index] != '\n' && text[index] != '\r' {
        if escapes && text[index] == '\\' {
            if escaped(at(text, index + 1)) is Some {
                lemma_string_end_bounds(
                    text,
                    index + 2,
                    quote,
                    escapes,
                    content.push(escaped(at(text, index + 1))->0),
                );
            }
        } else {
            lemma_string_end_bounds(text, index + 1, quote, escapes, content.push(text[index]));
        }
    }
}

/// Reads the rest of a string, after its opening quote: where it ends, and
/// what it holds.
fn read_string(text: &Vec<char>, start: usize, quote: char, escapes: bool) -> (result: (
    usize,
    Option<String>,
))
    requires
        start <= text.len(),
    ensures
        (result.0 as int, result.1.deep_view()) == string_end(
            text@,
            start as int,
            quote,
            escapes,
            Seq::empty(),
        ),
        start <= result.0 <= text.len(),
{
    let mut buf = String::new();
    let mut index = start;
    proof {
        lemma_string_end_bounds(text@, start as int, quote, escapes, Seq::empty());
    }
    while index < text.len()
        invariant
            start <= index <= text.len(),
            string_end(text@, start as int, quote, escapes, Seq::empty()) == string_end(
                text@,
                index as int,
                quote,
                escapes,
                buf@,
            ),
        decreases text.len() - index,
    {
        let c = text[index];
        // End the parse when you encounter another quote
        if c == quote {
            return (index + 1, Some(buf));
        }
        if c == '\n' || c == '\r' {
            return (index, None);
        }
        // If slash, then parse an escaped character
        if escapes && c == '\\' {
            match parse_escaped_char(char_at(text, index + 1)) {
                Some((c_esc, c_len)) => {
                    push_char(&mut buf, c_esc);
                    index = index + 1 + c_len;
                },
                None => {
                    return (index + 1, None);
                },
            }
        } else {
            push_char(&mut buf, c);
            index += 1;
        }
    }
    (index, None)
}

/// Reads the rest of a string in which a backslash escapes a character.
pub fn parse_string_literal(text: &Vec<char>, start: usize, init: char) -> (result: (
    usize,
    Option<String>,
))
    requires
        start <= text.len(),
    ensures
        (result.0 as int, result.1.deep_view()) == string_end(
            text@,
            start as int,
            init,
            true,
            Seq::empty(),
        ),
        start <= result.0 <= text.len(),
{
    read_string(text, start, init, true)
}

/// Reads the rest of a string in which a backslash is a character like
/// every other.
pub fn parse_verbatim_string_literal(text: &Vec<char>, start: usize, init: char) -> (result: (
    usize,
    Option<String>,
))
    requires
        start <= text.len(),
    ensures
        (result.0 as int, result.1.deep_view()) == string_end(
            text@,
            start as int,
            init,
            false,
            Seq::empty(),
        ),
        start <= result.0 <= text.len(),
{
    read_string(text, start, init, false)
}

/// A number of backticks.
pub open spec fn backticks(count: nat) -> Seq<char> {
    Seq::new(count, |i: int| '`')
}

/// Reads the rest of a string between three backticks on each side, from
/// `index` on, after `content` has been read and `ticks` backticks last:
/// where the string ends, and what it holds.
///
/// The third backtick in a row ends the string; fewer of them belong to the
/// content. A line feed or carriage return ends it before that character,
/// without a content; so does the end of the text.
pub open spec fn multiline_end(text: Seq<char>, index: int, ticks: nat, content: Seq<char>) -> (
    int,
    Option<Seq<char>>,
)
    decreases text.len() - index,
{
    if index < 0 || index >= text.len() {
        (text.len() as int, None)
    } else if text[index] == '`' {
        if ticks >= 2 {
            (index + 1, Some(content))
        } else {
            multiline_end(text, index + 1, ticks + 1, content)
        }
    } else if text[index] == '\n' || text[index] == '\r' {
        (index, None)
    } else {
        multiline_end(text, index + 1, 0, (content + backticks(ticks)).push(text[index]))
    }
}

/// Reads the rest of a string between backticks, after the opening three.
pub fn parse_multiline_string_literal(text: &Vec<char>, start: usize) -> (result: (usize, Option<String>))
    requires
        start <= text.len(),
    ensures
        (result.0 as int, result.1.deep_view()) == multiline_end(
            text@,
            start as int,
            0,
            Seq::empty(),
        ),
        start <= result.0 <= text.len(),
{
    let mut buf = String::new();
    let mut backtick_count: usize = 0;
    let mut index = start;
    while index < text.len()
        invariant
            start <= index <= text.len(),
            backtick_count <= 2,
            multiline_end(text@, start as int, 0, Seq::empty()) == multiline_end(
                text@,
                index as int,
                backtick_count as nat,
                buf@,
            ),
        decreases text.len() - index,
    {
        let c = text[index];
        if c == '`' {
            backtick_count += 1;
            index += 1;
            if backtick_count == 3 {
                return (index, Some(buf));
            } else {
                continue ;
            }
        }
        if c == '\n' || c == '\r' {
            return (index, None);
        }
        let ghost before = buf@;
        let mut pushed: usize = 0;
        while pushed < backtick_count
            invariant
                pushed <= backtick_count,
                buf@ == before + backticks(pushed as nat),
            decreases backtick_count - pushed,
        {
            push_char(&mut buf, '`');
            pushed += 1;
            assert(buf@ =~= before + backticks(pushed as nat));
        }
        backtick_count = 0;
        push_char(&mut buf, c);
        index += 1;
    }
    (index, None)
}

/// The `long` that digits with a sign stand for, where there is one: the
/// digits alone may stand for as much as the largest `long`, and after a
/// `-` for one more, the size of the least `long`.
pub open spec fn long_value(magnitude: nat, negative: bool) -> Option<i64> {
    if negative {
        if magnitude <= -(i64::MIN as int) {
            Some((-(magnitude as int)) as i64)
        } else {
            None
        }
    } else {
        if magnitude <= i64::MAX {
            Some(magnitude as i64)
        } else {
            None
        }
    }
}

/// The `int` that digits with a sign stand for, where there is one: the
/// digits alone may stand for as much as the largest `int`, and after a `-`
/// for one more, the size of the least `int`.
pub open spec fn int_value(magnitude: nat, negative: bool) -> Option<i32> {
    if negative {
        if magnitude <= -(i32::MIN as int) {
            Some((-(magnitude as int)) as i32)
        } else {
            None
        }
    } else {
        if magnitude <= i32::MAX {
            Some(magnitude as i32)
        } else {
            None
        }
    }
}

/// The token of a `long` number, or an error where there is no such `long`.
pub open spec fn long_token(magnitude: nat, negative: bool) -> TokenView {
    match long_value(magnitude, negative) {
        Some(value) => TokenView::LongLiteral(value),
        None => TokenView::Error,
    }
}

/// The token of an `int` number, or an error where there is no such `int`.
pub open spec fn int_token(magnitude: nat, negative: bool) -> TokenView {
    match int_value(magnitude, negative) {
        Some(value) => TokenView::IntLiteral(value),
        None => TokenView::Error,
    }
}

/// A text without its first `trim_front` and its last `trim_back`
/// characters.
pub open spec fn trimmed(s: Seq<char>, trim_front: int, trim_back: int) -> Seq<char> {
    s.subrange(trim_front, s.len() - trim_back)
}

/// The number that a decimal text stands for, and whether it is negative:
/// one digit or more, after a `-` or not. Any other text stands for none.
pub open spec fn decimal_literal(body: Seq<char>) -> Option<(nat, bool)> {
    let negative = body.len() > 0 && body[0] == '-';
    let first: int = if negative {
        1
    } else {
        0
    };
    if first < body.len() && digits_of(body, first, body.len() as int, 10) {
        Some((number(body, first, body.len() as int, 10), negative))
    } else {
        None
    }
}

/// The number that a hexadecimal text stands for: one hexadecimal digit or
/// more after `0x`, in capital or small letters. Any other text stands for
/// none.
pub open spec fn hexadecimal_literal(body: Seq<char>) -> Option<nat> {
    if body.len() > 2 && body[0] == '0' && body[1] == 'x' && digits_of(
        body,
        2,
        body.len() as int,
        16,
    ) {
        Some(number(body, 2, body.len() as int, 16))
    } else {
        None
    }
}

/// The `int` that a decimal text stands for, where it stands for one.
pub open spec fn int_dec_literal(body: Seq<char>) -> Option<i32> {
    match decimal_literal(body) {
        Some((magnitude, negative)) => int_value(magnitude, negative),
        None => None,
    }
}

/// The `long` that a decimal text stands for, where it stands for one.
pub open spec fn long_dec_literal(body: Seq<char>) -> Option<i64> {
    match decimal_literal(body) {
        Some((magnitude, negative)) => long_value(magnitude, negative),
        None => None,
    }
}

/// The `int` that a hexadecimal text stands for, where it stands for one.
pub open spec fn int_hex_literal(body: Seq<char>) -> Option<i32> {
    match hexadecimal_literal(body) {
        Some(magnitude) => int_value(magnitude, false),
        None => None,
    }
}

/// The `long` that a hexadecimal text stands for, where it stands for one.
pub open spec fn long_hex_literal(body: Seq<char>) -> Option<i64> {
    match hexadecimal_literal(body) {
        Some(magnitude) => long_value(magnitude, false),
        None => None,
    }
}

/// Reads the decimal number in a text without its first `trim_front` and
/// its last `trim_back` characters, where it is at most `limit`, or after a
/// `-` at most `limit + 1`.
fn read_decimal(s: &Vec<char>, trim_front: usize, trim_back: usize, limit: u64) -> (value: Option<
    (u64, bool),
>)
    requires
        trim_front + trim_back <= s.len(),
        limit < LARGEST,
    ensures
        match decimal_literal(trimmed(s@, trim_front as int, trim_back as int)) {
            Some((magnitude, negative)) => if magnitude <= limit + if negative {
                1int
            } else {
                0int
            } {
                value == Some((magnitude as u64, negative))
            } else {
                value is None
            },
            None => value is None,
        },
{
    let to = s.len() - trim_back;
    let ghost body = trimmed(s@, trim_front as int, trim_back as int);
    let negative = trim_front < to && s[trim_front] == '-';
    let first = if negative {
        trim_front + 1
    } else {
        trim_front
    };
    proof {
        if trim_front < to {
            assert(body[0] == s@[trim_front as int]);
        }
        assert(digits_of(body, first - trim_front, body.len() as int, 10) == digits_of(
            s@,
            first as int,
            to as int,
            10,
        )) by {
            if digits_of(s@, first as int, to as int, 10) {
                assert forall|j: int| first - trim_front <= j < body.len() implies is_digit(
                    #[trigger] body[j],
                ) by {
                    assert(body[j] == s@[trim_front + j]);
                }
            }
            if digits_of(body, first - trim_front, body.len() as int, 10) {
                assert forall|j: int| first <= j < to implies is_digit(#[trigger] s@[j]) by {
                    assert(body[j - trim_front] == s@[j]);
                }
            }
        }
        lemma_number_in_part(s@, trim_front as int, to as int, first as int, to as int, 10);
    }
    if first >= to || !all_digits(s, first, to, 10) {
        return None;
    }
    let largest = if negative {
        limit + 1
    } else {
        limit
    };
    match read_number(s, first, to, 10, largest) {
        Some(magnitude) => Some((magnitude, negative)),
        None => None,
    }
}

/// Reads the hexadecimal number in a text without its first `trim_front`
/// and its last `trim_back` characters, where it is at most `limit`.
fn read_hexadecimal(s: &Vec<char>, trim_front: usize, trim_back: usize, limit: u64) -> (value:
    Option<u64>)
    requires
        trim_front + trim_back <= s.len(),
        limit < LARGEST,
    ensures
        match hexadecimal_literal(trimmed(s@, trim_front as int, trim_back as int)) {
            Some(magnitude) => if magnitude <= limit {
                value == Some(magnitude as u64)
            } else {
                value is None
            },
            None => value is None,
        },
{
    let to = s.len() - trim_back;
    let ghost body = trimmed(s@, trim_front as int, trim_back as int);
    if to - trim_front <= 2 || s[trim_front] != '0' || s[trim_front + 1] != 'x' {
        proof {
            if to - trim_front > 2 {
                assert(body[0] == s@[trim_front as int]);
                assert(body[1] == s@[trim_front + 1]);
            }
        }
        return None;
    }
    let first = trim_front + 2;
    proof {
        assert(body[0] == s@[trim_front as int]);
        assert(body[1] == s@[trim_front + 1]);
        assert(digits_of(body, 2, body.len() as int, 16) == digits_of(
            s@,
            first as int,
            to as int,
            16,
        )) by {
            if digits_of(s@, first as int, to as int, 16) {
                assert forall|j: int| 2 <= j < body.len() implies is_hex_digit(
                    #[trigger] body[j],
                ) by {
                    assert(body[j] == s@[trim_front + j]);
                }
            }
            if digits_of(body, 2, body.len() as int, 16) {
                assert forall|j: int| first <= j < to implies is_hex_digit(#[trigger] s@[j]) by {
                    assert(body[j - trim_front] == s@[j]);
                }
            }
        }
        lemma_number_in_part(s@, trim_front as int, to as int, first as int, to as int, 16);
    }
    if !all_digits(s, first, to, 16) {
        return None;
    }
    read_number(s, first, to, 16, limit)
}

/// Reads an `int` from its decimal text: the characters of `s` without the
/// first `trim_front` and the last `trim_back`. Every `int` is read from
/// its decimal text, the least one too; text that is no decimal number, or
/// one that is no `int`, gives none.
pub fn parse_int_dec_literal(s: &Vec<char>, trim_front: usize, trim_back: usize) -> (value: Option<
    i32,
>)
    requires
        trim_front + trim_back <= s.len(),
    ensures
        value == int_dec_literal(trimmed(s@, trim_front as int, trim_back as int)),
{
    match read_decimal(s, trim_front, trim_back, 0x7fff_ffff) {
        Some((magnitude, negative)) => {
            let n = magnitude as i64;
            Some(
                if negative {
                    (-n) as i32
                } else {
                    n as i32
                },
            )
        },
        None => None,
    }
}

/// Reads a `long` from its decimal text: the characters of `s` without the
/// first `trim_front` and the last `trim_back`. Every `long` is read from
/// its decimal text, the least one too; text that is no decimal number, or
/// one that is no `long`, gives none.
pub fn parse_long_dec_literal(s: &Vec<char>, trim_front: usize, trim_back: usize) -> (value:
    Option<i64>)
    requires
        trim_front + trim_back <= s.len(),
    ensures
        value == long_dec_literal(trimmed(s@, trim_front as int, trim_back as int)),
{
    match read_decimal(s, trim_front, trim_back, 0x7fff_ffff_ffff_ffff) {
        Some((magnitude, negative)) => {
            let n = magnitude as i128;
            Some(
                if negative {
                    (-n) as i64
                } else {
                    n as i64
                },
            )
        },
        None => None,
    }
}

/// Reads an `int` from its hexadecimal text after `0x`, in capital or small
/// letters: the characters of `s` without the first `trim_front` and the
/// last `trim_back`. Text that is no hexadecimal number, or one above the
/// largest `int`, gives none.
pub fn parse_int_hex_literal(s: &Vec<char>, trim_front: usize, trim_back: usize) -> (value: Option<
    i32,
>)
    requires
        trim_front + trim_back <= s.len(),
    ensures
        value == int_hex_literal(trimmed(s@, trim_front as int, trim_back as int)),
{
    match read_hexadecimal(s, trim_front, trim_back, 0x7fff_ffff) {
        Some(magnitude) => Some(magnitude as i32),
        None => None,
    }
}

/// Reads a `long` from its hexadecimal text after `0x`, in capital or small
/// letters: the characters of `s` without the first `trim_front` and the
/// last `trim_back`. Text that is no hexadecimal number, or one above the
/// largest `long`, gives none.
pub fn parse_long_hex_literal(s: &Vec<char>, trim_front: usize, trim_back: usize) -> (value:
    Option<i64>)
    requires
        trim_front + trim_back <= s.len(),
    ensures
        value == long_hex_literal(trimmed(s@, trim_front as int, trim_back as int)),
{
    match read_hexadecimal(s, trim_front, trim_back, 0x7fff_ffff_ffff_ffff) {
        Some(magnitude) => Some(magnitude as i64),
        None => None,
    }
}

/// Where digits stand in a text, after a `-` or not, the part of the text
/// that holds them is the decimal text of their number.
pub proof fn lemma_decimal_literal_in_text(text: Seq<char>, from: int, first: int, to: int)
    requires
        0 <= from <= first < to <= text.len(),
        digits_of(text, first, to, 10),
        first == from || (first == from + 1 && text[from] == '-'),
    ensures
        decimal_literal(text.subrange(from, to)) == Some(
            (number(text, first, to, 10), first > from),
        ),
{
    let body = text.subrange(from, to);
    assert(body[0] == text[from]);
    if first == from {
        assert(is_digit(text[first]));
    }
    assert forall|j: int| first - from <= j < body.len() implies is_digit(#[trigger] body[j]) by {
        assert(body[j] == text[from + j]);
        assert(is_digit(text[from + j]));
    }
    lemma_number_in_part(text, from, to, first, to, 10);
}

/// Where hexadecimal digits stand in a text after `0x`, the part of the
/// text that holds all of it is the hexadecimal text of their number.
pub proof fn lemma_hexadecimal_literal_in_text(text: Seq<char>, from: int, to: int)
    requires
        0 <= from,
        from + 2 < to <= text.len(),
        text[from] == '0',
        text[from + 1] == 'x',
        digits_of(text, from + 2, to, 16),
    ensures
        hexadecimal_literal(text.subrange(from, to)) == Some(number(text, from + 2, to, 16)),
{
    let body = text.subrange(from, to);
    assert(body[0] == text[from]);
    assert(body[1] == text[from + 1]);
    assert forall|j: int| 2 <= j < body.len() implies is_hex_digit(#[trigger] body[j]) by {
        assert(body[j] == text[from + j]);
        assert(is_hex_digit(text[from + j]));
    }
    lemma_number_in_part(text, from, to, from + 2, to, 16);
}

/// The token of a `long` that was read, or an error for none.
fn long_token_of(value: Option<i64>) -> (token: Token)
    ensures
        token.deep_view() == match value {
            Some(v) => TokenView::LongLiteral(v),
            None => TokenView::Error,
        },
{
    match value {
        Some(value) => Token::LongLiteral(value),
        None => Token::Error,
    }
}

/// The token of an `int` that was read, or an error for none.
fn int_token_of(value: Option<i32>) -> (token: Token)
    ensures
        token.deep_view() == match value {
            Some(v) => TokenView::IntLiteral(v),
            None => TokenView::Error,
        },
{
    match value {
        Some(value) => Token::IntLiteral(value),
        None => Token::Error,
    }
}

/// Reads as a `long` token the number that stands in the text from `from`
/// up to `to`, with its `-` or its `0x`.
fn read_long(text: &Vec<char>, from: usize, to: usize, first: usize, base: u64) -> (token: Token)
    requires
        from <= first < to <= text.len(),
        digits_of(text@, first as int, to as int, base as nat),
        base == 10 ==> first == from || (first == from + 1 && text@[from as int] == '-'),
        base != 10 ==> base == 16 && first == from + 2 && text@[from as int] == '0' && text@[from
            + 1] == 'x',
    ensures
        token.deep_view() == long_token(
            number(text@, first as int, to as int, base as nat),
            first == from + 1,
        ),
{
    proof {
        if base == 10 {
            lemma_decimal_literal_in_text(text@, from as int, first as int, to as int);
        } else {
            lemma_hexadecimal_literal_in_text(text@, from as int, to as int);
        }
    }
    let value = if base == 16 {
        parse_long_hex_literal(text, from, text.len() - to)
    } else {
        parse_long_dec_literal(text, from, text.len() - to)
    };
    long_token_of(value)
}

/// Reads as an `int` token the number that stands in the text from `from`
/// up to `to`, with its `-` or its `0x`.
fn read_int(text: &Vec<char>, from: usize, to: usize, first: usize, base: u64) -> (token: Token)
    requires
        from <= first < to <= text.len(),
        digits_of(text@, first as int, to as int, base as nat),
        base == 10 ==> first == from || (first == from + 1 && text@[from as int] == '-'),
        base != 10 ==> base == 16 && first == from + 2 && text@[from as int] == '0' && text@[from
            + 1] == 'x',
    ensures
        token.deep_view() == int_token(
            number(text@, first as int, to as int, base as nat),
            first == from + 1,
        ),
{
    proof {
        if base == 10 {
            lemma_decimal_literal_in_text(text@, from as int, first as int, to as int);
        } else {
            lemma_hexadecimal_literal_in_text(text@, from as int, to as int);
        }
    }
    let value = if base == 16 {
        parse_int_hex_literal(text, from, text.len() - to)
    } else {
        parse_int_dec_literal(text, from, text.len() - to)
    };
    int_token_of(value)
}

/// What stands at a digit: a hexadecimal number after `0x`, a real number
/// where a point and a digit follow the digits, else a decimal number.
pub open spec fn plain_number(text: Seq<char>, index: int) -> (int, TokenView) {
    let digits = run_end(text, index, CharClass::Digit);
    if at(text, index) == '0' && at(text, index + 1) == 'x' && is_hex_digit(at(text, index + 2)) {
        let end = run_end(text, index + 2, CharClass::HexDigit);
        (end, long_token(number(text, index + 2, end, 16), false))
    } else if at(text, digits) == '.' && is_digit(at(text, digits + 1)) {
        let end = run_end(text, digits + 1, CharClass::Digit);
        (end, TokenView::RealLiteral(RealView::Decimal(text.subrange(index, end))))
    } else {
        (digits, long_token(number(text, index, digits, 10), false))
    }
}

fn scan_number(text: &Vec<char>, index: usize) -> (result: (usize, Token))
    requires
        index < text.len(),
        is_digit(text@[index as int]),
    ensures
        (result.0 as int, result.1.deep_view()) == plain_number(text@, index as int),
        index < result.0 <= text.len(),
{
    let digits = find_run_end(text, index, CharClass::Digit);
    proof {
        lemma_run_end_bounds(text@, index as int, CharClass::Digit);
    }
    if text[index] == '0' && char_at(text, index + 1) == 'x' && CharClass::HexDigit.has(
        char_at(text, index + 2),
    ) {
        let end = find_run_end(text, index + 2, CharClass::HexDigit);
        proof {
            lemma_run_end_bounds(text@, index + 2, CharClass::HexDigit);
            lemma_run_end_bounds(text@, index + 3, CharClass::HexDigit);
        }
        (end, read_long(text, index, end, index + 2, 16))
    } else if char_at(text, digits) == '.' && CharClass::Digit.has(char_at(text, digits + 1)) {
        let end = find_run_end(text, digits + 1, CharClass::Digit);
        proof {
            lemma_run_end_bounds(text@, digits + 1, CharClass::Digit);
        }
        (end, Token::RealLiteral(Real::Decimal(collect(text, index, end))))
    } else {
        proof {
            lemma_run_end_bounds(text@, index + 1, CharClass::Digit);
        }
        (digits, read_long(text, index, digits, index, 10))
    }
}

/// What stands at a `-`: a negative decimal number where a digit follows,
/// else the minus sign.
pub open spec fn minus(text: Seq<char>, index: int) -> (int, TokenView) {
    if is_digit(at(text, index + 1)) {
        let end = run_end(text, index + 1, CharClass::Digit);
        (end, long_token(number(text, index + 1, end, 10), true))
    } else {
        (index + 1, TokenView::Sub)
    }
}

fn scan_minus(text: &Vec<char>, index: usize) -> (result: (usize, Token))
    requires
        index < text.len(),
        text@[index as int] == '-',
    ensures
        (result.0 as int, result.1.deep_view()) == minus(text@, index as int),
        index < result.0 <= text.len(),
{
    if CharClass::Digit.has(char_at(text, index + 1)) {
        let end = find_run_end(text, index + 1, CharClass::Digit);
        proof {
            lemma_run_end_bounds(text@, index + 1, CharClass::Digit);
            lemma_run_end_bounds(text@, index + 2, CharClass::Digit);
        }
        (end, read_long(text, index, end, index + 1, 10))
    } else {
        (index + 1, Token::Sub)
    }
}

/// The number between the parentheses of `int( )` or `long( )` that opens
/// at `open`: decimal digits, after a `-` or not, or hexadecimal digits
/// after `0x`. It yields where the literal ends, the range of the digits,
/// the base, and whether the number is negative.
pub open spec fn typed_number(text: Seq<char>, open: int) -> Option<(int, int, int, nat, bool)> {
    let negative = at(text, open + 1) == '-';
    let first = if negative {
        open + 2
    } else {
        open + 1
    };
    let digits = run_end(text, first, CharClass::Digit);
    let hex = run_end(text, open + 3, CharClass::HexDigit);
    if is_digit(at(text, first)) && at(text, digits) == ')' {
        Some((digits + 1, first, digits, 10nat, negative))
    } else if at(text, open + 1) == '0' && at(text, open + 2) == 'x' && is_hex_digit(
        at(text, open + 3),
    ) && at(text, hex) == ')' {
        Some((hex + 1, open + 3, hex, 16nat, false))
    } else {
        None
    }
}

fn scan_typed_number(text: &Vec<char>, open: usize) -> (result: Option<
    (usize, usize, usize, u64, bool),
>)
    requires
        open < text.len(),
    ensures
        match result {
            Some((end, from, to, base, negative)) => typed_number(text@, open as int) == Some(
                (end as int, from as int, to as int, base as nat, negative),
            ) && open < from < to < end <= text.len() && digits_of(
                text@,
                from as int,
                to as int,
                base as nat,
            ) && (base == 10 ==> negative == (from == open + 2) && (from == open + 1 || (from
                == open + 2 && text@[open + 1] == '-'))) && (base != 10 ==> base == 16
                && !negative && from == open + 3 && text@[open + 1] == '0' && text@[open + 2]
                == 'x'),
            None => typed_number(text@, open as int) is None,
        },
{
    let negative = char_at(text, open + 1) == '-';
    let first = if negative {
        open + 2
    } else {
        open + 1
    };
    if CharClass::Digit.has(char_at(text, first)) {
        let digits = find_run_end(text, first, CharClass::Digit);
        proof {
            lemma_run_end_bounds(text@, first as int, CharClass::Digit);
            lemma_run_end_bounds(text@, first + 1, CharClass::Digit);
        }
        if char_at(text, digits) == ')' {
            return Some((digits + 1, first, digits, 10, negative));
        }
    }
    if char_at(text, open + 1) == '0' && char_at(text, open + 2) == 'x' && CharClass::HexDigit.has(
        char_at(text, open + 3),
    ) {
        let hex = find_run_end(text, open + 3, CharClass::HexDigit);
        proof {
            lemma_run_end_bounds(text@, open + 3, CharClass::HexDigit);
            lemma_run_end_bounds(text@, open + 4, CharClass::HexDigit);
        }
        if char_at(text, hex) == ')' {
            return Some((hex + 1, open + 3, hex, 16, false));
        }
    }
    None
}

/// The literal that a word with parentheses after it is: the null of a
/// type, a number of a type, or one of the special real numbers. `end` is
/// where the word ends and the `(` stands.
pub open spec fn typed_literal(text: Seq<char>, index: int, end: int) -> Option<(int, TokenView)> {
    if at(text, end) != '(' {
        None
    } else if is_text(text, index, end, "bool"@) {
        if starts(text, end, "(null)"@) {
            Some((end + 6, TokenView::BoolNullLiteral))
        } else {
            None
        }
    } else if is_text(text, index, end, "int"@) {
        if starts(text, end, "(null)"@) {
            Some((end + 6, TokenView::IntNullLiteral))
        } else {
            match typed_number(text, end) {
                Some((after, from, to, base, negative)) => Some(
                    (after, int_token(number(text, from, to, base), negative)),
                ),
                None => None,
            }
        }
    } else if is_text(text, index, end, "long"@) {
        if starts(text, end, "(null)"@) {
            Some((end + 6, TokenView::LongNullLiteral))
        } else {
            match typed_number(text, end) {
                Some((after, from, to, base, negative)) => Some(
                    (after, long_token(number(text, from, to, base), negative)),
                ),
                None => None,
            }
        }
    } else if is_text(text, index, end, "real"@) {
        if starts(text, end, "(null)"@) {
            Some((end + 6, TokenView::RealNullLiteral))
        } else if starts(text, end, "(nan)"@) {
            Some((end + 5, TokenView::RealLiteral(RealView::Nan)))
        } else if starts(text, end, "(+inf)"@) {
            Some((end + 6, TokenView::RealLiteral(RealView::Infinity)))
        } else if starts(text, end, "(-inf)"@) {
            Some((end + 6, TokenView::RealLiteral(RealView::NegInfinity)))
        } else {
            None
        }
    } else {
        None
    }
}

/// The token of a word that is no literal with parentheses: a keyword, or a
/// term.
pub open spec fn word_token(text: Seq<char>, index: int, end: int) -> TokenView {
    if is_text(text, index, end, "true"@) {
        TokenView::BoolLiteral(true)
    } else if is_text(text, index, end, "false"@) {
        TokenView::BoolLiteral(false)
    } else if is_text(text, index, end, "and"@) {
        TokenView::LogicalAnd
    } else if is_text(text, index, end, "or"@) {
        TokenView::LogicalOr
    } else {
        TokenView::Term(text.subrange(index, end))
    }
}

/// What stands at a letter: the longest word of letters, digits and `_`,
/// and with it the parentheses after it where the two make a literal.
pub open spec fn word(text: Seq<char>, index: int) -> (int, TokenView) {
    let end = run_end(text, index, CharClass::Word);
    match typed_literal(text, index, end) {
        Some(literal) => literal,
        None => (end, word_token(text, index, end)),
    }
}

fn scan_typed_literal(text: &Vec<char>, index: usize, end: usize) -> (result: Option<
    (usize, Token),
>)
    requires
        index < end <= text.len(),
    ensures
        match result {
            Some((after, token)) => typed_literal(text@, index as int, end as int) == Some(
                (after as int, token.deep_view()),
            ) && end < after <= text.len(),
            None => typed_literal(text@, index as int, end as int) is None,
        },
{
    proof {
        reveal_strlit("(null)");
        reveal_strlit("(nan)");
        reveal_strlit("(+inf)");
        reveal_strlit("(-inf)");
    }
    if char_at(text, end) != '(' {
        None
    } else if text_is(text, index, end, "bool") {
        if starts_with(text, end, "(null)") {
            Some((end + 6, Token::BoolNullLiteral))
        } else {
            None
        }
    } else if text_is(text, index, end, "int") {
        if starts_with(text, end, "(null)") {
            Some((end + 6, Token::IntNullLiteral))
        } else {
            match scan_typed_number(text, end) {
                Some((after, from, to, base, negative)) => Some(
                    (after, read_int(text, end + 1, to, from, base)),
                ),
                None => None,
            }
        }
    } else if text_is(text, index, end, "long") {
        if starts_with(text, end, "(null)") {
            Some((end + 6, Token::LongNullLiteral))
        } else {
            match scan_typed_number(text, end) {
                Some((after, from, to, base, negative)) => Some(
                    (after, read_long(text, end + 1, to, from, base)),
                ),
                None => None,
            }
        }
    } else if text_is(text, index, end, "real") {
        if starts_with(text, end, "(null)") {
            Some((end + 6, Token::RealNullLiteral))
        } else if starts_with(text, end, "(nan)") {
            Some((end + 5, Token::RealLiteral(Real::Nan)))
        } else if starts_with(text, end, "(+inf)") {
            Some((end + 6, Token::RealLiteral(Real::Infinity)))
        } else if starts_with(text, end, "(-inf)") {
            Some((end + 6, Token::RealLiteral(Real::NegInfinity)))
        } else {
            None
        }
    } else {
        None
    }
}

fn scan_word(text: &Vec<char>, index: usize) -> (result: (usize, Token))
    requires
        index < text.len(),
        is_letter(text@[index as int]),
    ensures
        (result.0 as int, result.1.deep_view()) == word(text@, index as int),
        index < result.0 <= text.len(),
{
    let end = find_run_end(text, index, CharClass::Word);
    proof {
        lemma_run_end_bounds(text@, index + 1, CharClass::Word);
    }
    match scan_typed_literal(text, index, end) {
        Some(literal) => literal,
        None => {
            let token = if text_is(text, index, end, "true") {
                Token::BoolLiteral(true)
            } else if text_is(text, index, end, "false") {
                Token::BoolLiteral(false)
            } else if text_is(text, index, end, "and") {
                Token::LogicalAnd
            } else if text_is(text, index, end, "or") {
                Token::LogicalOr
            } else {
                Token::Term(collect(text, index, end))
            };
            (end, token)
        },
    }
}

/// The token of a string: its content, or an error where it has none.
pub open spec fn string_token(content: Option<Seq<char>>) -> TokenView {
    match content {
        Some(value) => TokenView::StringLiteral(value),
        None => TokenView::Error,
    }
}

fn string_token_of(content: Option<String>) -> (token: Token)
    ensures
        token.deep_view() == string_token(content.deep_view()),
{
    match content {
        Some(value) => Token::StringLiteral(value),
        None => Token::Error,
    }
}

/// Whether one of the rules applies at a position: whether a token, white
/// space or a comment begins there.
pub open spec fn begins(text: Seq<char>, index: int) -> bool {
    let c = at(text, index);
    let next = at(text, index + 1);
    ||| is_space(c)
    ||| is_letter(c)
    ||| is_digit(c)
    ||| c == '/' || c == '-' || c == '"' || c == '\'' || c == '<' || c == '>' || c == '='
    ||| c == '|' || c == '(' || c == ')' || c == '{' || c == '}' || c == '[' || c == ']'
    ||| c == ',' || c == '.' || c == '+' || c == '*' || c == '%'
    ||| (c == '@' && (next == '"' || next == '\''))
    ||| (c == '`' && next == '`' && at(text, index + 2) == '`')
    ||| (c == '!' && (next == '=' || is_letter(next)))
    ||| (c == '$' && is_letter(next))
}

fn begins_at(text: &Vec<char>, index: usize) -> (found: bool)
    requires
        index < text.len(),
    ensures
        found == begins(text@, index as int),
{
    let c = text[index];
    let next = char_at(text, index + 1);
    CharClass::Space.has(c) || letter(c) || CharClass::Digit.has(c) || c == '/' || c == '-' || c
        == '"' || c == '\'' || c == '<' || c == '>' || c == '=' || c == '|' || c == '(' || c == ')'
        || c == '{' || c == '}' || c == '[' || c == ']' || c == ',' || c == '.' || c == '+' || c
        == '*' || c == '%' || (c == '@' && (next == '"' || next == '\'')) || (c == '`' && next
        == '`' && char_at(text, index + 2) == '`') || (c == '!' && (next == '=' || letter(next)))
        || (c == '$' && letter(next))
}

/// The token of a character that is a token by itself.
pub open spec fn single(c: char) -> TokenView {
    if c == '|' {
        TokenView::Pipe
    } else if c == '(' {
        TokenView::LParen
    } else if c == ')' {
        TokenView::RParen
    } else if c == '{' {
        TokenView::LBrace
    } else if c == '}' {
        TokenView::RBrace
    } else if c == '[' {
        TokenView::LBracket
    } else if c == ']' {
        TokenView::RBracket
    } else if c == ',' {
        TokenView::Comma
    } else if c == '.' {
        TokenView::Dot
    } else if c == '+' {
        TokenView::Add
    } else if c == '*' {
        TokenView::Star
    } else {
        TokenView::Mod
    }
}

fn single_token(c: char) -> (token: Token)
    ensures
        token.deep_view() == single(c),
{
    if c == '|' {
        Token::Pipe
    } else if c == '(' {
        Token::LParen
    } else if c == ')' {
        Token::RParen
    } else if c == '{' {
        Token::LBrace
    } else if c == '}' {
        Token::RBrace
    } else if c == '[' {
        Token::LBracket
    } else if c == ']' {
        Token::RBracket
    } else if c == ',' {
        Token::Comma
    } else if c == '.' {
        Token::Dot
    } else if c == '+' {
        Token::Add
    } else if c == '*' {
        Token::Star
    } else {
        Token::Mod
    }
}

/// What stands at a position where a rule applies: where it ends, and the
/// token, or none for white space and comments.
///
/// The longest text that one rule takes is taken: a word with all its
/// letters and digits, `<=` before `<`, a number with the point and the
/// digits after it. A comment runs from `//` up to the end of the line.
pub open spec fn rule(text: Seq<char>, index: int) -> (int, Option<TokenView>) {
    let c = at(text, index);
    let next = at(text, index + 1);
    if is_space(c) {
        (run_end(text, index, CharClass::Space), None)
    } else if c == '/' {
        if next == '/' {
            (run_end(text, index + 2, CharClass::NotLineFeed), None)
        } else {
            (index + 1, Some(TokenView::Div))
        }
    } else if is_letter(c) {
        (word(text, index).0, Some(word(text, index).1))
    } else if is_digit(c) {
        (plain_number(text, index).0, Some(plain_number(text, index).1))
    } else if c == '-' {
        (minus(text, index).0, Some(minus(text, index).1))
    } else if c == '"' || c == '\'' {
        let (end, content) = string_end(text, index + 1, c, true, Seq::empty());
        (end, Some(string_token(content)))
    } else if c == '@' {
        let (end, content) = string_end(text, index + 2, next, false, Seq::empty());
        (end, Some(string_token(content)))
    } else if c == '`' {
        let (end, content) = multiline_end(text, index + 3, 0, Seq::empty());
        (end, Some(string_token(content)))
    } else if c == '!' {
        if next == '=' {
            (index + 2, Some(TokenView::NEQ))
        } else {
            let end = run_end(text, index + 1, CharClass::Word);
            (end, Some(TokenView::BangTerm(text.subrange(index + 1, end))))
        }
    } else if c == '$' {
        let end = run_end(text, index + 1, CharClass::Word);
        (end, Some(TokenView::DollarTerm(text.subrange(index + 1, end))))
    } else if c == '<' {
        if next == '=' {
            (index + 2, Some(TokenView::LTE))
        } else {
            (index + 1, Some(TokenView::LT))
        }
    } else if c == '>' {
        if next == '=' {
            (index + 2, Some(TokenView::GTE))
        } else {
            (index + 1, Some(TokenView::GT))
        }
    } else if c == '=' {
        if next == '=' {
            (index + 2, Some(TokenView::EQ))
        } else {
            (index + 1, Some(TokenView::Assign))
        }
    } else {
        (index + 1, Some(single(c)))
    }
}

/// Where the text that no rule applies to ends, when it begins at `index`:
/// before the next position at which a rule applies, or with the text.
pub open spec fn error_end(text: Seq<char>, index: int) -> int
    decreases text.len() - index,
{
    if index + 1 < text.len() && !begins(text, index + 1) {
        error_end(text, index + 1)
    } else {
        index + 1
    }
}

/// What stands at a position: what the rule that applies there takes, or,
/// where none applies, one error for all the text up to the next position
/// at which one does.
pub open spec fn lexeme(text: Seq<char>, index: int) -> (int, Option<TokenView>) {
    if begins(text, index) {
        rule(text, index)
    } else {
        (error_end(text, index), Some(TokenView::Error))
    }
}

/// A string between backticks ends within the text, at or after where its
/// rest begins.
pub proof fn lemma_multiline_end_bounds(text: Seq<char>, index: int, ticks: nat, content: Seq<char>)
    requires
        0 <= index <= text.len(),
    ensures
        index <= multiline_end(text, index, ticks, content).0 <= text.len(),
    decreases text.len() - index,
{
    if index < text.len() {
        if text[index] == '`' {
            if ticks < 2 {
                lemma_multiline_end_bounds(text, index + 1, ticks + 1, content);
            }
        } else if text[index] != '\n' && text[index] != '\r' {
            lemma_multiline_end_bounds(
                text,
                index + 1,
                0,
                (content + backticks(ticks)).push(text[index]),
            );
        }
    }
}

/// Text that no rule applies to ends within the text, after where it
/// begins.
pub proof fn lemma_error_end_bounds(text: Seq<char>, index: int)
    requires
        0 <= index < text.len(),
    ensures
        index < error_end(text, index) <= text.len(),
    decreases text.len() - index,
{
    if index + 1 < text.len() && !begins(text, index + 1) {
        lemma_error_end_bounds(text, index + 1);
    }
}

/// A word, with the parentheses after it where the two make a literal, ends
/// within the text, after where it begins.
proof fn lemma_word_bounds(text: Seq<char>, index: int)
    requires
        0 <= index < text.len(),
        is_letter(text[index]),
    ensures
        index < word(text, index).0 <= text.len(),
{
    reveal_strlit("(null)");
    reveal_strlit("(nan)");
    reveal_strlit("(+inf)");
    reveal_strlit("(-inf)");
    lemma_run_end_bounds(text, index, CharClass::Word);
    lemma_run_end_bounds(text, index + 1, CharClass::Word);
    let end = run_end(text, index, CharClass::Word);
    if at(text, end) == '(' {
        let negative = at(text, end + 1) == '-';
        let first = if negative {
            end + 2
        } else {
            end + 1
        };
        if first <= text.len() {
            lemma_run_end_bounds(text, first, CharClass::Digit);
        }
        if end + 3 <= text.len() {
            lemma_run_end_bounds(text, end + 3, CharClass::HexDigit);
        }
    }
}

/// What stands at a position of the text ends within the text, after that
/// position: it takes a character at least, and none from beyond the text.
pub proof fn lemma_lexeme_bounds(text: Seq<char>, index: int)
    requires
        0 <= index < text.len(),
    ensures
        index < lexeme(text, index).0 <= text.len(),
{
    let c = text[index];
    let next = at(text, index + 1);
    if !begins(text, index) {
        lemma_error_end_bounds(text, index);
    } else if is_space(c) {
        lemma_run_end_bounds(text, index, CharClass::Space);
        lemma_run_end_bounds(text, index + 1, CharClass::Space);
    } else if c == '/' {
        if next == '/' {
            lemma_run_end_bounds(text, index + 2, CharClass::NotLineFeed);
        }
    } else if is_letter(c) {
        lemma_word_bounds(text, index);
    } else if is_digit(c) {
        lemma_run_end_bounds(text, index, CharClass::Digit);
        lemma_run_end_bounds(text, index + 1, CharClass::Digit);
        let digits = run_end(text, index, CharClass::Digit);
        if is_hex_digit(at(text, index + 2)) {
            lemma_run_end_bounds(text, index + 2, CharClass::HexDigit);
        }
        if is_digit(at(text, digits + 1)) {
            lemma_run_end_bounds(text, digits + 1, CharClass::Digit);
        }
    } else if c == '-' {
        if is_digit(next) {
            lemma_run_end_bounds(text, index + 1, CharClass::Digit);
        }
    } else if c == '"' || c == '\'' {
        lemma_string_end_bounds(text, index + 1, c, true, Seq::empty());
    } else if c == '@' {
        lemma_string_end_bounds(text, index + 2, next, false, Seq::empty());
    } else if c == '`' {
        lemma_multiline_end_bounds(text, index + 3, 0, Seq::empty());
    } else if c == '!' {
        if next != '=' {
            lemma_run_end_bounds(text, index + 1, CharClass::Word);
            lemma_run_end_bounds(text, index + 2, CharClass::Word);
        }
    } else if c == '$' {
        lemma_run_end_bounds(text, index + 1, CharClass::Word);
        lemma_run_end_bounds(text, index + 2, CharClass::Word);
    }
}

/// Whether a token is the literal of a number.
pub open spec fn is_number(token: Option<TokenView>) -> bool {
    token matches Some(value) && (value is IntLiteral || value is LongLiteral
        || value is RealLiteral)
}

/// In the part of a text that is one lexeme, the characters are those of
/// the text, and after them stands nothing.
proof fn lemma_part_chars(text: Seq<char>, from: int, to: int)
    requires
        0 <= from <= to <= text.len(),
    ensures
        forall|k: int| 0 <= k < to - from ==> at(text.subrange(from, to), k) == at(text, from + k),
        forall|k: int| to - from <= k ==> at(text.subrange(from, to), k) == '\0',
{
}

/// In a part of a text, a pattern stands where it stands in the text, when
/// it lies within the part.
proof fn lemma_starts_in_part(text: Seq<char>, from: int, to: int, index: int, pattern: Seq<char>)
    requires
        0 <= from <= index,
        index + pattern.len() <= to <= text.len(),
    ensures
        starts(text.subrange(from, to), index - from, pattern) == starts(text, index, pattern),
{
    assert(text.subrange(from, to).subrange(index - from, index - from + pattern.len())
        =~= text.subrange(index, index + pattern.len()));
}

/// The literal of a number that is read again from its own characters is
/// the same literal: what stands in a text at a position, where it is the
/// literal of a number, stands as well at the start of the text that
/// consists of its characters alone, and ends with it.
pub proof fn lemma_number_is_read_again(text: Seq<char>, index: int)
    requires
        0 <= index < text.len(),
        is_number(lexeme(text, index).1),
    ensures
        lexeme(text.subrange(index, lexeme(text, index).0), 0) == (
            lexeme(text, index).0 - index,
            lexeme(text, index).1,
        ),
{
    lemma_lexeme_bounds(text, index);
    let end = lexeme(text, index).0;
    let part = text.subrange(index, end);
    let c = text[index];
    lemma_part_chars(text, index, end);
    assert(part[0] == c);
    assert(at(part, 0) == c);
    if is_digit(c) {
        lemma_run_end_bounds(text, index, CharClass::Digit);
        lemma_run_end_bounds(text, index + 1, CharClass::Digit);
        let digits = run_end(text, index, CharClass::Digit);
        if at(text, index) == '0' && at(text, index + 1) == 'x' && is_hex_digit(
            at(text, index + 2),
        ) {
            lemma_run_end_bounds(text, index + 2, CharClass::HexDigit);
            lemma_run_end_bounds(text, index + 3, CharClass::HexDigit);
            lemma_run_end_in_part(text, index, end, index + 2, CharClass::HexDigit);
            lemma_number_in_part(text, index, end, index + 2, end, 16);
        } else if at(text, digits) == '.' && is_digit(at(text, digits + 1)) {
            lemma_run_end_bounds(text, digits + 1, CharClass::Digit);
            lemma_run_end_bounds(text, digits + 2, CharClass::Digit);
            lemma_run_end_in_part(text, index, end, index, CharClass::Digit);
            lemma_run_end_in_part(text, index, end, digits + 1, CharClass::Digit);
            assert(part.subrange(0, end - index) =~= text.subrange(index, end));
            assert(!(at(part, 0) == '0' && at(part, 1) == 'x' && is_hex_digit(at(part, 2))));
        } else {
            lemma_run_end_in_part(text, index, end, index, CharClass::Digit);
            lemma_number_in_part(text, index, end, index, end, 10);
            assert(!(at(part, 0) == '0' && at(part, 1) == 'x' && is_hex_digit(at(part, 2))));
        }
    } else if c == '-' {
        lemma_run_end_bounds(text, index + 1, CharClass::Digit);
        lemma_run_end_bounds(text, index + 2, CharClass::Digit);
        lemma_run_end_in_part(text, index, end, index + 1, CharClass::Digit);
        lemma_number_in_part(text, index, end, index + 1, end, 10);
    } else {
        lemma_typed_literal_is_read_again(text, index);
    }
}

/// The literal of a number with its type before it in a word is the same
/// literal when it is read again from its own characters.
proof fn lemma_typed_literal_is_read_again(text: Seq<char>, index: int)
    requires
        0 <= index < text.len(),
        is_letter(text[index]),
        is_number(Some(word(text, index).1)),
    ensures
        word(text.subrange(index, word(text, index).0), 0) == (
            word(text, index).0 - index,
            word(text, index).1,
        ),
{
    reveal_strlit("(null)");
    reveal_strlit("(nan)");
    reveal_strlit("(+inf)");
    reveal_strlit("(-inf)");
    reveal_strlit("bool");
    reveal_strlit("int");
    reveal_strlit("long");
    reveal_strlit("real");
    lemma_word_bounds(text, index);
    lemma_run_end_bounds(text, index, CharClass::Word);
    let name_end = run_end(text, index, CharClass::Word);
    let end = word(text, index).0;
    let part = text.subrange(index, end);
    lemma_part_chars(text, index, end);
    let literal = typed_literal(text, index, name_end);
    assert(literal is Some);
    assert(name_end < end);
    lemma_run_end_in_part(text, index, end, index, CharClass::Word);
    lemma_starts_in_part(text, index, end, index, "bool"@);
    lemma_starts_in_part(text, index, end, index, "int"@);
    lemma_starts_in_part(text, index, end, index, "long"@);
    lemma_starts_in_part(text, index, end, index, "real"@);
    let open = name_end;
    if is_text(text, index, name_end, "int"@) || is_text(text, index, name_end, "long"@) {
        assert(!starts(text, open, "(null)"@));
        assert(!starts(part, open - index, "(null)"@)) by {
            if open + 6 <= end {
                lemma_starts_in_part(text, index, end, open, "(null)"@);
            }
        }
        let negative = at(text, open + 1) == '-';
        let first = if negative {
            open + 2
        } else {
            open + 1
        };
        let found = typed_number(text, open)->0;
        if first <= text.len() {
            lemma_run_end_bounds(text, first, CharClass::Digit);
        }
        if open + 3 <= text.len() {
            lemma_run_end_bounds(text, open + 3, CharClass::HexDigit);
        }
        if is_digit(at(text, first)) && at(text, run_end(text, first, CharClass::Digit)) == ')' {
            lemma_run_end_in_part(text, index, end, first, CharClass::Digit);
            lemma_number_in_part(text, index, end, found.1, found.2, 10);
        } else {
            lemma_run_end_in_part(text, index, end, open + 3, CharClass::HexDigit);
            lemma_number_in_part(text, index, end, found.1, found.2, 16);
            if first < end {
                lemma_run_end_in_part(text, index, end, first, CharClass::Digit);
            }
        }
    } else {
        assert(is_text(text, index, name_end, "real"@));
        assert(!starts(text, open, "(null)"@));
        if open + 6 <= end {
            lemma_starts_in_part(text, index, end, open, "(null)"@);
            lemma_starts_in_part(text, index, end, open, "(+inf)"@);
            lemma_starts_in_part(text, index, end, open, "(-inf)"@);
        }
        if open + 5 <= end {
            lemma_starts_in_part(text, index, end, open, "(nan)"@);
        }
    }
}

fn scan_rule(text: &Vec<char>, index: usize) -> (result: (usize, Option<Token>))
    requires
        index < text.len(),
        begins(text@, index as int),
    ensures
        (result.0 as int, result.1.deep_view()) == rule(text@, index as int),
        index < result.0 <= text.len(),
{
    let c = text[index];
    let next = char_at(text, index + 1);
    if CharClass::Space.has(c) {
        proof {
            lemma_run_end_bounds(text@, index + 1, CharClass::Space);
        }
        (find_run_end(text, index, CharClass::Space), None)
    } else if c == '/' {
        if next == '/' {
            (find_run_end(text, index + 2, CharClass::NotLineFeed), None)
        } else {
            (index + 1, Some(Token::Div))
        }
    } else if letter(c) {
        let (end, token) = scan_word(text, index);
        (end, Some(token))
    } else if CharClass::Digit.has(c) {
        let (end, token) = scan_number(text, index);
        (end, Some(token))
    } else if c == '-' {
        let (end, token) = scan_minus(text, index);
        (end, Some(token))
    } else if c == '"' || c == '\'' {
        let (end, content) = parse_string_literal(text, index + 1, c);
        (end, Some(string_token_of(content)))
    } else if c == '@' {
        let (end, content) = parse_verbatim_string_literal(text, index + 2, next);
        (end, Some(string_token_of(content)))
    } else if c == '`' {
        let (end, content) = parse_multiline_string_literal(text, index + 3);
        (end, Some(string_token_of(content)))
    } else if c == '!' {
        if next == '=' {
            (index + 2, Some(Token::NEQ))
        } else {
            let end = find_run_end(text, index + 1, CharClass::Word);
            (end, Some(Token::BangTerm(collect(text, index + 1, end))))
        }
    } else if c == '$' {
        let end = find_run_end(text, index + 1, CharClass::Word);
        (end, Some(Token::DollarTerm(collect(text, index + 1, end))))
    } else if c == '<' {
        if next == '=' {
            (index + 2, Some(Token::LTE))
        } else {
            (index + 1, Some(Token::LT))
        }
    } else if c == '>' {
        if next == '=' {
            (index + 2, Some(Token::GTE))
        } else {
            (index + 1, Some(Token::GT))
        }
    } else if c == '=' {
        if next == '=' {
            (index + 2, Some(Token::EQ))
        } else {
            (index + 1, Some(Token::Assign))
        }
    } else {
        (index + 1, Some(single_token(c)))
    }
}

/// Reads what stands at a position.
pub(crate) fn scan(text: &Vec<char>, index: usize) -> (result: (usize, Option<Token>))
    requires
        index < text.len(),
    ensures
        (result.0 as int, result.1.deep_view()) == lexeme(text@, index as int),
        index < result.0 <= text.len(),
{
    if begins_at(text, index) {
        scan_rule(text, index)
    } else {
        let mut end = index + 1;
        while end < text.len() && !begins_at(text, end)
            invariant
                index < end <= text.len(),
                error_end(text@, index as int) == error_end(text@, end - 1),
            decreases text.len() - end,
        {
            end += 1;
        }
        (end, Some(Token::Error))
    }
}

} // verus!
