//! Characters: their classes, runs of one class, their width in bytes, and
//! the numbers that digits stand for.

use crate::text::{decimal_digits, digit_char, hex_digit_char, hex_digits};
use vstd::prelude::*;

verus! {

/// The classes of characters that tokens are made of.
#[derive(Debug, Clone, Copy, PartialEq, Eq, Structural)]
pub enum CharClass {
    /// Space, line feed, tab and form feed.
    Space,
    /// Every character but the line feed.
    NotLineFeed,
    /// Letters, digits and `_`.
    Word,
    /// `0` to `9`.
    Digit,
    /// `0` to `9`, `a` to `f` and `A` to `F`.
    HexDigit,
}

pub open spec fn is_letter(c: char) -> bool {
    ('a' <= c && c <= 'z') || ('A' <= c && c <= 'Z') || c == '_'
}

pub open spec fn is_digit(c: char) -> bool {
    '0' <= c && c <= '9'
}

pub open spec fn is_hex_digit(c: char) -> bool {
    is_digit(c) || ('a' <= c && c <= 'f') || ('A' <= c && c <= 'F')
}

pub open spec fn is_space(c: char) -> bool {
    c == ' ' || c == '\n' || c == '\t' || c == '\x0C'
}

impl CharClass {
    pub open spec fn contains(self, c: char) -> bool {
        match self {
            CharClass::Space => is_space(c),
            CharClass::NotLineFeed => c != '\n',
            CharClass::Word => is_letter(c) || is_digit(c),
            CharClass::Digit => is_digit(c),
            CharClass::HexDigit => is_hex_digit(c),
        }
    }

    pub(crate) fn has(self, c: char) -> (member: bool)
        ensures
            member == self.contains(c),
    {
        match self {
            CharClass::Space => c == ' ' || c == '\n' || c == '\t' || c == '\x0C',
            CharClass::NotLineFeed => c != '\n',
            CharClass::Word => letter(c) || ('0' <= c && c <= '9'),
            CharClass::Digit => '0' <= c && c <= '9',
            CharClass::HexDigit => ('0' <= c && c <= '9') || ('a' <= c && c <= 'f') || ('A' <= c
                && c <= 'F'),
        }
    }
}

pub(crate) fn letter(c: char) -> (yes: bool)
    ensures
        yes == is_letter(c),
{
    ('a' <= c && c <= 'z') || ('A' <= c && c <= 'Z') || c == '_'
}

/// The character at a position, or the character of code 0 where the text
/// does not reach that far. No token holds that character.
pub open spec fn at(text: Seq<char>, index: int) -> char {
    if 0 <= index < text.len() {
        text[index]
    } else {
        '\0'
    }
}

pub(crate) fn char_at(text: &Vec<char>, index: usize) -> (c: char)
    ensures
        c == at(text@, index as int),
{
    if index < text.len() {
        text[index]
    } else {
        '\0'
    }
}

/// The position after the longest run of characters of a class that starts
/// at `index`.
pub open spec fn run_end(text: Seq<char>, index: int, class: CharClass) -> int
    decreases text.len() - index,
{
    if 0 <= index < text.len() && class.contains(text[index]) {
        run_end(text, index + 1, class)
    } else {
        index
    }
}

/// A run ends within the text, at or after its start.
pub proof fn lemma_run_end_bounds(text: Seq<char>, index: int, class: CharClass)
    requires
        0 <= index <= text.len(),
    ensures
        index <= run_end(text, index, class) <= text.len(),
        forall|j: int| index <= j < run_end(text, index, class) ==> class.contains(#[trigger] text[j]),
        !class.contains(at(text, run_end(text, index, class))) || run_end(text, index, class)
            == text.len(),
    decreases text.len() - index,
{
    if index < text.len() && class.contains(text[index]) {
        lemma_run_end_bounds(text, index + 1, class);
    }
}

/// A run ends where the first character stands that is not of its class.
pub proof fn lemma_run_end_is(text: Seq<char>, index: int, end: int, class: CharClass)
    requires
        0 <= index <= end <= text.len(),
        forall|j: int| index <= j < end ==> class.contains(#[trigger] text[j]),
        !class.contains(at(text, end)) || end == text.len(),
    ensures
        run_end(text, index, class) == end,
    decreases end - index,
{
    if index < end {
        lemma_run_end_is(text, index + 1, end, class);
    }
}

/// In a part of a text, a run ends where it ends in the text, or with the
/// part.
pub proof fn lemma_run_end_in_part(text: Seq<char>, from: int, to: int, index: int, class: CharClass)
    requires
        0 <= from <= index <= to <= text.len(),
    ensures
        run_end(text.subrange(from, to), index - from, class) == (if run_end(text, index, class)
            <= to {
            run_end(text, index, class)
        } else {
            to
        }) - from,
    decreases to - index,
{
    let part = text.subrange(from, to);
    lemma_run_end_bounds(text, index, class);
    if index < to {
        assert(part[index - from] == text[index]);
        if class.contains(text[index]) {
            lemma_run_end_in_part(text, from, to, index + 1, class);
        }
    }
}

/// In a part of a text, digits stand for the number that they stand for in
/// the text.
pub proof fn lemma_number_in_part(
    text: Seq<char>,
    from: int,
    to: int,
    first: int,
    last: int,
    base: nat,
)
    requires
        0 <= from <= first <= last <= to <= text.len(),
    ensures
        number(text.subrange(from, to), first - from, last - from, base) == number(
            text,
            first,
            last,
            base,
        ),
    decreases last - first,
{
    if first < last {
        lemma_number_in_part(text, from, to, first, last - 1, base);
        assert(text.subrange(from, to)[last - 1 - from] == text[last - 1]);
    }
}

/// Finds the end of the run of a class that starts at `index`.
pub(crate) fn find_run_end(text: &Vec<char>, index: usize, class: CharClass) -> (end: usize)
    requires
        index <= text.len(),
    ensures
        end == run_end(text@, index as int, class),
        index <= end <= text.len(),
{
    let mut end = index;
    proof {
        lemma_run_end_bounds(text@, index as int, class);
    }
    while end < text.len() && class.has(text[end])
        invariant
            index <= end <= text.len(),
            index <= end <= run_end(text@, index as int, class),
            run_end(text@, end as int, class) == run_end(text@, index as int, class),
        decreases text.len() - end,
    {
        end += 1;
        proof {
            lemma_run_end_bounds(text@, end as int, class);
        }
    }
    end
}

/// How many bytes a character takes in UTF-8.
pub open spec fn width(c: char) -> nat {
    if (c as u32) < 0x80 {
        1
    } else if (c as u32) < 0x800 {
        2
    } else if (c as u32) < 0x10000 {
        3
    } else {
        4
    }
}

/// How many bytes a text takes in UTF-8.
pub open spec fn byte_len(text: Seq<char>) -> nat
    decreases text.len(),
{
    if text.len() == 0 {
        0
    } else {
        byte_len(text.drop_last()) + width(text.last())
    }
}

/// The byte at which the character at `index` starts.
pub open spec fn byte_offset(text: Seq<char>, index: int) -> nat {
    byte_len(text.take(index))
}

/// Offsets grow with the position, by at least a byte for each character,
/// and stay within the length of the text.
pub proof fn lemma_byte_offset_grows(text: Seq<char>, from: int, to: int)
    requires
        0 <= from <= to <= text.len(),
    ensures
        byte_offset(text, from) + (to - from) <= byte_offset(text, to),
        byte_offset(text, text.len() as int) == byte_len(text),
    decreases to - from,
{
    assert(text.take(text.len() as int) =~= text);
    if from < to {
        lemma_byte_offset_grows(text, from, to - 1);
        assert(text.take(to).drop_last() =~= text.take(to - 1));
    }
}

/// A part of a text takes the bytes between the offsets of its ends.
pub proof fn lemma_byte_len_of_part(text: Seq<char>, from: int, to: int)
    requires
        0 <= from <= to <= text.len(),
    ensures
        byte_len(text.subrange(from, to)) == byte_offset(text, to) - byte_offset(text, from),
    decreases to - from,
{
    let part = text.subrange(from, to);
    if from < to {
        lemma_byte_len_of_part(text, from, to - 1);
        assert(part.drop_last() =~= text.subrange(from, to - 1));
        assert(part.last() == text[to - 1]);
        assert(text.take(to).drop_last() =~= text.take(to - 1));
    }
}

/// The offset of the next character is the offset of this one plus its width.
pub proof fn lemma_byte_offset_step(text: Seq<char>, index: int)
    requires
        0 <= index < text.len(),
    ensures
        byte_offset(text, index + 1) == byte_offset(text, index) + width(text[index]),
{
    assert(text.take(index + 1).drop_last() =~= text.take(index));
}

pub(crate) fn char_width(c: char) -> (bytes: usize)
    ensures
        bytes == width(c),
{
    let code = c as u32;
    if code < 0x80 {
        1
    } else if code < 0x800 {
        2
    } else if code < 0x10000 {
        3
    } else {
        4
    }
}

/// The value of a decimal digit.
pub open spec fn digit_value(c: char) -> nat {
    (c as u32 - '0' as u32) as nat
}

/// The value of a hexadecimal digit.
pub open spec fn hex_digit_value(c: char) -> nat {
    if is_digit(c) {
        (c as u32 - '0' as u32) as nat
    } else if 'a' <= c && c <= 'f' {
        (c as u32 - 'a' as u32 + 10) as nat
    } else {
        (c as u32 - 'A' as u32 + 10) as nat
    }
}

/// The number that the digits from `from` up to `to` stand for in a base.
pub open spec fn number(text: Seq<char>, from: int, to: int, base: nat) -> nat
    decreases to - from,
{
    if to <= from {
        0
    } else {
        number(text, from, to - 1, base) * base + if base == 16 {
            hex_digit_value(at(text, to - 1))
        } else {
            digit_value(at(text, to - 1))
        }
    }
}

/// More digits do not make a number smaller.
pub proof fn lemma_number_grows(text: Seq<char>, from: int, middle: int, to: int, base: nat)
    requires
        from <= middle <= to,
        base == 10 || base == 16,
    ensures
        number(text, from, middle, base) <= number(text, from, to, base),
    decreases to - middle,
{
    if middle < to {
        lemma_number_grows(text, from, middle, to - 1, base);
        let shorter = number(text, from, to - 1, base);
        assert(shorter <= shorter * base) by (nonlinear_arith)
            requires
                base >= 1,
        ;
    }
}

/// The decimal digits of a number are digits, one at least, that need as
/// many bytes as they are characters.
pub proof fn lemma_decimal_digits_are_digits(n: nat)
    ensures
        decimal_digits(n).len() > 0,
        forall|i: int| 0 <= i < decimal_digits(n).len() ==> is_digit(#[trigger] decimal_digits(n)[i]),
    decreases n,
{
    if n >= 10 {
        lemma_decimal_digits_are_digits(n / 10);
    }
}

/// Where the decimal digits of a number stand in a text, they stand for
/// that number.
pub proof fn lemma_number_of_decimal_digits(text: Seq<char>, from: int, n: nat)
    requires
        0 <= from,
        from + decimal_digits(n).len() <= text.len(),
        text.subrange(from, from + decimal_digits(n).len()) == decimal_digits(n),
    ensures
        number(text, from, from + decimal_digits(n).len(), 10) == n,
    decreases n,
{
    let digits = decimal_digits(n);
    let to = from + digits.len();
    assert(text[to - 1] == text.subrange(from, to)[digits.len() - 1]);
    if n < 10 {
        assert(number(text, from, from, 10) == 0);
        assert(digit_value(digit_char(n as int)) == n);
    } else {
        let front = decimal_digits(n / 10);
        assert(text.subrange(from, from + front.len()) =~= front) by {
            assert forall|i: int| 0 <= i < front.len() implies text.subrange(
                from,
                from + front.len(),
            )[i] == front[i] by {
                assert(text.subrange(from, to)[i] == digits[i]);
            }
        }
        lemma_number_of_decimal_digits(text, from, n / 10);
        assert(digit_value(digit_char((n % 10) as int)) == n % 10);
    }
}

/// A hexadecimal digit stands for the same value as a capital and as a
/// small letter.
pub proof fn lemma_hex_digit_value(digit: int, upper: bool)
    requires
        0 <= digit < 16,
    ensures
        is_hex_digit(hex_digit_char(digit, upper)),
        hex_digit_value(hex_digit_char(digit, upper)) == digit,
{
}

/// The hexadecimal digits of a number are hexadecimal digits, one at least.
pub proof fn lemma_hex_digits_are_digits(n: nat, upper: spec_fn(nat) -> bool)
    ensures
        hex_digits(n, upper).len() > 0,
        forall|i: int|
            0 <= i < hex_digits(n, upper).len() ==> is_hex_digit(#[trigger] hex_digits(n, upper)[i]),
    decreases n,
{
    lemma_hex_digit_value((n % 16) as int, upper(n));
    if n >= 16 {
        lemma_hex_digits_are_digits(n / 16, upper);
    }
}

/// Where the hexadecimal digits of a number stand in a text, in capital or
/// small letters, they stand for that number.
pub proof fn lemma_number_of_hex_digits(
    text: Seq<char>,
    from: int,
    n: nat,
    upper: spec_fn(nat) -> bool,
)
    requires
        0 <= from,
        from + hex_digits(n, upper).len() <= text.len(),
        text.subrange(from, from + hex_digits(n, upper).len()) == hex_digits(n, upper),
    ensures
        number(text, from, from + hex_digits(n, upper).len(), 16) == n,
    decreases n,
{
    let digits = hex_digits(n, upper);
    let to = from + digits.len();
    assert(text[to - 1] == text.subrange(from, to)[digits.len() - 1]);
    lemma_hex_digit_value((n % 16) as int, upper(n));
    if n < 16 {
        assert(number(text, from, from, 16) == 0);
    } else {
        let front = hex_digits(n / 16, upper);
        assert(text.subrange(from, from + front.len()) =~= front) by {
            assert forall|i: int| 0 <= i < front.len() implies text.subrange(
                from,
                from + front.len(),
            )[i] == front[i] by {
                assert(text.subrange(from, to)[i] == digits[i]);
            }
        }
        lemma_number_of_hex_digits(text, from, n / 16, upper);
    }
}

fn digit_number(c: char, base: u64) -> (value: u64)
    requires
        base == 10 || base == 16,
        base == 10 ==> is_digit(c),
        base == 16 ==> is_hex_digit(c),
    ensures
        value < base,
        value == if base == 16 {
            hex_digit_value(c)
        } else {
            digit_value(c)
        },
{
    let code = c as u32;
    if '0' <= c && c <= '9' {
        (code - '0' as u32) as u64
    } else if 'a' <= c && c <= 'f' {
        (code - 'a' as u32 + 10) as u64
    } else {
        (code - 'A' as u32 + 10) as u64
    }
}

/// Whether the characters from `from` up to `to` are digits of a base.
pub open spec fn digits_of(text: Seq<char>, from: int, to: int, base: nat) -> bool {
    forall|j: int|
        from <= j < to ==> if base == 16 {
            is_hex_digit(#[trigger] text[j])
        } else {
            is_digit(text[j])
        }
}

/// Whether the characters from `from` up to `to` are digits of a base.
pub(crate) fn all_digits(text: &Vec<char>, from: usize, to: usize, base: u64) -> (all: bool)
    requires
        from <= to <= text.len(),
        base == 10 || base == 16,
    ensures
        all == digits_of(text@, from as int, to as int, base as nat),
{
    let class = if base == 16 {
        CharClass::HexDigit
    } else {
        CharClass::Digit
    };
    let mut index = from;
    while index < to
        invariant
            from <= index <= to <= text.len(),
            base == 10 || base == 16,
            class == if base == 16 {
                CharClass::HexDigit
            } else {
                CharClass::Digit
            },
            digits_of(text@, from as int, index as int, base as nat),
        decreases to - index,
    {
        if !class.has(text[index]) {
            return false;
        }
        index += 1;
    }
    true
}

/// The largest number that `read_number` is asked for: the size of the
/// least `long`.
pub const LARGEST: u64 = 0x8000_0000_0000_0000;

/// Computes the number that the digits from `from` up to `to` stand for,
/// where it is at most `limit`.
pub(crate) fn read_number(text: &Vec<char>, from: usize, to: usize, base: u64, limit: u64) -> (value:
    Option<u64>)
    requires
        from <= to <= text.len(),
        base == 10 || base == 16,
        limit <= LARGEST,
        digits_of(text@, from as int, to as int, base as nat),
    ensures
        match value {
            Some(v) => v == number(text@, from as int, to as int, base as nat) && v <= limit,
            None => number(text@, from as int, to as int, base as nat) > limit,
        },
{
    let mut value: u128 = 0;
    let mut index = from;
    while index < to
        invariant
            from <= index <= to <= text.len(),
            base == 10 || base == 16,
            limit <= LARGEST,
            value == number(text@, from as int, index as int, base as nat),
            value <= limit,
            digits_of(text@, from as int, to as int, base as nat),
        decreases to - index,
    {
        let digit = digit_number(text[index], base);
        assert(value * base + digit <= u128::MAX) by (nonlinear_arith)
            requires
                value <= 0x8000_0000_0000_0000,
                base <= 16,
                digit < 16,
        ;
        let next = value * (base as u128) + (digit as u128);
        proof {
            assert(next == number(text@, from as int, index + 1, base as nat));
        }
        if next > limit as u128 {
            proof {
                lemma_number_grows(text@, from as int, index + 1, to as int, base as nat);
            }
            return None;
        }
        value = next;
        index += 1;
    }
    Some(value as u64)
}

} // verus!
