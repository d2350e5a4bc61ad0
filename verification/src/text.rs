//! Building text: characters, decimal numbers, indentation.

use vstd::prelude::*;

verus! {

/// Appends one character to a string.
///
/// Calls `String::push`, which adds the character at the end and leaves the
/// rest as it was.
#[verifier::external_body]
pub(crate) fn push_char(text: &mut String, c: char)
    ensures
        final(text)@ == old(text)@.push(c),
{
    text.push(c);
}

/// The character that stands for a decimal digit.
pub open spec fn digit_char(digit: int) -> char {
    if digit == 0 {
        '0'
    } else if digit == 1 {
        '1'
    } else if digit == 2 {
        '2'
    } else if digit == 3 {
        '3'
    } else if digit == 4 {
        '4'
    } else if digit == 5 {
        '5'
    } else if digit == 6 {
        '6'
    } else if digit == 7 {
        '7'
    } else if digit == 8 {
        '8'
    } else {
        '9'
    }
}

/// The decimal digits of a natural number, most significant first, without
/// leading zeros.
pub open spec fn decimal_digits(n: nat) -> Seq<char>
    decreases n,
{
    if n < 10 {
        seq![digit_char(n as int)]
    } else {
        decimal_digits(n / 10).push(digit_char((n % 10) as int))
    }
}

/// The character that stands for a hexadecimal digit, a capital letter
/// where `upper` holds.
pub open spec fn hex_digit_char(digit: int, upper: bool) -> char {
    if digit < 10 {
        digit_char(digit)
    } else if digit == 10 {
        if upper {
            'A'
        } else {
            'a'
        }
    } else if digit == 11 {
        if upper {
            'B'
        } else {
            'b'
        }
    } else if digit == 12 {
        if upper {
            'C'
        } else {
            'c'
        }
    } else if digit == 13 {
        if upper {
            'D'
        } else {
            'd'
        }
    } else if digit == 14 {
        if upper {
            'E'
        } else {
            'e'
        }
    } else {
        if upper {
            'F'
        } else {
            'f'
        }
    }
}

/// The hexadecimal digits of a natural number, most significant first,
/// without leading zeros. `upper` says of each digit, by the number that the
/// digits up to it stand for, whether its letter is a capital; so every way
/// of writing the number in capital and small letters is among these.
pub open spec fn hex_digits(n: nat, upper: spec_fn(nat) -> bool) -> Seq<char>
    decreases n,
{
    if n < 16 {
        seq![hex_digit_char(n as int, upper(n))]
    } else {
        hex_digits(n / 16, upper).push(hex_digit_char((n % 16) as int, upper(n)))
    }
}

/// The decimal text of an integer, with a leading `-` when it is negative.
pub open spec fn decimal(v: int) -> Seq<char> {
    if v < 0 {
        seq!['-'] + decimal_digits((-v) as nat)
    } else {
        decimal_digits(v as nat)
    }
}

fn digit_of(digit: u64) -> (c: char)
    requires
        digit < 10,
    ensures
        c == digit_char(digit as int),
{
    if digit == 0 {
        '0'
    } else if digit == 1 {
        '1'
    } else if digit == 2 {
        '2'
    } else if digit == 3 {
        '3'
    } else if digit == 4 {
        '4'
    } else if digit == 5 {
        '5'
    } else if digit == 6 {
        '6'
    } else if digit == 7 {
        '7'
    } else if digit == 8 {
        '8'
    } else {
        '9'
    }
}

/// Appends the decimal digits of `n`.
pub(crate) fn push_decimal_digits(text: &mut String, n: u64)
    ensures
        final(text)@ == old(text)@ + decimal_digits(n as nat),
    decreases n,
{
    if n >= 10 {
        push_decimal_digits(text, n / 10);
    }
    push_char(text, digit_of(n % 10));
    assert(text@ =~= old(text)@ + decimal_digits(n as nat));
}

/// Appends the decimal text of `v`.
pub(crate) fn push_decimal(text: &mut String, v: i64)
    ensures
        final(text)@ == old(text)@ + decimal(v as int),
{
    if v < 0 {
        push_char(text, '-');
        let magnitude: u64 = ((-(v + 1)) as u64) + 1;
        push_decimal_digits(text, magnitude);
        assert(text@ =~= old(text)@ + decimal(v as int));
    } else {
        push_decimal_digits(text, v as u64);
    }
}

/// Four spaces for each level of nesting.
pub open spec fn indentation(level: nat) -> Seq<char>
    decreases level,
{
    if level == 0 {
        Seq::empty()
    } else {
        indentation((level - 1) as nat) + "    "@
    }
}

/// Appends the indentation of `level`.
pub(crate) fn push_indentation(text: &mut String, level: u32)
    ensures
        final(text)@ == old(text)@ + indentation(level as nat),
{
    let mut done: u32 = 0;
    while done < level
        invariant
            done <= level,
            text@ == old(text)@ + indentation(done as nat),
        decreases level - done,
    {
        text.append("    ");
        done += 1;
        assert(text@ =~= old(text)@ + indentation(done as nat));
    }
}

/// Whether `name` is one of `names`.
pub open spec fn has_name(names: Seq<Seq<char>>, name: Seq<char>) -> bool {
    exists|k: int| 0 <= k < names.len() && names[k] == name
}

/// Whether `name` is one of `names`.
pub(crate) fn contains_name(names: &Vec<String>, name: &String) -> (found: bool)
    ensures
        found == has_name(names.deep_view(), name@),
{
    let mut k: usize = 0;
    while k < names.len()
        invariant
            k <= names.len(),
            forall|j: int| 0 <= j < k ==> names.deep_view()[j] != name@,
        decreases names.len() - k,
    {
        if names[k] == *name {
            assert(names.deep_view()[k as int] == name@);
            return true;
        }
        k += 1;
    }
    false
}

} // verus!
