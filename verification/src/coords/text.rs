//! Coordinates as text.

use vstd::prelude::*;
use crate::coords::cube::CubeCoords;
use crate::lattice::Cube;

verus! {

/// The character of a decimal digit.
pub open spec fn digit(d: int) -> char {
    if d == 0 {
        '0'
    } else if d == 1 {
        '1'
    } else if d == 2 {
        '2'
    } else if d == 3 {
        '3'
    } else if d == 4 {
        '4'
    } else if d == 5 {
        '5'
    } else if d == 6 {
        '6'
    } else if d == 7 {
        '7'
    } else if d == 8 {
        '8'
    } else {
        '9'
    }
}

/// The decimal digits of a natural number, the most significant first.
pub open spec fn digits(n: nat) -> Seq<char>
    decreases n,
{
    if n < 10 {
        seq![digit(n as int)]
    } else {
        digits(n / 10).push(digit((n % 10) as int))
    }
}

/// A whole number in decimal, with a minus sign before it if it is negative.
pub open spec fn decimal(n: int) -> Seq<char> {
    if n < 0 {
        seq!['-'] + digits((-n) as nat)
    } else {
        digits(n as nat)
    }
}

/// The three components in decimal, separated by a comma and a space and
/// enclosed in round brackets.
pub open spec fn cube_text(c: Cube) -> Seq<char> {
    seq!['('] + decimal(c.q) + seq![',', ' '] + decimal(c.r) + seq![',', ' '] + decimal(c.s)
        + seq![')']
}

/// The character of a decimal digit.
fn digit_char(d: u128) -> (out: char)
    requires
        d < 10,
    ensures
        out == digit(d as int),
{
    if d == 0 {
        '0'
    } else if d == 1 {
        '1'
    } else if d == 2 {
        '2'
    } else if d == 3 {
        '3'
    } else if d == 4 {
        '4'
    } else if d == 5 {
        '5'
    } else if d == 6 {
        '6'
    } else if d == 7 {
        '7'
    } else if d == 8 {
        '8'
    } else {
        '9'
    }
}

/// Appends the decimal digits of `n`.
fn push_digits(out: &mut Vec<char>, n: u128)
    ensures
        final(out)@ == old(out)@ + digits(n as nat),
    decreases n,
{
    if n >= 10 {
        push_digits(out, n / 10);
    }
    out.push(digit_char(n % 10));
    assert(out@ =~= old(out)@ + digits(n as nat));
}

/// Appends `n` in decimal.
fn push_decimal(out: &mut Vec<char>, n: isize)
    ensures
        final(out)@ == old(out)@ + decimal(n as int),
{
    if n < 0 {
        out.push('-');
        push_digits(out, (-(n as i128)) as u128);
    } else {
        push_digits(out, n as u128);
    }
    assert(out@ =~= old(out)@ + decimal(n as int));
}

/// The string that holds the given characters.
///
/// Trusted: this is `Iterator::collect` of the standard library, gathering
/// characters into a `String`. The string holds the characters of the vector
/// in their order and nothing else.
#[verifier::external_body]
fn text_of(chars: &Vec<char>) -> (out: String)
    ensures
        out@ == chars@,
{
    chars.iter().collect()
}

impl CubeCoords {
    /// The coordinate as text, such as `(1, -4, 3)`.
    pub fn to_text(&self) -> (out: String)
        ensures
            out@ == cube_text(self@),
    {
        let mut chars: Vec<char> = Vec::new();
        chars.push('(');
        push_decimal(&mut chars, self.q);
        chars.push(',');
        chars.push(' ');
        push_decimal(&mut chars, self.r);
        chars.push(',');
        chars.push(' ');
        push_decimal(&mut chars, self.s);
        chars.push(')');
        assert(chars@ =~= cube_text(self@));
        text_of(&chars)
    }
}

} // verus!
