use vstd::prelude::*;

use crate::error::{fail, make_error, ErrorKind, ParseError};

verus! {

/// A color as three bytes.
#[derive(Debug, Clone, Copy, PartialEq, Eq, Structural)]
pub struct Color {
    pub red: u8,
    pub green: u8,
    pub blue: u8,
}

/// Hexadecimal digit: `0-9`, `a-f` or `A-F`.
pub open spec fn is_hex(c: char) -> bool {
    ('0' <= c && c <= '9') || ('a' <= c && c <= 'f') || ('A' <= c && c <= 'F')
}

/// Value of a hexadecimal digit.
pub open spec fn hex_value(c: char) -> int {
    if '0' <= c && c <= '9' {
        (c as u32) - ('0' as u32)
    } else if 'a' <= c && c <= 'f' {
        (c as u32) - ('a' as u32) + 10
    } else {
        (c as u32) - ('A' as u32) + 10
    }
}

/// `s` holds two hexadecimal digits at `i` and `i + 1`.
pub open spec fn hex_pair_at(s: Seq<char>, i: int) -> bool {
    0 <= i && i + 2 <= s.len() && is_hex(s[i]) && is_hex(s[i + 1])
}

/// The byte that the two hexadecimal digits at `i` and `i + 1` denote.
pub open spec fn hex_byte_at(s: Seq<char>, i: int) -> u8 {
    (16 * hex_value(s[i]) + hex_value(s[i + 1])) as u8
}

/// Outcome of decoding one two-digit byte at the start of `s`: the byte and
/// the number of characters consumed, or the failure.
pub open spec fn hex_primary_spec(s: Seq<char>) -> Result<(u8, nat), ParseError> {
    if hex_pair_at(s, 0) {
        Ok((hex_byte_at(s, 0), 2))
    } else {
        Err(fail(ErrorKind::IncompleteMatch, 0))
    }
}

/// Outcome of decoding `#RRGGBB` at the start of `s`.
pub open spec fn color_spec(s: Seq<char>) -> Result<(Color, nat), ParseError> {
    if s.len() == 0 || s[0] != '#' {
        Err(fail(ErrorKind::UnexpectedInput, 0))
    } else if !hex_pair_at(s, 1) {
        Err(fail(ErrorKind::IncompleteMatch, 1))
    } else if !hex_pair_at(s, 3) {
        Err(fail(ErrorKind::IncompleteMatch, 3))
    } else if !hex_pair_at(s, 5) {
        Err(fail(ErrorKind::IncompleteMatch, 5))
    } else {
        Ok(
            (
                Color { red: hex_byte_at(s, 1), green: hex_byte_at(s, 3), blue: hex_byte_at(s, 5) },
                7,
            ),
        )
    }
}

/// Whether `c` is a hexadecimal digit.
pub fn is_hex_digit(c: char) -> (b: bool)
    ensures
        b == is_hex(c),
{
    ('0' <= c && c <= '9') || ('a' <= c && c <= 'f') || ('A' <= c && c <= 'F')
}

fn digit_value(c: char) -> (v: u8)
    requires
        is_hex(c),
    ensures
        v as int == hex_value(c),
        v < 16,
{
    let code = c as u32;
    if '0' <= c && c <= '9' {
        (code - ('0' as u32)) as u8
    } else if 'a' <= c && c <= 'f' {
        (code - ('a' as u32) + 10) as u8
    } else {
        (code - ('A' as u32) + 10) as u8
    }
}

/// The byte that a two-digit hexadecimal string denotes; `None` unless
/// `input` is exactly two hexadecimal digits.
pub fn from_hex(input: &str) -> (r: Option<u8>)
    ensures
        r == (if input@.len() == 2 && hex_pair_at(input@, 0) {
            Some(hex_byte_at(input@, 0))
        } else {
            None
        }),
{
    if input.unicode_len() != 2 {
        return None;
    }
    let hi = input.get_char(0);
    let lo = input.get_char(1);
    if !is_hex_digit(hi) || !is_hex_digit(lo) {
        return None;
    }
    let h = digit_value(hi);
    let l = digit_value(lo);
    Some(16 * h + l)
}

/// Decodes one byte written as exactly two hexadecimal digits.
pub fn hex_primary(input: &str) -> (r: Result<(&str, u8), ParseError>)
    ensures
        match hex_primary_spec(input@) {
            Ok((v, k)) => r is Ok && r->Ok_0.0@ == input@.skip(k as int) && r->Ok_0.1 == v,
            Err(e) => r == Err::<(&str, u8), ParseError>(e),
        },
{
    let n = input.unicode_len();
    if n < 2 || !is_hex_digit(input.get_char(0)) || !is_hex_digit(input.get_char(1)) {
        return Err(make_error(ErrorKind::IncompleteMatch, 0));
    }
    let digits = input.substring_char(0, 2);
    match from_hex(digits) {
        Some(v) => Ok((input.substring_char(2, n), v)),
        None => Err(make_error(ErrorKind::IncompleteMatch, 0)),
    }
}

/// Decodes `#RRGGBB`: a `#` and three bytes of two hexadecimal digits each.
pub fn parse_hex(input: &str) -> (r: Result<(&str, Color), ParseError>)
    ensures
        match color_spec(input@) {
            Ok((v, k)) => r is Ok && r->Ok_0.0@ == input@.skip(k as int) && r->Ok_0.1 == v,
            Err(e) => r == Err::<(&str, Color), ParseError>(e),
        },
{
    let n = input.unicode_len();
    if n == 0 || input.get_char(0) != '#' {
        return Err(make_error(ErrorKind::UnexpectedInput, 0));
    }
    let rest = input.substring_char(1, n);
    assert(rest@ =~= input@.skip(1));
    let (rest, red) = match hex_primary(rest) {
        Ok(p) => p,
        Err(_) => return Err(make_error(ErrorKind::IncompleteMatch, 1)),
    };
    assert(rest@ =~= input@.skip(3));
    let (rest, green) = match hex_primary(rest) {
        Ok(p) => p,
        Err(_) => return Err(make_error(ErrorKind::IncompleteMatch, 3)),
    };
    assert(rest@ =~= input@.skip(5));
    let (rest, blue) = match hex_primary(rest) {
        Ok(p) => p,
        Err(_) => return Err(make_error(ErrorKind::IncompleteMatch, 5)),
    };
    assert(rest@ =~= input@.skip(7));
    Ok((rest, Color { red, green, blue }))
}

} // verus!
