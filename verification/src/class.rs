//! Byte classes: which bytes are whitespace, which bytes identifiers are
//! made of, and which bytes are digits.

use vstd::prelude::*;

verus! {

/// Space, tab, line feed or carriage return.
pub open spec fn spec_is_whitespace(b: u8) -> bool {
    b == ' ' as u8 || b == '\t' as u8 || b == '\n' as u8 || b == '\r' as u8
}

/// An ASCII letter or an underscore.
pub open spec fn spec_is_letter(b: u8) -> bool {
    'a' as u8 <= b <= 'z' as u8 || 'A' as u8 <= b <= 'Z' as u8 || b == '_' as u8
}

/// An ASCII decimal digit.
pub open spec fn spec_is_digit(b: u8) -> bool {
    '0' as u8 <= b <= '9' as u8
}

/// Whether `b` is skipped between tokens.
#[verifier::when_used_as_spec(spec_is_whitespace)]
pub fn is_whitespace(b: u8) -> (yes: bool)
    ensures
        yes == spec_is_whitespace(b),
{
    let c = b as char;
    c == ' ' || c == '\t' || c == '\n' || c == '\r'
}

/// Whether `b` can stand in an identifier.
#[verifier::when_used_as_spec(spec_is_letter)]
pub fn is_letter(b: u8) -> (yes: bool)
    ensures
        yes == spec_is_letter(b),
{
    let c = b as char;
    ('a' <= c && c <= 'z') || ('A' <= c && c <= 'Z') || c == '_'
}

/// Whether `b` can stand in an integer literal.
#[verifier::when_used_as_spec(spec_is_digit)]
pub fn is_digit(b: u8) -> (yes: bool)
    ensures
        yes == spec_is_digit(b),
{
    let c = b as char;
    '0' <= c && c <= '9'
}

} // verus!
