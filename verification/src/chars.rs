//! Character classes used by the heuristics. The heuristics are deliberately
//! ASCII-only: case and letter tests beyond ASCII are out of scope.

use vstd::prelude::*;

verus! {

/// ASCII whitespace: space, tab, line feed, form feed, carriage return.
pub open spec fn spec_is_space(c: char) -> bool {
    c == ' ' || c == '\t' || c == '\n' || c == '\x0C' || c == '\r'
}

/// An ASCII decimal digit.
pub open spec fn spec_is_digit(c: char) -> bool {
    '0' <= c && c <= '9'
}

/// An ASCII lowercase letter: the characters that an (ASCII) uppercasing
/// would change.
pub open spec fn spec_is_lower(c: char) -> bool {
    'a' <= c && c <= 'z'
}

/// An ASCII letter.
pub open spec fn spec_is_alpha(c: char) -> bool {
    ('a' <= c && c <= 'z') || ('A' <= c && c <= 'Z')
}

pub fn is_space(c: char) -> (r: bool)
    ensures
        r == spec_is_space(c),
{
    c == ' ' || c == '\t' || c == '\n' || c == '\x0C' || c == '\r'
}

pub fn is_digit(c: char) -> (r: bool)
    ensures
        r == spec_is_digit(c),
{
    '0' <= c && c <= '9'
}

pub fn is_lower(c: char) -> (r: bool)
    ensures
        r == spec_is_lower(c),
{
    'a' <= c && c <= 'z'
}

pub fn is_alpha(c: char) -> (r: bool)
    ensures
        r == spec_is_alpha(c),
{
    ('a' <= c && c <= 'z') || ('A' <= c && c <= 'Z')
}

} // verus!
