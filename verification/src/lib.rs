//! A lexical scanner for a small C-like scripting language.
//!
//! The scanner turns source text into a flat sequence of tokens, each tagged
//! with the line on which it starts, and collects a diagnostic for every piece
//! of input that it has to skip.

use vstd::prelude::*;

pub mod error;
pub mod grammar;
pub mod keywords;
pub mod respacing;
pub mod scanner;
pub mod text;
pub mod theory;
pub mod token;

verus! {

/// The ASCII letters and the underscore: the characters that may begin an
/// identifier.
pub open spec fn spec_is_alpha(c: char) -> bool {
    ('a' <= c && c <= 'z') || ('A' <= c && c <= 'Z') || c == '_'
}

/// The ASCII decimal digits.
pub open spec fn spec_is_digit(c: char) -> bool {
    '0' <= c && c <= '9'
}

/// The characters that may continue an identifier.
pub open spec fn spec_is_alpha_numeric(c: char) -> bool {
    spec_is_alpha(c) || spec_is_digit(c)
}

/// Tells whether `c` is an ASCII letter or an underscore.
#[verifier::when_used_as_spec(spec_is_alpha)]
pub fn is_alpha(c: char) -> (b: bool)
    ensures
        b == spec_is_alpha(c),
{
    (c >= 'a' && c <= 'z') || (c >= 'A' && c <= 'Z') || c == '_'
}

/// Tells whether `c` is an ASCII decimal digit.
#[verifier::when_used_as_spec(spec_is_digit)]
pub fn is_digit(c: char) -> (b: bool)
    ensures
        b == spec_is_digit(c),
{
    c >= '0' && c <= '9'
}

/// Tells whether `c` is an ASCII letter, an ASCII digit or an underscore.
#[verifier::when_used_as_spec(spec_is_alpha_numeric)]
pub fn is_alpha_numeric(c: char) -> (b: bool)
    ensures
        b == spec_is_alpha_numeric(c),
{
    is_alpha(c) || is_digit(c)
}

} // verus!
