//! Pure, stateless character classifiers.
//!
//! Each executable classifier is proved equal to a spec-level predicate;
//! the scanning model in `model` and every contract of the scanner speak
//! only of the spec predicates.

use vstd::prelude::*;
use crate::token::BinaryOperator;

verus! {

/// The characters the scanner treats as whitespace: exactly the ASCII
/// whitespace characters (space, tab, newline, carriage return, form feed).
pub open spec fn whitespace(c: char) -> bool {
    c == ' ' || c == '\t' || c == '\n' || c == '\r' || c == '\x0C'
}

/// ASCII decimal digit.
pub open spec fn digit(c: char) -> bool {
    '0' <= c && c <= '9'
}

/// ASCII hexadecimal digit.
pub open spec fn hex_digit(c: char) -> bool {
    digit(c) || ('a' <= c && c <= 'f') || ('A' <= c && c <= 'F')
}

/// Eligible to be an identifier's first character: ASCII letters and `_`.
pub open spec fn ident_start(c: char) -> bool {
    ('a' <= c && c <= 'z') || ('A' <= c && c <= 'Z') || c == '_'
}

/// Eligible to be an identifier's non-first character: ASCII letters,
/// digits, and `_`.
pub open spec fn ident_char(c: char) -> bool {
    ident_start(c) || digit(c)
}

/// The single-character binary operators that are not otherwise
/// special-cased.  `-` and `/` are deliberately absent: they also introduce
/// arrows and comments, and the scanner handles them on its own.
pub open spec fn binop_char(c: char) -> Option<BinaryOperator> {
    match c {
        '+' => Some(BinaryOperator::Plus),
        '*' => Some(BinaryOperator::Star),
        '%' => Some(BinaryOperator::Percent),
        '^' => Some(BinaryOperator::Caret),
        '&' => Some(BinaryOperator::And),
        '|' => Some(BinaryOperator::Or),
        _ => None,
    }
}

/// Executable form of `whitespace`.
pub fn is_whitespace(c: char) -> (r: bool)
    ensures
        r == whitespace(c),
{
    c == ' ' || c == '\t' || c == '\n' || c == '\r' || c == '\x0C'
}

/// Executable form of `digit`.
pub fn is_digit(c: char) -> (r: bool)
    ensures
        r == digit(c),
{
    '0' <= c && c <= '9'
}

/// Executable form of `hex_digit`.
pub fn is_hex_digit(c: char) -> (r: bool)
    ensures
        r == hex_digit(c),
{
    ('0' <= c && c <= '9') || ('a' <= c && c <= 'f') || ('A' <= c && c <= 'F')
}

/// This character is eligible to be identifier's first char.
pub fn is_ident_start(c: char) -> (r: bool)
    ensures
        r == ident_start(c),
{
    ('a' <= c && c <= 'z') || ('A' <= c && c <= 'Z') || c == '_'
}

/// This character is eligible to be identifier's non-first char.
pub fn is_ident_char(c: char) -> (r: bool)
    ensures
        r == ident_char(c),
{
    ('a' <= c && c <= 'z') || ('A' <= c && c <= 'Z') || ('0' <= c && c <= '9') || c == '_'
}

/// Try to convert a char into a binary operator.
/// This function does not output binary operators which are handled by
/// special cases.
pub fn char_to_binop(c: char) -> (r: Option<BinaryOperator>)
    ensures
        r == binop_char(c),
{
    match c {
        '+' => Some(BinaryOperator::Plus),
        '*' => Some(BinaryOperator::Star),
        '%' => Some(BinaryOperator::Percent),
        '^' => Some(BinaryOperator::Caret),
        '&' => Some(BinaryOperator::And),
        '|' => Some(BinaryOperator::Or),
        _ => None,
    }
}

} // verus!
