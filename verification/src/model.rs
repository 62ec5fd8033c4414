//! The mathematical model of the token grammar.
//!
//! `scan_at` says, for any character sequence and position, which token
//! starts there, where it ends, or why scanning fails.  `lex_from` iterates
//! it over the whole input.  The scanner in `scan` is proved to agree with
//! these functions step by step, and the laws in `laws` are proved of them.

use vstd::prelude::*;
use crate::classify::{whitespace, digit, hex_digit, ident_start, ident_char, binop_char};
use crate::token::{Token, PairedToken, BinaryOperator, LexErrorKind};

verus! {

/// End (exclusive) of the maximal run of whitespace characters at `p`.
pub open spec fn whitespace_run_end(s: Seq<char>, p: int) -> int
    decreases s.len() - p,
{
    if p < s.len() && whitespace(s[p]) {
        whitespace_run_end(s, p + 1)
    } else {
        p
    }
}

/// End (exclusive) of the maximal run of decimal digits at `p`.
pub open spec fn digit_run_end(s: Seq<char>, p: int) -> int
    decreases s.len() - p,
{
    if p < s.len() && digit(s[p]) {
        digit_run_end(s, p + 1)
    } else {
        p
    }
}

/// End (exclusive) of the maximal run of identifier characters at `p`.
pub open spec fn ident_run_end(s: Seq<char>, p: int) -> int
    decreases s.len() - p,
{
    if p < s.len() && ident_char(s[p]) {
        ident_run_end(s, p + 1)
    } else {
        p
    }
}

/// End (exclusive) of the maximal run of hexadecimal digits at `p`.
pub open spec fn hex_run_end(s: Seq<char>, p: int) -> int
    decreases s.len() - p,
{
    if p < s.len() && hex_digit(s[p]) {
        hex_run_end(s, p + 1)
    } else {
        p
    }
}

/// End (exclusive) of the maximal run of characters other than a newline
/// at `p`: where the body of a line comment stops.
pub open spec fn line_run_end(s: Seq<char>, p: int) -> int
    decreases s.len() - p,
{
    if p < s.len() && s[p] != '\n' {
        line_run_end(s, p + 1)
    } else {
        p
    }
}

/// End (exclusive) of the maximal run of characters other than `*` at `p`.
pub open spec fn non_star_run_end(s: Seq<char>, p: int) -> int
    decreases s.len() - p,
{
    if p < s.len() && s[p] != '*' {
        non_star_run_end(s, p + 1)
    } else {
        p
    }
}

/// The defining facts of `whitespace_run_end`: the run stays inside the
/// sequence, every character in it is whitespace, and the run is maximal.
pub proof fn lemma_whitespace_run_end(s: Seq<char>, p: int)
    requires
        p <= s.len(),
    ensures
        p <= whitespace_run_end(s, p) <= s.len(),
        forall|i: int| p <= i < whitespace_run_end(s, p) ==> whitespace(s[i]),
        whitespace_run_end(s, p) < s.len() ==> !whitespace(s[whitespace_run_end(s, p)]),
    decreases s.len() - p,
{
    if p < s.len() && whitespace(s[p]) {
        lemma_whitespace_run_end(s, p + 1);
    }
}

/// The defining facts of `digit_run_end`.
pub proof fn lemma_digit_run_end(s: Seq<char>, p: int)
    requires
        p <= s.len(),
    ensures
        p <= digit_run_end(s, p) <= s.len(),
        forall|i: int| p <= i < digit_run_end(s, p) ==> digit(s[i]),
        digit_run_end(s, p) < s.len() ==> !digit(s[digit_run_end(s, p)]),
    decreases s.len() - p,
{
    if p < s.len() && digit(s[p]) {
        lemma_digit_run_end(s, p + 1);
    }
}

/// The defining facts of `ident_run_end`.
pub proof fn lemma_ident_run_end(s: Seq<char>, p: int)
    requires
        p <= s.len(),
    ensures
        p <= ident_run_end(s, p) <= s.len(),
        forall|i: int| p <= i < ident_run_end(s, p) ==> ident_char(s[i]),
        ident_run_end(s, p) < s.len() ==> !ident_char(s[ident_run_end(s, p)]),
    decreases s.len() - p,
{
    if p < s.len() && ident_char(s[p]) {
        lemma_ident_run_end(s, p + 1);
    }
}

/// The defining facts of `hex_run_end`.
pub proof fn lemma_hex_run_end(s: Seq<char>, p: int)
    requires
        p <= s.len(),
    ensures
        p <= hex_run_end(s, p) <= s.len(),
        forall|i: int| p <= i < hex_run_end(s, p) ==> hex_digit(s[i]),
        hex_run_end(s, p) < s.len() ==> !hex_digit(s[hex_run_end(s, p)]),
    decreases s.len() - p,
{
    if p < s.len() && hex_digit(s[p]) {
        lemma_hex_run_end(s, p + 1);
    }
}

/// The defining facts of `line_run_end`.
pub proof fn lemma_line_run_end(s: Seq<char>, p: int)
    requires
        p <= s.len(),
    ensures
        p <= line_run_end(s, p) <= s.len(),
        forall|i: int| p <= i < line_run_end(s, p) ==> s[i] != '\n',
        line_run_end(s, p) < s.len() ==> s[line_run_end(s, p)] == '\n',
    decreases s.len() - p,
{
    if p < s.len() && s[p] != '\n' {
        lemma_line_run_end(s, p + 1);
    }
}

/// The defining facts of `non_star_run_end`.
pub proof fn lemma_non_star_run_end(s: Seq<char>, p: int)
    requires
        p <= s.len(),
    ensures
        p <= non_star_run_end(s, p) <= s.len(),
        forall|i: int| p <= i < non_star_run_end(s, p) ==> s[i] != '*',
        non_star_run_end(s, p) < s.len() ==> s[non_star_run_end(s, p)] == '*',
    decreases s.len() - p,
{
    if p < s.len() && s[p] != '*' {
        lemma_non_star_run_end(s, p + 1);
    }
}

/// Where the escape sequence whose backslash stands just before `p` ends,
/// or `None` if it is malformed.  `in_string` tells whether the enclosing
/// delimiter is `"` (a string literal) rather than `'` (a char literal).
///
/// The permitted short forms are `\n \r \t \\ \' \" \0`; `\u{...}` takes
/// hex digits up to a closing brace; `\x` takes exactly two hex digits; a
/// backslash before a bare newline is a line continuation, legal only in a
/// string, and swallows the following whitespace.
pub open spec fn escape_end(s: Seq<char>, p: int, in_string: bool) -> Option<int> {
    if p >= s.len() {
        None
    } else {
        let e = s[p];
        if e == 'n' || e == 'r' || e == 't' || e == '\\' || e == '\'' || e == '"' || e == '0' {
            Some(p + 1)
        } else if e == 'u' {
            if p + 1 < s.len() && s[p + 1] == '{' {
                let q = hex_run_end(s, p + 2);
                if q < s.len() && s[q] == '}' {
                    Some(q + 1)
                } else {
                    None
                }
            } else {
                None
            }
        } else if e == 'x' {
            if p + 2 < s.len() && hex_digit(s[p + 1]) && hex_digit(s[p + 2]) {
                Some(p + 3)
            } else {
                None
            }
        } else if e == '\n' && in_string {
            Some(whitespace_run_end(s, p + 1))
        } else {
            None
        }
    }
}

/// Where the one logical character of a quoted literal that starts at `p`
/// ends, or `None` if no valid character starts there.
///
/// A raw tab, carriage return, newline or single quote cannot stand
/// directly inside a char literal; a raw `\r` inside a string must be part
/// of `\r\n`; a backslash begins an escape; any other character stands for
/// itself.
pub open spec fn literal_char_end(s: Seq<char>, p: int, in_string: bool) -> Option<int> {
    if p >= s.len() {
        None
    } else {
        let c = s[p];
        if !in_string && (c == '\t' || c == '\r' || c == '\n' || c == '\'') {
            None
        } else if c == '\r' {
            if p + 1 < s.len() && s[p + 1] == '\n' {
                Some(p + 2)
            } else {
                None
            }
        } else if c == '\\' {
            escape_end(s, p + 1, in_string)
        } else {
            Some(p + 1)
        }
    }
}

/// Where the block comment whose `/*` stands just before `p` ends
/// (position after the closing `*/`), or `None` if it is still open at the
/// end of the input.  Scanning goes character by character: skip to the
/// next `*`, and close only if `/` follows it.
pub open spec fn block_comment_end(s: Seq<char>, p: int) -> Option<int>
    decreases s.len() - p,
    via block_comment_end_decreases
{
    let q = non_star_run_end(s, p);
    if q < s.len() {
        if q + 1 < s.len() && s[q + 1] == '/' {
            Some(q + 2)
        } else {
            block_comment_end(s, q + 1)
        }
    } else {
        None
    }
}

#[via_fn]
proof fn block_comment_end_decreases(s: Seq<char>, p: int) {
    lemma_non_star_run_ge(s, p);
}

/// `non_star_run_end` never moves backwards, whatever the position.
proof fn lemma_non_star_run_ge(s: Seq<char>, p: int)
    ensures
        non_star_run_end(s, p) >= p,
    decreases s.len() - p,
{
    if p < s.len() && s[p] != '*' {
        lemma_non_star_run_ge(s, p + 1);
    }
}

/// `hex_run_end` never moves backwards, whatever the position.
proof fn lemma_hex_run_ge(s: Seq<char>, p: int)
    ensures
        hex_run_end(s, p) >= p,
    decreases s.len() - p,
{
    if p < s.len() && hex_digit(s[p]) {
        lemma_hex_run_ge(s, p + 1);
    }
}

/// `whitespace_run_end` never moves backwards, whatever the position.
proof fn lemma_whitespace_run_ge(s: Seq<char>, p: int)
    ensures
        whitespace_run_end(s, p) >= p,
    decreases s.len() - p,
{
    if p < s.len() && whitespace(s[p]) {
        lemma_whitespace_run_ge(s, p + 1);
    }
}

/// `whitespace_run_end` never leaves the sequence, whatever the position.
proof fn lemma_whitespace_run_le(s: Seq<char>, p: int)
    requires
        p <= s.len(),
    ensures
        whitespace_run_end(s, p) <= s.len(),
    decreases s.len() - p,
{
    if p < s.len() && whitespace(s[p]) {
        lemma_whitespace_run_le(s, p + 1);
    }
}

/// A valid logical character always moves the position forwards, and never
/// past the end of the sequence, whatever the position.
pub proof fn lemma_literal_char_end_gt(s: Seq<char>, p: int, in_string: bool)
    ensures
        literal_char_end(s, p, in_string) matches Some(q) ==> p < q <= s.len(),
{
    if p + 1 < s.len() && s[p] == '\\' {
        let e = s[p + 1];
        if e == 'u' {
            lemma_hex_run_ge(s, p + 3);
        } else if e == '\n' && in_string {
            lemma_whitespace_run_ge(s, p + 2);
            lemma_whitespace_run_le(s, p + 2);
        }
    }
}

/// A closed block comment ends after its body begins and inside the
/// sequence.
pub proof fn lemma_block_comment_end_bounds(s: Seq<char>, p: int)
    requires
        p <= s.len(),
        block_comment_end(s, p) is Some,
    ensures
        p < block_comment_end(s, p)->Some_0 <= s.len(),
    decreases s.len() - p,
{
    lemma_non_star_run_end(s, p);
    let q = non_star_run_end(s, p);
    if q < s.len() && !(q + 1 < s.len() && s[q + 1] == '/') {
        lemma_block_comment_end_bounds(s, q + 1);
    }
}

/// Where the string literal whose opening `"` stands just before `p` ends
/// (position after the closing `"`), or why it cannot: reaching the end of
/// the input leaves the string unterminated, and an invalid logical
/// character is reported at its own position.
pub open spec fn string_body_end(s: Seq<char>, p: int) -> Result<int, (LexErrorKind, int)>
    decreases s.len() - p,
    via string_body_end_decreases
{
    if p >= s.len() {
        Err((LexErrorKind::UnterminatedString, s.len() as int))
    } else if s[p] == '"' {
        Ok(p + 1)
    } else {
        match literal_char_end(s, p, true) {
            Some(q) => string_body_end(s, q),
            None => Err((LexErrorKind::InvalidChar, p)),
        }
    }
}

#[via_fn]
proof fn string_body_end_decreases(s: Seq<char>, p: int) {
    lemma_literal_char_end_gt(s, p, true);
}

/// A closed string literal ends after its body begins and inside the
/// sequence.
pub proof fn lemma_string_body_end_bounds(s: Seq<char>, p: int)
    requires
        p <= s.len(),
        string_body_end(s, p) is Ok,
    ensures
        p < string_body_end(s, p)->Ok_0 <= s.len(),
    decreases s.len() - p,
{
    if p < s.len() && s[p] != '"' {
        match literal_char_end(s, p, true) {
            Some(q) => {
                lemma_literal_char_end_gt(s, p, true);
                lemma_string_body_end_bounds(s, q);
            },
            None => {},
        }
    }
}

/// What scanning one token at a position yields.
pub enum Step {
    /// The position is at the end of the input: nothing left to scan
    Done,
    /// The token that starts here, and its end (exclusive)
    Tok(Token, int),
    /// Scanning fails here, fatally: why, and at which position
    Fail(LexErrorKind, int),
}

/// The token starting at `p` when the character there is `/`: a compound
/// assignment `/=`, a block comment `/* ... */`, a line comment up to (not
/// including) the next newline, or the bare operator.
pub open spec fn scan_slash_at(s: Seq<char>, p: int) -> Step {
    if p + 1 < s.len() && s[p + 1] == '=' {
        Step::Tok(Token::BinaryOperatorAssignment(BinaryOperator::Slash), p + 2)
    } else if p + 1 < s.len() && s[p + 1] == '*' {
        match block_comment_end(s, p + 2) {
            Some(q) => Step::Tok(Token::Comment, q),
            None => Step::Fail(LexErrorKind::UnterminatedComment, s.len() as int),
        }
    } else if p + 1 < s.len() && s[p + 1] == '/' {
        Step::Tok(Token::Comment, line_run_end(s, p + 2))
    } else {
        Step::Tok(Token::BinaryOperator(BinaryOperator::Slash), p + 1)
    }
}

/// The token starting at `p` when the character there is `'`: the three-way
/// ambiguity between a lifetime marker and a character literal.
///
/// An identifier-start character right after the quote begins a lifetime,
/// unless a closing quote follows immediately (a one-character char
/// literal such as `'a'`).  A longer lifetime name must not be followed by
/// a stray closing quote.  Anything else is the single logical character
/// of a char literal, which the closing quote must follow.
pub open spec fn scan_quote_at(s: Seq<char>, p: int) -> Step {
    let n = s.len() as int;
    if p + 1 >= n {
        Step::Fail(LexErrorKind::EofAfterQuote, n)
    } else {
        let c1 = s[p + 1];
        if ident_start(c1) {
            if p + 2 < n && s[p + 2] == '\'' {
                Step::Tok(Token::LiteralChar, p + 3)
            } else if p + 2 < n && ident_char(s[p + 2]) {
                let e = ident_run_end(s, p + 2);
                if e < n && s[e] == '\'' {
                    Step::Fail(LexErrorKind::CharTooLong, e)
                } else {
                    Step::Tok(Token::IdentifierLifetime, e)
                }
            } else {
                Step::Tok(Token::IdentifierLifetime, p + 2)
            }
        } else if c1 == '\'' {
            Step::Fail(LexErrorKind::TwoQuotes, p + 1)
        } else {
            match literal_char_end(s, p + 1, false) {
                None => Step::Fail(LexErrorKind::InvalidChar, p + 1),
                Some(q) => if q < n && s[q] == '\'' {
                    Step::Tok(Token::LiteralChar, q + 1)
                } else {
                    Step::Fail(LexErrorKind::UnclosedChar, q)
                },
            }
        }
    }
}

/// The token that starts at position `p` of `s`, where it ends, or why
/// scanning fails there.  First match wins; every token consumes at least
/// one character.
pub open spec fn scan_at(s: Seq<char>, p: int) -> Step {
    let n = s.len() as int;
    if p >= n {
        Step::Done
    } else {
        let c = s[p];
        match binop_char(c) {
            Some(op) => if p + 1 < n && s[p + 1] == '=' {
                Step::Tok(Token::BinaryOperatorAssignment(op), p + 2)
            } else {
                Step::Tok(Token::BinaryOperator(op), p + 1)
            },
            None =>
            if digit(c) {
                Step::Tok(Token::LiteralInt, digit_run_end(s, p))
            } else if ident_start(c) {
                Step::Tok(Token::Identifier, ident_run_end(s, p))
            } else if c == '/' {
                scan_slash_at(s, p)
            } else if c == '-' {
                if p + 1 < n && s[p + 1] == '=' {
                    Step::Tok(Token::BinaryOperatorAssignment(BinaryOperator::Minus), p + 2)
                } else if p + 1 < n && s[p + 1] == '>' {
                    Step::Tok(Token::RightArrow, p + 2)
                } else {
                    Step::Tok(Token::BinaryOperator(BinaryOperator::Minus), p + 1)
                }
            } else if c == ',' {
                Step::Tok(Token::Comma, p + 1)
            } else if c == ';' {
                Step::Tok(Token::Semicolon, p + 1)
            } else if c == '!' {
                Step::Tok(Token::Exclamation, p + 1)
            } else if c == '?' {
                Step::Tok(Token::Question, p + 1)
            } else if c == '$' {
                Step::Tok(Token::Dollar, p + 1)
            } else if c == '#' {
                Step::Tok(Token::Sharp, p + 1)
            } else if c == ':' {
                if p + 1 < n && s[p + 1] == ':' {
                    Step::Tok(Token::DoubleColon, p + 2)
                } else {
                    Step::Tok(Token::Colon, p + 1)
                }
            } else if c == '.' {
                if p + 1 < n && s[p + 1] == '.' {
                    if p + 2 < n && s[p + 2] == '.' {
                        Step::Tok(Token::DotDotDot, p + 3)
                    } else if p + 2 < n && s[p + 2] == '=' {
                        Step::Tok(Token::DotDotEq, p + 3)
                    } else {
                        Step::Tok(Token::DotDot, p + 2)
                    }
                } else {
                    Step::Tok(Token::Dot, p + 1)
                }
            } else if c == '\'' {
                scan_quote_at(s, p)
            } else if c == '(' {
                Step::Tok(Token::Left(PairedToken::Parenthesis), p + 1)
            } else if c == ')' {
                Step::Tok(Token::Right(PairedToken::Parenthesis), p + 1)
            } else if c == '{' {
                Step::Tok(Token::Left(PairedToken::Brace), p + 1)
            } else if c == '}' {
                Step::Tok(Token::Right(PairedToken::Brace), p + 1)
            } else if c == '[' {
                Step::Tok(Token::Left(PairedToken::Bracket), p + 1)
            } else if c == ']' {
                Step::Tok(Token::Right(PairedToken::Bracket), p + 1)
            } else if c == '"' {
                match string_body_end(s, p + 1) {
                    Ok(q) => Step::Tok(Token::LiteralStr, q),
                    Err((k, e)) => Step::Fail(k, e),
                }
            } else if c == '<' {
                if p + 1 < n && s[p + 1] == '=' {
                    Step::Tok(Token::LessEqual, p + 2)
                } else if p + 1 < n && s[p + 1] == '-' {
                    Step::Tok(Token::LeftArrow, p + 2)
                } else if p + 1 < n && s[p + 1] == '<' {
                    if p + 2 < n && s[p + 2] == '=' {
                        Step::Tok(Token::BinaryOperatorAssignment(BinaryOperator::Shl), p + 3)
                    } else {
                        Step::Tok(Token::BinaryOperator(BinaryOperator::Shl), p + 2)
                    }
                } else {
                    Step::Tok(Token::LessThan, p + 1)
                }
            } else if c == '>' {
                if p + 1 < n && s[p + 1] == '=' {
                    Step::Tok(Token::GreaterEqual, p + 2)
                } else if p + 1 < n && s[p + 1] == '>' {
                    if p + 2 < n && s[p + 2] == '=' {
                        Step::Tok(Token::BinaryOperatorAssignment(BinaryOperator::Shr), p + 3)
                    } else {
                        Step::Tok(Token::BinaryOperator(BinaryOperator::Shr), p + 2)
                    }
                } else {
                    Step::Tok(Token::GreaterThan, p + 1)
                }
            } else if c == '=' {
                if p + 1 < n && s[p + 1] == '=' {
                    Step::Tok(Token::DoubleEqual, p + 2)
                } else if p + 1 < n && s[p + 1] == '>' {
                    Step::Tok(Token::FatArrow, p + 2)
                } else {
                    Step::Tok(Token::Equal, p + 1)
                }
            } else if whitespace(c) {
                Step::Tok(Token::Whitespace, whitespace_run_end(s, p))
            } else {
                Step::Fail(LexErrorKind::UnexpectedChar(c), p)
            }
        }
    }
}

/// A scanned token consumes at least one character and ends inside the
/// sequence.
pub proof fn lemma_scan_progress(s: Seq<char>, p: int)
    requires
        scan_at(s, p) is Tok,
    ensures
        p < scan_at(s, p)->Tok_1 <= s.len(),
{
    let c = s[p];
    if binop_char(c) is Some {
    } else if digit(c) {
        lemma_digit_run_end(s, p);
    } else if ident_start(c) {
        lemma_ident_run_end(s, p);
    } else if c == '/' {
        if p + 1 < s.len() && s[p + 1] == '*' {
            if block_comment_end(s, p + 2) is Some {
                lemma_block_comment_end_bounds(s, p + 2);
            }
        } else if p + 1 < s.len() && s[p + 1] == '/' {
            lemma_line_run_end(s, p + 2);
        }
    } else if c == '\'' {
        if p + 1 < s.len() {
            if ident_start(s[p + 1]) {
                if p + 2 < s.len() && s[p + 2] == '\'' {
                } else if p + 2 < s.len() && ident_char(s[p + 2]) {
                    lemma_ident_run_end(s, p + 2);
                }
            } else if s[p + 1] != '\'' {
                lemma_literal_char_end_gt(s, p + 1, false);
            }
        }
    } else if c == '"' {
        if string_body_end(s, p + 1) is Ok {
            lemma_string_body_end_bounds(s, p + 1);
        }
    } else if whitespace(c) {
        lemma_whitespace_run_end(s, p);
    }
}

/// One token of the lexed output, together with the source span
/// `[start, end)` it consumed.
pub struct Lexeme {
    pub token: Token,
    pub start: int,
    pub end: int,
}

/// The whole token sequence from position `p` on, each token with its
/// span, or the fatal error that stops scanning.
pub open spec fn lex_from(s: Seq<char>, p: int) -> Result<Seq<Lexeme>, (LexErrorKind, int)>
    decreases s.len() - p,
    via lex_from_decreases
{
    match scan_at(s, p) {
        Step::Done => Ok(Seq::<Lexeme>::empty()),
        Step::Tok(t, q) => match lex_from(s, q) {
            Ok(rest) => Ok(seq![Lexeme { token: t, start: p, end: q }] + rest),
            Err(e) => Err(e),
        },
        Step::Fail(k, e) => Err((k, e)),
    }
}

#[via_fn]
proof fn lex_from_decreases(s: Seq<char>, p: int) {
    if scan_at(s, p) is Tok {
        lemma_scan_progress(s, p);
    }
}

/// The tokens of a lexed output, spans dropped.
pub open spec fn lexeme_tokens(ls: Seq<Lexeme>) -> Seq<Token> {
    ls.map_values(|l: Lexeme| l.token)
}

/// The whole token sequence of `s`, from its beginning.
pub open spec fn lex(s: Seq<char>) -> Result<Seq<Lexeme>, (LexErrorKind, int)> {
    lex_from(s, 0)
}

} // verus!
