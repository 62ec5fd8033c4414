//! The lexical categories the scanner can emit, and the fatal error type.

use vstd::prelude::*;

verus! {

/// Token which is usually paired with another token, i.e. is either left or right.
#[derive(Copy, Clone, Eq, PartialEq, Structural, Debug)]
pub enum PairedToken {
    /// `(` or `)`
    Parenthesis,
    /// `[` or `]`
    Bracket,
    /// `{` or `}`
    Brace,
}

/// Operator on two expressions returning an expression of the same value.
///
/// Could be used with an assignment symbol when mutating a variable.
#[derive(Copy, Clone, Eq, PartialEq, Structural, Debug)]
pub enum BinaryOperator {
    /// `+`
    Plus,
    /// `-`
    Minus,
    /// `*`
    Star,
    /// `/`
    Slash,
    /// `%`
    Percent,
    /// `^`
    Caret,
    /// `&`
    And,
    /// `|`
    Or,
    /// `<<`
    Shl,
    /// `>>`
    Shr,
}

/// Token - a lexical unit of the program source code.
#[derive(Copy, Clone, Eq, PartialEq, Structural, Debug)]
pub enum Token {
    /// Left (opening) part of paired token, e.g. `(`
    Left(PairedToken),
    /// Right (closing) part of paired token, e.g. `)`
    Right(PairedToken),
    /// Delimiting whitespace, always a maximal run
    Whitespace,
    /// One comment, line or block; its contents are discarded
    Comment,
    /// `=`
    Equal,
    /// `,`
    Comma,
    /// `:`
    Colon,
    /// `::`
    DoubleColon,
    /// `;`
    Semicolon,
    /// `!`
    Exclamation,
    /// `?`
    Question,
    /// `$`
    Dollar,
    /// `'`, used for lifetimes, not chars.
    /// This token is never produced; lifetimes use `IdentifierLifetime`
    Quote,
    /// `#`
    Sharp,
    /// `<-`
    LeftArrow,
    /// `->`
    RightArrow,
    /// `=>`
    FatArrow,
    /// `.`
    Dot,
    /// `..`
    DotDot,
    /// `...`
    DotDotDot,
    /// `.=`.
    /// This token is never produced; it exists for macro purposes in rustc
    DotEq,
    /// `..=`
    DotDotEq,
    /// Binary operator, e.g. `+`
    BinaryOperator(BinaryOperator),
    /// Binary operator with assignment, e.g. `+=`
    BinaryOperatorAssignment(BinaryOperator),
    /// `!`
    Not,
    /// `~`
    Tilde,
    /// `==`
    DoubleEqual,
    /// `<`
    LessThan,
    /// `<=`
    LessEqual,
    /// `>`
    GreaterThan,
    /// `>=`
    GreaterEqual,
    /// `!=`
    NotEqual,
    /// `&&`
    DoubleAnd,
    /// `||`
    DoubleOr,
    /// Integer literal; its value is discarded
    LiteralInt,
    /// String literal; its value is discarded
    LiteralStr,
    /// Character literal; its value is discarded
    LiteralChar,
    /// A name
    Identifier,
    /// A lifetime marker such as `'a`
    IdentifierLifetime,
    /// End of stream.
    /// This token is never produced; the scanner reports the end of input
    /// by returning no token instead
    Eof,
}

/// Why a scan failed.  Every failure is fatal: token production stops at it.
#[derive(Copy, Clone, Eq, PartialEq, Structural, Debug)]
pub enum LexErrorKind {
    /// A character that no dispatch rule recognizes, in dispatch position
    UnexpectedChar(char),
    /// `''` - two single quotes in a row
    TwoQuotes,
    /// The input ends right after an opening single quote
    EofAfterQuote,
    /// A lifetime name immediately followed by a closing quote: a char
    /// literal must have at most one codepoint
    CharTooLong,
    /// A malformed escape sequence, or a raw character that cannot stand
    /// inside this kind of literal
    InvalidChar,
    /// A char literal whose single character is not followed by `'`
    UnclosedChar,
    /// A string literal still open at the end of the input
    UnterminatedString,
    /// A block comment still open at the end of the input
    UnterminatedComment,
}

/// A fatal scan failure: what went wrong and where.
///
/// `pos` counts characters from the start of the input; it points at the
/// offending character where there is one, and at the end of the input for
/// the unterminated cases.
#[derive(Copy, Clone, Eq, PartialEq, Structural, Debug)]
pub struct LexError {
    pub kind: LexErrorKind,
    pub pos: usize,
}

} // verus!
