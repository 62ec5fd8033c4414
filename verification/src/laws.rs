//! The general laws of the lexer, proved of the scanning model.
//!
//! Everything here is stated over `scan_at` and `lex_from`; the scanner's
//! own contracts tie its behaviour to those functions, so each law carries
//! over to the executable code.

use vstd::prelude::*;
use crate::classify::{whitespace, digit, ident_start, binop_char};
use crate::classify::{ident_char, hex_digit};
use crate::model::{scan_at, lex, lex_from, lexeme_tokens, Lexeme,
    Step, whitespace_run_end, digit_run_end, ident_run_end, hex_run_end, line_run_end,
    non_star_run_end, literal_char_end, block_comment_end, string_body_end,
    lemma_whitespace_run_end, lemma_digit_run_end, lemma_ident_run_end, lemma_hex_run_end,
    lemma_line_run_end, lemma_non_star_run_end, lemma_scan_progress, lemma_literal_char_end_gt,
    lemma_block_comment_end_bounds, lemma_string_body_end_bounds};
use crate::token::{Token, BinaryOperator, LexErrorKind};

verus! {

/// A character that some dispatch rule of the scanner accepts.
pub open spec fn recognized(c: char) -> bool {
    binop_char(c) is Some || digit(c) || ident_start(c) || whitespace(c) || c == '/' || c == '-'
        || c == ',' || c == ';' || c == '!' || c == '?' || c == '$' || c == '#' || c == ':'
        || c == '.' || c == '\'' || c == '(' || c == ')' || c == '{' || c == '}' || c == '['
        || c == ']' || c == '"' || c == '<' || c == '>' || c == '='
}

/// Law: a character outside every recognized class, met in dispatch
/// position, is a fatal error carrying that character and its position -
/// never a silently dropped token.
pub proof fn lemma_unrecognized_char_is_fatal(s: Seq<char>, p: int)
    requires
        0 <= p < s.len(),
        !recognized(s[p]),
    ensures
        scan_at(s, p) == Step::Fail(LexErrorKind::UnexpectedChar(s[p]), p),
        lex_from(s, p) == Err::<Seq<Lexeme>, (LexErrorKind, int)>((
            LexErrorKind::UnexpectedChar(s[p]),
            p,
        )),
{
}

/// The source spelling of each binary operator symbol.
pub open spec fn op_symbol(op: BinaryOperator) -> Seq<char> {
    match op {
        BinaryOperator::Plus => seq!['+'],
        BinaryOperator::Minus => seq!['-'],
        BinaryOperator::Star => seq!['*'],
        BinaryOperator::Slash => seq!['/'],
        BinaryOperator::Percent => seq!['%'],
        BinaryOperator::Caret => seq!['^'],
        BinaryOperator::And => seq!['&'],
        BinaryOperator::Or => seq!['|'],
        BinaryOperator::Shl => seq!['<', '<'],
        BinaryOperator::Shr => seq!['>', '>'],
    }
}

/// Law (operator/assignment tie-break): for every binary operator symbol,
/// the symbol followed directly by `=` lexes to exactly one
/// compound-assignment token, never to two separate tokens.
pub proof fn lemma_operator_assignment(op: BinaryOperator)
    ensures
        lex(op_symbol(op).push('=')) is Ok,
        lexeme_tokens(lex(op_symbol(op).push('='))->Ok_0)
            == seq![Token::BinaryOperatorAssignment(op)],
{
    let s = op_symbol(op).push('=');
    reveal_with_fuel(lex_from, 3);
    assert(lexeme_tokens(lex(s)->Ok_0) =~= seq![Token::BinaryOperatorAssignment(op)]);
}

/// The backbone of a successful lex: every emitted token is exactly what
/// `scan_at` yields at its own start, and the spans stand side by side,
/// from `p` to the end of the input, with no gap and no overlap.
#[verifier::rlimit(60)]
pub proof fn lemma_lex_structure(s: Seq<char>, p: int)
    requires
        0 <= p <= s.len(),
        lex_from(s, p) is Ok,
    ensures
        ({
            let ls = lex_from(s, p)->Ok_0;
            &&& forall|i: int|
                0 <= i < ls.len() ==> scan_at(s, (#[trigger] ls[i]).start)
                    == Step::Tok(ls[i].token, ls[i].end)
            &&& forall|i: int| 0 <= i < ls.len() - 1 ==> (#[trigger] ls[i]).end == ls[i + 1].start
            &&& ls.len() > 0 ==> ls[0].start == p
            &&& ls.len() > 0 ==> ls[ls.len() - 1].end == s.len()
            &&& ls.len() == 0 ==> p == s.len()
        }),
    decreases s.len() - p,
{
    let ls = lex_from(s, p)->Ok_0;
    match scan_at(s, p) {
        Step::Done => {},
        Step::Tok(t, q) => {
            lemma_scan_progress(s, p);
            lemma_lex_structure(s, q);
            let rest = lex_from(s, q)->Ok_0;
            let lx = Lexeme { token: t, start: p, end: q };
            assert(ls == seq![lx] + rest);
            assert(ls[0] == lx);
            assert(forall|i: int| 1 <= i < ls.len() ==> ls[i] == rest[i - 1]);
        },
        Step::Fail(k, e) => {},
    }
}

/// The concatenation of the source spans of a token sequence.
pub open spec fn spans_text(s: Seq<char>, ls: Seq<Lexeme>) -> Seq<char>
    decreases ls.len(),
{
    if ls.len() == 0 {
        Seq::empty()
    } else {
        s.subrange(ls[0].start, ls[0].end) + spans_text(s, ls.drop_first())
    }
}

proof fn lemma_coverage_from(s: Seq<char>, p: int)
    requires
        0 <= p <= s.len(),
        lex_from(s, p) is Ok,
    ensures
        spans_text(s, lex_from(s, p)->Ok_0) == s.subrange(p, s.len() as int),
    decreases s.len() - p,
{
    let ls = lex_from(s, p)->Ok_0;
    match scan_at(s, p) {
        Step::Done => {
            assert(s.subrange(p, s.len() as int) =~= Seq::<char>::empty());
        },
        Step::Tok(t, q) => {
            lemma_scan_progress(s, p);
            lemma_coverage_from(s, q);
            let rest = lex_from(s, q)->Ok_0;
            let lx = Lexeme { token: t, start: p, end: q };
            assert(ls == seq![lx] + rest);
            assert(ls[0] == lx);
            assert(ls.drop_first() =~= rest);
            assert(s.subrange(p, q) + s.subrange(q, s.len() as int)
                =~= s.subrange(p, s.len() as int));
        },
        Step::Fail(k, e) => {},
    }
}

/// Law (total coverage): when lexing succeeds, concatenating the source
/// spans consumed by the emitted token sequence reconstructs the exact
/// original input; every input character belongs to exactly one token's
/// span.
pub proof fn lemma_total_coverage(s: Seq<char>)
    requires
        lex(s) is Ok,
    ensures
        spans_text(s, lex(s)->Ok_0) == s,
{
    lemma_coverage_from(s, 0);
    assert(s.subrange(0, s.len() as int) =~= s);
}

/// Only the whitespace rule of the scanner emits a `Whitespace` token, and
/// it consumes a maximal run: the character after the token, if any, is
/// not whitespace.
proof fn lemma_whitespace_token_inversion(s: Seq<char>, p: int)
    requires
        scan_at(s, p) matches Step::Tok(t, q) && t == Token::Whitespace,
    ensures
        p < s.len(),
        whitespace(s[p]),
        scan_at(s, p)->Tok_1 == whitespace_run_end(s, p),
{
}

/// Law (maximal munch, whitespace): no two consecutive tokens of a lexed
/// input are both `Whitespace` - whitespace runs are always merged into
/// one token.
pub proof fn lemma_no_adjacent_whitespace(s: Seq<char>, i: int)
    requires
        lex(s) is Ok,
        0 <= i,
        i + 1 < lex(s)->Ok_0.len(),
        lex(s)->Ok_0[i].token == Token::Whitespace,
    ensures
        lex(s)->Ok_0[i + 1].token != Token::Whitespace,
{
    let ls = lex(s)->Ok_0;
    lemma_lex_structure(s, 0);
    lemma_whitespace_token_inversion(s, ls[i].start);
    lemma_whitespace_run_end(s, ls[i].start);
    if ls[i + 1].token == Token::Whitespace {
        lemma_whitespace_token_inversion(s, ls[i + 1].start);
    }
}

/// True when a line comment (`//`) stands at `p`.
pub open spec fn line_comment_at(s: Seq<char>, p: int) -> bool {
    p + 1 < s.len() && s[p] == '/' && s[p + 1] == '/'
}

/// Law (maximal munch, line comments): a line comment consumes everything
/// up to its newline, so the token right after one is never another
/// comment - it is the whitespace that the newline begins, or nothing.
#[verifier::rlimit(60)]
pub proof fn lemma_line_comment_not_followed_by_comment(s: Seq<char>, i: int)
    requires
        lex(s) is Ok,
        0 <= i,
        i + 1 < lex(s)->Ok_0.len(),
        lex(s)->Ok_0[i].token == Token::Comment,
        line_comment_at(s, lex(s)->Ok_0[i].start),
    ensures
        lex(s)->Ok_0[i + 1].token != Token::Comment,
{
    let ls = lex(s)->Ok_0;
    lemma_lex_structure(s, 0);
    let st = ls[i].start;
    let en = ls[i].end;
    assert(en == line_run_end(s, st + 2));
    lemma_line_run_end(s, st + 2);
    if ls[i + 1].token == Token::Comment {
        assert(s[en] == '\n');
        assert(scan_at(s, en) is Tok);
        assert(scan_at(s, en)->Tok_0 == Token::Whitespace);
    }
}

/// Law (lifetime against char literal): an `IdentifierLifetime` token is
/// never immediately followed, textually, by a closing single quote.  The
/// combination is reclassified as `LiteralChar` (one name character) or
/// rejected (more than one) during scanning itself, never after the fact.
pub proof fn lemma_lifetime_not_followed_by_quote(s: Seq<char>, p: int)
    requires
        scan_at(s, p) matches Step::Tok(t, q) && t == Token::IdentifierLifetime,
    ensures
        scan_at(s, p)->Tok_1 == s.len() || s[scan_at(s, p)->Tok_1] != '\'',
{
    lemma_scan_progress(s, p);
    if p + 2 < s.len() {
        lemma_ident_run_end(s, p + 2);
    }
}

/// Scanning a whitespace run is unchanged by cutting the input down to a
/// window `[lo, hi)` that contains the whole run.
proof fn lemma_whitespace_run_transport(s: Seq<char>, lo: int, hi: int, i: int)
    requires
        0 <= lo <= i <= hi <= s.len(),
        whitespace_run_end(s, i) <= hi,
    ensures
        whitespace_run_end(s.subrange(lo, hi), i - lo) == whitespace_run_end(s, i) - lo,
    decreases s.len() - i,
{
    let u = s.subrange(lo, hi);
    if i < hi && whitespace(s[i]) {
        assert(u[i - lo] == s[i]);
        lemma_whitespace_run_transport(s, lo, hi, i + 1);
    } else if i < s.len() && whitespace(s[i]) {
        lemma_whitespace_run_end(s, i + 1);
        assert(false);
    } else {
        if i < hi {
            assert(u[i - lo] == s[i]);
        }
    }
}

/// As `lemma_whitespace_run_transport`, for digit runs.
proof fn lemma_digit_run_transport(s: Seq<char>, lo: int, hi: int, i: int)
    requires
        0 <= lo <= i <= hi <= s.len(),
        digit_run_end(s, i) <= hi,
    ensures
        digit_run_end(s.subrange(lo, hi), i - lo) == digit_run_end(s, i) - lo,
    decreases s.len() - i,
{
    let u = s.subrange(lo, hi);
    if i < hi && digit(s[i]) {
        assert(u[i - lo] == s[i]);
        lemma_digit_run_transport(s, lo, hi, i + 1);
    } else if i < s.len() && digit(s[i]) {
        lemma_digit_run_end(s, i + 1);
        assert(false);
    } else {
        if i < hi {
            assert(u[i - lo] == s[i]);
        }
    }
}

/// As `lemma_whitespace_run_transport`, for identifier-character runs.
proof fn lemma_ident_run_transport(s: Seq<char>, lo: int, hi: int, i: int)
    requires
        0 <= lo <= i <= hi <= s.len(),
        ident_run_end(s, i) <= hi,
    ensures
        ident_run_end(s.subrange(lo, hi), i - lo) == ident_run_end(s, i) - lo,
    decreases s.len() - i,
{
    let u = s.subrange(lo, hi);
    if i < hi && ident_char(s[i]) {
        assert(u[i - lo] == s[i]);
        lemma_ident_run_transport(s, lo, hi, i + 1);
    } else if i < s.len() && ident_char(s[i]) {
        lemma_ident_run_end(s, i + 1);
        assert(false);
    } else {
        if i < hi {
            assert(u[i - lo] == s[i]);
        }
    }
}

/// As `lemma_whitespace_run_transport`, for hexadecimal-digit runs.
proof fn lemma_hex_run_transport(s: Seq<char>, lo: int, hi: int, i: int)
    requires
        0 <= lo <= i <= hi <= s.len(),
        hex_run_end(s, i) <= hi,
    ensures
        hex_run_end(s.subrange(lo, hi), i - lo) == hex_run_end(s, i) - lo,
    decreases s.len() - i,
{
    let u = s.subrange(lo, hi);
    if i < hi && hex_digit(s[i]) {
        assert(u[i - lo] == s[i]);
        lemma_hex_run_transport(s, lo, hi, i + 1);
    } else if i < s.len() && hex_digit(s[i]) {
        lemma_hex_run_end(s, i + 1);
        assert(false);
    } else {
        if i < hi {
            assert(u[i - lo] == s[i]);
        }
    }
}

/// As `lemma_whitespace_run_transport`, for the body of a line comment.
proof fn lemma_line_run_transport(s: Seq<char>, lo: int, hi: int, i: int)
    requires
        0 <= lo <= i <= hi <= s.len(),
        line_run_end(s, i) <= hi,
    ensures
        line_run_end(s.subrange(lo, hi), i - lo) == line_run_end(s, i) - lo,
    decreases s.len() - i,
{
    let u = s.subrange(lo, hi);
    if i < hi && s[i] != '\n' {
        assert(u[i - lo] == s[i]);
        lemma_line_run_transport(s, lo, hi, i + 1);
    } else if i < s.len() && s[i] != '\n' {
        lemma_line_run_end(s, i + 1);
        assert(false);
    } else {
        if i < hi {
            assert(u[i - lo] == s[i]);
        }
    }
}

/// As `lemma_whitespace_run_transport`, for runs of characters other than
/// `*`.
proof fn lemma_non_star_run_transport(s: Seq<char>, lo: int, hi: int, i: int)
    requires
        0 <= lo <= i <= hi <= s.len(),
        non_star_run_end(s, i) <= hi,
    ensures
        non_star_run_end(s.subrange(lo, hi), i - lo) == non_star_run_end(s, i) - lo,
    decreases s.len() - i,
{
    let u = s.subrange(lo, hi);
    if i < hi && s[i] != '*' {
        assert(u[i - lo] == s[i]);
        lemma_non_star_run_transport(s, lo, hi, i + 1);
    } else if i < s.len() && s[i] != '*' {
        lemma_non_star_run_end(s, i + 1);
        assert(false);
    } else {
        if i < hi {
            assert(u[i - lo] == s[i]);
        }
    }
}

/// Reading one logical literal character is unchanged by cutting the
/// input down to a window `[lo, hi)` that contains the whole character.
proof fn lemma_literal_char_transport(s: Seq<char>, lo: int, hi: int, i: int, in_string: bool)
    requires
        0 <= lo <= i <= hi <= s.len(),
        literal_char_end(s, i, in_string) matches Some(q) && q <= hi,
    ensures
        literal_char_end(s.subrange(lo, hi), i - lo, in_string) == Some(
            literal_char_end(s, i, in_string)->Some_0 - lo,
        ),
{
    let u = s.subrange(lo, hi);
    let q = literal_char_end(s, i, in_string)->Some_0;
    lemma_literal_char_end_gt(s, i, in_string);
    assert(u[i - lo] == s[i]);
    let c = s[i];
    if c == '\r' {
        assert(u[i + 1 - lo] == s[i + 1]);
    } else if c == '\\' {
        let e = s[i + 1];
        if e == 'u' {
            let h = hex_run_end(s, i + 3);
            lemma_hex_run_end(s, i + 3);
            assert(u[i + 1 - lo] == s[i + 1]);
            assert(u[i + 2 - lo] == s[i + 2]);
            lemma_hex_run_transport(s, lo, hi, i + 3);
            assert(u[h - lo] == s[h]);
        } else if e == 'x' {
            assert(u[i + 1 - lo] == s[i + 1]);
            assert(u[i + 2 - lo] == s[i + 2]);
            assert(u[i + 3 - lo] == s[i + 3]);
        } else if e == '\n' && in_string {
            lemma_whitespace_run_end(s, i + 2);
            assert(u[i + 1 - lo] == s[i + 1]);
            lemma_whitespace_run_transport(s, lo, hi, i + 2);
        } else {
            assert(u[i + 1 - lo] == s[i + 1]);
        }
    }
}

/// Scanning to the end of a block comment is unchanged by cutting the
/// input down to a window `[lo, hi)` that contains the whole comment.
proof fn lemma_block_comment_transport(s: Seq<char>, lo: int, hi: int, i: int)
    requires
        0 <= lo <= i <= hi <= s.len(),
        block_comment_end(s, i) matches Some(q) && q <= hi,
    ensures
        block_comment_end(s.subrange(lo, hi), i - lo) == Some(
            block_comment_end(s, i)->Some_0 - lo,
        ),
    decreases s.len() - i,
{
    let u = s.subrange(lo, hi);
    let q = block_comment_end(s, i)->Some_0;
    lemma_non_star_run_end(s, i);
    let e = non_star_run_end(s, i);
    if e + 1 < s.len() && s[e + 1] == '/' {
        lemma_non_star_run_transport(s, lo, hi, i);
        assert(u[e - lo] == s[e]);
        assert(u[e + 1 - lo] == s[e + 1]);
    } else {
        lemma_block_comment_end_bounds(s, e + 1);
        lemma_non_star_run_transport(s, lo, hi, i);
        assert(u[e - lo] == s[e]);
        if e + 1 < hi {
            assert(u[e + 1 - lo] == s[e + 1]);
        }
        lemma_block_comment_transport(s, lo, hi, e + 1);
    }
}

/// Scanning to the end of a string literal's body is unchanged by cutting
/// the input down to a window `[lo, hi)` that contains the whole literal.
proof fn lemma_string_body_transport(s: Seq<char>, lo: int, hi: int, i: int)
    requires
        0 <= lo <= i <= hi <= s.len(),
        string_body_end(s, i) matches Ok(q) && q <= hi,
    ensures
        string_body_end(s.subrange(lo, hi), i - lo) == Ok::<int, (LexErrorKind, int)>(
            string_body_end(s, i)->Ok_0 - lo,
        ),
    decreases s.len() - i,
{
    let u = s.subrange(lo, hi);
    let q = string_body_end(s, i)->Ok_0;
    lemma_string_body_end_bounds(s, i);
    assert(u[i - lo] == s[i]);
    if s[i] == '"' {
    } else {
        let qc = literal_char_end(s, i, true)->Some_0;
        lemma_literal_char_end_gt(s, i, true);
        lemma_string_body_end_bounds(s, qc);
        lemma_literal_char_transport(s, lo, hi, i, true);
        lemma_string_body_transport(s, lo, hi, qc);
    }
}

/// Scanning one token is unchanged by cutting the input down to exactly
/// that token's span: the one character of lookahead the scanner may take
/// beyond a token never changes an accepted token.
#[verifier::rlimit(100)]
proof fn lemma_scan_transport(s: Seq<char>, p: int)
    requires
        0 <= p,
        scan_at(s, p) is Tok,
    ensures
        scan_at(s.subrange(p, scan_at(s, p)->Tok_1), 0) == Step::Tok(
            scan_at(s, p)->Tok_0,
            scan_at(s, p)->Tok_1 - p,
        ),
{
    lemma_scan_progress(s, p);
    let q = scan_at(s, p)->Tok_1;
    let u = s.subrange(p, q);
    assert(forall|k: int| 0 <= k < q - p ==> u[k] == s[p + k]);
    let c = s[p];
    if binop_char(c) is Some {
    } else if digit(c) {
        lemma_digit_run_transport(s, p, q, p);
    } else if ident_start(c) {
        lemma_ident_run_transport(s, p, q, p);
    } else if c == '/' {
        if p + 1 < s.len() && s[p + 1] == '=' {
        } else if p + 1 < s.len() && s[p + 1] == '*' {
            lemma_block_comment_end_bounds(s, p + 2);
            lemma_block_comment_transport(s, p, q, p + 2);
        } else if p + 1 < s.len() && s[p + 1] == '/' {
            lemma_line_run_end(s, p + 2);
            lemma_line_run_transport(s, p, q, p + 2);
        }
    } else if c == '\'' {
        let c1 = s[p + 1];
        if ident_start(c1) {
            if p + 2 < s.len() && s[p + 2] == '\'' {
            } else if p + 2 < s.len() && ident_char(s[p + 2]) {
                lemma_ident_run_end(s, p + 2);
                lemma_ident_run_transport(s, p, q, p + 2);
            }
        } else {
            let qc = literal_char_end(s, p + 1, false)->Some_0;
            lemma_literal_char_end_gt(s, p + 1, false);
            lemma_literal_char_transport(s, p, q, p + 1, false);
        }
    } else if c == '"' {
        lemma_string_body_end_bounds(s, p + 1);
        lemma_string_body_transport(s, p, q, p + 1);
    } else if whitespace(c) {
        lemma_whitespace_run_transport(s, p, q, p);
    }
}

/// Law (idempotence of re-tokenizing output spans): lexing the source
/// span of any single scanned token in isolation reproduces exactly that
/// token, and nothing more.
pub proof fn lemma_retokenize_span(s: Seq<char>, p: int)
    requires
        0 <= p,
        scan_at(s, p) is Tok,
    ensures
        ({
            let t = scan_at(s, p)->Tok_0;
            let q = scan_at(s, p)->Tok_1;
            let u = s.subrange(p, q);
            &&& scan_at(u, 0) == Step::Tok(t, q - p)
            &&& lex(u) is Ok
            &&& lexeme_tokens(lex(u)->Ok_0) == seq![t]
        }),
{
    lemma_scan_progress(s, p);
    lemma_scan_transport(s, p);
    let t = scan_at(s, p)->Tok_0;
    let q = scan_at(s, p)->Tok_1;
    let u = s.subrange(p, q);
    reveal_with_fuel(lex_from, 3);
    assert(scan_at(u, q - p) is Done);
    assert(lex(u) == Ok::<Seq<Lexeme>, (LexErrorKind, int)>(
        seq![Lexeme { token: t, start: 0, end: q - p }] + Seq::<Lexeme>::empty(),
    ));
    assert(lexeme_tokens(lex(u)->Ok_0) =~= seq![t]);
}

} // verus!
