//! The scanner: walks the input character sequence exactly once, left to
//! right, and produces one token per call.
//!
//! Every method is proved to agree with the scanning model in `model`:
//! `next` returns exactly the token, end position or error that `scan_at`
//! gives for the current position, and `tokenize` returns exactly the
//! token sequence that `lex` gives for the whole input.

use vstd::prelude::*;
use crate::classify::{is_whitespace, is_digit, is_hex_digit, is_ident_start, is_ident_char,
    char_to_binop};
use crate::model::{whitespace_run_end, digit_run_end, ident_run_end, hex_run_end, line_run_end,
    non_star_run_end, literal_char_end, block_comment_end, string_body_end, Step,
    scan_at, scan_slash_at, scan_quote_at, lex_from, lex, lexeme_tokens, Lexeme,
    lemma_scan_progress, lemma_non_star_run_end, lemma_literal_char_end_gt};
use crate::token::{Token, PairedToken, BinaryOperator, LexError, LexErrorKind};

verus! {

/// The tokenizer: a read head over the input characters.
///
/// `text()` is the whole input and never changes; `at()` is how many
/// characters have been consumed so far.  Each successful call of `next`
/// consumes exactly the characters of one token.
pub struct Tokenizer {
    input: Vec<char>,
    pos: usize,
}

impl Tokenizer {
    /// The input character sequence.
    pub closed spec fn text(self) -> Seq<char> {
        self.input@
    }

    /// The current position of the read head.
    pub closed spec fn at(self) -> int {
        self.pos as int
    }

    /// The read head stands inside the input or just past its end.
    pub open spec fn wf(self) -> bool {
        0 <= self.at() <= self.text().len()
    }

    /// Make a tokenizer that reads `input` from its beginning.
    pub fn new(input: Vec<char>) -> (t: Tokenizer)
        ensures
            t.wf(),
            t.text() == input@,
            t.at() == 0,
    {
        Tokenizer { input, pos: 0 }
    }

    /// The character at the read head, or `None` at the end of the input.
    /// Side-effect-free.
    pub fn current(&self) -> (c: Option<char>)
        requires
            self.wf(),
        ensures
            self.at() < self.text().len() ==> c == Some(self.text()[self.at()]),
            self.at() == self.text().len() ==> c is None,
    {
        if self.pos < self.input.len() {
            Some(self.input[self.pos])
        } else {
            None
        }
    }

    /// How many characters have been consumed so far.
    pub fn position(&self) -> (p: usize)
        ensures
            p == self.at(),
    {
        self.pos
    }

    /// Consume the character at the read head.
    fn adv(&mut self)
        requires
            old(self).wf(),
            old(self).at() < old(self).text().len(),
        ensures
            final(self).wf(),
            final(self).text() == old(self).text(),
            final(self).at() == old(self).at() + 1,
    {
        let n = self.input.len();
        assert(self.pos < n);
        self.pos = self.pos + 1;
    }

    /// Consume the maximal run of whitespace characters at the read head.
    fn skip_whitespace(&mut self)
        requires
            old(self).wf(),
        ensures
            final(self).wf(),
            final(self).text() == old(self).text(),
            final(self).at() == whitespace_run_end(old(self).text(), old(self).at()),
    {
        while self.pos < self.input.len() && is_whitespace(self.input[self.pos])
            invariant
                self.wf(),
                self.text() == old(self).text(),
                whitespace_run_end(self.text(), self.at())
                    == whitespace_run_end(old(self).text(), old(self).at()),
            decreases self.text().len() - self.at(),
        {
            self.pos = self.pos + 1;
        }
    }

    /// Consume the maximal run of decimal digits at the read head.
    fn skip_digits(&mut self)
        requires
            old(self).wf(),
        ensures
            final(self).wf(),
            final(self).text() == old(self).text(),
            final(self).at() == digit_run_end(old(self).text(), old(self).at()),
    {
        while self.pos < self.input.len() && is_digit(self.input[self.pos])
            invariant
                self.wf(),
                self.text() == old(self).text(),
                digit_run_end(self.text(), self.at())
                    == digit_run_end(old(self).text(), old(self).at()),
            decreases self.text().len() - self.at(),
        {
            self.pos = self.pos + 1;
        }
    }

    /// Consume the maximal run of identifier characters at the read head.
    fn skip_ident_chars(&mut self)
        requires
            old(self).wf(),
        ensures
            final(self).wf(),
            final(self).text() == old(self).text(),
            final(self).at() == ident_run_end(old(self).text(), old(self).at()),
    {
        while self.pos < self.input.len() && is_ident_char(self.input[self.pos])
            invariant
                self.wf(),
                self.text() == old(self).text(),
                ident_run_end(self.text(), self.at())
                    == ident_run_end(old(self).text(), old(self).at()),
            decreases self.text().len() - self.at(),
        {
            self.pos = self.pos + 1;
        }
    }

    /// Consume the maximal run of hexadecimal digits at the read head.
    fn skip_hex_digits(&mut self)
        requires
            old(self).wf(),
        ensures
            final(self).wf(),
            final(self).text() == old(self).text(),
            final(self).at() == hex_run_end(old(self).text(), old(self).at()),
    {
        while self.pos < self.input.len() && is_hex_digit(self.input[self.pos])
            invariant
                self.wf(),
                self.text() == old(self).text(),
                hex_run_end(self.text(), self.at())
                    == hex_run_end(old(self).text(), old(self).at()),
            decreases self.text().len() - self.at(),
        {
            self.pos = self.pos + 1;
        }
    }

    /// Consume everything up to (not including) the next newline: the body
    /// of a line comment.
    fn skip_line(&mut self)
        requires
            old(self).wf(),
        ensures
            final(self).wf(),
            final(self).text() == old(self).text(),
            final(self).at() == line_run_end(old(self).text(), old(self).at()),
    {
        while self.pos < self.input.len() && self.input[self.pos] != '\n'
            invariant
                self.wf(),
                self.text() == old(self).text(),
                line_run_end(self.text(), self.at())
                    == line_run_end(old(self).text(), old(self).at()),
            decreases self.text().len() - self.at(),
        {
            self.pos = self.pos + 1;
        }
    }

    /// Consume everything up to (not including) the next `*`.
    fn skip_non_star(&mut self)
        requires
            old(self).wf(),
        ensures
            final(self).wf(),
            final(self).text() == old(self).text(),
            final(self).at() == non_star_run_end(old(self).text(), old(self).at()),
    {
        while self.pos < self.input.len() && self.input[self.pos] != '*'
            invariant
                self.wf(),
                self.text() == old(self).text(),
                non_star_run_end(self.text(), self.at())
                    == non_star_run_end(old(self).text(), old(self).at()),
            decreases self.text().len() - self.at(),
        {
            self.pos = self.pos + 1;
        }
    }

    /// Consume one logical character of a quoted literal, interpreting
    /// backslash escapes, given the kind of enclosing delimiter.  Returns
    /// whether a valid character was read; on failure the caller aborts
    /// the scan.
    fn read_literal_char(&mut self, in_string: bool) -> (ok: bool)
        requires
            old(self).wf(),
        ensures
            final(self).wf(),
            final(self).text() == old(self).text(),
            ok == (literal_char_end(old(self).text(), old(self).at(), in_string) is Some),
            ok ==> final(self).at()
                == literal_char_end(old(self).text(), old(self).at(), in_string)->Some_0,
    {
        let n = self.input.len();
        if self.pos >= n {
            return false;
        }
        let c = self.input[self.pos];
        if !in_string && (c == '\t' || c == '\r' || c == '\n' || c == '\'') {
            return false;
        }
        if c == '\r' {
            self.adv();
            if self.pos < n && self.input[self.pos] == '\n' {
                self.adv();
                return true;
            }
            return false;
        }
        if c == '\\' {
            self.adv();
            if self.pos >= n {
                return false;
            }
            let e = self.input[self.pos];
            if e == 'n' || e == 'r' || e == 't' || e == '\\' || e == '\'' || e == '"' || e == '0' {
                self.adv();
                return true;
            }
            if e == 'u' {
                self.adv();
                if self.pos < n && self.input[self.pos] == '{' {
                    self.adv();
                    self.skip_hex_digits();
                    if self.pos < n && self.input[self.pos] == '}' {
                        self.adv();
                        return true;
                    }
                }
                return false;
            }
            if e == 'x' {
                self.adv();
                if self.pos < n && is_hex_digit(self.input[self.pos]) {
                    self.adv();
                    if self.pos < n && is_hex_digit(self.input[self.pos]) {
                        self.adv();
                        return true;
                    }
                }
                return false;
            }
            if e == '\n' && in_string {
                self.adv();
                self.skip_whitespace();
                return true;
            }
            return false;
        }
        self.adv();
        true
    }

    /// Scan a string literal; the read head stands on the opening `"`.
    /// Logical characters are consumed one at a time until the closing
    /// quote; reaching the end of the input first is a fatal error.
    fn scan_string(&mut self) -> (r: Result<Token, LexError>)
        requires
            old(self).wf(),
            old(self).at() < old(self).text().len(),
            old(self).text()[old(self).at()] == '"',
        ensures
            final(self).wf(),
            final(self).text() == old(self).text(),
            match string_body_end(old(self).text(), old(self).at() + 1) {
                Ok(q) => r == Ok::<Token, LexError>(Token::LiteralStr) && final(self).at() == q,
                Err((k, e)) => r matches Err(le) && le.kind == k && le.pos as int == e,
            },
    {
        let ghost s = self.text();
        let ghost start = self.at();
        self.adv();
        loop
            invariant
                self.wf(),
                self.text() == s,
                s == old(self).text(),
                start == old(self).at(),
                string_body_end(s, self.at()) == string_body_end(s, start + 1),
            decreases s.len() - self.at(),
        {
            let n = self.input.len();
            if self.pos >= n {
                return Err(LexError { kind: LexErrorKind::UnterminatedString, pos: n });
            }
            if self.input[self.pos] == '"' {
                self.adv();
                return Ok(Token::LiteralStr);
            }
            let ghost before = self.at();
            let bad_at = self.pos;
            if !self.read_literal_char(true) {
                return Err(LexError { kind: LexErrorKind::InvalidChar, pos: bad_at });
            }
            proof {
                lemma_literal_char_end_gt(s, before, true);
            }
        }
    }

    /// Scan the token that begins with `/`: a compound assignment, a block
    /// or line comment, or the bare operator.  The read head stands on the
    /// slash.
    fn scan_slash(&mut self) -> (r: Result<Token, LexError>)
        requires
            old(self).wf(),
            old(self).at() < old(self).text().len(),
            old(self).text()[old(self).at()] == '/',
        ensures
            final(self).wf(),
            final(self).text() == old(self).text(),
            match scan_slash_at(old(self).text(), old(self).at()) {
                Step::Tok(t, q) => r == Ok::<Token, LexError>(t) && final(self).at() == q,
                Step::Fail(k, e) => r matches Err(le) && le.kind == k && le.pos as int == e,
                Step::Done => false,
            },
    {
        let ghost s = self.text();
        let ghost start = self.at();
        self.adv();
        let n = self.input.len();
        if self.pos < n && self.input[self.pos] == '=' {
            self.adv();
            return Ok(Token::BinaryOperatorAssignment(BinaryOperator::Slash));
        }
        if self.pos < n && self.input[self.pos] == '*' {
            self.adv();
            loop
                invariant
                    self.wf(),
                    self.text() == s,
                    s == old(self).text(),
                    start == old(self).at(),
                    start + 2 <= s.len(),
                    s[start] == '/',
                    s[start + 1] == '*',
                    block_comment_end(s, self.at()) == block_comment_end(s, start + 2),
                decreases s.len() - self.at(),
            {
                let n2 = self.input.len();
                let ghost before = self.at();
                self.skip_non_star();
                proof {
                    lemma_non_star_run_end(s, before);
                }
                if self.pos >= n2 {
                    return Err(LexError { kind: LexErrorKind::UnterminatedComment, pos: n2 });
                }
                self.adv();
                if self.pos < n2 && self.input[self.pos] == '/' {
                    self.adv();
                    return Ok(Token::Comment);
                }
            }
        }
        if self.pos < n && self.input[self.pos] == '/' {
            self.adv();
            self.skip_line();
            return Ok(Token::Comment);
        }
        Ok(Token::BinaryOperator(BinaryOperator::Slash))
    }

    /// Scan the token that begins with `'`: a lifetime marker or a char
    /// literal.  The read head stands on the quote.
    fn scan_quote(&mut self) -> (r: Result<Token, LexError>)
        requires
            old(self).wf(),
            old(self).at() < old(self).text().len(),
            old(self).text()[old(self).at()] == '\'',
        ensures
            final(self).wf(),
            final(self).text() == old(self).text(),
            match scan_quote_at(old(self).text(), old(self).at()) {
                Step::Tok(t, q) => r == Ok::<Token, LexError>(t) && final(self).at() == q,
                Step::Fail(k, e) => r matches Err(le) && le.kind == k && le.pos as int == e,
                Step::Done => false,
            },
    {
        let ghost s = self.text();
        self.adv();
        let n = self.input.len();
        if self.pos >= n {
            return Err(LexError { kind: LexErrorKind::EofAfterQuote, pos: n });
        }
        let c1 = self.input[self.pos];
        if is_ident_start(c1) {
            self.adv();
            if self.pos < n && self.input[self.pos] == '\'' {
                self.adv();
                return Ok(Token::LiteralChar);
            }
            if self.pos < n && is_ident_char(self.input[self.pos]) {
                self.skip_ident_chars();
                if self.pos < n && self.input[self.pos] == '\'' {
                    return Err(LexError { kind: LexErrorKind::CharTooLong, pos: self.pos });
                }
                return Ok(Token::IdentifierLifetime);
            }
            return Ok(Token::IdentifierLifetime);
        }
        if c1 == '\'' {
            return Err(LexError { kind: LexErrorKind::TwoQuotes, pos: self.pos });
        }
        let bad_at = self.pos;
        if !self.read_literal_char(false) {
            return Err(LexError { kind: LexErrorKind::InvalidChar, pos: bad_at });
        }
        if self.pos < n && self.input[self.pos] == '\'' {
            self.adv();
            return Ok(Token::LiteralChar);
        }
        Err(LexError { kind: LexErrorKind::UnclosedChar, pos: self.pos })
    }

    /// Retrieve the next token of the incoming source code, or `Ok(None)`
    /// once the input is exhausted, or the fatal error that `scan_at`
    /// assigns to the current position.  On success the read head has
    /// consumed exactly the token's span.
    pub fn next(&mut self) -> (r: Result<Option<Token>, LexError>)
        requires
            old(self).wf(),
        ensures
            final(self).wf(),
            final(self).text() == old(self).text(),
            match scan_at(old(self).text(), old(self).at()) {
                Step::Done => r == Ok::<Option<Token>, LexError>(None)
                    && final(self).at() == old(self).at(),
                Step::Tok(t, q) => r == Ok::<Option<Token>, LexError>(Some(t))
                    && final(self).at() == q,
                Step::Fail(k, e) => r matches Err(le) && le.kind == k && le.pos as int == e,
            },
    {
        let n = self.input.len();
        if self.pos >= n {
            return Ok(None);
        }
        let c = self.input[self.pos];
        if let Some(op) = char_to_binop(c) {
            self.adv();
            if self.pos < n && self.input[self.pos] == '=' {
                self.adv();
                return Ok(Some(Token::BinaryOperatorAssignment(op)));
            }
            return Ok(Some(Token::BinaryOperator(op)));
        }
        if is_digit(c) {
            self.skip_digits();
            return Ok(Some(Token::LiteralInt));
        }
        if is_ident_start(c) {
            self.skip_ident_chars();
            return Ok(Some(Token::Identifier));
        }
        if c == '/' {
            return match self.scan_slash() {
                Ok(t) => Ok(Some(t)),
                Err(e) => Err(e),
            };
        }
        if c == '-' {
            self.adv();
            if self.pos < n && self.input[self.pos] == '=' {
                self.adv();
                return Ok(Some(Token::BinaryOperatorAssignment(BinaryOperator::Minus)));
            }
            if self.pos < n && self.input[self.pos] == '>' {
                self.adv();
                return Ok(Some(Token::RightArrow));
            }
            return Ok(Some(Token::BinaryOperator(BinaryOperator::Minus)));
        }
        if c == ',' {
            self.adv();
            return Ok(Some(Token::Comma));
        }
        if c == ';' {
            self.adv();
            return Ok(Some(Token::Semicolon));
        }
        if c == '!' {
            self.adv();
            return Ok(Some(Token::Exclamation));
        }
        if c == '?' {
            self.adv();
            return Ok(Some(Token::Question));
        }
        if c == '$' {
            self.adv();
            return Ok(Some(Token::Dollar));
        }
        if c == '#' {
            self.adv();
            return Ok(Some(Token::Sharp));
        }
        if c == ':' {
            self.adv();
            if self.pos < n && self.input[self.pos] == ':' {
                self.adv();
                return Ok(Some(Token::DoubleColon));
            }
            return Ok(Some(Token::Colon));
        }
        if c == '.' {
            self.adv();
            if self.pos < n && self.input[self.pos] == '.' {
                self.adv();
                if self.pos < n && self.input[self.pos] == '.' {
                    self.adv();
                    return Ok(Some(Token::DotDotDot));
                }
                if self.pos < n && self.input[self.pos] == '=' {
                    self.adv();
                    return Ok(Some(Token::DotDotEq));
                }
                return Ok(Some(Token::DotDot));
            }
            return Ok(Some(Token::Dot));
        }
        if c == '\'' {
            return match self.scan_quote() {
                Ok(t) => Ok(Some(t)),
                Err(e) => Err(e),
            };
        }
        if c == '(' {
            self.adv();
            return Ok(Some(Token::Left(PairedToken::Parenthesis)));
        }
        if c == ')' {
            self.adv();
            return Ok(Some(Token::Right(PairedToken::Parenthesis)));
        }
        if c == '{' {
            self.adv();
            return Ok(Some(Token::Left(PairedToken::Brace)));
        }
        if c == '}' {
            self.adv();
            return Ok(Some(Token::Right(PairedToken::Brace)));
        }
        if c == '[' {
            self.adv();
            return Ok(Some(Token::Left(PairedToken::Bracket)));
        }
        if c == ']' {
            self.adv();
            return Ok(Some(Token::Right(PairedToken::Bracket)));
        }
        if c == '"' {
            return match self.scan_string() {
                Ok(t) => Ok(Some(t)),
                Err(e) => Err(e),
            };
        }
        if c == '<' {
            self.adv();
            if self.pos < n && self.input[self.pos] == '=' {
                self.adv();
                return Ok(Some(Token::LessEqual));
            }
            if self.pos < n && self.input[self.pos] == '-' {
                self.adv();
                return Ok(Some(Token::LeftArrow));
            }
            if self.pos < n && self.input[self.pos] == '<' {
                self.adv();
                if self.pos < n && self.input[self.pos] == '=' {
                    self.adv();
                    return Ok(Some(Token::BinaryOperatorAssignment(BinaryOperator::Shl)));
                }
                return Ok(Some(Token::BinaryOperator(BinaryOperator::Shl)));
            }
            return Ok(Some(Token::LessThan));
        }
        if c == '>' {
            self.adv();
            if self.pos < n && self.input[self.pos] == '=' {
                self.adv();
                return Ok(Some(Token::GreaterEqual));
            }
            if self.pos < n && self.input[self.pos] == '>' {
                self.adv();
                if self.pos < n && self.input[self.pos] == '=' {
                    self.adv();
                    return Ok(Some(Token::BinaryOperatorAssignment(BinaryOperator::Shr)));
                }
                return Ok(Some(Token::BinaryOperator(BinaryOperator::Shr)));
            }
            return Ok(Some(Token::GreaterThan));
        }
        if c == '=' {
            self.adv();
            if self.pos < n && self.input[self.pos] == '=' {
                self.adv();
                return Ok(Some(Token::DoubleEqual));
            }
            if self.pos < n && self.input[self.pos] == '>' {
                self.adv();
                return Ok(Some(Token::FatArrow));
            }
            return Ok(Some(Token::Equal));
        }
        if is_whitespace(c) {
            self.skip_whitespace();
            return Ok(Some(Token::Whitespace));
        }
        Err(LexError { kind: LexErrorKind::UnexpectedChar(c), pos: self.pos })
    }

    /// Collect every remaining token, stopping at the end of the input or
    /// at the first fatal error.
    fn lex_remaining(&mut self) -> (r: Result<Vec<Token>, LexError>)
        requires
            old(self).wf(),
        ensures
            final(self).wf(),
            final(self).text() == old(self).text(),
            match lex_from(old(self).text(), old(self).at()) {
                Ok(ls) => r matches Ok(v) && v@ == lexeme_tokens(ls),
                Err((k, e)) => r matches Err(le) && le.kind == k && le.pos as int == e,
            },
    {
        let mut out: Vec<Token> = Vec::new();
        proof {
            assert(out@ + lexeme_tokens(lex_from(self.text(), self.at())->Ok_0)
                =~= lexeme_tokens(lex_from(self.text(), self.at())->Ok_0));
        }
        loop
            invariant
                self.wf(),
                self.text() == old(self).text(),
                old(self).at() <= self.at(),
                match lex_from(self.text(), self.at()) {
                    Ok(rest) => lex_from(self.text(), old(self).at()) matches Ok(ls)
                        && lexeme_tokens(ls) == out@ + lexeme_tokens(rest),
                    Err(e) => lex_from(self.text(), old(self).at())
                        == Err::<Seq<Lexeme>, (LexErrorKind, int)>(e),
                },
            decreases self.text().len() - self.at(),
        {
            let ghost s = self.text();
            let ghost p = self.at();
            match self.next() {
                Ok(Some(t)) => {
                    proof {
                        lemma_scan_progress(s, p);
                    }
                    let ghost q = self.at();
                    let ghost out_before = out@;
                    out.push(t);
                    proof {
                        let lx = Lexeme { token: t, start: p, end: q };
                        if lex_from(s, q) is Ok {
                            let rest = lex_from(s, q)->Ok_0;
                            assert(lexeme_tokens(seq![lx] + rest)
                                =~= seq![t] + lexeme_tokens(rest));
                            assert(out_before + (seq![t] + lexeme_tokens(rest))
                                =~= out@ + lexeme_tokens(rest));
                        }
                    }
                }
                Ok(None) => {
                    proof {
                        if lex_from(s, p) is Ok {
                            assert(lexeme_tokens(Seq::<Lexeme>::empty())
                                =~= Seq::<Token>::empty());
                            assert(out@ + Seq::<Token>::empty() =~= out@);
                        }
                    }
                    return Ok(out);
                }
                Err(e) => {
                    return Err(e);
                }
            }
        }
    }
}

/// Tokenize a whole input: exactly the token sequence that the model
/// function `lex` assigns to it, or its fatal error.
pub fn tokenize(input: Vec<char>) -> (r: Result<Vec<Token>, LexError>)
    ensures
        match lex(input@) {
            Ok(ls) => r matches Ok(v) && v@ == lexeme_tokens(ls),
            Err((k, e)) => r matches Err(le) && le.kind == k && le.pos as int == e,
        },
{
    let mut tk = Tokenizer::new(input);
    tk.lex_remaining()
}

} // verus!
