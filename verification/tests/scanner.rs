use lexer::{Token, LexError, LexErrorKind, Tokenizer};
use lexer::Token::{Left, Right, Whitespace, Comment, Equal, Comma, Semicolon, Exclamation,
    Question, Dollar, Sharp, Colon, DoubleColon, Dot, DotDot, DotDotDot, DotDotEq, LeftArrow,
    RightArrow, FatArrow, BinaryOperator, BinaryOperatorAssignment, DoubleEqual, LessThan,
    LessEqual, GreaterThan, GreaterEqual, LiteralInt, LiteralStr, LiteralChar, Identifier,
    IdentifierLifetime};
use lexer::BinaryOperator::{Plus, Minus, Star, Slash, Percent, Caret, And, Or, Shl, Shr};
use lexer::PairedToken::{Parenthesis, Bracket, Brace};

fn lex_result(input: &str) -> Result<Vec<Token>, LexError> {
    lexer::tokenize(input.chars().collect())
}

fn lex_tokens(input: &str) -> Vec<Token> {
    lex_result(input).expect("tokenization failed")
}

fn lex_error(input: &str) -> LexError {
    lex_result(input).expect_err("tokenization unexpectedly succeeded")
}

#[test]
fn empty_input_gives_no_tokens() {
    assert_eq!(lex_tokens(""), Vec::<Token>::new());
}

#[test]
fn integer_plus_integer() {
    assert_eq!(
        lex_tokens("255+1488"),
        vec![LiteralInt, BinaryOperator(Plus), LiteralInt]
    );
}

#[test]
fn comparison_and_shift_assignment_chain() {
    assert_eq!(
        lex_tokens("<>=<<=1"),
        vec![LessThan, GreaterEqual, BinaryOperatorAssignment(Shl), LiteralInt]
    );
}

#[test]
fn block_comment_between_operands() {
    assert_eq!(
        lex_tokens("2+/* block comment */3"),
        vec![LiteralInt, BinaryOperator(Plus), Comment, LiteralInt]
    );
}

#[test]
fn line_comment_excludes_newline() {
    assert_eq!(
        lex_tokens("2+2//note\n3"),
        vec![
            LiteralInt,
            BinaryOperator(Plus),
            LiteralInt,
            Comment,
            Whitespace,
            LiteralInt,
        ]
    );
}

#[test]
fn every_operator_assignment_is_one_token() {
    let cases: Vec<(&str, lexer::BinaryOperator)> = vec![
        ("+=", Plus),
        ("-=", Minus),
        ("*=", Star),
        ("/=", Slash),
        ("%=", Percent),
        ("^=", Caret),
        ("&=", And),
        ("|=", Or),
        ("<<=", Shl),
        (">>=", Shr),
    ];
    for (input, op) in &cases {
        assert_eq!(lex_tokens(input), vec![BinaryOperatorAssignment(*op)]);
    }
}

#[test]
fn retokenized_span_is_one_token() {
    assert_eq!(lex_tokens("<<="), vec![BinaryOperatorAssignment(Shl)]);
}

#[test]
fn lifetime_without_quote() {
    assert_eq!(lex_tokens("'a"), vec![IdentifierLifetime]);
}

#[test]
fn one_letter_char_literal() {
    assert_eq!(lex_tokens("'a'"), vec![LiteralChar]);
}

#[test]
fn escaped_char_literal() {
    assert_eq!(lex_tokens("'\\n'"), vec![LiteralChar]);
}

#[test]
fn two_quotes_in_a_row_fail() {
    let err = lex_error("''");
    assert_eq!(err.kind, LexErrorKind::TwoQuotes);
    assert_eq!(err.pos, 1);
}

#[test]
fn multi_codepoint_char_literal_fails() {
    let err = lex_error("'ab'");
    assert_eq!(err.kind, LexErrorKind::CharTooLong);
    assert_eq!(err.pos, 3);
}

#[test]
fn eof_after_opening_quote_fails() {
    let err = lex_error("'");
    assert_eq!(err.kind, LexErrorKind::EofAfterQuote);
    assert_eq!(err.pos, 1);
}

#[test]
fn raw_tab_in_char_literal_fails() {
    let err = lex_error("'\t'");
    assert_eq!(err.kind, LexErrorKind::InvalidChar);
    assert_eq!(err.pos, 1);
}

#[test]
fn unknown_escape_fails() {
    let err = lex_error("'\\q'");
    assert_eq!(err.kind, LexErrorKind::InvalidChar);
    assert_eq!(err.pos, 1);
}

#[test]
fn unclosed_char_literal_fails() {
    let err = lex_error("'+");
    assert_eq!(err.kind, LexErrorKind::UnclosedChar);
    assert_eq!(err.pos, 2);
}

#[test]
fn lifetime_then_more_tokens() {
    assert_eq!(
        lex_tokens("'a+1"),
        vec![IdentifierLifetime, BinaryOperator(Plus), LiteralInt]
    );
}

#[test]
fn space_char_literal() {
    assert_eq!(lex_tokens("' '"), vec![LiteralChar]);
}

#[test]
fn unexpected_character_is_fatal() {
    let err = lex_error("@");
    assert_eq!(err.kind, LexErrorKind::UnexpectedChar('@'));
    assert_eq!(err.pos, 0);
}

#[test]
fn unexpected_character_reports_position() {
    let err = lex_error("2+`");
    assert_eq!(err.kind, LexErrorKind::UnexpectedChar('`'));
    assert_eq!(err.pos, 2);
}

#[test]
fn unterminated_string_fails() {
    let err = lex_error("\"abc");
    assert_eq!(err.kind, LexErrorKind::UnterminatedString);
    assert_eq!(err.pos, 4);
}

#[test]
fn unterminated_block_comment_fails() {
    let err = lex_error("/*abc");
    assert_eq!(err.kind, LexErrorKind::UnterminatedComment);
    assert_eq!(err.pos, 5);
}

#[test]
fn whitespace_run_is_one_token() {
    assert_eq!(lex_tokens(" \t\r\n "), vec![Whitespace]);
}

#[test]
fn adjacent_block_comments_stay_separate() {
    assert_eq!(lex_tokens("/*a*//*b*/"), vec![Comment, Comment]);
}

#[test]
fn line_comments_separated_by_newline() {
    assert_eq!(lex_tokens("//a\n//b"), vec![Comment, Whitespace, Comment]);
}

#[test]
fn empty_and_starred_block_comments() {
    assert_eq!(lex_tokens("/**/"), vec![Comment]);
    assert_eq!(lex_tokens("/***/"), vec![Comment]);
}

#[test]
fn arrows_and_fat_arrow() {
    assert_eq!(lex_tokens("->"), vec![RightArrow]);
    assert_eq!(lex_tokens("<-"), vec![LeftArrow]);
    assert_eq!(lex_tokens("=>"), vec![FatArrow]);
}

#[test]
fn dot_family() {
    assert_eq!(lex_tokens("."), vec![Dot]);
    assert_eq!(lex_tokens(".."), vec![DotDot]);
    assert_eq!(lex_tokens("..."), vec![DotDotDot]);
    assert_eq!(lex_tokens("..="), vec![DotDotEq]);
    assert_eq!(lex_tokens(".="), vec![Dot, Equal]);
}

#[test]
fn colon_family() {
    assert_eq!(lex_tokens(":"), vec![Colon]);
    assert_eq!(lex_tokens("::"), vec![DoubleColon]);
}

#[test]
fn comparison_family() {
    assert_eq!(lex_tokens("<"), vec![LessThan]);
    assert_eq!(lex_tokens("<="), vec![LessEqual]);
    assert_eq!(lex_tokens(">"), vec![GreaterThan]);
    assert_eq!(lex_tokens(">="), vec![GreaterEqual]);
    assert_eq!(lex_tokens("="), vec![Equal]);
    assert_eq!(lex_tokens("=="), vec![DoubleEqual]);
    assert_eq!(lex_tokens("<<"), vec![BinaryOperator(Shl)]);
    assert_eq!(lex_tokens(">>"), vec![BinaryOperator(Shr)]);
}

#[test]
fn structural_punctuation() {
    assert_eq!(
        lex_tokens(",;!?$#"),
        vec![Comma, Semicolon, Exclamation, Question, Dollar, Sharp]
    );
}

#[test]
fn paired_delimiters() {
    assert_eq!(
        lex_tokens("({[]})"),
        vec![
            Left(Parenthesis),
            Left(Brace),
            Left(Bracket),
            Right(Bracket),
            Right(Brace),
            Right(Parenthesis),
        ]
    );
}

#[test]
fn digits_then_identifier() {
    assert_eq!(lex_tokens("123abc"), vec![LiteralInt, Identifier]);
}

#[test]
fn string_escapes() {
    assert_eq!(lex_tokens("\"a\\u{1F600}b\""), vec![LiteralStr]);
    assert_eq!(lex_tokens("\"a\\x4F\""), vec![LiteralStr]);
    assert_eq!(lex_tokens("\"a\\\"b\""), vec![LiteralStr]);
    assert_eq!(lex_tokens("\"a\r\nb\""), vec![LiteralStr]);
}

#[test]
fn string_line_continuation() {
    assert_eq!(lex_tokens("\"a\\\n   b\""), vec![LiteralStr]);
}

#[test]
fn bare_carriage_return_in_string_fails() {
    let err = lex_error("\"a\rb\"");
    assert_eq!(err.kind, LexErrorKind::InvalidChar);
    assert_eq!(err.pos, 2);
}

#[test]
fn hex_and_unicode_char_escapes() {
    assert_eq!(lex_tokens("'\\x41'"), vec![LiteralChar]);
    assert_eq!(lex_tokens("'\\u{7FFF}'"), vec![LiteralChar]);
}

#[test]
fn tokenizer_cursor_interface() {
    let mut tk = Tokenizer::new("a+1".chars().collect());
    assert_eq!(tk.position(), 0);
    assert_eq!(tk.current(), Some('a'));
    assert_eq!(tk.next(), Ok(Some(Identifier)));
    assert_eq!(tk.position(), 1);
    assert_eq!(tk.current(), Some('+'));
    assert_eq!(tk.next(), Ok(Some(BinaryOperator(Plus))));
    assert_eq!(tk.next(), Ok(Some(LiteralInt)));
    assert_eq!(tk.position(), 3);
    assert_eq!(tk.current(), None);
    assert_eq!(tk.next(), Ok(None));
    assert_eq!(tk.position(), 3);
}

#[test]
fn error_stops_at_first_failure() {
    let err = lex_error("let x = 3 ~ 4;");
    assert_eq!(err.kind, LexErrorKind::UnexpectedChar('~'));
    assert_eq!(err.pos, 10);
}
