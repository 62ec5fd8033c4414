use lexer::Token;
use lexer::Token::{Left, Right, Whitespace, Comment, Equal, Comma, Semicolon, Exclamation,
    DoubleColon, Dot, BinaryOperator, BinaryOperatorAssignment, DoubleEqual, LessThan,
    GreaterEqual, LiteralInt, LiteralStr, Identifier, IdentifierLifetime};
use lexer::BinaryOperator::{Plus, Minus, Star, Percent, Caret, And, Or, Shl, Shr};
use lexer::PairedToken::{Parenthesis, Bracket, Brace};

fn tokenize(input: &str) -> Vec<Token> {
    lexer::tokenize(input.chars().collect()).expect("tokenization failed")
}

#[test]
fn test_custom_positive() {
    let tests: Vec<(&str, Vec<Token>)> = vec![
        ("255+1488", vec![LiteralInt, BinaryOperator(Plus), LiteralInt]),
        (
            "<>=<<=1",
            vec![
                LessThan,
                GreaterEqual,
                BinaryOperatorAssignment(Shl),
                LiteralInt,
            ],
        ),
        (
            "\"This is a bucket!\"+\"Dear\\ngod\"",
            vec![LiteralStr, BinaryOperator(Plus), LiteralStr],
        ),
        (
            "- = -====",
            vec![
                BinaryOperator(Minus),
                Whitespace,
                Equal,
                Whitespace,
                BinaryOperatorAssignment(Minus),
                DoubleEqual,
                Equal,
            ],
        ),
        (
            "2+2//сложение чисел\n3+=3",
            vec![
                LiteralInt,
                BinaryOperator(Plus),
                LiteralInt,
                Comment,
                Whitespace,
                LiteralInt,
                BinaryOperatorAssignment(Plus),
                LiteralInt,
            ],
        ),
        (
            "2+/* block comment */3",
            vec![LiteralInt, BinaryOperator(Plus), Comment, LiteralInt],
        ),
        (
            "struct TestCase(&'static str, &'static [Token]);",
            vec![
                Identifier,
                Whitespace,
                Identifier,
                Left(Parenthesis),
                BinaryOperator(And),
                IdentifierLifetime,
                Whitespace,
                Identifier,
                Comma,
                Whitespace,
                BinaryOperator(And),
                IdentifierLifetime,
                Whitespace,
                Left(Bracket),
                Identifier,
                Right(Bracket),
                Right(Parenthesis),
                Semicolon,
            ],
        ),
        (
            "  let mut a = 3;",
            vec![
                Whitespace,
                Identifier,
                Whitespace,
                Identifier,
                Whitespace,
                Identifier,
                Whitespace,
                Equal,
                Whitespace,
                LiteralInt,
                Semicolon,
            ],
        ),
        (
            "let mut vec = Vec::new(   );",
            vec![
                Identifier,
                Whitespace,
                Identifier,
                Whitespace,
                Identifier,
                Whitespace,
                Equal,
                Whitespace,
                Identifier,
                DoubleColon,
                Identifier,
                Left(Parenthesis),
                Whitespace,
                Right(Parenthesis),
                Semicolon,
            ],
        ),
        (
            "let vec = vec![0; 5];\n
                while let Some(top) = stack.pop() {\n// Prints 3, 2, 1\n
                println!(\"{}\", top);\n
                }",
            vec![
                Identifier,
                Whitespace,
                Identifier,
                Whitespace,
                Equal,
                Whitespace,
                Identifier,
                Exclamation,
                Left(Bracket),
                LiteralInt,
                Semicolon,
                Whitespace,
                LiteralInt,
                Right(Bracket),
                Semicolon,
                Whitespace,
                Identifier,
                Whitespace,
                Identifier,
                Whitespace,
                Identifier,
                Left(Parenthesis),
                Identifier,
                Right(Parenthesis),
                Whitespace,
                Equal,
                Whitespace,
                Identifier,
                Dot,
                Identifier,
                Left(Parenthesis),
                Right(Parenthesis),
                Whitespace,
                Left(Brace),
                Whitespace,
                Comment,
                Whitespace,
                Identifier,
                Exclamation,
                Left(Parenthesis),
                LiteralStr,
                Comma,
                Whitespace,
                Identifier,
                Right(Parenthesis),
                Semicolon,
                Whitespace,
                Right(Brace),
            ],
        ),
        (
            "2-+6*7^311231;\n",
            vec![
                LiteralInt,
                BinaryOperator(Minus),
                BinaryOperator(Plus),
                LiteralInt,
                BinaryOperator(Star),
                LiteralInt,
                BinaryOperator(Caret),
                LiteralInt,
                Semicolon,
                Whitespace,
            ],
        ),
        (
            "a<<=(2|643);\n
        b>>=(234242&(2424234%0))",
            vec![
                Identifier,
                BinaryOperatorAssignment(Shl),
                Left(Parenthesis),
                LiteralInt,
                BinaryOperator(Or),
                LiteralInt,
                Right(Parenthesis),
                Semicolon,
                Whitespace,
                Identifier,
                BinaryOperatorAssignment(Shr),
                Left(Parenthesis),
                LiteralInt,
                BinaryOperator(And),
                Left(Parenthesis),
                LiteralInt,
                BinaryOperator(Percent),
                LiteralInt,
                Right(Parenthesis),
                Right(Parenthesis),
            ],
        ),
    ];
    for (input, output) in &tests {
        let tokens = tokenize(input);
        assert_eq!(tokens, *output);
        println!("Expression {} tokenized successfully!", input);
    }
}

#[test]
fn test_self() {
    // Tokenizing a sample of this library's own kind of source code must
    // run through without a fatal error.
    let source = "fn tokenize(input: &str) -> Vec<Token> {\n    Tokenizer::new(input.chars()).collect()\n}\n";
    let tokens = tokenize(source);
    println!("Tokenized into: {:?}", tokens);
}

#[test]
fn test_rustc() {
    // Tokenizing a sample in the style of a compiler test-suite program
    // must run through without a fatal error.
    let source = "// run-pass\nfn main() {\n    let mut stack = vec![1, 2, 3];\n    while let Some(top) = stack.pop() {\n        println!(\"{}\", top);\n    }\n}\n";
    let tokens = tokenize(source);
    println!("Tokenized into: {:?}", tokens);
}
