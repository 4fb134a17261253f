use rustcompiler::phases::lexer::Token;
use rustcompiler::phases::lexer::lex;

#[test]
fn test_valid_identifier() {
    let input = "abc def ghi";
    let expected_tokens = vec![
        Token::Ident("abc".to_string()),
        Token::Ident("def".to_string()),
        Token::Ident("ghi".to_string()),
        Token::End,
    ];

    let result = lex(input);
    assert!(result.is_ok());
    assert_eq!(result.unwrap(), expected_tokens);
}

#[test]
fn test_invalid_identifier() {
    let input = "1abc";

    let result = lex(input);
    assert!(result.is_err());
}

#[test]
fn test_number_token() {
    let input = "123 456 789";
    let expected_tokens = vec![Token::Num(123), Token::Num(456), Token::Num(789), Token::End];

    let result = lex(input);
    assert!(result.is_ok());
    assert_eq!(result.unwrap(), expected_tokens);
}

#[test]
fn test_comment_ignoring() {
    let input = "var x # this is a comment\nvar y";
    let expected_tokens = vec![
        Token::Ident("var".to_string()),
        Token::Ident("x".to_string()),
        Token::Ident("var".to_string()),
        Token::Ident("y".to_string()),
        Token::End,
    ];

    let result = lex(input);
    assert!(result.is_ok());
    assert_eq!(result.unwrap(), expected_tokens);
}

#[test]
fn test_operator_tokens() {
    let input = "+ - * /";
    let expected_tokens =
        vec![Token::Plus, Token::Subtract, Token::Multiply, Token::Divide, Token::End];

    let result = lex(input);
    assert!(result.is_ok());
    assert_eq!(result.unwrap(), expected_tokens);
}

#[test]
fn test_symbol_tokens() {
    let input = "( ) { } [ ] , ;";
    let expected_tokens = vec![
        Token::LeftParen,
        Token::RightParen,
        Token::LeftCurly,
        Token::RightCurly,
        Token::LeftBracket,
        Token::RightBracket,
        Token::Comma,
        Token::Semicolon,
        Token::End,
    ];

    let result = lex(input);
    assert!(result.is_ok());
    assert_eq!(result.unwrap(), expected_tokens);
}

#[test]
fn test_multi_char_tokens() {
    let input = "< <= > >= == =";
    let expected_tokens = vec![
        Token::Less,
        Token::LessEqual,
        Token::Greater,
        Token::GreaterEqual,
        Token::Equality,
        Token::Assign,
        Token::End,
    ];

    let result = lex(input);
    assert!(result.is_ok());
    assert_eq!(result.unwrap(), expected_tokens);
}

#[test]
fn test_unrecognized_symbol() {
    let input = "&";

    let result = lex(input);
    assert!(result.is_err());
}

#[test]
fn test_empty_input() {
    let input = "";
    let expected_tokens = vec![Token::End];

    let result = lex(input);
    assert!(result.is_ok());
    assert_eq!(result.unwrap(), expected_tokens);
}

#[test]
fn test_invalid_token_with_digit() {
    let input = "123abc";

    let result = lex(input);
    assert!(result.is_err());
}

#[test]
fn test_mixed_case_keywords() {
    let input = "If WHILE Func";
    let expected_tokens = vec![
        Token::Ident("If".to_string()),
        Token::Ident("WHILE".to_string()),
        Token::Ident("Func".to_string()),
        Token::End,
    ];

    let result = lex(input);
    assert!(result.is_ok());
    assert_eq!(result.unwrap(), expected_tokens);
}

#[test]
fn test_reserved_words_as_identifiers() {
    let input = "iffunc returnbreak";
    let expected_tokens = vec![
        Token::Ident("iffunc".to_string()),
        Token::Ident("returnbreak".to_string()),
        Token::End,
    ];

    let result = lex(input);
    assert!(result.is_ok());
    assert_eq!(result.unwrap(), expected_tokens);
}

#[test]
fn test_single_character_identifier() {
    let input = "a b c";
    let expected_tokens = vec![
        Token::Ident("a".to_string()),
        Token::Ident("b".to_string()),
        Token::Ident("c".to_string()),
        Token::End,
    ];

    let result = lex(input);
    assert!(result.is_ok());
    assert_eq!(result.unwrap(), expected_tokens);
}

#[test]
fn test_numbers_with_leading_zeros() {
    let input = "00123";
    let expected_tokens = vec![Token::Num(123), Token::End];

    let result = lex(input);
    assert!(result.is_ok());
    assert_eq!(result.unwrap(), expected_tokens);
}

#[test]
fn test_adjacent_operators() {
    let input = "++--";
    let expected_tokens =
        vec![Token::Plus, Token::Plus, Token::Subtract, Token::Subtract, Token::End];

    let result = lex(input);
    assert!(result.is_ok());
    assert_eq!(result.unwrap(), expected_tokens);
}

#[test]
fn test_unexpected_symbols() {
    let input = "@";

    let result = lex(input);
    assert!(result.is_err());
}

#[test]
fn test_combination_of_tokens() {
    let input = "(if x <= 10)";
    let expected_tokens = vec![
        Token::LeftParen,
        Token::If,
        Token::Ident("x".to_string()),
        Token::LessEqual,
        Token::Num(10),
        Token::RightParen,
        Token::End,
    ];

    let result = lex(input);
    assert!(result.is_ok());
    assert_eq!(result.unwrap(), expected_tokens);
}

#[test]
fn test_multiple_spaces() {
    let input = "a    b c";
    let expected_tokens = vec![
        Token::Ident("a".to_string()),
        Token::Ident("b".to_string()),
        Token::Ident("c".to_string()),
        Token::End,
    ];

    let result = lex(input);
    assert!(result.is_ok());
    assert_eq!(result.unwrap(), expected_tokens);
}

#[test]
fn test_only_comments() {
    let input = "# this is a comment\n# another comment\n";
    let expected_tokens = vec![Token::End];

    let result = lex(input);
    assert!(result.is_ok());
    assert_eq!(result.unwrap(), expected_tokens);
}

#[test]
fn test_inline_comments() {
    let input = "x = 10 # setting x\nif x > 5 { print x }";
    let expected_tokens = vec![
        Token::Ident("x".to_string()),
        Token::Assign,
        Token::Num(10),
        Token::If,
        Token::Ident("x".to_string()),
        Token::Greater,
        Token::Num(5),
        Token::LeftCurly,
        Token::Print,
        Token::Ident("x".to_string()),
        Token::RightCurly,
        Token::End,
    ];

    let result = lex(input);
    assert!(result.is_ok());
    assert_eq!(result.unwrap(), expected_tokens);
}

#[test]
fn test_nested_multi_char_tokens() {
    let input = "<<==>>=";
    let expected_tokens = vec![
        Token::Less,
        Token::LessEqual,
        Token::Assign,
        Token::Greater,
        Token::GreaterEqual,
        Token::End,
    ];

    let result = lex(input);
    assert!(result.is_ok());
    assert_eq!(result.unwrap(), expected_tokens);
}

#[test]
fn test_invalid_number_with_underscore() {
    let input = "123_456";
    let result = lex(input);
    assert!(result.is_err());
}

#[test]
fn test_valid_variable_with_underscore() {
    let input = "my_variable";
    let expected_tokens = vec![Token::Ident("my_variable".to_string()), Token::End];

    let result = lex(input);
    assert!(result.is_ok());
    assert_eq!(result.unwrap(), expected_tokens);
}
