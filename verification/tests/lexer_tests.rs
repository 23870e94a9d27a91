use equation::lexer::tokenize_stream;
use equation::token::{LexError, Token};

#[test]
fn tokenize_simple_sum() {
    let tokens = tokenize_stream("12+3").unwrap();
    assert_eq!(tokens, vec![Token::Literal(12), Token::Add, Token::Literal(3)]);
}

#[test]
fn tokenize_assignment() {
    let tokens = tokenize_stream("a=5").unwrap();
    assert_eq!(tokens, vec![Token::ID('a'), Token::Equal, Token::Literal(5)]);
}

#[test]
fn tokenize_lone_zero_is_dropped() {
    let tokens = tokenize_stream("0").unwrap();
    assert_eq!(tokens, vec![]);
}

#[test]
fn tokenize_zero_run_is_dropped() {
    let tokens = tokenize_stream("00").unwrap();
    assert_eq!(tokens, vec![]);
}

#[test]
fn tokenize_zero_before_operator_is_dropped() {
    let tokens = tokenize_stream("0+1").unwrap();
    assert_eq!(tokens, vec![Token::Add, Token::Literal(1)]);
}

#[test]
fn tokenize_leading_zeros_keep_value() {
    let tokens = tokenize_stream("007").unwrap();
    assert_eq!(tokens, vec![Token::Literal(7)]);
}

#[test]
fn tokenize_ignores_whitespace() {
    let tokens = tokenize_stream(" 1 \t+\n 2 \r").unwrap();
    assert_eq!(tokens, vec![Token::Literal(1), Token::Add, Token::Literal(2)]);
}

#[test]
fn tokenize_whitespace_does_not_flush_digits() {
    // Whitespace has no effect on the accumulator, so the digit run continues.
    let tokens = tokenize_stream("2 3").unwrap();
    assert_eq!(tokens, vec![Token::Literal(23)]);
}

#[test]
fn tokenize_all_operators() {
    let tokens = tokenize_stream("1+2-3*4/5=6").unwrap();
    assert_eq!(
        tokens,
        vec![
            Token::Literal(1),
            Token::Add,
            Token::Literal(2),
            Token::Sub,
            Token::Literal(3),
            Token::Mul,
            Token::Literal(4),
            Token::Div,
            Token::Literal(5),
            Token::Equal,
            Token::Literal(6),
        ]
    );
}

#[test]
fn tokenize_backslash_divides() {
    let tokens = tokenize_stream("8\\2").unwrap();
    assert_eq!(tokens, vec![Token::Literal(8), Token::Div, Token::Literal(2)]);
}

#[test]
fn tokenize_identifier_flushes_digits() {
    let tokens = tokenize_stream("12a").unwrap();
    assert_eq!(tokens, vec![Token::Literal(12), Token::ID('a')]);
}

#[test]
fn tokenize_unrecognized_character_becomes_identifier() {
    let tokens = tokenize_stream("(").unwrap();
    assert_eq!(tokens, vec![Token::ID('(')]);
}

#[test]
fn tokenize_flushes_at_end_of_input() {
    let tokens = tokenize_stream("45").unwrap();
    assert_eq!(tokens, vec![Token::Literal(45)]);
}

#[test]
fn tokenize_largest_literal() {
    let tokens = tokenize_stream("2147483647").unwrap();
    assert_eq!(tokens, vec![Token::Literal(2147483647)]);
}

#[test]
fn tokenize_overflowing_literal_fails() {
    assert_eq!(tokenize_stream("2147483648"), Err(LexError::LiteralTooLarge));
}

#[test]
fn tokenize_overflow_reported_even_mid_input() {
    assert_eq!(tokenize_stream("1+99999999999+1"), Err(LexError::LiteralTooLarge));
}
