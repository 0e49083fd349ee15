use byte_scanner::pattern::tokenizer::{tokenize_byte_pattern, Token, TokenizationError};

#[test]
fn tokenize_works() {
    let mut tokens = tokenize_byte_pattern("00 [11 ?? ??] m10101?1? EF").unwrap().into_iter();

    assert_eq!(tokens.next(), Some(Token::ByteValue(0x00, 0xFF)));
    assert_eq!(tokens.next(), Some(Token::CaptureGroupOpen));
    assert_eq!(tokens.next(), Some(Token::ByteValue(0x11, 0xFF)));
    assert_eq!(tokens.next(), Some(Token::ByteValue(0x00, 0x00)));
    assert_eq!(tokens.next(), Some(Token::ByteValue(0x00, 0x00)));
    assert_eq!(tokens.next(), Some(Token::CaptureGroupClose));
    assert_eq!(tokens.next(), Some(Token::ByteValue(0xAA, 0xFA)));
    assert_eq!(tokens.next(), Some(Token::ByteValue(0xEF, 0xFF)));
    assert_eq!(tokens.next(), None);
}

#[test]
fn tokenize_reports_unknown_input() {
    let result = tokenize_byte_pattern("zz");
    assert!(matches!(result.unwrap_err(), TokenizationError::UnknownInput));
}

#[test]
fn tokenize_collapses_a_double_wildcard() {
    let tokens = tokenize_byte_pattern("?? ?").unwrap();
    assert_eq!(tokens, vec![Token::ByteValue(0x00, 0x00), Token::ByteValue(0x00, 0x00)]);
}
