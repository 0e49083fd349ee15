use byte_scanner::pattern::parser::ParserError;
use byte_scanner::pattern::Pattern;

#[test]
fn byte_pattern_works() {
    let pattern = Pattern::from_byte_pattern("12 [34 ??] 78 [9A]").unwrap();

    assert_eq!(pattern.length, 5, "Indicated pattern length did not match up with input");
    assert_eq!(pattern.mask.len(), 5, "Length on the mask did not match up with input");
    assert_eq!(pattern.bytes.len(), 5, "Length on the matching bytes did not match up with input");

    let mut byte_iter = pattern.bytes.iter();
    assert_eq!(byte_iter.next(), Some(&0x12));
    assert_eq!(byte_iter.next(), Some(&0x34));
    assert_eq!(byte_iter.next(), Some(&0x00));
    assert_eq!(byte_iter.next(), Some(&0x78));
    assert_eq!(byte_iter.next(), Some(&0x9A));
    assert_eq!(byte_iter.next(), None);

    let mut mask_iter = pattern.mask.iter();
    assert_eq!(mask_iter.next(), Some(&0xFF));
    assert_eq!(mask_iter.next(), Some(&0xFF));
    assert_eq!(mask_iter.next(), Some(&0x00));
    assert_eq!(mask_iter.next(), Some(&0xFF));
    assert_eq!(mask_iter.next(), Some(&0xFF));
    assert_eq!(mask_iter.next(), None);

    assert_eq!(pattern.capture_groups.len(), 2);
    assert_eq!(pattern.capture_groups[0].start, 1);
    assert_eq!(pattern.capture_groups[0].end, 3);
    assert_eq!(pattern.capture_groups[1].start, 4);
    assert_eq!(pattern.capture_groups[1].end, 5);
}

#[test]
fn bit_pattern_works() {
    let pattern = Pattern::from_bit_pattern("00010010 [00110100 ........] 01111000 [10011010]")
        .unwrap();

    assert_eq!(pattern.length, 5, "Indicated pattern length did not match up with input");
    assert_eq!(pattern.mask.len(), 5, "Length on the mask did not match up with input");
    assert_eq!(pattern.bytes.len(), 5, "Length on the matching bytes did not match up with input");

    let mut byte_iter = pattern.bytes.iter();
    assert_eq!(byte_iter.next(), Some(&0x12));
    assert_eq!(byte_iter.next(), Some(&0x34));
    assert_eq!(byte_iter.next(), Some(&0x00));
    assert_eq!(byte_iter.next(), Some(&0x78));
    assert_eq!(byte_iter.next(), Some(&0x9A));
    assert_eq!(byte_iter.next(), None);

    let mut mask_iter = pattern.mask.iter();
    assert_eq!(mask_iter.next(), Some(&0xFF));
    assert_eq!(mask_iter.next(), Some(&0xFF));
    assert_eq!(mask_iter.next(), Some(&0x00));
    assert_eq!(mask_iter.next(), Some(&0xFF));
    assert_eq!(mask_iter.next(), Some(&0xFF));
    assert_eq!(mask_iter.next(), None);

    assert_eq!(pattern.capture_groups.len(), 2);
    assert_eq!(pattern.capture_groups[0].start, 1);
    assert_eq!(pattern.capture_groups[0].end, 3);
    assert_eq!(pattern.capture_groups[1].start, 4);
    assert_eq!(pattern.capture_groups[1].end, 5);
}

#[test]
fn byte_pattern_returns_error_on_invalid_hex_value() {
    let result = Pattern::from_byte_pattern("XX 34 ?? 78 9A");

    assert!(matches!(result.unwrap_err(), ParserError::Tokenizer { .. }));
}

#[test]
fn byte_pattern_returns_error_on_already_opened_capture_group() {
    let result = Pattern::from_byte_pattern("12[34[56]");

    assert!(matches!(result.unwrap_err(), ParserError::CaptureGroupAlreadyOpened));
}

#[test]
fn byte_pattern_returns_error_on_not_yet_opened_capture_group() {
    let result = Pattern::from_byte_pattern("12]34[56]");

    assert!(matches!(result.unwrap_err(), ParserError::CaptureGroupNotOpened));
}

#[test]
fn bit_pattern_returns_error_on_invalid_bit_value() {
    let result = Pattern::from_bit_pattern("00000002 00000000");

    assert!(matches!(result.unwrap_err(), ParserError::Tokenizer { .. }));
}

#[test]
fn bit_pattern_returns_error_on_already_opened_capture_group() {
    let result = Pattern::from_bit_pattern("00000000 [[00000000]");

    assert!(matches!(result.unwrap_err(), ParserError::CaptureGroupAlreadyOpened));
}

#[test]
fn bit_pattern_returns_error_on_not_yet_opened_capture_group() {
    let result = Pattern::from_bit_pattern("00000000] [00000000]");

    assert!(matches!(result.unwrap_err(), ParserError::CaptureGroupNotOpened));
}

#[test]
fn byte_pattern_returns_error_on_unclosed_capture_group() {
    let result = Pattern::from_byte_pattern("12[34");

    assert!(matches!(result.unwrap_err(), ParserError::CaptureGroupNotClosed));
}

#[test]
fn byte_pattern_rejects_an_all_wildcard_pattern() {
    let result = Pattern::from_byte_pattern("?? ?? ??");

    assert!(matches!(result.unwrap_err(), ParserError::NoMatchableBits));
}

#[test]
fn byte_pattern_reports_incomplete_bytes() {
    let result = Pattern::from_byte_pattern("12 3");

    assert!(matches!(
        result.unwrap_err(),
        ParserError::Tokenizer(byte_scanner::pattern::tokenizer::TokenizationError::IncompleteByte)
    ));
}

#[test]
fn wildcard_width_matches_the_token_count() {
    let pattern = Pattern::from_byte_pattern("12 34 ?? 78 9A").unwrap();

    assert_eq!(pattern.length, 5);
    assert_eq!(pattern.bytes, vec![0x12, 0x34, 0x00, 0x78, 0x9A]);
    assert_eq!(pattern.mask, vec![0xFF, 0xFF, 0x00, 0xFF, 0xFF]);
    assert_eq!(pattern.capture_groups.len(), 0);
}
