use byte_scanner::aob::ida_pattern::{Pattern, PatternError};

#[test]
fn from_ida_pattern_works() {
    let pattern = Pattern::from_ida_pattern("12 34 ?? 78 9A").unwrap();

    assert_eq!(pattern.length, 5, "Indicated pattern length did not match up with input");
    assert_eq!(pattern.mask.len(), 5, "Length on the mask did not match up with input");
    assert_eq!(pattern.bytes.len(), 5, "Length on the matching bytes did not match up with input");

    assert_eq!(pattern.bytes[0], 0x12);
    assert_eq!(pattern.bytes[1], 0x34);
    assert_eq!(pattern.bytes[2], 0x00);
    assert_eq!(pattern.bytes[3], 0x78);
    assert_eq!(pattern.bytes[4], 0x9A);

    assert_eq!(pattern.mask[0], true);
    assert_eq!(pattern.mask[1], true);
    assert_eq!(pattern.mask[2], false);
    assert_eq!(pattern.mask[3], true);
    assert_eq!(pattern.mask[4], true);
}

#[test]
fn from_ida_pattern_returns_error_on_invalid_hex_value() {
    let result = Pattern::from_ida_pattern("XX 34 ?? 78 9A");

    assert!(matches!(result.unwrap_err(), PatternError::ParseError { .. }));
}

#[test]
fn from_ida_pattern_returns_error_on_empty_pattern() {
    let result = Pattern::from_ida_pattern("");

    assert!(matches!(result.unwrap_err(), PatternError::NoMatchableBytesError));
}

#[test]
fn from_ida_pattern_returns_error_on_all_wildcard_pattern() {
    let result = Pattern::from_ida_pattern("?? ?? ?? ??");

    assert!(matches!(result.unwrap_err(), PatternError::NoMatchableBytesError));
}
