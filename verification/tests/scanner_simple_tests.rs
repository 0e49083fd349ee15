use byte_scanner::pattern::Pattern;
use byte_scanner::scanner::simple;

fn synthetic_buffer() -> Vec<u8> {
    // A large buffer shaped like the binary images the scanner is run over:
    // zero-filled, with the probed byte sequences planted at known offsets.
    let mut buf = vec![0u8; 1_400_000];
    let first = [0x75, 0x84, 0x4A, 0xEF, 0x23, 0x24, 0xCA, 0x35];
    for (i, b) in first.iter().enumerate() {
        buf[1309924 + i] = *b;
    }
    let second = [0xB7, 0xC6, 0xCF, 0xD8, 0x11, 0x0A, 0x42, 0x27];
    for (i, b) in second.iter().enumerate() {
        buf[867776 + i] = *b;
    }
    buf
}

#[test]
fn simple_scanner_behaves_with_empty_slice() {
    let pattern = Pattern::from_byte_slice(&[0xAA, 0xAA, 0xAA, 0xAA, 0xAA]);
    let slice: Vec<u8> = vec![];
    let result = simple::scan(&slice, &pattern);

    assert_eq!(result, None);
}

#[test]
fn simple_scanner_behaves_with_too_long_of_a_pattern() {
    let pattern = Pattern::from_byte_slice(&[0xAA, 0xAA, 0xAA, 0xAA, 0xAA]);
    let slice = [0x00, 0x00, 0x00, 0x00];
    let result = simple::scan(&slice, &pattern);

    assert_eq!(result, None);
}

#[test]
fn simple_scanner_finds_the_pattern_1() {
    let pattern = Pattern::from_byte_slice(&[0x75, 0x84, 0x4A, 0xEF, 0x23, 0x24, 0xCA, 0x35]);
    let randomness = synthetic_buffer();
    let result = simple::scan(&randomness, &pattern).unwrap();

    assert_eq!(result.location, 1309924);
    assert_eq!(result.captures.len(), 0);
}

#[test]
fn simple_scanner_finds_the_pattern_2() {
    let pattern = Pattern::from_byte_pattern("B7 [?? CF D8 ??] 0A ?? 27").unwrap();
    let randomness = synthetic_buffer();
    let result = simple::scan(&randomness, &pattern).unwrap();

    assert_eq!(result.location, 867776);
    assert_eq!(result.captures.len(), 1);

    assert_eq!(result.captures[0].location, 867777);
    assert_eq!(result.captures[0].bytes, vec![0xc6, 0xcf, 0xd8, 0x11]);
}

#[test]
fn simple_scanner_doesnt_find_the_pattern() {
    let pattern = Pattern::from_byte_slice(&[0xFF, 0xFF, 0xFF, 0xFF, 0xFF, 0xFF, 0xFF, 0xFF]);
    let randomness = synthetic_buffer();
    let result = simple::scan(&randomness, &pattern);

    assert_eq!(result, None);
}

#[test]
fn simple_scanner_can_scan_all() {
    let pattern = Pattern::from_byte_slice(&[0x09, 0x02]);
    let mut randomness = synthetic_buffer();
    for i in 0..35 {
        randomness[1000 + i * 30000] = 0x09;
        randomness[1001 + i * 30000] = 0x02;
    }
    let result = simple::scan_all(&randomness, &pattern);

    assert_eq!(result.len(), 35);
}

#[test]
fn simple_scanner_finds_the_leftmost_match() {
    // A naive matcher that resets its counter on a mismatch misses the
    // match at offset 1; the leftmost-match contract forbids that.
    let pattern = Pattern::from_byte_pattern("AA AA AB").unwrap();
    let buffer = [0xAA, 0xAA, 0xAA, 0xAB];
    let result = simple::scan(&buffer, &pattern).unwrap();

    assert_eq!(result.location, 1);
}

#[test]
fn simple_scanner_round_trips_exact_bytes() {
    let raw = [0xDE, 0xAD, 0xBE, 0xEF];
    let pattern = Pattern::from_byte_slice(&raw);
    let result = simple::scan(&raw, &pattern).unwrap();

    assert_eq!(result.location, 0);
    assert_eq!(result.captures.len(), 0);
}

#[test]
fn simple_scanner_extracts_captures_at_an_offset() {
    // The capture's location is the match offset plus the group start.
    let pattern = Pattern::from_byte_pattern("B7 [?? CF D8 ??] 0A ?? 27").unwrap();
    let mut buffer = vec![0u8; 64];
    let placed = [0xB7, 0x01, 0xCF, 0xD8, 0x02, 0x0A, 0x03, 0x27];
    let k = 17;
    for (i, b) in placed.iter().enumerate() {
        buffer[k + i] = *b;
    }
    let result = simple::scan(&buffer, &pattern).unwrap();

    assert_eq!(result.location, k);
    assert_eq!(result.captures.len(), 1);
    assert_eq!(result.captures[0].location, k + 1);
    assert_eq!(result.captures[0].bytes, vec![0x01, 0xCF, 0xD8, 0x02]);
}

#[test]
fn simple_scanner_matches_bit_level_masks() {
    // m10101?1? pins six bits: value 0xAA under mask 0xFA.
    let pattern = Pattern::from_byte_pattern("m10101?1?").unwrap();
    let hit = [0xAEu8];
    let miss = [0x2Au8];

    assert_eq!(simple::scan(&hit, &pattern).unwrap().location, 0);
    assert_eq!(simple::scan(&miss, &pattern), None);
}

#[test]
fn scan_all_results_never_overlap() {
    let pattern = Pattern::from_byte_pattern("AA AA").unwrap();
    let buffer = [0xAA, 0xAA, 0xAA, 0xAA, 0xAA];
    let results = simple::scan_all(&buffer, &pattern);

    assert_eq!(results.len(), 2);
    assert_eq!(results[0].location, 0);
    assert_eq!(results[1].location, 2);
}
