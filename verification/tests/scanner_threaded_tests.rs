use byte_scanner::pattern::Pattern;
use byte_scanner::scanner::{simple, threaded};

fn synthetic_buffer() -> Vec<u8> {
    let mut buf = vec![0u8; 1_400_000];
    let first = [0x75, 0x84, 0x4A, 0xEF, 0x23, 0x24, 0xCA, 0x35];
    for (i, b) in first.iter().enumerate() {
        buf[1309924 + i] = *b;
    }
    let second = [0xB7, 0xC6, 0xCF, 0xD8, 0x11, 0x0A, 0x42, 0x27];
    for (i, b) in second.iter().enumerate() {
        buf[867776 + i] = *b;
    }
    buf
}

#[test]
fn threaded_scanner_behaves_with_empty_slice() {
    let pattern = Pattern::from_byte_slice(&[0xAA, 0xAA, 0xAA, 0xAA, 0xAA]);
    let slice: Vec<u8> = vec![];
    let result = threaded::scan(&slice, &pattern, Some(4));

    assert_eq!(result, None);
}

#[test]
fn threaded_scanner_behaves_with_too_long_of_a_pattern() {
    let pattern = Pattern::from_byte_slice(&[0xAA, 0xAA, 0xAA, 0xAA, 0xAA]);
    let slice = [0x00, 0x00, 0x00, 0x00];
    let result = threaded::scan(&slice, &pattern, Some(4));

    assert_eq!(result, None);
}

#[test]
fn threaded_scanner_finds_the_pattern_1() {
    let pattern = Pattern::from_byte_slice(&[0x75, 0x84, 0x4A, 0xEF, 0x23, 0x24, 0xCA, 0x35]);
    let randomness = synthetic_buffer();
    let result = threaded::scan(&randomness, &pattern, Some(4)).unwrap();

    assert_eq!(result.location, 1309924);
    assert_eq!(result.captures.len(), 0);
}

#[test]
fn threaded_scanner_finds_the_pattern_2() {
    let pattern = Pattern::from_byte_pattern("B7 [?? CF D8 ??] 0A ?? 27").unwrap();
    let randomness = synthetic_buffer();
    let result = threaded::scan(&randomness, &pattern, Some(4)).unwrap();

    assert_eq!(result.location, 867776);
    assert_eq!(result.captures.len(), 1);
    assert_eq!(result.captures[0].location, 867777);
    assert_eq!(result.captures[0].bytes, vec![0xc6, 0xcf, 0xd8, 0x11]);
}

#[test]
fn threaded_scanner_doesnt_find_the_pattern() {
    let pattern = Pattern::from_byte_slice(&[0xFF, 0xFF, 0xFF, 0xFF, 0xFF, 0xFF, 0xFF, 0xFF]);
    let randomness = synthetic_buffer();
    let result = threaded::scan(&randomness, &pattern, Some(4));

    assert_eq!(result, None);
}

#[test]
fn threaded_scanner_can_scan_all() {
    let pattern = Pattern::from_byte_slice(&[0x09, 0x02]);
    let mut randomness = synthetic_buffer();
    for i in 0..35 {
        randomness[1000 + i * 30000] = 0x09;
        randomness[1001 + i * 30000] = 0x02;
    }
    let result = threaded::scan_all(&randomness, &pattern, Some(4));

    assert_eq!(result.len(), 35);
}

#[test]
fn chunked_find_first_agrees_with_sequential_for_every_region_count() {
    let pattern = Pattern::from_byte_pattern("B7 [?? CF D8 ??] 0A ?? 27").unwrap();
    let randomness = synthetic_buffer();
    let sequential = simple::scan(&randomness, &pattern);

    for thread_count in [1, 2, 4, 8] {
        let chunked = threaded::scan(&randomness, &pattern, Some(thread_count));
        assert_eq!(chunked, sequential);
    }
}

#[test]
fn chunked_find_all_agrees_with_sequential_for_every_region_count() {
    let pattern = Pattern::from_byte_slice(&[0x09, 0x02]);
    let mut randomness = synthetic_buffer();
    for i in 0..35 {
        randomness[1000 + i * 30000] = 0x09;
        randomness[1001 + i * 30000] = 0x02;
    }
    let sequential: Vec<usize> =
        simple::scan_all(&randomness, &pattern).iter().map(|r| r.location).collect();

    for thread_count in [1, 2, 4, 8] {
        let chunked: Vec<usize> = threaded::scan_all(&randomness, &pattern, Some(thread_count))
            .iter()
            .map(|r| r.location)
            .collect();
        assert_eq!(chunked, sequential);
    }
}
