use byte_scanner::aob::pattern::Pattern;
use byte_scanner::aob::scanner::simple::SimpleScanner;
use byte_scanner::aob::scanner::threaded::ThreadedScanner;

fn synthetic_buffer() -> Vec<u8> {
    let mut buf = vec![0u8; 1_400_000];
    let first = [0x75, 0x84, 0x4A, 0xEF, 0x23, 0x24, 0xCA, 0x35];
    for (i, b) in first.iter().enumerate() {
        buf[1309924 + i] = *b;
    }
    let second = [0xB7, 0xC6, 0xCF, 0xD8, 0x11, 0x0A, 0x42, 0x27];
    for (i, b) in second.iter().enumerate() {
        buf[867776 + i] = *b;
    }
    buf
}

#[test]
fn simple_simple_scanner_behaves_with_empty_slice() {
    let pattern = Pattern::from_byte_slice(&[0xAA, 0xAA, 0xAA, 0xAA, 0xAA]);
    let slice: Vec<u8> = vec![];
    let result = SimpleScanner::default().scan(&slice, &pattern);

    assert_eq!(result, None);
}

#[test]
fn simple_scanner_behaves_with_too_long_of_an_aob() {
    let pattern = Pattern::from_byte_slice(&[0xAA, 0xAA, 0xAA, 0xAA, 0xAA]);
    let slice = [0x00, 0x00, 0x00, 0x00];
    let result = SimpleScanner::default().scan(&slice, &pattern);

    assert_eq!(result, None);
}

#[test]
fn simple_simple_scanner_finds_the_pattern_1() {
    let pattern = Pattern::from_byte_slice(&[0x75, 0x84, 0x4A, 0xEF, 0x23, 0x24, 0xCA, 0x35]);
    let randomness = synthetic_buffer();
    let result = SimpleScanner::default().scan(&randomness, &pattern).unwrap();

    assert_eq!(result.location, 1309924);
    assert_eq!(result.captures.len(), 0);
}

#[test]
fn simple_simple_scanner_finds_the_pattern_2() {
    let pattern = Pattern::from("B7 [?? CF D8 ??] 0A ?? 27").unwrap();
    let randomness = synthetic_buffer();
    let result = SimpleScanner::default().scan(&randomness, &pattern).unwrap();

    assert_eq!(result.location, 867776);
    assert_eq!(result.captures.len(), 1);

    assert_eq!(result.captures[0], vec![0xc6, 0xcf, 0xd8, 0x11]);
}

#[test]
fn simple_scanner_group_finds_the_patterns() {
    let mut patterns = Vec::with_capacity(5);
    patterns.push(Pattern::from("75 84 4A EF 23 24 CA 35").unwrap());
    patterns.push(Pattern::from("B7 ?? CF D8 ?? 0A ?? 27").unwrap());
    let randomness = synthetic_buffer();
    let result = SimpleScanner::default().group_scan(&randomness, &mut patterns);

    let valid = vec![1309924, 867776];
    assert_eq!(result.len(), 2);
    assert!(valid.contains(&result[0].offset.unwrap()));
    assert!(valid.contains(&result[1].offset.unwrap()));
}

#[test]
fn simple_scanner_group_finds_the_patterns_except_one() {
    let mut patterns = Vec::with_capacity(5);
    patterns.push(Pattern::from("75 84 4A EF 23 24 CA 35").unwrap());
    patterns.push(Pattern::from("B7 ?? CF D8 ?? 0A ?? 27").unwrap());
    patterns.push(Pattern::from("AA BB CC DD EE FF 00 11").unwrap());
    let randomness = synthetic_buffer();
    let result = SimpleScanner::default().group_scan(&randomness, &mut patterns);

    let valid = vec![1309924, 867776];
    assert_eq!(result.len(), 2);
    assert!(valid.contains(&result[0].offset.unwrap()));
    assert!(valid.contains(&result[1].offset.unwrap()));
}

#[test]
fn simple_simple_scanner_doesnt_find_the_pattern() {
    let pattern = Pattern::from_byte_slice(&[0xFF, 0xFF, 0xFF, 0xFF, 0xFF, 0xFF, 0xFF, 0xFF]);
    let randomness = synthetic_buffer();
    let result = SimpleScanner::default().scan(&randomness, &pattern);

    assert_eq!(result, None);
}

#[test]
fn threaded_threaded_scanner_behaves_with_empty_slice() {
    let pattern = Pattern::from_byte_slice(&[0xAA, 0xAA, 0xAA, 0xAA, 0xAA]);
    let slice: Vec<u8> = vec![];
    let result = ThreadedScanner::new_with_thread_count(4).scan(&slice, &pattern);

    assert_eq!(result, None);
}

#[test]
fn threaded_scanner_behaves_with_too_long_of_an_aob() {
    let pattern = Pattern::from_byte_slice(&[0xAA, 0xAA, 0xAA, 0xAA, 0xAA]);
    let slice = [0x00, 0x00, 0x00, 0x00];
    let result = ThreadedScanner::new_with_thread_count(4).scan(&slice, &pattern);

    assert_eq!(result, None);
}

#[test]
fn threaded_threaded_scanner_finds_the_pattern_1() {
    let pattern = Pattern::from_byte_slice(&[0x75, 0x84, 0x4A, 0xEF, 0x23, 0x24, 0xCA, 0x35]);
    let randomness = synthetic_buffer();
    let result = ThreadedScanner::new_with_thread_count(4).scan(&randomness, &pattern).unwrap();

    assert_eq!(result.location, 1309924);
    assert_eq!(result.captures.len(), 0);
}

#[test]
fn threaded_threaded_scanner_finds_the_pattern_2() {
    let pattern = Pattern::from("B7 [?? CF D8 ??] 0A ?? 27").unwrap();
    let randomness = synthetic_buffer();
    let result = ThreadedScanner::new_with_thread_count(4).scan(&randomness, &pattern).unwrap();

    assert_eq!(result.location, 867776);
    assert_eq!(result.captures.len(), 1);
    assert_eq!(result.captures[0], vec![0xc6, 0xcf, 0xd8, 0x11]);
}

#[test]
fn threaded_scanner_group_finds_the_patterns() {
    let mut patterns = Vec::with_capacity(5);
    patterns.push(Pattern::from("75 84 4A EF 23 24 CA 35").unwrap());
    patterns.push(Pattern::from("B7 ?? CF D8 ?? 0A ?? 27").unwrap());
    let randomness = synthetic_buffer();
    let results = ThreadedScanner::new_with_thread_count(4).group_scan(&randomness, &patterns);

    let valid = vec![Some(1309924), Some(867776)];
    assert_eq!(results.len(), 2);
    for result in results {
        assert!(valid.contains(&result.offset))
    }
}

#[test]
fn threaded_scanner_group_finds_the_patterns_except_one() {
    let mut patterns = Vec::with_capacity(5);
    patterns.push(Pattern::from("75 84 4A EF 23 24 CA 35").unwrap());
    patterns.push(Pattern::from("B7 ?? CF D8 ?? 0A ?? 27").unwrap());
    patterns.push(Pattern::from("AA BB CC DD EE FF 00 11").unwrap());
    let randomness = synthetic_buffer();
    let results = ThreadedScanner::new_with_thread_count(4).group_scan(&randomness, &patterns);

    let valid = vec![Some(1309924), Some(867776)];
    assert_eq!(results.len(), 2);
    for result in results {
        assert!(valid.contains(&result.offset))
    }
}

#[test]
fn threaded_threaded_scanner_doesnt_find_the_pattern() {
    let pattern = Pattern::from_byte_slice(&[0xFF, 0xFF, 0xFF, 0xFF, 0xFF, 0xFF, 0xFF, 0xFF]);
    let randomness = synthetic_buffer();
    let result = ThreadedScanner::new_with_thread_count(4).scan(&randomness, &pattern);

    assert_eq!(result, None);
}

#[test]
fn group_scan_is_independent_of_declaration_order() {
    // Three disjoint patterns, each present exactly once: every declaration
    // order reports all three at the same offsets.
    let randomness = synthetic_buffer();
    let sources =
        ["75 84 4A EF 23 24 CA 35", "B7 ?? CF D8 ?? 0A ?? 27", "00 00 09 02 00"];
    let mut buf = randomness.clone();
    buf[5000] = 0x09;
    buf[5001] = 0x02;

    let orders: [[usize; 3]; 3] = [[0, 1, 2], [2, 1, 0], [1, 2, 0]];
    for order in orders {
        let mut patterns: Vec<Pattern> =
            order.iter().map(|i| Pattern::from(sources[*i]).unwrap()).collect();
        let results = SimpleScanner::default().group_scan(&buf, &mut patterns);
        assert_eq!(results.len(), 3);
        for r in &results {
            let offset = r.offset.unwrap();
            assert!(offset == 1309924 || offset == 867776 || offset == 4998);
        }
    }
}

#[test]
fn scan_multiple_reports_overlapping_matches() {
    let pattern = Pattern::from("AA AA").unwrap();
    let buffer = [0xAA, 0xAA, 0xAA];
    let results = SimpleScanner::default().scan_multiple(&buffer, &pattern);

    assert_eq!(results.len(), 2);
    assert_eq!(results[0].location, 0);
    assert_eq!(results[1].location, 1);
}

#[test]
fn chunked_scan_multiple_reports_every_occurrence_per_region() {
    let pattern = Pattern::from("09 02").unwrap();
    let mut buffer = vec![0u8; 4096];
    for i in 0..8 {
        buffer[100 + i * 500] = 0x09;
        buffer[101 + i * 500] = 0x02;
    }
    let results = ThreadedScanner::new_with_thread_count(4).scan_multiple(&buffer, &pattern);

    let locations: Vec<usize> = results.iter().map(|r| r.location).collect();
    let expected: Vec<usize> = (0..8).map(|i| 100 + i * 500).collect();
    assert_eq!(locations, expected);
}
