use mempool_partitioner::watermark::{advance, format_watermark, load_watermark, parse_watermark};

#[test]
fn plain_digits_parse_to_their_value() {
    assert_eq!(parse_watermark(b"0"), Some(0));
    assert_eq!(parse_watermark(b"30"), Some(30));
    assert_eq!(parse_watermark(b"1700000000"), Some(1_700_000_000));
}

#[test]
fn leading_plus_sign_is_accepted() {
    assert_eq!(parse_watermark(b"+30"), Some(30));
    assert_eq!(parse_watermark(b"+0"), Some(0));
}

#[test]
fn leading_zeros_are_accepted() {
    assert_eq!(parse_watermark(b"00012"), Some(12));
    assert_eq!(parse_watermark(b"000000000000000000000000000007"), Some(7));
}

#[test]
fn largest_value_parses_and_one_more_does_not() {
    assert_eq!(parse_watermark(b"18446744073709551615"), Some(u64::MAX));
    assert_eq!(parse_watermark(b"18446744073709551616"), None);
    assert_eq!(parse_watermark(b"99999999999999999999"), None);
    assert_eq!(parse_watermark(b"184467440737095516150"), None);
}

#[test]
fn text_that_is_no_number_does_not_parse() {
    assert_eq!(parse_watermark(b""), None);
    assert_eq!(parse_watermark(b"+"), None);
    assert_eq!(parse_watermark(b"-"), None);
    assert_eq!(parse_watermark(b"-1"), None);
    assert_eq!(parse_watermark(b"++1"), None);
    assert_eq!(parse_watermark(b"1+"), None);
    assert_eq!(parse_watermark(b"12a"), None);
    assert_eq!(parse_watermark(b"a12"), None);
    assert_eq!(parse_watermark(b"1_000"), None);
    assert_eq!(parse_watermark(b"0x10"), None);
    assert_eq!(parse_watermark(b"1.5"), None);
}

#[test]
fn surrounding_whitespace_does_not_parse() {
    assert_eq!(parse_watermark(b"30\n"), None);
    assert_eq!(parse_watermark(b" 30"), None);
    assert_eq!(parse_watermark(b"30 "), None);
}

#[test]
fn parse_agrees_with_the_standard_parser() {
    let samples: [&str; 12] = [
        "", "+", "0", "+7", "-7", "007", "42", "4 2", "18446744073709551615",
        "18446744073709551616", "12345678901234567890123", "\u{663}",
    ];
    for sample in samples {
        assert_eq!(parse_watermark(sample.as_bytes()), sample.parse::<u64>().ok(), "{:?}", sample);
    }
}

#[test]
fn missing_or_unparsable_file_loads_as_zero() {
    assert_eq!(load_watermark(None), 0);
    assert_eq!(load_watermark(Some(b"")), 0);
    assert_eq!(load_watermark(Some(b"not a number")), 0);
    assert_eq!(load_watermark(Some(b"30\n")), 0);
}

#[test]
fn readable_file_loads_as_its_value() {
    assert_eq!(load_watermark(Some(b"30")), 30);
    assert_eq!(load_watermark(Some(b"0")), 0);
}

#[test]
fn watermark_is_written_as_plain_decimal_digits() {
    assert_eq!(format_watermark(0), b"0".to_vec());
    assert_eq!(format_watermark(7), b"7".to_vec());
    assert_eq!(format_watermark(10), b"10".to_vec());
    assert_eq!(format_watermark(30), b"30".to_vec());
    assert_eq!(format_watermark(1_700_000_000), b"1700000000".to_vec());
    assert_eq!(format_watermark(u64::MAX), b"18446744073709551615".to_vec());
}

#[test]
fn written_watermark_reads_back() {
    let values: [u64; 8] = [0, 1, 9, 10, 99, 100, 1_699_999_999, u64::MAX];
    for value in values {
        let text = format_watermark(value);
        assert_eq!(parse_watermark(&text), Some(value));
        assert_eq!(load_watermark(Some(&text)), value);
        assert_eq!(text, value.to_string().into_bytes());
    }
}

#[test]
fn watermark_advances_to_later_accept_times_only() {
    assert_eq!(advance(0, 10), 10);
    assert_eq!(advance(10, 20), 20);
    assert_eq!(advance(20, 20), 20);
    assert_eq!(advance(30, 20), 30);
    assert_eq!(advance(u64::MAX, 0), u64::MAX);
}
