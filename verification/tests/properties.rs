use hexlit::{always_true, convert, count_skipped, is_valid_delimiter, to_ordinal, HexError};

#[test]
fn empty_input_decodes_to_nothing() {
    assert_eq!(convert("".as_bytes()), Ok(vec![]));
}

#[test]
fn delimiters_only_decode_to_nothing() {
    assert_eq!(convert(" \"_|-".as_bytes()), Ok(vec![]));
}

#[test]
fn plain_pairs_decode_to_half_the_length() {
    let out = convert("ff00".as_bytes()).unwrap();
    assert_eq!(out.len(), 2);
    assert_eq!(out, vec![0xFF, 0x00]);
}

#[test]
fn decoding_ignores_letter_case() {
    assert_eq!(convert("a1b2".as_bytes()), Ok(vec![0xA1, 0xB2]));
    assert_eq!(convert("A1B2".as_bytes()), Ok(vec![0xA1, 0xB2]));
    assert_eq!(convert("a1b2".as_bytes()), convert("A1B2".as_bytes()));
}

#[test]
fn stripping_delimiters_first_changes_nothing() {
    let original = "0F 03-0B 0C-0d 0E";
    let stripped: String = original
        .chars()
        .filter(|c| !is_valid_delimiter(*c as u8))
        .collect();
    assert_eq!(stripped, "0F030B0C0d0E");
    assert_eq!(convert(original.as_bytes()), convert(stripped.as_bytes()));
}

#[test]
fn delimiter_inside_a_pair_is_skipped() {
    assert_eq!(convert("0_b".as_bytes()), Ok(vec![0x0B]));
}

#[test]
fn odd_digit_count_is_refused() {
    assert_eq!(convert("abc".as_bytes()), Err(HexError::OddDigitCount));
    assert_eq!(convert("0A 0".as_bytes()), Err(HexError::OddDigitCount));
    assert_eq!(convert("1".as_bytes()), Err(HexError::OddDigitCount));
}

#[test]
fn invalid_digit_is_refused_with_its_position() {
    assert_eq!(
        convert("0g".as_bytes()),
        Err(HexError::InvalidDigit { position: 1, byte: b'g' })
    );
    assert_eq!(
        convert(" zz ".as_bytes()),
        Err(HexError::InvalidDigit { position: 1, byte: b'z' })
    );
}

#[test]
fn odd_count_is_reported_before_invalid_digits() {
    assert_eq!(convert("0g1".as_bytes()), Err(HexError::OddDigitCount));
}

#[test]
fn delimiter_classification_is_total_and_deterministic() {
    for b in 0..=255u8 {
        let first = is_valid_delimiter(b);
        let second = is_valid_delimiter(b);
        assert_eq!(first, second);
        assert_eq!(first, b == b' ' || b == b'"' || b == b'_' || b == b'|' || b == b'-');
    }
}

#[test]
fn digit_values_at_the_range_boundaries() {
    assert_eq!(to_ordinal(b'0'), Some(0));
    assert_eq!(to_ordinal(b'9'), Some(9));
    assert_eq!(to_ordinal(b'A'), Some(10));
    assert_eq!(to_ordinal(b'F'), Some(15));
    assert_eq!(to_ordinal(b'a'), Some(10));
    assert_eq!(to_ordinal(b'f'), Some(15));
}

#[test]
fn bytes_next_to_the_ranges_are_no_digits() {
    assert_eq!(to_ordinal(b'/'), None);
    assert_eq!(to_ordinal(b':'), None);
    assert_eq!(to_ordinal(b'@'), None);
    assert_eq!(to_ordinal(b'G'), None);
    assert_eq!(to_ordinal(b'`'), None);
    assert_eq!(to_ordinal(b'g'), None);
    assert_eq!(to_ordinal(b' '), None);
}

#[test]
fn count_skipped_counts_every_delimiter() {
    assert_eq!(count_skipped("0A 0B_|".as_bytes()), 3);
    assert_eq!(count_skipped("".as_bytes()), 0);
    assert_eq!(count_skipped("0123".as_bytes()), 0);
    assert_eq!(count_skipped(" \"_|-".as_bytes()), 5);
}

#[test]
fn always_true_returns_true() {
    assert!(always_true());
}
