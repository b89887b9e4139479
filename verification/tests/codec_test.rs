use incosense::percent::{
    from_hex, is_hex_digit, percent_decode_bytes, percent_encode_bytes, percent_encoding_is_invalid,
};

use incosense::form::parse_raw_form;

#[test]
fn hex_digit_values() {
    assert_eq!(from_hex(b'0'), Some(0));
    assert_eq!(from_hex(b'9'), Some(9));
    assert_eq!(from_hex(b'a'), Some(10));
    assert_eq!(from_hex(b'f'), Some(15));
    assert_eq!(from_hex(b'A'), Some(10));
    assert_eq!(from_hex(b'F'), Some(15));
    assert_eq!(from_hex(b'g'), None);
    assert_eq!(from_hex(b'%'), None);
    assert!(is_hex_digit(b'7'));
    assert!(is_hex_digit(b'c'));
    assert!(is_hex_digit(b'D'));
    assert!(!is_hex_digit(b'x'));
}

#[test]
fn decode_simple_escapes() {
    assert_eq!(percent_decode_bytes(b"le%20guin"), b"le guin".to_vec());
    assert_eq!(percent_decode_bytes(b"a+b"), b"a b".to_vec());
    assert_eq!(percent_decode_bytes(b"plain"), b"plain".to_vec());
    assert_eq!(percent_decode_bytes(b"%41%42%43"), b"ABC".to_vec());
    // case-insensitive hex digits
    assert_eq!(percent_decode_bytes(b"%2f%2F"), b"//".to_vec());
}

#[test]
fn decode_passes_malformed_escape_through() {
    // the decoder leaves a malformed escape alone; the pre-scan is what
    // rejects such buffers
    assert_eq!(percent_decode_bytes(b"100%"), b"100%".to_vec());
    assert_eq!(percent_decode_bytes(b"%zz"), b"%zz".to_vec());
    assert_eq!(percent_decode_bytes(b"%2"), b"%2".to_vec());
}

#[test]
fn scan_finds_malformed_escape_anywhere() {
    assert!(!percent_encoding_is_invalid(b""));
    assert!(!percent_encoding_is_invalid(b"name=le%20guin"));
    assert!(percent_encoding_is_invalid(b"%"));
    assert!(percent_encoding_is_invalid(b"%2"));
    assert!(percent_encoding_is_invalid(b"%zz"));
    assert!(percent_encoding_is_invalid(b"aaaa%G1bb"));
    assert!(percent_encoding_is_invalid(b"good%20then%2"));
    assert!(percent_encoding_is_invalid(b"end-of-buffer%a"));
}

#[test]
fn encode_exact_values() {
    assert_eq!(percent_encode_bytes(b"abc-._~09"), b"abc-._~09".to_vec());
    assert_eq!(percent_encode_bytes(b"a b"), b"a+b".to_vec());
    assert_eq!(percent_encode_bytes(b"@"), b"%40".to_vec());
    assert_eq!(percent_encode_bytes(b"%"), b"%25".to_vec());
    assert_eq!(percent_encode_bytes(b"+"), b"%2B".to_vec());
    assert_eq!(percent_encode_bytes(b"a=b&c"), b"a%3Db%26c".to_vec());
}

#[test]
fn encode_then_decode_round_trips() {
    let cases: Vec<&[u8]> = vec![
        b"",
        b"le guin",
        b"ursula_le_guin@gmail.com",
        "Éléonore ❤ café".as_bytes(),
        "😀👍".as_bytes(),
        b"a=b&c=d%20+",
        &[0u8, 1, 2, 255, 254, 37, 43],
    ];
    for case in cases {
        let encoded = percent_encode_bytes(case);
        assert!(!percent_encoding_is_invalid(&encoded));
        assert_eq!(percent_decode_bytes(&encoded), case.to_vec());
    }
}

#[test]
fn parse_splits_on_ampersand() {
    let pairs = parse_raw_form(b"a=b&c=d");
    assert_eq!(pairs.len(), 2);
    assert_eq!(pairs[0], (b"a".to_vec(), b"b".to_vec()));
    assert_eq!(pairs[1], (b"c".to_vec(), b"d".to_vec()));
}

#[test]
fn parse_skips_empty_segments() {
    let pairs = parse_raw_form(b"&&a=b&");
    assert_eq!(pairs.len(), 1);
    assert_eq!(pairs[0], (b"a".to_vec(), b"b".to_vec()));
    assert_eq!(parse_raw_form(b"").len(), 0);
    assert_eq!(parse_raw_form(b"&&&").len(), 0);
}

#[test]
fn parse_segment_without_equals_is_key_with_empty_value() {
    let pairs = parse_raw_form(b"justakey");
    assert_eq!(pairs.len(), 1);
    assert_eq!(pairs[0], (b"justakey".to_vec(), Vec::new()));
}

#[test]
fn parse_splits_at_first_equals_and_decodes_each_part() {
    let pairs = parse_raw_form(b"k=a=b");
    assert_eq!(pairs.len(), 1);
    assert_eq!(pairs[0], (b"k".to_vec(), b"a=b".to_vec()));

    // a pre-encoded `=` or `&` stays inside the value
    let pairs = parse_raw_form(b"k=a%3Db%26c&l%20m=+");
    assert_eq!(pairs.len(), 2);
    assert_eq!(pairs[0], (b"k".to_vec(), b"a=b&c".to_vec()));
    assert_eq!(pairs[1], (b"l m".to_vec(), b" ".to_vec()));
}
