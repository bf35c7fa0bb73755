//! UTF-8 and UTF-16.

use mssql_odbc::conversion::unicode::{
    decode_units, decode_utf16le, decode_utf8_lossy, encode_units, encode_utf16le,
    encode_utf8_bytes, units_from_le, units_to_le,
};

fn chars(text: &str) -> Vec<char> {
    text.chars().collect()
}

#[test]
fn utf16_is_given_back() {
    let text = chars("a\u{E9}\u{20AC}\u{1F600}");
    assert_eq!(encode_units(&text), "a\u{E9}\u{20AC}\u{1F600}".encode_utf16().collect::<Vec<_>>());
    assert_eq!(decode_units(&encode_units(&text)), text);
    assert_eq!(decode_utf16le(&encode_utf16le(&text)), text);
}

#[test]
fn unpaired_halves_are_replaced() {
    assert_eq!(decode_units(&[0xD800, 0x61]), chars("\u{FFFD}a"));
    assert_eq!(decode_units(&[0xDC00]), chars("\u{FFFD}"));
    assert_eq!(decode_units(&[0xD83D, 0xDE00]), chars("\u{1F600}"));
}

#[test]
fn units_are_little_endian() {
    assert_eq!(units_to_le(&[0x0102, 0x0304]), vec![2, 1, 4, 3]);
    assert_eq!(units_from_le(&[2, 1, 4, 3]), vec![0x0102, 0x0304]);
    assert_eq!(units_from_le(&[2, 1, 4]), vec![0x0102]);
}

#[test]
fn utf8_is_decoded_with_replacements() {
    assert_eq!(decode_utf8_lossy("h\u{E9}".as_bytes()), chars("h\u{E9}"));
    assert_eq!(decode_utf8_lossy(b"h\xFFi"), chars("h\u{FFFD}i"));
    assert_eq!(decode_utf8_lossy(b"\xE2\x82"), chars("\u{FFFD}"));
}

#[test]
fn utf8_is_encoded() {
    assert_eq!(encode_utf8_bytes(&chars("h\u{E9}\u{1F600}")), "h\u{E9}\u{1F600}".as_bytes());
    assert!(encode_utf8_bytes(&[]).is_empty());
}

/// The runs of bytes: a byte and the continuation bytes that may belong to it.
fn runs(bytes: &[u8]) -> Vec<&[u8]> {
    let mut runs = Vec::new();
    let mut rest = bytes;
    while let Some(first) = rest.first() {
        let width = match first {
            0xF0.. => 4,
            0xE0.. => 3,
            0xC0.. => 2,
            _ => 1,
        };
        let following =
            rest[1..].iter().take(width - 1).take_while(|b| (0x80..0xC0).contains(*b)).count();
        let (run, after) = rest.split_at(1 + following);
        runs.push(run);
        rest = after;
    }
    runs
}

#[test]
fn bytes_decode_run_by_run() {
    let samples: [u8; 16] = [
        0x41, 0x7F, 0x80, 0x8F, 0x90, 0x9F, 0xA0, 0xBF, 0xC1, 0xC2, 0xE0, 0xE1, 0xED, 0xF0, 0xF4,
        0xF8,
    ];
    for choice in 0..samples.len().pow(4) {
        let bytes: Vec<u8> =
            (0..4).map(|k| samples[choice / samples.len().pow(k) % samples.len()]).collect();
        let mut pieces = Vec::new();
        for run in runs(&bytes) {
            pieces.extend(decode_utf8_lossy(run));
        }
        assert_eq!(decode_utf8_lossy(&bytes), pieces, "{bytes:?}");
    }
}

#[test]
fn a_text_has_no_more_units_than_its_utf8_has_bytes() {
    for bytes in [
        &b""[..],
        b"abc",
        b"\xFF\xFE\xFD",
        b"\x80\xBF\x80",
        b"\xE2\x82",
        b"\xED\xA0\x80",
        b"\xF0\x9F\x98\x80",
        b"\xF5\x80\x80\x80",
        b"\xC0\x80\xE0",
    ] {
        assert!(encode_units(&decode_utf8_lossy(bytes)).len() <= bytes.len(), "{bytes:?}");
    }
}
