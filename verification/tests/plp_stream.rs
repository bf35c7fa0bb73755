//! Large values that are delivered over several calls.

use mssql_odbc::fetch_engine::plp_stream::{
    pump_wire, PlpDelivery, PlpEncoding, PlpStream, PlpTarget,
};

fn drain_char(stream: &mut PlpStream, cap: usize) -> (Vec<u8>, bool) {
    let mut buf = vec![0u8; cap];
    let d = stream.deliver_char(Some(&mut buf));
    let end = buf.iter().position(|b| *b == 0).unwrap_or(buf.len());
    (buf[..end].to_vec(), d.truncated)
}

#[test]
fn single_byte_char_passthrough_chunked() {
    let mut s = PlpStream::new(1, PlpEncoding::SingleByteText, PlpTarget::Char);
    s.absorb_wire(b"hello world", true);
    let (part1, trunc1) = drain_char(&mut s, 6);
    assert_eq!(part1, b"hello");
    assert!(trunc1);
    let (part2, trunc2) = drain_char(&mut s, 32);
    assert_eq!(part2, b" world");
    assert!(!trunc2);
    assert!(s.is_exhausted());
}

#[test]
fn utf16_to_char_transcodes() {
    let mut s = PlpStream::new(1, PlpEncoding::Utf16Text, PlpTarget::Char);
    let wire: Vec<u8> = "AB".encode_utf16().flat_map(|u| u.to_le_bytes()).collect();
    s.absorb_wire(&wire, true);
    let (out, trunc) = drain_char(&mut s, 32);
    assert_eq!(out, b"AB");
    assert!(!trunc);
    assert!(s.is_exhausted());
}

#[test]
fn utf16_to_char_handles_odd_byte_split() {
    let mut s = PlpStream::new(1, PlpEncoding::Utf16Text, PlpTarget::Char);
    s.absorb_wire(&[0x5A], false);
    let (empty, _) = drain_char(&mut s, 32);
    assert!(empty.is_empty());
    s.absorb_wire(&[0x00], true);
    let (out, _) = drain_char(&mut s, 32);
    assert_eq!(out, b"Z");
    assert!(s.is_exhausted());
}

#[test]
fn utf16_to_char_handles_surrogate_split_across_chunks() {
    let mut s = PlpStream::new(1, PlpEncoding::Utf16Text, PlpTarget::Char);
    let units: Vec<u16> = "\u{1F600}".encode_utf16().collect();
    let hi = units[0].to_le_bytes();
    let lo = units[1].to_le_bytes();
    s.absorb_wire(&hi, false);
    let (empty, _) = drain_char(&mut s, 32);
    assert!(empty.is_empty(), "high surrogate alone must not decode");
    s.absorb_wire(&lo, true);
    let (out, _) = drain_char(&mut s, 32);
    assert_eq!(String::from_utf8(out).unwrap(), "\u{1F600}");
    assert!(s.is_exhausted());
}

#[test]
fn utf16_to_wchar_passthrough() {
    let mut s = PlpStream::new(1, PlpEncoding::Utf16Text, PlpTarget::WChar);
    let wire: Vec<u8> = "hi".encode_utf16().flat_map(|u| u.to_le_bytes()).collect();
    s.absorb_wire(&wire, true);
    let cap = 8usize;
    let mut buf = vec![0u16; cap];
    let d = s.deliver_wchar(Some(&mut buf));
    assert!(!d.truncated);
    let end = buf.iter().position(|u| *u == 0).unwrap();
    assert_eq!(String::from_utf16(&buf[..end]).unwrap(), "hi");
    assert!(s.is_exhausted());
}

#[test]
fn empty_value_is_immediately_exhausted() {
    let mut s = PlpStream::new(1, PlpEncoding::SingleByteText, PlpTarget::Char);
    s.absorb_wire(&[], true);
    let (out, trunc) = drain_char(&mut s, 16);
    assert!(out.is_empty());
    assert!(!trunc);
    assert!(s.is_exhausted());
}

#[test]
fn zero_capacity_reports_truncation_without_consuming() {
    let mut s = PlpStream::new(1, PlpEncoding::SingleByteText, PlpTarget::Char);
    s.absorb_wire(b"abc", true);
    let d = s.deliver_char(None);
    assert!(d.truncated);
    assert_eq!(d.remaining_pending, 3);
    let (out, _) = drain_char(&mut s, 16);
    assert_eq!(out, b"abc");
}

#[test]
fn any_chunks_deliver_the_whole_value() {
    let text = "a\u{e9}\u{1F600}b";
    let wire: Vec<u8> = text.encode_utf16().flat_map(u16::to_le_bytes).collect();
    for first in 0..=wire.len() {
        for second in first..=wire.len() {
            let mut s = PlpStream::new(3, PlpEncoding::Utf16Text, PlpTarget::Char);
            s.absorb_wire(&wire[..first], false);
            s.absorb_wire(&wire[first..second], false);
            s.absorb_wire(&wire[second..], true);
            let mut out = Vec::new();
            while !s.is_exhausted() {
                out.extend(drain_char(&mut s, 3).0);
            }
            assert_eq!(String::from_utf8(out).unwrap(), text);
        }
    }
}

#[test]
fn a_lone_half_is_replaced_at_the_end() {
    let mut s = PlpStream::new(1, PlpEncoding::Utf16Text, PlpTarget::Char);
    s.absorb_wire(&[0x3D, 0xD8], true);
    assert_eq!(drain_char(&mut s, 16).0, "\u{FFFD}".as_bytes());
    assert!(s.is_exhausted());
}

#[test]
fn half_a_unit_is_dropped_at_the_end() {
    let mut s = PlpStream::new(1, PlpEncoding::Utf16Text, PlpTarget::WChar);
    s.absorb_wire(&[0x41, 0x00, 0x42], true);
    let mut buf = [0u16; 4];
    s.deliver_wchar(Some(&mut buf));
    assert_eq!(buf, [0x41, 0, 0, 0]);
    assert!(s.is_exhausted());
}

#[test]
fn bytes_are_widened_for_a_wide_target() {
    let mut s = PlpStream::new(1, PlpEncoding::SingleByteText, PlpTarget::WChar);
    assert!(s.needs_pump());
    s.absorb_wire(&[0x41, 0xE9], false);
    assert!(!s.needs_pump());
    assert_eq!(s.pending_bytes(), 4);
    let mut buf = [0xFFFFu16; 4];
    let d = s.deliver_wchar(Some(&mut buf));
    assert_eq!(
        d,
        PlpDelivery {
            remaining_pending: 0,
            truncated: false
        }
    );
    assert_eq!(buf, [0x41, 0xE9, 0, 0xFFFF]);
    assert!(!s.is_exhausted());
}

#[test]
fn a_read_of_nothing_ends_the_value() {
    let mut s = PlpStream::new(7, PlpEncoding::Binary, PlpTarget::Char);
    assert_eq!(s.column(), 7);
    pump_wire(&mut s, b"ab", false);
    assert!(!s.wire_done());
    pump_wire(&mut s, b"", false);
    assert!(s.wire_done());
    pump_wire(&mut s, b"ignored", false);
    assert_eq!(drain_char(&mut s, 16), (b"ab".to_vec(), false));
    assert!(s.is_exhausted());
}

#[test]
fn an_empty_buffer_takes_nothing() {
    let mut s = PlpStream::new(1, PlpEncoding::SingleByteText, PlpTarget::Char);
    s.absorb_wire(b"abc", true);
    let d = s.deliver_char(Some(&mut []));
    assert_eq!((d.remaining_pending, d.truncated), (3, true));
    let mut one = [9u8];
    let d = s.deliver_char(Some(&mut one));
    assert_eq!((d.remaining_pending, one[0]), (3, 0));
}
