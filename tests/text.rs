use mx5_telemetry::stnobd::{decode_monitoring_line, rposition_cr};
use mx5_telemetry::text::{contains_slice, parse_hex};

#[test]
fn contains_slice_finds_anywhere() {
    assert!(contains_slice(b"\r\rELM327 v1.3a\r>", b"ELM327"));
    assert!(contains_slice(b"ELM327", b"ELM327"));
    assert!(!contains_slice(b"ELM32", b"ELM327"));
    assert!(!contains_slice(b"ELM32x7", b"ELM327"));
    assert!(contains_slice(b"abc", b""));
}

#[test]
fn parse_hex_digits() {
    assert_eq!(parse_hex(b"1aF"), Some(0x1af));
    assert_eq!(parse_hex(b"085"), Some(0x85));
    assert_eq!(parse_hex(b"FFFFFFFFFFFFFFFF"), Some(u64::MAX));
    assert_eq!(parse_hex(b""), Some(0));
    assert_eq!(parse_hex(b"+85"), None);
    assert_eq!(parse_hex(b"0G"), None);
}

#[test]
fn rposition_cr_finds_rightmost() {
    assert_eq!(rposition_cr(b"a\rb\rc"), Some(3));
    assert_eq!(rposition_cr(b"abc"), None);
}

#[test]
fn decode_monitoring_line_fields() {
    assert_eq!(decode_monitoring_line(b"08500000000000000FE\r"), Some((0x085, 0xfe)));
    assert_eq!(
        decode_monitoring_line(b"4b027104e2075309c40\r"),
        Some((0x4b0, 0x2710_4e20_7530_9c40))
    );
    assert_eq!(decode_monitoring_line(b"08500000000000000FEX"), None);
    assert_eq!(decode_monitoring_line(b"08G00000000000000FE\r"), None);
    assert_eq!(decode_monitoring_line(b"0850000000000000FE\r"), None);
}
