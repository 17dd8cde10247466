use duhashtsrv::{
    pair_from_be_bytes, parse_text_line, render_text_lines, to_text_line, u16_be_bytes,
    u16_from_be_bytes, FormatError, HashPair,
};

#[test]
fn renders_zero_pair_as_32_zeroes() {
    let line = to_text_line(&HashPair::new(0, 0));
    assert_eq!(line, "00000000000000000000000000000000");
}

#[test]
fn renders_fixed_width_uppercase() {
    let line = to_text_line(&HashPair::new(0x0123456789ABCDEF, 0xFEDCBA9876543210));
    assert_eq!(line, "0123456789ABCDEFFEDCBA9876543210");
}

#[test]
fn renders_max_pair() {
    let line = to_text_line(&HashPair::new(u64::MAX, u64::MAX));
    assert_eq!(line, "FFFFFFFFFFFFFFFFFFFFFFFFFFFFFFFF");
}

#[test]
fn parses_canonical_line() {
    let p = parse_text_line("0123456789ABCDEFFEDCBA9876543210").unwrap();
    assert_eq!(p.high, 0x0123456789ABCDEF);
    assert_eq!(p.low, 0xFEDCBA9876543210);
}

#[test]
fn parses_lowercase_hex() {
    let p = parse_text_line("0123456789abcdef0000000000000001").unwrap();
    assert_eq!(p.high, 0x0123456789ABCDEF);
    assert_eq!(p.low, 1);
}

#[test]
fn round_trips_every_shape_of_pair() {
    let samples = [
        HashPair::new(0, 0),
        HashPair::new(0, 1),
        HashPair::new(1, 0),
        HashPair::new(u64::MAX, 0),
        HashPair::new(0xDEADBEEF, 0xCAFEBABE),
        HashPair::new(u64::MAX, u64::MAX),
    ];
    for p in samples {
        let back = parse_text_line(&to_text_line(&p)).unwrap();
        assert_eq!(back, p);
    }
}

#[test]
fn rejects_short_line() {
    let r = parse_text_line("0123456789ABCDEF");
    assert!(matches!(r, Err(FormatError::InvalidHashFormat)));
}

#[test]
fn rejects_long_line() {
    let r = parse_text_line("0123456789ABCDEFFEDCBA98765432100");
    assert!(matches!(r, Err(FormatError::InvalidHashFormat)));
}

#[test]
fn rejects_empty_line() {
    let r = parse_text_line("");
    assert!(matches!(r, Err(FormatError::InvalidHashFormat)));
}

#[test]
fn rejects_non_hex_character() {
    let r = parse_text_line("0123456789ABCDEG0000000000000000");
    assert!(matches!(r, Err(FormatError::InvalidHashFormat)));
}

#[test]
fn rejects_sign_prefix() {
    let r = parse_text_line("+123456789ABCDEF0000000000000000");
    assert!(matches!(r, Err(FormatError::InvalidHashFormat)));
}

#[test]
fn rejects_non_ascii_line() {
    let r = parse_text_line("é123456789ABCDEF000000000000000");
    assert!(matches!(r, Err(FormatError::InvalidHashFormat)));
}

#[test]
fn decodes_wire_pair_big_endian() {
    let bytes: Vec<u8> = vec![
        0x01, 0x23, 0x45, 0x67, 0x89, 0xAB, 0xCD, 0xEF, 0xFE, 0xDC, 0xBA, 0x98, 0x76, 0x54,
        0x32, 0x10,
    ];
    let p = pair_from_be_bytes(&bytes);
    assert_eq!(p.high, 0x0123456789ABCDEF);
    assert_eq!(p.low, 0xFEDCBA9876543210);
}

#[test]
fn decodes_wire_pair_of_zeroes() {
    let bytes: Vec<u8> = vec![0; 16];
    let p = pair_from_be_bytes(&bytes);
    assert_eq!(p, HashPair::new(0, 0));
}

#[test]
fn decodes_u16_big_endian() {
    assert_eq!(u16_from_be_bytes(0x12, 0x34), 0x1234);
    assert_eq!(u16_from_be_bytes(0, 0), 0);
    assert_eq!(u16_from_be_bytes(0xFF, 0xFF), 0xFFFF);
}

#[test]
fn encodes_u16_big_endian() {
    assert_eq!(u16_be_bytes(0x1234), (0x12, 0x34));
    assert_eq!(u16_be_bytes(0), (0, 0));
    assert_eq!(u16_be_bytes(0xFFFF), (0xFF, 0xFF));
    let (hi, lo) = u16_be_bytes(513);
    assert_eq!(u16_from_be_bytes(hi, lo), 513);
}

#[test]
fn renders_lines_in_batch_order() {
    let pairs = vec![HashPair::new(2, 0), HashPair::new(1, 0)];
    let lines = render_text_lines(&pairs);
    assert_eq!(
        lines,
        vec![
            "00000000000000020000000000000000".to_string(),
            "00000000000000010000000000000000".to_string(),
        ]
    );
}
