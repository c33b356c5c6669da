use corrosion::ui::font::{glyphs_from_hex, glyphs_from_itf, parse_hex, reverse_bits};

#[test]
fn bits_reverse() {
    assert_eq!(reverse_bits(1), 1u64 << 63);
    assert_eq!(reverse_bits(0x8000_0000_0000_0000), 1);
    assert_eq!(reverse_bits(0x0123_4567_89AB_CDEF), 0x0123_4567_89AB_CDEFu64.reverse_bits());
    assert_eq!(reverse_bits(0), 0);
}

#[test]
fn hex_numerals() {
    let t = b"00FF:1aZ";
    assert_eq!(parse_hex(t, 0, 4), Some(255));
    assert_eq!(parse_hex(t, 5, 7), Some(26));
    assert_eq!(parse_hex(t, 5, 8), None);
    assert_eq!(parse_hex(t, 4, 4), None);
    let long = b"11111111111111111";
    assert_eq!(parse_hex(long, 0, 17), None);
    assert_eq!(parse_hex(long, 0, 16), Some(0x1111_1111_1111_1111));
}

#[test]
fn itf_glyphs() {
    let data = [0x80u8, 0, 0, 0, 0, 0, 0, 0x01, 0xFF, 0, 0, 0, 0, 0, 0, 0, 0xAA];
    let mut glyphs = vec![7u64; 3];
    glyphs_from_itf(&data, &mut glyphs);
    assert_eq!(glyphs[0], 0x8000_0000_0000_0001u64.reverse_bits());
    assert_eq!(glyphs[0] & 1, 1);
    assert_eq!(glyphs[1], 0xFF);
    assert_eq!(glyphs[2], 7);
}

#[test]
fn hex_glyphs() {
    let text = b"0001:8000000000000001\n0003:FF\nzz:12\n0009:1\n";
    let mut glyphs = vec![5u64; 4];
    glyphs_from_hex(text, &mut glyphs);
    assert_eq!(glyphs[0], 5);
    assert_eq!(glyphs[1], 0x8000_0000_0000_0001);
    assert_eq!(glyphs[3], 0xFFu64.reverse_bits());
    assert_eq!(glyphs[2], 5);
}
