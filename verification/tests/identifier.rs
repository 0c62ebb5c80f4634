use hidpp::text::format_identifier_hex;

#[test]
fn formats_grouped_lowercase_hex() {
    let bytes = [0xa1u8, 0xb2, 0xc3, 0xd4, 0x00, 0x0f];
    assert_eq!(format_identifier_hex(&bytes), "a1b2c3d4 000f");
}

#[test]
fn empty_input_is_empty_string() {
    assert_eq!(format_identifier_hex(&[]), "");
}

#[test]
fn full_identifier_has_eight_words() {
    let bytes: Vec<u8> = (0u8..32).collect();
    let s = format_identifier_hex(&bytes);
    assert_eq!(
        s,
        "00010203 04050607 08090a0b 0c0d0e0f 10111213 14151617 18191a1b 1c1d1e1f"
    );
    // 2 digits per byte, one space per word boundary
    assert_eq!(s.len(), 2 * 32 + (32 - 1) / 4);
}

#[test]
fn exactly_one_word_has_no_space() {
    assert_eq!(format_identifier_hex(&[0xde, 0xad, 0xbe, 0xef]), "deadbeef");
    assert_eq!(format_identifier_hex(&[0xde, 0xad, 0xbe, 0xef, 0x01]), "deadbeef 01");
}

#[test]
fn spaces_stand_at_every_ninth_position() {
    let bytes: Vec<u8> = (0u8..32).map(|b| b.wrapping_mul(37)).collect();
    let s = format_identifier_hex(&bytes);
    for (j, c) in s.chars().enumerate() {
        assert_eq!(c == ' ', j % 9 == 8, "position {j} of {s}");
    }
}
