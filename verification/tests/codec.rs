use qr_segment::BitStreamWriter;
use qr_segment::EncodeError;
use qr_segment::Mode;
use qr_segment::QRCode;
use qr_segment::encode_segment;
use qr_segment::get_mode;

#[test]
fn test_get_mode() {
    assert_eq!(get_mode("1234567890"), Mode::Numeric);
    assert_eq!(get_mode("1234567890ABCDEF$%*+-./ "), Mode::Alphanumeric);
    assert_eq!(get_mode("aÄ"), Mode::Byte);
    assert_eq!(get_mode("Ä"), Mode::Byte);
    assert_eq!(get_mode("1234567890ABCDEFabcdefあいうえお"), Mode::Kanji);
}

#[test]
fn test_encode_alphanum() {
    let qr_code = QRCode::new("AC-42").unwrap();

    assert_eq!(qr_code.data, "0011100111011100111001000010")
}

#[test]
fn test_encode_alphanum2() {
    let qr_code = QRCode::new("HELLO CC WORLD").unwrap();

    assert_eq!(
        qr_code.data,
        "01100001011011110001101000101110001000101000110011101001000101001101110111110"
    )
}

#[test]
fn classify_empty_is_numeric() {
    assert_eq!(get_mode(""), Mode::Numeric);
}

#[test]
fn classify_all_digits_prefers_numeric_over_alphanumeric() {
    // every digit also has an alphanumeric table entry, but the denser
    // mode wins
    assert_eq!(get_mode("0099"), Mode::Numeric);
    assert!(QRCode::encode(&Mode::Alphanumeric, "0099").is_ok());
}

#[test]
fn classify_is_idempotent() {
    for s in ["", "123", "AC-42", "aÄ", "あ"] {
        assert_eq!(get_mode(s), get_mode(s));
    }
}

#[test]
fn encode_numeric_groups_of_three() {
    // 123 -> 0001111011, 456 -> 0111001000, trailing 78 -> 1001110
    let encoded = QRCode::encode(&Mode::Numeric, "12345678").unwrap();
    assert_eq!(encoded, "000111101101110010001001110");
}

#[test]
fn encode_numeric_single_digit() {
    let encoded = QRCode::encode(&Mode::Numeric, "8").unwrap();
    assert_eq!(encoded, "1000");
}

#[test]
fn encode_numeric_length_formula() {
    for n in 0..10usize {
        let input: String = "7".repeat(n);
        let encoded = QRCode::encode(&Mode::Numeric, &input).unwrap();
        let expected = 10 * (n / 3) + [0, 4, 7][n % 3];
        assert_eq!(encoded.len(), expected);
    }
}

#[test]
fn encode_numeric_rejects_non_digit() {
    assert_eq!(
        QRCode::encode(&Mode::Numeric, "12a"),
        Err(EncodeError::InvalidCharacter)
    );
}

#[test]
fn encode_alphanumeric_length_formula() {
    for n in 0..9usize {
        let input: String = "A".repeat(n);
        let encoded = QRCode::encode(&Mode::Alphanumeric, &input).unwrap();
        let expected = 11 * (n / 2) + 6 * (n % 2);
        assert_eq!(encoded.len(), expected);
    }
}

#[test]
fn encode_alphanumeric_rejects_lowercase() {
    assert_eq!(
        QRCode::encode(&Mode::Alphanumeric, "ab"),
        Err(EncodeError::InvalidCharacter)
    );
}

#[test]
fn encode_alphanumeric_table_symbols() {
    // ':' is the last table entry, 44 -> 101100 in six bits
    let encoded = QRCode::encode(&Mode::Alphanumeric, ":").unwrap();
    assert_eq!(encoded, "101100");
    // comma has no entry in the table
    assert_eq!(
        QRCode::encode(&Mode::Alphanumeric, ","),
        Err(EncodeError::InvalidCharacter)
    );
}

#[test]
fn encode_byte_eight_bits_per_char() {
    // 'a' = 0x61, 'Ä' = 0xC4
    let encoded = QRCode::encode(&Mode::Byte, "aÄ").unwrap();
    assert_eq!(encoded, "0110000111000100");
}

#[test]
fn encode_byte_length_formula() {
    for n in 0..6usize {
        let input: String = "Ä".repeat(n);
        let encoded = QRCode::encode(&Mode::Byte, &input).unwrap();
        assert_eq!(encoded.len(), 8 * n);
    }
}

#[test]
fn encode_byte_rejects_wide_char() {
    assert_eq!(
        QRCode::encode(&Mode::Byte, "あ"),
        Err(EncodeError::InvalidCharacter)
    );
}

#[test]
fn encode_kanji_first_range() {
    // code 0x935F: 0x935F - 0x8140 = 0x121F; 0x12 * 0xC0 + 0x1F = 3487
    let encoded = QRCode::encode(&Mode::Kanji, "\u{935F}").unwrap();
    assert_eq!(encoded, "0110110011111");
}

#[test]
fn encode_kanji_second_range() {
    // code 0xE040: 0xE040 - 0xC140 = 0x1F00; 0x1F * 0xC0 + 0x00 = 5952
    let encoded = QRCode::encode(&Mode::Kanji, "\u{E040}").unwrap();
    assert_eq!(encoded, "1011101000000");
}

#[test]
fn encode_kanji_thirteen_bits_per_char() {
    let encoded = QRCode::encode(&Mode::Kanji, "\u{935F}\u{935F}\u{E040}").unwrap();
    assert_eq!(encoded.len(), 39);
}

#[test]
fn encode_kanji_rejects_code_outside_ranges() {
    // U+3042 lies below the first supported Shift JIS range
    assert_eq!(
        QRCode::encode(&Mode::Kanji, "あ"),
        Err(EncodeError::InvalidCharacter)
    );
}

#[test]
fn encode_is_deterministic() {
    for s in ["", "12345678", "AC-42", "aÄ", "\u{935F}"] {
        let first = QRCode::new(s).unwrap();
        let second = QRCode::new(s).unwrap();
        assert_eq!(first.data, second.data);
        assert_eq!(first.mode, second.mode);
    }
}

#[test]
fn new_empty_input() {
    let qr_code = QRCode::new("").unwrap();
    assert_eq!(qr_code.mode, Mode::Numeric);
    assert_eq!(qr_code.data, "");
}

#[test]
fn new_propagates_kanji_rejection() {
    // classified as Kanji, but outside both supported ranges
    assert!(matches!(
        QRCode::new("あ"),
        Err(EncodeError::InvalidCharacter)
    ));
}

#[test]
fn new_fixed_parameters() {
    let qr_code = QRCode::new("42").unwrap();
    assert_eq!(qr_code.version, 1);
    assert_eq!(qr_code.mask_pattern, 0);
    assert_eq!(
        qr_code.ec_level,
        qr_segment::ErrorCorrectionLevel::L
    );
}

#[test]
fn segment_carries_mode_count_and_payload() {
    let seg = encode_segment("AC-42").unwrap();
    assert_eq!(seg.mode, Mode::Alphanumeric);
    assert_eq!(seg.char_count, 5);
    assert_eq!(seg.payload.len(), 28);
    assert_eq!(seg.payload.render(), "0011100111011100111001000010");
}

#[test]
fn segment_rejects_unencodable_input() {
    assert_eq!(
        encode_segment("あ").map(|s| s.char_count),
        Err(EncodeError::InvalidCharacter)
    );
}

#[test]
fn writer_appends_msb_first() {
    let mut w = BitStreamWriter::new();
    assert_eq!(w.append_bits(22, 5), Ok(()));
    assert_eq!(w.render(), "10110");
    assert_eq!(w.len(), 5);
}

#[test]
fn writer_pads_wide_fields_with_leading_zeros() {
    let mut w = BitStreamWriter::new();
    assert_eq!(w.append_bits(5, 40), Ok(()));
    assert_eq!(w.render(), "0000000000000000000000000000000000000101");
}

#[test]
fn writer_rejects_value_too_wide() {
    let mut w = BitStreamWriter::new();
    assert_eq!(w.append_bits(8, 3), Err(EncodeError::InvalidBitWidth));
    // the stream is unchanged on failure
    assert_eq!(w.len(), 0);
    assert_eq!(w.append_bits(7, 3), Ok(()));
    assert_eq!(w.render(), "111");
}

#[test]
fn mode_indicator_bits() {
    assert_eq!(Mode::Numeric.to_bits(), 0b0001);
    assert_eq!(Mode::Alphanumeric.to_bits(), 0b0010);
    assert_eq!(Mode::Byte.to_bits(), 0b0100);
    assert_eq!(Mode::Kanji.to_bits(), 0b1000);
}

#[test]
fn mode_character_count_widths() {
    assert_eq!(Mode::Numeric.character_count(), 10);
    assert_eq!(Mode::Alphanumeric.character_count(), 9);
    assert_eq!(Mode::Byte.character_count(), 8);
    assert_eq!(Mode::Kanji.character_count(), 8);
}
