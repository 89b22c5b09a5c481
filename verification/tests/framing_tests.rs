use qrgen::bit::Bit;
use qrgen::ec::EcLevel;
use qrgen::encoding::Encoding;
use qrgen::error::QrError;
use qrgen::generate;
use qrgen::mask::MaskPattern;
use qrgen::preprocessor::{pad_segment, select_version, Preprocessor};
use qrgen::tables::blocks::{block_structure_entry, ec_codewords_entry};
use qrgen::tables::capacity::{capacity_entry, char_count};

fn colours(bits: &[Bit]) -> String {
    bits.iter().map(|b| if b.value() { '1' } else { '0' }).collect()
}

fn level(index: u8) -> EcLevel {
    [EcLevel::L, EcLevel::M, EcLevel::Q, EcLevel::H][index as usize]
}

#[test]
fn select_version_takes_the_smallest_that_fits() {
    assert_eq!(select_version(0, Encoding::Numeric, EcLevel::L), Some(1));
    assert_eq!(select_version(41, Encoding::Numeric, EcLevel::L), Some(1));
    assert_eq!(select_version(42, Encoding::Numeric, EcLevel::L), Some(2));
    assert_eq!(select_version(11, Encoding::Alphanumeric, EcLevel::Q), Some(1));
    assert_eq!(select_version(17, Encoding::Alphanumeric, EcLevel::Q), Some(2));
    assert_eq!(select_version(7, Encoding::Byte, EcLevel::H), Some(1));
    assert_eq!(select_version(8, Encoding::Byte, EcLevel::H), Some(2));
    assert_eq!(select_version(2953, Encoding::Byte, EcLevel::L), Some(40));
    assert_eq!(select_version(2303, Encoding::Byte, EcLevel::L), Some(35));
    assert_eq!(select_version(2304, Encoding::Byte, EcLevel::L), Some(36));
}

#[test]
fn select_version_finds_none_beyond_version_40() {
    assert_eq!(select_version(4296, Encoding::Alphanumeric, EcLevel::L), Some(40));
    assert_eq!(select_version(4297, Encoding::Alphanumeric, EcLevel::L), None);
    assert_eq!(select_version(7089, Encoding::Numeric, EcLevel::L), Some(40));
    assert_eq!(select_version(7090, Encoding::Numeric, EcLevel::L), None);
    assert_eq!(select_version(1273, Encoding::Byte, EcLevel::H), Some(40));
    assert_eq!(select_version(1274, Encoding::Byte, EcLevel::H), None);
    assert_eq!(select_version(usize::MAX, Encoding::Kanji, EcLevel::M), None);
}

#[test]
fn capacity_tables_hold_the_known_corner_values() {
    assert_eq!(capacity_entry(Encoding::Numeric, 1, 0), 41);
    assert_eq!(capacity_entry(Encoding::Alphanumeric, 1, 1), 20);
    assert_eq!(capacity_entry(Encoding::Byte, 1, 2), 11);
    assert_eq!(capacity_entry(Encoding::Kanji, 1, 3), 4);
    assert_eq!(capacity_entry(Encoding::Numeric, 40, 0), 7089);
    assert_eq!(capacity_entry(Encoding::Alphanumeric, 40, 0), 4296);
    assert_eq!(capacity_entry(Encoding::Byte, 40, 0), 2953);
    assert_eq!(capacity_entry(Encoding::Kanji, 40, 0), 1817);
    assert_eq!(capacity_entry(Encoding::Byte, 10, 1), 213);
    assert_eq!(Preprocessor::table_from_encoding(Encoding::Byte)[0], 17);
    assert_eq!(Preprocessor::table_from_encoding(Encoding::Numeric)[159], 3057);
}

#[test]
fn character_count_widths() {
    let widths = [
        (Encoding::Numeric, [10, 12, 14]),
        (Encoding::Alphanumeric, [9, 11, 13]),
        (Encoding::Byte, [8, 16, 16]),
        (Encoding::Kanji, [8, 10, 12]),
    ];
    for (mode, expected) in widths {
        for version in 1..=40u8 {
            let range = if version <= 9 { 0 } else if version <= 26 { 1 } else { 2 };
            assert_eq!(char_count(version, mode), expected[range]);
            assert_eq!(Preprocessor::char_count(version, mode), expected[range]);
        }
    }
}

#[test]
fn capacities_fit_the_data_codewords() {
    // For every version and level, the longest text the table admits
    // fills no more than the data codewords of the symbol.
    for version in 1..=40u8 {
        for index in 0..4u8 {
            let (s1, c1, s2, c2) = block_structure_entry(version, index);
            let room = 8 * (s1 * c1 + s2 * c2);
            let n = capacity_entry(Encoding::Numeric, version, index) as usize;
            let numeric = 10 * (n / 3) + [0, 4, 7][n % 3];
            assert!(4 + char_count(version, Encoding::Numeric) as usize + numeric <= room);
            let a = capacity_entry(Encoding::Alphanumeric, version, index) as usize;
            let alphanumeric = 11 * (a / 2) + 6 * (a % 2);
            assert!(
                4 + char_count(version, Encoding::Alphanumeric) as usize + alphanumeric <= room
            );
            let b = capacity_entry(Encoding::Byte, version, index) as usize;
            assert!(4 + char_count(version, Encoding::Byte) as usize + 8 * b <= room);
        }
    }
}

#[test]
fn stream_has_eight_bits_for_every_codeword_of_the_symbol() {
    for (text, mode) in [("1", Encoding::Numeric), ("HELLO WORLD", Encoding::Alphanumeric)] {
        for index in 0..4u8 {
            let prepared =
                Preprocessor::new(text, mode, level(index), MaskPattern::Checkerboard).unwrap();
            let version = prepared.version();
            let (s1, c1, s2, c2) = block_structure_entry(version, index);
            let data = s1 * c1 + s2 * c2;
            let ec = (c1 + c2) * ec_codewords_entry(version, index);
            assert_eq!(prepared.bits().len(), 8 * (data + ec));
            assert!(prepared.bits().iter().all(|b| !b.is_functional()));
        }
    }
}

#[test]
fn pad_segment_adds_terminator_zeros_and_pad_codewords() {
    let mut segment = Bit::from(0b1011, 4, false, true);
    pad_segment(&mut segment, 4);
    assert_eq!(colours(&segment), "10110000111011000001000111101100");
}

#[test]
fn pad_segment_fills_the_last_codeword_with_zeros() {
    let mut segment = Bit::from(0x1ff, 9, false, true);
    pad_segment(&mut segment, 3);
    assert_eq!(colours(&segment), "111111111000000011101100");
}

#[test]
fn pad_segment_cuts_the_terminator_at_the_end_of_the_room() {
    let mut segment = Bit::from(0x3fff, 14, false, true);
    pad_segment(&mut segment, 2);
    assert_eq!(colours(&segment), "1111111111111100");
    let mut full = Bit::from(0xffff, 16, false, true);
    pad_segment(&mut full, 2);
    assert_eq!(colours(&full), "1111111111111111");
}

#[test]
fn pad_segment_of_an_empty_segment() {
    let mut segment = Vec::new();
    pad_segment(&mut segment, 3);
    assert_eq!(colours(&segment), "000000001110110000010001");
    let mut nothing = Vec::new();
    pad_segment(&mut nothing, 0);
    assert!(nothing.is_empty());
}

#[test]
fn pad_segment_of_a_segment_longer_than_the_room_fills_its_last_codeword() {
    let mut segment = Bit::from(0x1ffff, 17, false, true);
    pad_segment(&mut segment, 2);
    assert_eq!(colours(&segment), "111111111111111110000000");
}

#[test]
fn preprocessor_remembers_its_parameters() {
    let prepared = Preprocessor::new(
        "HELLO WORLD",
        Encoding::Alphanumeric,
        EcLevel::Q,
        MaskPattern::Horizontal,
    )
    .unwrap();
    assert_eq!(prepared.version(), 1);
    assert_eq!(prepared.encoding(), Encoding::Alphanumeric);
    assert_eq!(prepared.ec_level(), EcLevel::Q);
    assert_eq!(prepared.mask_pattern(), MaskPattern::Horizontal);
    let code = prepared.generate_qrcode();
    assert_eq!(code.version(), 1);
    assert_eq!(code.ec_level(), EcLevel::Q);
    assert_eq!(code.mask_pattern(), MaskPattern::Horizontal);
    assert_eq!(code.encoding(), Encoding::Alphanumeric);
}

#[test]
fn generate_rejects_a_text_beyond_the_largest_symbol() {
    let text = "A".repeat(4297);
    let result = generate(&text, Encoding::Alphanumeric, EcLevel::L, MaskPattern::Checkerboard);
    assert_eq!(result.err(), Some(QrError::CapacityExceeded));
    let digits = "1".repeat(3058);
    let result = generate(&digits, Encoding::Numeric, EcLevel::H, MaskPattern::Meadow);
    assert_eq!(result.err(), Some(QrError::CapacityExceeded));
}

#[test]
fn generate_reports_a_bad_character_before_a_text_that_is_too_long() {
    let mut text = "A".repeat(5000);
    text.push('a');
    let result = generate(&text, Encoding::Alphanumeric, EcLevel::L, MaskPattern::Checkerboard);
    assert_eq!(result.err(), Some(QrError::InvalidCharacter('a')));
    let result = generate("12x", Encoding::Numeric, EcLevel::M, MaskPattern::Fields);
    assert_eq!(result.err(), Some(QrError::InvalidCharacter('x')));
}

#[test]
fn generate_does_not_support_kanji() {
    let result = generate("\u{70b9}", Encoding::Kanji, EcLevel::L, MaskPattern::Checkerboard);
    assert_eq!(result.err(), Some(QrError::Unsupported));
    let long = "\u{70b9}".repeat(5000);
    let result = generate(&long, Encoding::Kanji, EcLevel::L, MaskPattern::Checkerboard);
    assert_eq!(result.err(), Some(QrError::Unsupported));
}

#[test]
fn generate_counts_characters_not_bytes() {
    // Eleven characters of two bytes each still fit version 1 at level Q.
    let text = "\u{e9}".repeat(11);
    let code = generate(&text, Encoding::Byte, EcLevel::Q, MaskPattern::Diagonal).unwrap();
    assert_eq!(code.version(), 1);
    let longer = "\u{e9}".repeat(12);
    let code = generate(&longer, Encoding::Byte, EcLevel::Q, MaskPattern::Diagonal).unwrap();
    assert_eq!(code.version(), 2);
}

#[test]
fn error_messages() {
    assert_eq!(QrError::InvalidVersion.message(), "Invalid version.");
    assert_eq!(QrError::CapacityExceeded.message(), "Not enough space.");
    assert_eq!(QrError::Unsupported.message(), "Unsupported encoding mode.");
    assert_eq!(QrError::InvalidCharacter('x').message(), "Invalid character: x");
    assert_eq!(QrError::InvalidCharacter('\u{e9}').message(), "Invalid character: \u{e9}");
}
