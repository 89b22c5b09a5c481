use qrgen::bit::Bit;
use qrgen::encoding::{characters, to_bits_array, to_bits_str, Encoding};
use qrgen::error::QrError;

fn colours(bits: &[Bit]) -> String {
    bits.iter().map(|b| if b.value() { '1' } else { '0' }).collect()
}

fn encoded(mode: Encoding, text: &str) -> String {
    let bits = mode.encode(text).unwrap();
    assert!(bits.iter().all(|b| !b.is_functional()));
    colours(&bits)
}

#[test]
fn mode_indicators() {
    assert_eq!(colours(&Encoding::Numeric.mod_indicator()), "0001");
    assert_eq!(colours(&Encoding::Alphanumeric.mod_indicator()), "0010");
    assert_eq!(colours(&Encoding::Byte.mod_indicator()), "0100");
    assert_eq!(colours(&Encoding::Kanji.mod_indicator()), "1000");
    assert!(Encoding::Byte.mod_indicator().iter().all(|b| !b.is_functional()));
}

#[test]
fn encode_alphanumeric_pair() {
    // H is 17 and E is 14: 17 * 45 + 14 = 779.
    assert_eq!(encoded(Encoding::Alphanumeric, "HE"), "01100001011");
    assert_eq!(colours(&Encoding::encode_alphanumeric("HE").unwrap()), "01100001011");
}

#[test]
fn encode_alphanumeric_hello_world() {
    assert_eq!(
        encoded(Encoding::Alphanumeric, "HELLO WORLD"),
        "0110000101101111000110100010111001011011100010011010100001101"
    );
}

#[test]
fn encode_alphanumeric_single_character_takes_six_bits() {
    assert_eq!(encoded(Encoding::Alphanumeric, "A"), "001010");
    assert_eq!(encoded(Encoding::Alphanumeric, ":"), "101100");
    assert_eq!(encoded(Encoding::Alphanumeric, "0"), "000000");
}

#[test]
fn encode_alphanumeric_empty() {
    assert_eq!(encoded(Encoding::Alphanumeric, ""), "");
}

#[test]
fn alphanumeric_values_cover_the_alphabet() {
    let alphabet = "0123456789ABCDEFGHIJKLMNOPQRSTUVWXYZ $%*+-./:";
    for (value, c) in alphabet.chars().enumerate() {
        assert_eq!(Encoding::alphanumeric_value(c), Ok(value as u16));
    }
    for c in ['a', 'z', '#', '!', ',', ';', '@', '\u{e9}', '\n'] {
        assert_eq!(Encoding::alphanumeric_value(c), Err(QrError::InvalidCharacter(c)));
    }
}

#[test]
fn encode_alphanumeric_rejects_the_first_bad_character() {
    assert_eq!(
        Encoding::Alphanumeric.encode("HELLO world"),
        Err(QrError::InvalidCharacter('w'))
    );
    assert_eq!(Encoding::Alphanumeric.encode("a"), Err(QrError::InvalidCharacter('a')));
    assert_eq!(Encoding::Alphanumeric.encode("AB?C!"), Err(QrError::InvalidCharacter('?')));
}

#[test]
fn encode_numeric_groups_of_three() {
    assert_eq!(encoded(Encoding::Numeric, "123"), "0001111011");
    assert_eq!(encoded(Encoding::Numeric, "000"), "0000000000");
    assert_eq!(encoded(Encoding::Numeric, "999"), "1111100111");
    assert_eq!(encoded(Encoding::Numeric, "012345"), "00000011000101011001");
}

#[test]
fn encode_numeric_two_digits_left_over_take_seven_bits() {
    assert_eq!(encoded(Encoding::Numeric, "12"), "0001100");
    assert_eq!(encoded(Encoding::Numeric, "99"), "1100011");
    assert_eq!(encoded(Encoding::Numeric, "01234567"), "000000110001010110011000011");
}

#[test]
fn encode_numeric_one_digit_left_over_takes_four_bits() {
    assert_eq!(encoded(Encoding::Numeric, "1"), "0001");
    assert_eq!(encoded(Encoding::Numeric, "9"), "1001");
    assert_eq!(encoded(Encoding::Numeric, "1234"), "00011110110100");
    assert_eq!(colours(&Encoding::encode_numeric("8").unwrap()), "1000");
}

#[test]
fn encode_numeric_empty() {
    assert_eq!(encoded(Encoding::Numeric, ""), "");
}

#[test]
fn encode_numeric_rejects_the_first_bad_character() {
    assert_eq!(Encoding::Numeric.encode("12a4b"), Err(QrError::InvalidCharacter('a')));
    assert_eq!(Encoding::Numeric.encode("x"), Err(QrError::InvalidCharacter('x')));
    assert_eq!(Encoding::Numeric.encode("1234 "), Err(QrError::InvalidCharacter(' ')));
    assert_eq!(Encoding::Numeric.encode("12/"), Err(QrError::InvalidCharacter('/')));
    assert_eq!(Encoding::Numeric.encode("1:"), Err(QrError::InvalidCharacter(':')));
    assert_eq!(Encoding::numeric_value('7'), Ok(7));
    assert_eq!(Encoding::numeric_value('\u{663}'), Err(QrError::InvalidCharacter('\u{663}')));
}

#[test]
fn encode_byte_emits_the_code_points() {
    assert_eq!(encoded(Encoding::Byte, "a"), "01100001");
    assert_eq!(encoded(Encoding::Byte, "\u{e9}"), "11101001");
    assert_eq!(encoded(Encoding::Byte, "\u{ff}\u{0}"), "1111111100000000");
    assert_eq!(encoded(Encoding::Byte, ""), "");
    assert_eq!(colours(&Encoding::encode_byte("Hi").unwrap()), "0100100001101001");
}

#[test]
fn encode_byte_rejects_characters_beyond_latin_1() {
    assert_eq!(Encoding::Byte.encode("a\u{100}b"), Err(QrError::InvalidCharacter('\u{100}')));
    assert_eq!(Encoding::Byte.encode("\u{20ac}"), Err(QrError::InvalidCharacter('\u{20ac}')));
    assert_eq!(Encoding::char_to_iso_8859_1('\u{ff}'), Ok(255));
    assert_eq!(Encoding::char_to_iso_8859_1('A'), Ok(65));
    assert_eq!(
        Encoding::char_to_iso_8859_1('\u{100}'),
        Err(QrError::InvalidCharacter('\u{100}'))
    );
}

#[test]
fn encode_kanji_is_not_supported() {
    assert_eq!(Encoding::Kanji.encode("\u{8336}"), Err(QrError::Unsupported));
    assert_eq!(Encoding::Kanji.encode(""), Err(QrError::Unsupported));
    assert_eq!(Encoding::Kanji.encode("123"), Err(QrError::Unsupported));
}

#[test]
fn characters_are_counted_by_code_point() {
    assert_eq!(characters("caf\u{e9}"), vec!['c', 'a', 'f', '\u{e9}']);
    assert_eq!(characters(""), Vec::<char>::new());
}

#[test]
fn to_bits_str_spells_the_low_byte_of_every_character() {
    assert_eq!(colours(&to_bits_str("A")), "01000001");
    assert_eq!(colours(&to_bits_str("\u{141}")), "01000001");
    assert_eq!(colours(&to_bits_str("Hi")), "0100100001101001");
    assert!(to_bits_str("Hi").iter().all(|b| !b.is_functional()));
    assert_eq!(to_bits_str(""), Vec::<Bit>::new());
}

#[test]
fn to_bits_array_spells_bytes() {
    assert_eq!(colours(&to_bits_array(&[236])), "11101100");
    assert_eq!(colours(&to_bits_array(&[17])), "00010001");
    assert_eq!(colours(&to_bits_array(&[1, 128])), "0000000110000000");
    assert_eq!(to_bits_array(&[7, 9]), Bit::bits(&vec![7, 9]));
}
