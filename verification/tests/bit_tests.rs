use qrgen::bit::Bit;
use qrgen::bit::Bit::{One, Zero};

fn colours(bits: &[Bit]) -> String {
    bits.iter().map(|b| if b.value() { '1' } else { '0' }).collect()
}

#[test]
fn bit_reports_colour_and_reservation() {
    assert!(One(false).value());
    assert!(!Zero(true).value());
    assert!(One(true).is_functional());
    assert!(Zero(true).is_functional());
    assert!(!One(false).is_functional());
    assert!(!Zero(false).is_functional());
}

#[test]
fn bit_equality_looks_at_colour_and_reservation() {
    assert_eq!(One(true), One(true));
    assert_ne!(One(true), One(false));
    assert_ne!(One(true), Zero(true));
    assert_ne!(Zero(false), Zero(true));
}

#[test]
fn bit_new_and_invert() {
    assert_eq!(Bit::new(true, false), One(false));
    assert_eq!(Bit::new(false, true), Zero(true));
    assert_eq!(One(true).invert(), Zero(true));
    assert_eq!(Zero(false).invert(), One(false));
    assert_eq!(One(false).invert().invert(), One(false));
}

#[test]
fn bit_from_most_significant_first() {
    assert_eq!(colours(&Bit::from(0b1011, 4, false, true)), "1011");
    assert_eq!(colours(&Bit::from(779, 11, false, true)), "01100001011");
    assert_eq!(colours(&Bit::from(0x5412, 15, true, true)), "101010000010010");
}

#[test]
fn bit_from_least_significant_first() {
    assert_eq!(colours(&Bit::from(0b1011, 4, false, false)), "1101");
    assert_eq!(colours(&Bit::from(1, 3, false, false)), "100");
}

#[test]
fn bit_from_keeps_the_low_bits_only() {
    assert_eq!(colours(&Bit::from(0xff, 4, false, true)), "1111");
    assert_eq!(colours(&Bit::from(0b10110, 4, false, true)), "0110");
    assert_eq!(Bit::from(5, 0, false, true), Vec::<Bit>::new());
}

#[test]
fn bit_from_full_width() {
    let bits = Bit::from(0x8000_0001, 32, false, true);
    assert_eq!(bits.len(), 32);
    assert_eq!(bits[0], One(false));
    assert_eq!(bits[31], One(false));
    assert!(bits[1..31].iter().all(|b| *b == Zero(false)));
}

#[test]
fn bit_from_sets_the_reservation_flag() {
    assert_eq!(Bit::from(2, 2, true, true), vec![One(true), Zero(true)]);
    assert_eq!(Bit::from(2, 2, false, true), vec![One(false), Zero(false)]);
}

#[test]
fn bits_spell_bytes_most_significant_first() {
    let bits = Bit::bits(&vec![0xEC, 0x11]);
    assert_eq!(colours(&bits), "1110110000010001");
    assert!(bits.iter().all(|b| !b.is_functional()));
    assert_eq!(Bit::bits(&Vec::new()), Vec::<Bit>::new());
}

#[test]
fn bytes_pack_modules_most_significant_first() {
    let bits = Bit::from(0xEC11, 16, false, true);
    assert_eq!(Bit::bytes(&bits), vec![0xEC, 0x11]);
    assert_eq!(Bit::bytes(&Vec::new()), Vec::<u8>::new());
}

#[test]
fn bytes_fill_the_last_group_with_zeros_on_the_right() {
    let bits = vec![One(false), Zero(false), One(false)];
    assert_eq!(Bit::bytes(&bits), vec![0b1010_0000]);
    let nine = Bit::from(0x1ff, 9, false, true);
    assert_eq!(Bit::bytes(&nine), vec![0xff, 0x80]);
}

#[test]
fn bytes_ignore_the_reservation_flag() {
    let bits = Bit::from(0xA5, 8, true, true);
    assert_eq!(Bit::bytes(&bits), vec![0xA5]);
}

#[test]
fn bytes_of_bits_gives_the_bytes_back() {
    let bytes: Vec<u8> = (0..=255).collect();
    assert_eq!(Bit::bytes(&Bit::bits(&bytes)), bytes);
}

#[test]
fn bits_of_bytes_gives_whole_groups_back() {
    let mut bits = Bit::from(0xDEADBEEF, 32, false, true);
    bits.extend(Bit::from(0x0123, 16, false, false));
    assert_eq!(bits.len() % 8, 0);
    assert_eq!(Bit::bits(&Bit::bytes(&bits)), bits);
}

#[test]
fn bits_of_bytes_drops_reservation_flags() {
    let bits = Bit::from(0x3C, 8, true, true);
    let back = Bit::bits(&Bit::bytes(&bits));
    assert_ne!(back, bits);
    assert_eq!(colours(&back), colours(&bits));
}
