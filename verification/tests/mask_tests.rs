use qrgen::mask::MaskPattern;

const PATTERNS: [MaskPattern; 8] = [
    MaskPattern::Checkerboard,
    MaskPattern::Horizontal,
    MaskPattern::Vertical,
    MaskPattern::Diagonal,
    MaskPattern::LargeCheckerboard,
    MaskPattern::Fields,
    MaskPattern::Diamonds,
    MaskPattern::Meadow,
];

fn formula(index: usize, x: u32, y: u32) -> bool {
    match index {
        0 => (x + y) % 2 == 0,
        1 => y % 2 == 0,
        2 => x % 3 == 0,
        3 => (x + y) % 3 == 0,
        4 => (x / 2 + y / 3) % 2 == 0,
        5 => (x * y) % 2 + (x * y) % 3 == 0,
        6 => ((x * y) % 2 + (x * y) % 3) % 2 == 0,
        _ => ((x + y) % 2 + (x * y) % 3) % 2 == 0,
    }
}

#[test]
fn mask_ordinals_run_from_0_to_7() {
    for (index, pattern) in PATTERNS.iter().enumerate() {
        assert_eq!(pattern.ordinal() as usize, index);
        assert_eq!(MaskPattern::from_ordinal(index as u8), Some(*pattern));
    }
    assert_eq!(MaskPattern::from_ordinal(8), None);
    assert_eq!(MaskPattern::from_ordinal(255), None);
}

#[test]
fn mask_predicates_follow_their_formulas() {
    for (index, pattern) in PATTERNS.iter().enumerate() {
        let mask = pattern.get_mask();
        for x in 0..30 {
            for y in 0..30 {
                assert_eq!(mask(x, y), formula(index, x, y));
                assert_eq!(pattern.is_masked(x, y), formula(index, x, y));
            }
        }
    }
}

#[test]
fn mask_predicates_at_chosen_modules() {
    assert!(MaskPattern::Checkerboard.get_mask()(0, 0));
    assert!(!MaskPattern::Checkerboard.get_mask()(1, 0));
    assert!(MaskPattern::Horizontal.get_mask()(5, 2));
    assert!(!MaskPattern::Horizontal.get_mask()(2, 5));
    assert!(MaskPattern::Vertical.get_mask()(3, 1));
    assert!(!MaskPattern::Vertical.get_mask()(1, 3));
    assert!(MaskPattern::Diagonal.get_mask()(1, 2));
    assert!(!MaskPattern::Diagonal.get_mask()(1, 1));
    assert!(MaskPattern::LargeCheckerboard.get_mask()(1, 2));
    assert!(!MaskPattern::LargeCheckerboard.get_mask()(2, 0));
    assert!(MaskPattern::LargeCheckerboard.get_mask()(2, 3));
    assert!(MaskPattern::Fields.get_mask()(0, 7));
    assert!(MaskPattern::Fields.get_mask()(6, 1));
    assert!(!MaskPattern::Fields.get_mask()(1, 1));
    assert!(MaskPattern::Diamonds.get_mask()(1, 1));
    assert!(MaskPattern::Diamonds.get_mask()(1, 2));
    assert!(!MaskPattern::Diamonds.get_mask()(5, 7));
    assert!(MaskPattern::Meadow.get_mask()(0, 0));
    assert!(!MaskPattern::Meadow.get_mask()(1, 1));
    assert!(MaskPattern::Meadow.get_mask()(5, 7));
    assert!(MaskPattern::Meadow.get_mask()(176, 176) == formula(7, 176, 176));
}
