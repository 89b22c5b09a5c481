use qrgen::bit::Bit::{One, Zero};
use qrgen::ec::EcLevel;
use qrgen::encoding::Encoding;
use qrgen::mask::MaskPattern;
use qrgen::qrcode::QrCode;

#[test]
fn qrcode_get_returns_correct_bit() {
    let qr = QrCode::new(
        1,
        EcLevel::L,
        MaskPattern::Checkerboard,
        Encoding::Alphanumeric,
    ).unwrap();
    assert!(matches!(qr.get(0, 0), Some(Zero(_))));
}

#[test]
fn qrcode_get_returns_none_for_out_of_bounds() {
    let qr = QrCode::new(
        1,
        EcLevel::L,
        MaskPattern::Checkerboard,
        Encoding::Alphanumeric,
    ).unwrap();
    assert_eq!(qr.get(100, 100), None);
}

#[test]
fn qrcode_new_returns_error_for_invalid_version() {
    let result = QrCode::new(
        41,
        EcLevel::L,
        MaskPattern::Checkerboard,
        Encoding::Alphanumeric,
    );
    assert!(result.is_err());
}

#[test]
fn qrcode_new_creates_qrcode_with_correct_size() {
    let qr = QrCode::new(
        1,
        EcLevel::L,
        MaskPattern::Checkerboard,
        Encoding::Alphanumeric,
    ).unwrap();
    assert_eq!(qr.size(), 21);
}

#[test]
fn qrcode_size_from_version_calculates_correct_size() {
    assert_eq!(QrCode::size_from_version(1), 21);
    assert_eq!(QrCode::size_from_version(40), 177);
}

#[test]
fn qrcode_new_creates_qrcode_with_valid_version() {
    let qr = QrCode::new(
        10,
        EcLevel::M,
        MaskPattern::Checkerboard,
        Encoding::Alphanumeric,
    ).unwrap();
    assert_eq!(qr.version(), 10);
    assert_eq!(qr.size(), 57);
}

#[test]
fn qrcode_new_creates_qrcode_with_correct_ec_level() {
    let qr = QrCode::new(
        5,
        EcLevel::Q,
        MaskPattern::Checkerboard,
        Encoding::Alphanumeric,
    ).unwrap();
    match qr.ec_level() {
        EcLevel::Q => assert!(true),
        _ => assert!(false, "Expected EcLevel::Q"),
    }
}

#[test]
fn qrcode_new_creates_qrcode_with_correct_data_size() {
    let qr = QrCode::new(
        2,
        EcLevel::H,
        MaskPattern::Checkerboard,
        Encoding::Alphanumeric,
    ).unwrap();
    assert_eq!(qr.data().len(), 625);
}

#[test]
fn qrcode_new_returns_error_for_zero_version() {
    let result = QrCode::new(
        0,
        EcLevel::L,
        MaskPattern::Checkerboard,
        Encoding::Alphanumeric,
    );
    assert!(result.is_err());
    assert_eq!(
        result.err().map(|e| e.message()),
        Some("Invalid version.".to_string())
    );
}

#[test]
fn qrcode_new_returns_error_for_negative_version() {
    let result = QrCode::new(
        -1i8 as u8,
        EcLevel::L,
        MaskPattern::Checkerboard,
        Encoding::Alphanumeric,
    );
    assert!(result.is_err());
    assert_eq!(
        result.err().map(|e| e.message()),
        Some("Invalid version.".to_string())
    );
}

#[test]
fn qrcode_size_from_version_calculates_size_for_min_version() {
    assert_eq!(QrCode::size_from_version(1), 21);
}

#[test]
fn qrcode_size_from_version_calculates_size_for_max_version() {
    assert_eq!(QrCode::size_from_version(40), 177);
}

#[test]
fn qrcode_size_from_version_calculates_size_for_intermediate_version() {
    assert_eq!(QrCode::size_from_version(20), 97);
}

#[test]
fn qrcode_size_from_version_calculates_size_for_large_version() {
    assert_eq!(QrCode::size_from_version(100), 417);
}

#[test]
fn qrcode_finder_patterns_creates_correct_patterns() {
    let mut qr = QrCode::new(
        1,
        EcLevel::L,
        MaskPattern::Checkerboard,
        Encoding::Alphanumeric,
    ).unwrap();
    qr.finder_patterns();
    let expected_pattern = [
        (0, 0),
        (1, 0),
        (2, 0),
        (3, 0),
        (4, 0),
        (5, 0),
        (6, 0),
        (0, 1),
        (6, 1),
        (0, 2),
        (6, 2),
        (0, 3),
        (6, 3),
        (0, 4),
        (6, 4),
        (0, 5),
        (6, 5),
        (0, 6),
        (1, 6),
        (2, 6),
        (3, 6),
        (4, 6),
        (5, 6),
        (6, 6),
    ];
    for &(x, y) in &expected_pattern {
        assert_eq!(qr.get(x, y), Some(One(true)));
    }
}

#[test]
fn qrcode_finder_patterns_handles_minimum_size() {
    let mut qr = QrCode::new(
        1,
        EcLevel::L,
        MaskPattern::Checkerboard,
        Encoding::Alphanumeric,
    ).unwrap();
    qr.finder_patterns();
    assert!(matches!(qr.get(0, 0), Some(One(_))));
    assert!(matches!(qr.get(20, 20), Some(Zero(_))));
}

#[test]
fn qrcode_finder_patterns_handles_maximum_size() {
    let mut qr = QrCode::new(
        40,
        EcLevel::L,
        MaskPattern::Checkerboard,
        Encoding::Alphanumeric,
    ).unwrap();
    qr.finder_patterns();
    assert!(matches!(qr.get(0, 0), Some(One(_))));
    assert!(matches!(qr.get(176, 176), Some(Zero(_))));
}
