use qrgen::bit::Bit;
use qrgen::bit::Bit::{One, Zero};
use qrgen::ec::EcLevel;
use qrgen::encoding::Encoding;
use qrgen::error::QrError;
use qrgen::generate;
use qrgen::layout::Pattern;
use qrgen::mask::MaskPattern;
use qrgen::qrcode::{BuilderStage, QrCode};
use qrgen::preprocessor::Preprocessor;
use qrgen::tables::alignment::alignment_positions;
use qrgen::tables::blocks::{block_structure_entry, ec_codewords_entry};
use qrgen::tables::info::{format_bits, version_bits};

fn blank(version: u8) -> QrCode {
    QrCode::new(version, EcLevel::M, MaskPattern::Checkerboard, Encoding::Byte).unwrap()
}

// A row of modules given as digits, drawn with two characters a module.
fn concat_row(rows: &[&str]) -> String {
    rows.iter()
        .flat_map(|row| row.chars())
        .map(|c| if c == '1' { "\u{2588}\u{2588}" } else { "  " })
        .collect()
}

fn reserved_count(code: &QrCode) -> usize {
    code.data().iter().filter(|b| b.is_functional()).count()
}

#[test]
fn side_length_is_17_plus_4_times_the_version() {
    for version in 1..=40u8 {
        let code = blank(version);
        assert_eq!(code.size(), 17 + 4 * version as u32);
        assert_eq!(QrCode::size_from_version(version), 17 + 4 * version as u32);
        assert_eq!(code.data().len(), (code.size() * code.size()) as usize);
        assert!(code.data().iter().all(|b| *b == Zero(false)));
    }
}

#[test]
fn new_rejects_versions_outside_1_to_40() {
    for version in [0u8, 41, 42, 100, 255] {
        let result = QrCode::new(version, EcLevel::L, MaskPattern::Meadow, Encoding::Byte);
        assert_eq!(result.err(), Some(QrError::InvalidVersion));
    }
    assert!(QrCode::new(40, EcLevel::L, MaskPattern::Meadow, Encoding::Byte).is_ok());
}

#[test]
fn coordinates_map_to_rows_of_the_storage() {
    assert_eq!(QrCode::coords_to_index(0, 0, 21), Some(0));
    assert_eq!(QrCode::coords_to_index(20, 0, 21), Some(20));
    assert_eq!(QrCode::coords_to_index(0, 1, 21), Some(21));
    assert_eq!(QrCode::coords_to_index(20, 20, 21), Some(440));
    assert_eq!(QrCode::coords_to_index(21, 0, 21), None);
    assert_eq!(QrCode::coords_to_index(0, 21, 21), None);
    assert_eq!(QrCode::coords_to_index_from_version(3, 2, 1), Some(45));
    assert_eq!(QrCode::coords_to_index_from_version(176, 176, 40), Some(177 * 177 - 1));
    assert_eq!(QrCode::coords_to_index_from_version(177, 0, 40), None);
    let code = blank(2);
    assert_eq!(code.coords_to_index_from_instance(24, 24), Some(624));
    assert_eq!(code.coords_to_index_from_instance(25, 24), None);
}

#[test]
fn finder_pattern_has_rings_and_core() {
    let mut code = blank(3);
    code.finder_patterns();
    let size = code.size();
    for (cx, cy) in [(0, 0), (size - 7, 0), (0, size - 7)] {
        for dx in 0..7u32 {
            for dy in 0..7u32 {
                let ring = (dx as i32 - 3).abs().max((dy as i32 - 3).abs());
                let expected = if ring == 2 { Zero(true) } else { One(true) };
                assert_eq!(code.get(cx + dx, cy + dy), Some(expected));
            }
        }
    }
    assert_eq!(reserved_count(&code), 3 * 49);
    assert_eq!(code.get(size - 1, size - 1), Some(Zero(false)));
    assert_eq!(code.stage(), BuilderStage::Empty);
}

#[test]
fn separators_are_light_and_reserved() {
    let mut code = blank(1);
    code.separators_patterns();
    for i in 0..8 {
        assert_eq!(code.get(7, i), Some(Zero(true)));
        assert_eq!(code.get(13, i), Some(Zero(true)));
        assert_eq!(code.get(7, 13 + i), Some(Zero(true)));
    }
    for i in 0..7 {
        assert_eq!(code.get(i, 7), Some(Zero(true)));
        assert_eq!(code.get(14 + i, 7), Some(Zero(true)));
        assert_eq!(code.get(i, 13), Some(Zero(true)));
    }
    assert_eq!(reserved_count(&code), 45);
}

#[test]
fn pattern_modules() {
    assert_eq!(Pattern::Finder.module(0, 3), One(true));
    assert_eq!(Pattern::Finder.module(1, 3), Zero(true));
    assert_eq!(Pattern::Finder.module(3, 3), One(true));
    assert_eq!(Pattern::Alignment.module(2, 2), One(true));
    assert_eq!(Pattern::Alignment.module(1, 2), Zero(true));
    assert_eq!(Pattern::Alignment.module(4, 0), One(true));
    assert_eq!(Pattern::Light.module(0, 0), Zero(true));
    assert_eq!(Pattern::Dark.module(0, 0), One(true));
}

#[test]
fn combination_pairs_every_coordinate_with_every_coordinate() {
    assert_eq!(
        QrCode::combination(&[6, 22, 38]),
        vec![(6, 6), (6, 22), (6, 38), (22, 6), (22, 22), (22, 38), (38, 6), (38, 22), (38, 38)]
    );
    assert_eq!(QrCode::combination(&[]), vec![]);
    assert_eq!(QrCode::combination(&[9]), vec![(9, 9)]);
}

#[test]
fn alignment_coordinates_of_the_versions() {
    assert_eq!(alignment_positions(1), Vec::<u8>::new());
    assert_eq!(alignment_positions(2), vec![6, 18]);
    assert_eq!(alignment_positions(7), vec![6, 22, 38]);
    assert_eq!(alignment_positions(32), vec![6, 34, 60, 86, 112, 138]);
    assert_eq!(alignment_positions(40), vec![6, 30, 58, 86, 114, 142, 170]);
    for version in 2..=40u8 {
        let coords = alignment_positions(version);
        assert_eq!(coords.len(), version as usize / 7 + 2);
        assert_eq!(coords[0], 6);
        assert_eq!(*coords.last().unwrap() as u32, 4 * version as u32 + 10);
    }
}

#[test]
fn draw_alignment_pattern_draws_on_a_free_centre() {
    let mut code = blank(2);
    code.draw_alignment_pattern(18, 18);
    for dx in 0..5u32 {
        for dy in 0..5u32 {
            let ring = (dx as i32 - 2).abs().max((dy as i32 - 2).abs());
            let expected = if ring == 1 { Zero(true) } else { One(true) };
            assert_eq!(code.get(16 + dx, 16 + dy), Some(expected));
        }
    }
    assert_eq!(reserved_count(&code), 25);
}

#[test]
fn draw_alignment_pattern_skips_a_reserved_centre() {
    let mut code = blank(2);
    code.finder_patterns();
    let before: Vec<Bit> = code.data().clone();
    code.draw_alignment_pattern(6, 6);
    code.draw_alignment_pattern(18, 6);
    code.draw_alignment_pattern(6, 18);
    assert_eq!(*code.data(), before);
}

#[test]
fn alignment_patterns_skip_the_three_that_fall_on_finder_patterns() {
    for version in 1..=40u8 {
        let mut code = blank(version);
        code.finder_patterns();
        code.separators_patterns();
        let before = reserved_count(&code);
        code.alignment_patterns();
        let n = alignment_positions(version).len();
        let drawn = if version == 1 { 0 } else { n * n - 3 };
        assert_eq!(reserved_count(&code) - before, 25 * drawn, "version {}", version);
        for &x in &alignment_positions(version) {
            for &y in &alignment_positions(version) {
                assert_eq!(code.get(x as u32, y as u32), Some(One(true)));
            }
        }
    }
}

#[test]
fn timing_patterns_alternate_and_skip_reserved_modules() {
    let mut code = blank(2);
    code.draw_alignment_pattern(18, 6);
    let before: Vec<Bit> = code.data().clone();
    code.timing_patterns();
    let size = code.size();
    for i in 8..size - 8 {
        let expected = if i % 2 == 0 { One(true) } else { Zero(true) };
        assert_eq!(code.get(6, i), Some(expected));
        if (16..=20).contains(&i) {
            assert_eq!(code.get(i, 6), Some(before[(i + size * 6) as usize]));
        } else {
            assert_eq!(code.get(i, 6), Some(expected));
        }
    }
    assert_eq!(code.get(7, 6), Some(Zero(false)));
    assert_eq!(code.get(6, 7), Some(Zero(false)));
    assert_eq!(code.get(6, size - 8), Some(Zero(false)));
    assert_eq!(reserved_count(&code), 25 + 2 * (size as usize - 16) - 1);
}

#[test]
fn dark_module_sits_beside_the_bottom_left_finder() {
    for version in [1u8, 7, 40] {
        let mut code = blank(version);
        code.dark_module();
        assert_eq!(code.get(8, 4 * version as u32 + 9), Some(One(true)));
        assert_eq!(reserved_count(&code), 1);
    }
}

#[test]
fn format_words() {
    assert_eq!(format_bits(0, 0), 0x77c4);
    assert_eq!(format_bits(1, 0), 0x5412);
    assert_eq!(format_bits(2, 0), 0x355f);
    assert_eq!(format_bits(3, 7), 0x083b);
    assert_eq!(version_bits(7), 0x07c94);
    assert_eq!(version_bits(40), 0x28c69);
}

#[test]
fn format_information_is_written_twice() {
    // Level Q with mask 5: the word 0x2183, 010000110000011 in binary.
    let mut code = QrCode::new(1, EcLevel::Q, MaskPattern::Fields, Encoding::Byte).unwrap();
    code.format_information();
    let bits: Vec<bool> = "010000110000011".chars().map(|c| c == '1').collect();
    let first = [
        (0, 8), (1, 8), (2, 8), (3, 8), (4, 8), (5, 8), (7, 8), (8, 8),
        (8, 7), (8, 5), (8, 4), (8, 3), (8, 2), (8, 1), (8, 0),
    ];
    let second = [
        (8, 20), (8, 19), (8, 18), (8, 17), (8, 16), (8, 15), (8, 14),
        (13, 8), (14, 8), (15, 8), (16, 8), (17, 8), (18, 8), (19, 8), (20, 8),
    ];
    for (i, &dark) in bits.iter().enumerate() {
        let expected = if dark { One(true) } else { Zero(true) };
        assert_eq!(code.get(first[i].0, first[i].1), Some(expected));
        assert_eq!(code.get(second[i].0, second[i].1), Some(expected));
    }
    assert_eq!(code.get(6, 8), Some(Zero(false)));
    assert_eq!(code.get(8, 6), Some(Zero(false)));
    assert_eq!(code.get(8, 13), Some(Zero(false)));
    assert_eq!(reserved_count(&code), 30);
}

#[test]
fn version_information_is_written_twice() {
    // Version 7: the word 0x07c94, 000111110010010100 in binary.
    let mut code = blank(7);
    code.version_information();
    let size = code.size();
    let bits: Vec<bool> = "000111110010010100".chars().map(|c| c == '1').collect();
    for (i, &dark) in bits.iter().enumerate() {
        let expected = if dark { One(true) } else { Zero(true) };
        let (a, b) = (i as u32 / 3, size - 11 + i as u32 % 3);
        assert_eq!(code.get(a, b), Some(expected));
        assert_eq!(code.get(b, a), Some(expected));
    }
    assert_eq!(reserved_count(&code), 36);
}

#[test]
fn fill_walks_the_columns_in_pairs_from_the_right() {
    let mut code = blank(1);
    code.all_functional_patterns();
    let stream: Vec<Bit> = (0..26 * 8).map(|_| One(false)).collect();
    let mut marked = stream.clone();
    // Mark the bits at a few places of the stream to see where they land.
    marked[0] = Zero(false);
    marked[1] = Zero(false);
    marked[2] = Zero(false);
    marked[24] = Zero(false);
    marked[207] = Zero(false);
    code.fill(&marked);
    assert_eq!(code.stage(), BuilderStage::DataPlaced);
    assert_eq!(code.get(20, 20), Some(Zero(false)));
    assert_eq!(code.get(19, 20), Some(Zero(false)));
    assert_eq!(code.get(20, 19), Some(Zero(false)));
    assert_eq!(code.get(19, 19), Some(One(false)));
    // After twelve rows of two modules the walk turns at the format
    // information and comes down the next pair of columns.
    assert_eq!(code.get(18, 9), Some(Zero(false)));
    assert_eq!(code.get(17, 9), Some(One(false)));
    // The last bit lands in the leftmost column, where the walk comes down
    // to the separator of the bottom left finder pattern: the pairs left of
    // the timing column are 5-4, 3-2 and 1-0.
    assert_eq!(code.get(0, 12), Some(Zero(false)));
    assert_eq!(code.get(1, 12), Some(One(false)));
    assert_eq!(code.get(0, 9), Some(One(false)));
    let free: usize = code.data().iter().filter(|b| !b.is_functional()).count();
    assert_eq!(free, 208);
}

#[test]
fn fill_stops_when_the_stream_ends() {
    let mut code = blank(1);
    code.all_functional_patterns();
    let reserved_before = reserved_count(&code);
    code.fill(&vec![One(false); 10]);
    assert_eq!(code.data().iter().filter(|b| **b == One(false)).count(), 10);
    assert_eq!(reserved_count(&code), reserved_before);
    assert_eq!(code.get(16, 20), Some(Zero(false)));
}

#[test]
fn fill_drops_what_finds_no_module() {
    let mut code = blank(1);
    code.all_functional_patterns();
    code.fill(&vec![One(false); 1000]);
    assert_eq!(code.data().iter().filter(|b| **b == One(false)).count(), 208);
}

#[test]
fn fill_and_mask_leave_reserved_modules_alone() {
    for mask in 0..8u8 {
        let pattern = MaskPattern::from_ordinal(mask).unwrap();
        let mut code = QrCode::new(7, EcLevel::H, pattern, Encoding::Byte).unwrap();
        code.all_functional_patterns();
        let functions: Vec<Bit> = code.data().clone();
        code.fill(&vec![One(false); 700]);
        code.apply_mask();
        assert_eq!(code.stage(), BuilderStage::Masked);
        for (after, before) in code.data().iter().zip(functions.iter()) {
            if before.is_functional() {
                assert_eq!(after, before);
            } else {
                assert!(!after.is_functional());
            }
        }
    }
}

#[test]
fn finished_symbol_keeps_its_function_patterns() {
    let text = "RESERVED MODULES STAY";
    let code = generate(text, Encoding::Alphanumeric, EcLevel::M, MaskPattern::Diamonds).unwrap();
    let mut functions =
        QrCode::new(code.version(), EcLevel::M, MaskPattern::Diamonds, Encoding::Alphanumeric)
            .unwrap();
    functions.all_functional_patterns();
    for (module, function) in code.data().iter().zip(functions.data().iter()) {
        assert_eq!(module.is_functional(), function.is_functional());
        if function.is_functional() {
            assert_eq!(module, function);
        }
    }
}

#[test]
fn apply_mask_inverts_the_covered_modules_that_are_not_reserved() {
    for mask in 0..8u8 {
        let pattern = MaskPattern::from_ordinal(mask).unwrap();
        let mut code = QrCode::new(2, EcLevel::L, pattern, Encoding::Byte).unwrap();
        code.all_functional_patterns();
        code.fill(&Vec::new());
        let before: Vec<Bit> = code.data().clone();
        code.apply_mask();
        let size = code.size();
        for y in 0..size {
            for x in 0..size {
                let was = before[(x + size * y) as usize];
                let covered = pattern.is_masked(x, y);
                let expected = if !was.is_functional() && covered { was.invert() } else { was };
                assert_eq!(code.get(x, y), Some(expected));
            }
        }
    }
}

#[test]
fn render_shows_the_symbol_inside_a_quiet_zone() {
    let code = generate("1", Encoding::Numeric, EcLevel::L, MaskPattern::Checkerboard).unwrap();
    let picture = code.render();
    let lines: Vec<&str> = picture.split('\n').collect();
    assert_eq!(lines.len(), 30);
    assert_eq!(lines[29], "");
    let quiet = " ".repeat(58);
    for line in lines[..4].iter().chain(lines[25..29].iter()) {
        assert_eq!(*line, quiet);
    }
    assert_eq!(
        lines[4],
        format!(
            "{}{}{}",
            " ".repeat(8),
            concat_row(&["111111100101101111111"]),
            " ".repeat(8)
        )
    );
    for (y, line) in lines[4..25].iter().enumerate() {
        let chars: Vec<char> = line.chars().collect();
        assert_eq!(chars.len(), 58);
        for x in 0..29usize {
            let dark = x >= 4
                && x < 25
                && code.get(x as u32 - 4, y as u32).unwrap().value();
            let expected = if dark { '\u{2588}' } else { ' ' };
            assert_eq!(chars[2 * x], expected);
            assert_eq!(chars[2 * x + 1], expected);
        }
    }
}

#[test]
fn codewords_fill_the_free_modules_of_every_symbol() {
    for version in 1..=40u8 {
        let mut code = blank(version);
        code.all_functional_patterns();
        let free = code.data().iter().filter(|b| !b.is_functional()).count();
        let v = version as usize;
        let n = if version >= 2 { v / 7 + 2 } else { 0 };
        let mut expected = 16 * v * v + 128 * v + 64;
        if version >= 2 {
            expected -= 25 * n * n - 10 * n - 55;
        }
        if version >= 7 {
            expected -= 36;
        }
        assert_eq!(free, expected, "version {}", version);
        for level in 0..4u8 {
            let (s1, c1, s2, c2) = block_structure_entry(version, level);
            let codewords = s1 * c1 + s2 * c2 + (c1 + c2) * ec_codewords_entry(version, level);
            assert!(8 * codewords <= free && free < 8 * codewords + 8);
        }
    }
}

#[test]
fn leftover_modules_stay_light_until_the_mask() {
    // Version 2 has seven modules more than its codewords need.
    let text = "0123456789012345678901234567890123456789012";
    let prepared = Preprocessor::new(
        text,
        Encoding::Numeric,
        EcLevel::L,
        MaskPattern::Horizontal,
    )
    .unwrap();
    assert_eq!(prepared.version(), 2);
    assert_eq!(prepared.bits().len(), 8 * 44);
    let mut code =
        QrCode::new(2, EcLevel::L, MaskPattern::Horizontal, Encoding::Numeric).unwrap();
    code.all_functional_patterns();
    let ones = vec![One(false); prepared.bits().len()];
    code.fill(&ones);
    let light: Vec<(u32, u32)> = (0..25u32)
        .flat_map(|y| (0..25u32).map(move |x| (x, y)))
        .filter(|&(x, y)| code.get(x, y) == Some(Zero(false)))
        .collect();
    // The walk ends in the leftmost pair of columns, going down.
    assert_eq!(light, vec![(0, 13), (0, 14), (1, 14), (0, 15), (1, 15), (0, 16), (1, 16)]);
}
