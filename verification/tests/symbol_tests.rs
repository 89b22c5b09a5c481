use qrgen::bit::Bit;
use qrgen::ec::EcLevel;
use qrgen::encoding::Encoding;
use qrgen::generate;
use qrgen::mask::MaskPattern;
use qrgen::preprocessor::Preprocessor;
use qrgen::qrcode::{BuilderStage, QrCode};

// Rows of a symbol as text: `#` and `.` for dark and light reserved
// modules, `1` and `0` for dark and light modules that are not reserved.
fn picture(code: &QrCode) -> Vec<String> {
    let size = code.size();
    let mut rows = Vec::new();
    for y in 0..size {
        let mut row = String::new();
        for x in 0..size {
            row.push(match code.get(x, y).unwrap() {
                Bit::One(true) => '#',
                Bit::Zero(true) => '.',
                Bit::One(false) => '1',
                Bit::Zero(false) => '0',
            });
        }
        rows.push(row);
    }
    rows
}

fn fingerprint(rows: &[String]) -> u64 {
    let mut hash: u64 = 0xcbf29ce484222325;
    for row in rows {
        for byte in row.bytes().chain("\n".bytes()) {
            hash ^= byte as u64;
            hash = hash.wrapping_mul(0x100000001b3);
        }
    }
    hash
}

fn stream_bytes(text: &str, mode: Encoding, ec: EcLevel) -> (u8, Vec<u8>) {
    let prepared = Preprocessor::new(text, mode, ec, MaskPattern::Checkerboard).unwrap();
    (prepared.version(), Bit::bytes(prepared.bits()))
}

#[test]
fn generate_single_digit_gives_version_1() {
    let code = generate("1", Encoding::Numeric, EcLevel::L, MaskPattern::Checkerboard).unwrap();
    assert_eq!(code.version(), 1);
    assert_eq!(code.size(), 21);
    assert_eq!(code.data().len(), 441);
    assert_eq!(code.stage(), BuilderStage::Masked);
    let expected = [
        "#######..1011.#######",
        "#.....#..1110.#.....#",
        "#.###.#.#1011.#.###.#",
        "#.###.#..1010.#.###.#",
        "#.###.#..0101.#.###.#",
        "#.....#..0001.#.....#",
        "#######.#.#.#.#######",
        "........#1011........",
        "###.#####1110##...#..",
        "000101.01010001000110",
        "110100#11100100010001",
        "001101.10100001000110",
        "001011#10000101010111",
        "........#011010101010",
        "#######.#001011101111",
        "#.....#.#001110111010",
        "#.###.#.#001011101101",
        "#.###.#..100001000110",
        "#.###.#.#000100010001",
        "#.....#.#100001000100",
        "#######.#010101010101",
    ];
    assert_eq!(picture(&code), expected);
}

#[test]
fn generate_hello_world_gives_the_known_symbol() {
    let code = generate("HELLO WORLD", Encoding::Alphanumeric, EcLevel::Q, MaskPattern::Horizontal).unwrap();
    assert_eq!(code.version(), 1);
    assert_eq!(code.size(), 21);
    assert_eq!(code.data().len(), 441);
    assert_eq!(code.stage(), BuilderStage::Masked);
    let expected = [
        "#######..0010.#######",
        "#.....#..1000.#.....#",
        "#.###.#..1001.#.###.#",
        "#.###.#.#1010.#.###.#",
        "#.###.#..1110.#.###.#",
        "#.....#.#1110.#.....#",
        "#######.#.#.#.#######",
        "........#1010........",
        ".##...#..1011.##.#...",
        "000101.11010010111011",
        "011000#00011011110010",
        "001110.00110000000100",
        "110111#11110111011111",
        "........#000011101111",
        "#######..111010000110",
        "#.....#..000111000010",
        "#.###.#..111011010101",
        "#.###.#..000000001000",
        "#.###.#.#100001000011",
        "#.....#.#110100100001",
        "#######..100001001011",
    ];
    assert_eq!(picture(&code), expected);
}

#[test]
fn hello_world_stream_is_the_known_codewords() {
    let (version, codewords) = stream_bytes("HELLO WORLD", Encoding::Alphanumeric, EcLevel::Q);
    assert_eq!(version, 1);
    assert_eq!(codewords, vec![32, 91, 11, 120, 209, 114, 220, 77, 67, 64, 236, 17, 236, 168, 72, 22, 82, 217, 54, 156, 0, 46, 15, 180, 122, 16]);
}

#[test]
fn empty_text_is_padded_with_alternating_pad_codewords() {
    let (version, codewords) = stream_bytes("", Encoding::Numeric, EcLevel::L);
    assert_eq!(version, 1);
    assert_eq!(codewords, vec![16, 0, 0, 236, 17, 236, 17, 236, 17, 236, 17, 236, 17, 236, 17, 236, 17, 236, 17, 142, 193, 201, 0, 4, 69, 215]);
}

#[test]
fn generate_empty_text_gives_version_1() {
    let code = generate("", Encoding::Numeric, EcLevel::L, MaskPattern::Checkerboard).unwrap();
    assert_eq!(code.version(), 1);
    assert_eq!(code.size(), 21);
    assert_eq!(code.data().len(), 441);
    assert_eq!(code.stage(), BuilderStage::Masked);
    let expected = [
        "#######..1011.#######",
        "#.....#..1110.#.....#",
        "#.###.#.#1011.#.###.#",
        "#.###.#..1010.#.###.#",
        "#.###.#..0101.#.###.#",
        "#.....#..0001.#.....#",
        "#######.#.#.#.#######",
        "........#1011........",
        "###.#####1110##...#..",
        "101101.10110001000110",
        "000010#01010100010001",
        "110111.10010001000110",
        "010010#01000101010101",
        "........#011010101010",
        "#######.#011011101101",
        "#.....#.#101110111010",
        "#.###.#.#111011101101",
        "#.###.#..010001000110",
        "#.###.#.#010100010001",
        "#.....#.#110001000100",
        "#######.#110101010101",
    ];
    assert_eq!(picture(&code), expected);
}

#[test]
fn single_digit_stream() {
    let (version, codewords) = stream_bytes("1", Encoding::Numeric, EcLevel::L);
    assert_eq!(version, 1);
    assert_eq!(codewords, vec![16, 4, 64, 236, 17, 236, 17, 236, 17, 236, 17, 236, 17, 236, 17, 236, 17, 236, 17, 242, 230, 32, 199, 18, 28, 169]);
}

#[test]
fn byte_mode_stream_of_latin_1_text() {
    let (version, codewords) = stream_bytes("caf\u{e9} \u{fc}ber", Encoding::Byte, EcLevel::M);
    assert_eq!(version, 1);
    assert_eq!(codewords, vec![64, 150, 54, 22, 110, 146, 15, 198, 38, 87, 32, 236, 17, 236, 17, 236, 231, 230, 216, 189, 47, 243, 246, 141, 164, 25]);
}

#[test]
fn stream_of_a_symbol_with_two_groups_of_blocks() {
    let (version, codewords) = stream_bytes("THE QUICK BROWN FOX JUMPS OVER THE LAZY DOG 0123456789 $%*+-./: AND BACK AGAIN", Encoding::Alphanumeric, EcLevel::Q);
    assert_eq!(version, 5);
    assert_eq!(codewords, vec![34, 45, 21, 217, 117, 213, 232, 77, 42, 251, 0, 167, 83, 209, 66, 229, 82, 8, 232, 24, 193, 174, 185, 101, 155, 164, 34, 229, 58, 115, 165, 180, 132, 139, 199, 208, 21, 11, 60, 64, 22, 205, 237, 236, 33, 39, 94, 17, 122, 151, 99, 236, 187, 15, 227, 17, 190, 38, 127, 236, 1, 17, 44, 68, 217, 186, 240, 123, 148, 222, 231, 28, 188, 59, 204, 166, 44, 49, 148, 192, 129, 18, 90, 107, 114, 145, 118, 227, 0, 104, 198, 84, 122, 57, 122, 12, 141, 50, 45, 149, 103, 175, 173, 224, 233, 185, 255, 131, 69, 174, 207, 253, 44, 164, 178, 46, 142, 166, 136, 197, 103, 170, 111, 231, 236, 58, 197, 123, 39, 251, 22, 158, 195, 200]);
}

#[test]
fn generate_with_mask_checkerboard() {
    let code = generate("MASKS 0-7 $%*+-./:", Encoding::Alphanumeric, EcLevel::M, MaskPattern::Checkerboard).unwrap();
    assert_eq!(code.version(), 1);
    assert_eq!(code.size(), 21);
    let rows = picture(&code);
    assert_eq!(rows[0], "#######..0010.#######");
    assert_eq!(rows[20], "#######.#101000010101");
    assert_eq!(fingerprint(&rows), 0x0eda7d31f847e055);
}

#[test]
fn generate_with_mask_horizontal() {
    let code = generate("MASKS 0-7 $%*+-./:", Encoding::Alphanumeric, EcLevel::M, MaskPattern::Horizontal).unwrap();
    assert_eq!(code.version(), 1);
    assert_eq!(code.size(), 21);
    let rows = picture(&code);
    assert_eq!(rows[0], "#######.#1000.#######");
    assert_eq!(rows[20], "#######.#000010111111");
    assert_eq!(fingerprint(&rows), 0xf0b3651d37576857);
}

#[test]
fn generate_with_mask_vertical() {
    let code = generate("MASKS 0-7 $%*+-./:", Encoding::Alphanumeric, EcLevel::M, MaskPattern::Vertical).unwrap();
    assert_eq!(code.version(), 1);
    assert_eq!(code.size(), 21);
    let rows = picture(&code);
    assert_eq!(rows[0], "#######..1110.#######");
    assert_eq!(rows[20], "#######.#011001100100");
    assert_eq!(fingerprint(&rows), 0xe5fa2ec0d085f7c7);
}

#[test]
fn generate_with_mask_diagonal() {
    let code = generate("MASKS 0-7 $%*+-./:", Encoding::Alphanumeric, EcLevel::M, MaskPattern::Diagonal).unwrap();
    assert_eq!(code.version(), 1);
    assert_eq!(code.size(), 21);
    let rows = picture(&code);
    assert_eq!(rows[0], "#######.#1110.#######");
    assert_eq!(rows[20], "#######.#101111010010");
    assert_eq!(fingerprint(&rows), 0x5a0c46ff34aa9549);
}

#[test]
fn generate_with_mask_largecheckerboard() {
    let code = generate("MASKS 0-7 $%*+-./:", Encoding::Alphanumeric, EcLevel::M, MaskPattern::LargeCheckerboard).unwrap();
    assert_eq!(code.version(), 1);
    assert_eq!(code.size(), 21);
    let rows = picture(&code);
    assert_eq!(rows[0], "#######.#1110.#######");
    assert_eq!(rows[20], "#######.#011011011001");
    assert_eq!(fingerprint(&rows), 0x73fbb53d5ace870b);
}

#[test]
fn generate_with_mask_fields() {
    let code = generate("MASKS 0-7 $%*+-./:", Encoding::Alphanumeric, EcLevel::M, MaskPattern::Fields).unwrap();
    assert_eq!(code.version(), 1);
    assert_eq!(code.size(), 21);
    let rows = picture(&code);
    assert_eq!(rows[0], "#######..1000.#######");
    assert_eq!(rows[20], "#######.#011001100100");
    assert_eq!(fingerprint(&rows), 0x6ef20ac17378c625);
}

#[test]
fn generate_with_mask_diamonds() {
    let code = generate("MASKS 0-7 $%*+-./:", Encoding::Alphanumeric, EcLevel::M, MaskPattern::Diamonds).unwrap();
    assert_eq!(code.version(), 1);
    assert_eq!(code.size(), 21);
    let rows = picture(&code);
    assert_eq!(rows[0], "#######.#1000.#######");
    assert_eq!(rows[20], "#######.#001011110110");
    assert_eq!(fingerprint(&rows), 0x9507966244e3b05d);
}

#[test]
fn generate_with_mask_meadow() {
    let code = generate("MASKS 0-7 $%*+-./:", Encoding::Alphanumeric, EcLevel::M, MaskPattern::Meadow).unwrap();
    assert_eq!(code.version(), 1);
    assert_eq!(code.size(), 21);
    let rows = picture(&code);
    assert_eq!(rows[0], "#######..0010.#######");
    assert_eq!(rows[20], "#######.#100001011100");
    assert_eq!(fingerprint(&rows), 0x900254066e24805b);
}

#[test]
fn generate_version_7_carries_version_information() {
    let code = generate(&"x".repeat(110), Encoding::Byte, EcLevel::M, MaskPattern::Diagonal).unwrap();
    assert_eq!(code.version(), 7);
    assert_eq!(code.size(), 45);
    let rows = picture(&code);
    assert_eq!(rows[0], "#######.#0001000110101110101011001....#######");
    assert_eq!(rows[44], "#######.#000011101100011010110000010101001100");
    assert_eq!(fingerprint(&rows), 0x9666bb1f827381cd);
}

#[test]
fn generate_symbol_with_two_groups_of_blocks() {
    let code = generate("THE QUICK BROWN FOX JUMPS OVER THE LAZY DOG 0123456789 $%*+-./: AND BACK AGAIN", Encoding::Alphanumeric, EcLevel::Q, MaskPattern::Vertical).unwrap();
    assert_eq!(code.version(), 5);
    assert_eq!(code.size(), 37);
    let rows = picture(&code);
    assert_eq!(rows[0], "#######.#01010100111100001100.#######");
    assert_eq!(rows[36], "#######..0000010000011010010000100001");
    assert_eq!(fingerprint(&rows), 0x0b0b447c46c720a1);
}

#[test]
fn generate_largest_alphanumeric_symbol() {
    let code = generate(&"A".repeat(4296), Encoding::Alphanumeric, EcLevel::L, MaskPattern::Checkerboard).unwrap();
    assert_eq!(code.version(), 40);
    assert_eq!(code.size(), 177);
    let rows = picture(&code);
    assert_eq!(rows[0], "#######..1000110101011010100010010001010101000000110100001100001101000110010101001101000110110011100101100011010011001001110011011001011000110010111001101000111000011#.#.#######");
    assert_eq!(rows[176], "#######.#100101111101011111001011001100111001101000111010011011100100100101011000100101110110111001001010110110011001001101010110011101101110101110010011111101010110011001010001");
    assert_eq!(fingerprint(&rows), 0xb74f233381f5a237);
}

#[test]
fn generate_largest_numeric_symbol() {
    let code = generate(&"7".repeat(7089), Encoding::Numeric, EcLevel::L, MaskPattern::Diamonds).unwrap();
    assert_eq!(code.version(), 40);
    assert_eq!(code.size(), 177);
    let rows = picture(&code);
    assert_eq!(rows[0], "#######.#1001010010100010010111110000111011111101111110001011110010111100101111001011001100011011110010111100101100010001101111001011111110110001100111111001111110011#.#.#######");
    assert_eq!(rows[176], "#######.#010001110001110111000101110011110001110111000110000110100110111111110101010101110100100110010010111000111010111111110100100110010010011110110001110111110010100110110110");
    assert_eq!(fingerprint(&rows), 0x248602e4ee1ba36b);
}

#[test]
fn generate_largest_byte_symbol_at_level_h() {
    let code = generate(&"\u{ff}".repeat(1273), Encoding::Byte, EcLevel::H, MaskPattern::Meadow).unwrap();
    assert_eq!(code.version(), 40);
    assert_eq!(code.size(), 177);
    let rows = picture(&code);
    assert_eq!(rows[0], "#######.#1111000000010001100100100110110101000110001000010100000000110110010100101011100001010001101110000000010110101010101010101010101010101010101010101010101010101#.#.#######");
    assert_eq!(rows[176], "#######..110000101001010000101000100100001010110011100111000010011101111111011110010111100100000110110001001100011011100011100011100011100011100011100011100011100011100011100010");
    assert_eq!(fingerprint(&rows), 0x2508ed13f133e035);
}

#[test]
fn generate_version_2_has_one_alignment_pattern() {
    let code = generate("0123456789012345678901234567890123456789012", Encoding::Numeric, EcLevel::L, MaskPattern::LargeCheckerboard).unwrap();
    assert_eq!(code.version(), 2);
    assert_eq!(code.size(), 25);
    let rows = picture(&code);
    assert_eq!(rows[0], "#######.#01011101.#######");
    assert_eq!(rows[24], "#######.#1110101110001101");
    assert_eq!(fingerprint(&rows), 0x1f94985a1b5ad487);
}

#[test]
fn function_patterns_of_version_1() {
    let mut code = QrCode::new(1, EcLevel::L, MaskPattern::Checkerboard, Encoding::Byte).unwrap();
    assert_eq!(code.stage(), BuilderStage::Empty);
    code.all_functional_patterns();
    assert_eq!(code.stage(), BuilderStage::FunctionsDrawn);
    let expected = [
        "#######..0000.#######",
        "#.....#..0000.#.....#",
        "#.###.#.#0000.#.###.#",
        "#.###.#..0000.#.###.#",
        "#.###.#..0000.#.###.#",
        "#.....#..0000.#.....#",
        "#######.#.#.#.#######",
        "........#0000........",
        "###.#####0000##...#..",
        "000000.00000000000000",
        "000000#00000000000000",
        "000000.00000000000000",
        "000000#00000000000000",
        "........#000000000000",
        "#######.#000000000000",
        "#.....#.#000000000000",
        "#.###.#.#000000000000",
        "#.###.#..000000000000",
        "#.###.#.#000000000000",
        "#.....#.#000000000000",
        "#######.#000000000000",
    ];
    assert_eq!(picture(&code), expected);
}

#[test]
fn function_patterns_of_version_2() {
    let mut code = QrCode::new(2, EcLevel::H, MaskPattern::Fields, Encoding::Byte).unwrap();
    assert_eq!(code.stage(), BuilderStage::Empty);
    code.all_functional_patterns();
    assert_eq!(code.stage(), BuilderStage::FunctionsDrawn);
    let expected = [
        "#######.#00000000.#######",
        "#.....#..00000000.#.....#",
        "#.###.#.#00000000.#.###.#",
        "#.###.#..00000000.#.###.#",
        "#.###.#.#00000000.#.###.#",
        "#.....#..00000000.#.....#",
        "#######.#.#.#.#.#.#######",
        "........#00000000........",
        ".....##..00000000.#.#.#.#",
        "000000.000000000000000000",
        "000000#000000000000000000",
        "000000.000000000000000000",
        "000000#000000000000000000",
        "000000.000000000000000000",
        "000000#000000000000000000",
        "000000.000000000000000000",
        "000000#000000000#####0000",
        "........#0000000#...#0000",
        "#######..0000000#.#.#0000",
        "#.....#.#0000000#...#0000",
        "#.###.#..0000000#####0000",
        "#.###.#..0000000000000000",
        "#.###.#..0000000000000000",
        "#.....#..0000000000000000",
        "#######..0000000000000000",
    ];
    assert_eq!(picture(&code), expected);
}

#[test]
fn function_patterns_of_version_7() {
    let mut code = QrCode::new(7, EcLevel::Q, MaskPattern::Diagonal, Encoding::Byte).unwrap();
    assert_eq!(code.stage(), BuilderStage::Empty);
    code.all_functional_patterns();
    assert_eq!(code.stage(), BuilderStage::FunctionsDrawn);
    let expected = [
        "#######..0000000000000000000000000....#######",
        "#.....#.#0000000000000000000000000###.#.....#",
        "#.###.#.#0000000000000000000000000##..#.###.#",
        "#.###.#..0000000000000000000000000.#..#.###.#",
        "#.###.#..00000000000#####000000000.#..#.###.#",
        "#.....#..00000000000#...#000000000#...#.....#",
        "#######.#.#.#.#.#.#.#.#.#.#.#.#.#.#.#.#######",
        ".........00000000000#...#000000000000........",
        ".###.##..00000000000#####000000000000.....##.",
        "000000.00000000000000000000000000000000000000",
        "000000#00000000000000000000000000000000000000",
        "000000.00000000000000000000000000000000000000",
        "000000#00000000000000000000000000000000000000",
        "000000.00000000000000000000000000000000000000",
        "000000#00000000000000000000000000000000000000",
        "000000.00000000000000000000000000000000000000",
        "000000#00000000000000000000000000000000000000",
        "000000.00000000000000000000000000000000000000",
        "000000#00000000000000000000000000000000000000",
        "000000.00000000000000000000000000000000000000",
        "0000#####00000000000#####00000000000#####0000",
        "0000#...#00000000000#...#00000000000#...#0000",
        "0000#.#.#00000000000#.#.#00000000000#.#.#0000",
        "0000#...#00000000000#...#00000000000#...#0000",
        "0000#####00000000000#####00000000000#####0000",
        "000000.00000000000000000000000000000000000000",
        "000000#00000000000000000000000000000000000000",
        "000000.00000000000000000000000000000000000000",
        "000000#00000000000000000000000000000000000000",
        "000000.00000000000000000000000000000000000000",
        "000000#00000000000000000000000000000000000000",
        "000000.00000000000000000000000000000000000000",
        "000000#00000000000000000000000000000000000000",
        "000000.00000000000000000000000000000000000000",
        ".##..##00000000000000000000000000000000000000",
        ".####..00000000000000000000000000000000000000",
        ".#....#0000000000000#####00000000000#####0000",
        "........#00000000000#...#00000000000#...#0000",
        "#######..00000000000#.#.#00000000000#.#.#0000",
        "#.....#.#00000000000#...#00000000000#...#0000",
        "#.###.#..00000000000#####00000000000#####0000",
        "#.###.#.#000000000000000000000000000000000000",
        "#.###.#.#000000000000000000000000000000000000",
        "#.....#.#000000000000000000000000000000000000",
        "#######..000000000000000000000000000000000000",
    ];
    assert_eq!(picture(&code), expected);
}

#[test]
fn function_patterns_of_every_version() {
    let expected: [(u64, usize); 40] = [
        (0xe99b4bb30be483ab, 208),
        (0xf547d0a31c815030, 359),
        (0xc81ff10fd4215584, 567),
        (0xea8dc6c0dcb7d908, 807),
        (0x3f725863b42f38dc, 1079),
        (0x04bc65e3f56b1f20, 1383),
        (0x9a136a2ca72a5795, 1568),
        (0x8e83baf177b63213, 1936),
        (0x2dcdbaeda4eb3d19, 2336),
        (0x0e6da164a3e8a6ef, 2768),
        (0x976c0f4bbb0d624d, 3232),
        (0x6cbe56710012c033, 3728),
        (0x4f69c49b52d630cd, 4256),
        (0x3acb452ee4b96760, 4651),
        (0xda7ab2dd97dfa4e6, 5243),
        (0xf9e7b72983ce5f74, 5867),
        (0x1b6451797e092492, 6523),
        (0x537cd082e76365a0, 7211),
        (0xa6900cd0b72f60f6, 7931),
        (0x7bec357714e6f85c, 8683),
        (0xc50b1fc7bc0942d9, 9252),
        (0x2888cda908032717, 10068),
        (0x36d5cf7e6038b435, 10916),
        (0xf0925ffa3ed4b3eb, 11796),
        (0x85500186fdddac51, 12708),
        (0x371b8cdf48489c3b, 13652),
        (0x905dae17ef8d17d9, 14628),
        (0xb5445c16fed3ec20, 15371),
        (0x6f7a487bf18fabbe, 16411),
        (0x7bb601d80596ebb8, 17483),
        (0x2d2beb2ea6fd87ae, 18587),
        (0x18b02f2682d1f3ce, 19723),
        (0x935b0396a20ff480, 20891),
        (0x07566de56e5eb7e6, 22091),
        (0xd8ebee2b47e9f08f, 23008),
        (0x6962af5e103c09fd, 24272),
        (0x1aaeb8954918dd2f, 25568),
        (0x80f62a94ee6f8645, 26896),
        (0xc01b53733f6c4f57, 28256),
        (0xf0c3ccd63821fd4d, 29648),
    ];
    for version in 1..=40u8 {
        let mut code =
            QrCode::new(version, EcLevel::M, MaskPattern::Vertical, Encoding::Byte).unwrap();
        code.all_functional_patterns();
        let rows = picture(&code);
        let free = rows.iter().map(|row| row.matches('0').count()).sum::<usize>();
        let (fingerprint_of_rows, free_modules) = expected[version as usize - 1];
        assert_eq!(fingerprint(&rows), fingerprint_of_rows, "version {}", version);
        assert_eq!(free, free_modules, "version {}", version);
        assert_eq!(rows.iter().map(|row| row.matches('1').count()).sum::<usize>(), 0);
    }
}

#[test]
fn different_requests_give_different_pictures() {
    let levels = [EcLevel::L, EcLevel::M, EcLevel::Q, EcLevel::H];
    let masks = [MaskPattern::Checkerboard, MaskPattern::Diagonal, MaskPattern::Meadow];
    let requests = [
        ("12345", Encoding::Numeric),
        ("12346", Encoding::Numeric),
        ("12345", Encoding::Alphanumeric),
        ("12345", Encoding::Byte),
        ("1234", Encoding::Numeric),
        ("", Encoding::Numeric),
        ("", Encoding::Byte),
    ];
    let mut pictures: Vec<Vec<bool>> = Vec::new();
    for (text, mode) in requests {
        for level in levels {
            for mask in masks {
                let code = generate(text, mode, level, mask).unwrap();
                pictures.push(code.data().iter().map(|b| b.value()).collect());
            }
        }
    }
    for i in 0..pictures.len() {
        for j in 0..i {
            assert_ne!(pictures[i], pictures[j]);
        }
    }
}
