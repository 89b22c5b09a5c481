//! How the codewords of a symbol are divided into blocks.
use vstd::prelude::*;

verus! {

/// The block structure of the data codewords, by version and
/// error-correction level: the size and number of the blocks of the first
/// group, then the size and number of those of the second group.
pub const DATA_BYTES_PER_BLOCK: [[(usize, usize, usize, usize); 4]; 40] = [
    [(19, 1, 0, 0), (16, 1, 0, 0), (13, 1, 0, 0), (9, 1, 0, 0)],
    [(34, 1, 0, 0), (28, 1, 0, 0), (22, 1, 0, 0), (16, 1, 0, 0)],
    [(55, 1, 0, 0), (44, 1, 0, 0), (17, 2, 0, 0), (13, 2, 0, 0)],
    [(80, 1, 0, 0), (32, 2, 0, 0), (24, 2, 0, 0), (9, 4, 0, 0)],
    [(108, 1, 0, 0), (43, 2, 0, 0), (15, 2, 16, 2), (11, 2, 12, 2)],
    [(68, 2, 0, 0), (27, 4, 0, 0), (19, 4, 0, 0), (15, 4, 0, 0)],
    [(78, 2, 0, 0), (31, 4, 0, 0), (14, 2, 15, 4), (13, 4, 14, 1)],
    [(97, 2, 0, 0), (38, 2, 39, 2), (18, 4, 19, 2), (14, 4, 15, 2)],
    [(116, 2, 0, 0), (36, 3, 37, 2), (16, 4, 17, 4), (12, 4, 13, 4)],
    [(68, 2, 69, 2), (43, 4, 44, 1), (19, 6, 20, 2), (15, 6, 16, 2)],
    [(81, 4, 0, 0), (50, 1, 51, 4), (22, 4, 23, 4), (12, 3, 13, 8)],
    [(92, 2, 93, 2), (36, 6, 37, 2), (20, 4, 21, 6), (14, 7, 15, 4)],
    [(107, 4, 0, 0), (37, 8, 38, 1), (20, 8, 21, 4), (11, 12, 12, 4)],
    [(115, 3, 116, 1), (40, 4, 41, 5), (16, 11, 17, 5), (12, 11, 13, 5)],
    [(87, 5, 88, 1), (41, 5, 42, 5), (24, 5, 25, 7), (12, 11, 13, 7)],
    [(98, 5, 99, 1), (45, 7, 46, 3), (19, 15, 20, 2), (15, 3, 16, 13)],
    [(107, 1, 108, 5), (46, 10, 47, 1), (22, 1, 23, 15), (14, 2, 15, 17)],
    [(120, 5, 121, 1), (43, 9, 44, 4), (22, 17, 23, 1), (14, 2, 15, 19)],
    [(113, 3, 114, 4), (44, 3, 45, 11), (21, 17, 22, 4), (13, 9, 14, 16)],
    [(107, 3, 108, 5), (41, 3, 42, 13), (24, 15, 25, 5), (15, 15, 16, 10)],
    [(116, 4, 117, 4), (42, 17, 0, 0), (22, 17, 23, 6), (16, 19, 17, 6)],
    [(111, 2, 112, 7), (46, 17, 0, 0), (24, 7, 25, 16), (13, 34, 0, 0)],
    [(121, 4, 122, 5), (47, 4, 48, 14), (24, 11, 25, 14), (15, 16, 16, 14)],
    [(117, 6, 118, 4), (45, 6, 46, 14), (24, 11, 25, 16), (16, 30, 17, 2)],
    [(106, 8, 107, 4), (47, 8, 48, 13), (24, 7, 25, 22), (15, 22, 16, 13)],
    [(114, 10, 115, 2), (46, 19, 47, 4), (22, 28, 23, 6), (16, 33, 17, 4)],
    [(122, 8, 123, 4), (45, 22, 46, 3), (23, 8, 24, 26), (15, 12, 16, 28)],
    [(117, 3, 118, 10), (45, 3, 46, 23), (24, 4, 25, 31), (15, 11, 16, 31)],
    [(116, 7, 117, 7), (45, 21, 46, 7), (23, 1, 24, 37), (15, 19, 16, 26)],
    [(115, 5, 116, 10), (47, 19, 48, 10), (24, 15, 25, 25), (15, 23, 16, 25)],
    [(115, 13, 116, 3), (46, 2, 47, 29), (24, 42, 25, 1), (15, 23, 16, 28)],
    [(115, 17, 0, 0), (46, 10, 47, 23), (24, 10, 25, 35), (15, 19, 16, 35)],
    [(115, 17, 116, 1), (46, 14, 47, 21), (24, 29, 25, 19), (15, 11, 16, 46)],
    [(115, 13, 116, 6), (46, 14, 47, 23), (24, 44, 25, 7), (16, 59, 17, 1)],
    [(121, 12, 122, 7), (47, 12, 48, 26), (24, 39, 25, 14), (15, 22, 16, 41)],
    [(121, 6, 122, 14), (47, 6, 48, 34), (24, 46, 25, 10), (15, 2, 16, 64)],
    [(122, 17, 123, 4), (46, 29, 47, 14), (24, 49, 25, 10), (15, 24, 16, 46)],
    [(122, 4, 123, 18), (46, 13, 47, 32), (24, 48, 25, 14), (15, 42, 16, 32)],
    [(117, 20, 118, 4), (47, 40, 48, 7), (24, 43, 25, 22), (15, 10, 16, 67)],
    [(118, 19, 119, 6), (47, 18, 48, 31), (24, 34, 25, 34), (15, 20, 16, 61)],
];

/// The number of error-correction codewords of each block, by version and
/// error-correction level.
pub const EC_BYTES_PER_BLOCK: [[usize; 4]; 40] = [
    [7, 10, 13, 17],
    [10, 16, 22, 28],
    [15, 26, 18, 22],
    [20, 18, 26, 16],
    [26, 24, 18, 22],
    [18, 16, 24, 28],
    [20, 18, 18, 26],
    [24, 22, 22, 26],
    [30, 22, 20, 24],
    [18, 26, 24, 28],
    [20, 30, 28, 24],
    [24, 22, 26, 28],
    [26, 22, 24, 22],
    [30, 24, 20, 24],
    [22, 24, 30, 24],
    [24, 28, 24, 30],
    [28, 28, 28, 28],
    [30, 26, 28, 28],
    [28, 26, 26, 26],
    [28, 26, 30, 28],
    [28, 26, 28, 30],
    [28, 28, 30, 24],
    [30, 28, 30, 30],
    [30, 28, 30, 30],
    [26, 28, 30, 30],
    [28, 28, 28, 30],
    [30, 28, 30, 30],
    [30, 28, 30, 30],
    [30, 28, 30, 30],
    [30, 28, 30, 30],
    [30, 28, 30, 30],
    [30, 28, 30, 30],
    [30, 28, 30, 30],
    [30, 28, 30, 30],
    [30, 28, 30, 30],
    [30, 28, 30, 30],
    [30, 28, 30, 30],
    [30, 28, 30, 30],
    [30, 28, 30, 30],
    [30, 28, 30, 30],
];

/// The block structure of a version and level (0 for L to 3 for H): size
/// and number of the blocks of the first group, then of the second group.
pub closed spec fn block_structure(version: int, level: int) -> (usize, usize, usize, usize) {
    DATA_BYTES_PER_BLOCK[version - 1][level]
}

/// The number of error-correction codewords of each block of a version and
/// level.
pub closed spec fn ec_codewords_per_block(version: int, level: int) -> int {
    EC_BYTES_PER_BLOCK[version - 1][level] as int
}

/// The number of data codewords of a symbol.
pub open spec fn data_codewords(version: int, level: int) -> int {
    let (size_1, count_1, size_2, count_2) = block_structure(version, level);
    size_1 * count_1 + size_2 * count_2
}

/// `block_structure` and `ec_codewords_per_block` are the entries of the
/// two tables.
pub proof fn lemma_table_entries(version: int, level: int)
    ensures
        block_structure(version, level) == DATA_BYTES_PER_BLOCK[version - 1][level],
        ec_codewords_per_block(version, level) == EC_BYTES_PER_BLOCK[version - 1][level],
{
}

/// The block structures of the table are small and no block is empty; the
/// blocks of the second group, where there are any, are one codeword longer
/// than those of the first.
pub proof fn lemma_block_structure(version: int, level: int)
    requires
        1 <= version <= 40,
        0 <= level < 4,
    ensures
        ({
            let (size_1, count_1, size_2, count_2) = block_structure(version, level);
            &&& 9 <= size_1 <= 122
            &&& 1 <= count_1 <= 59
            &&& size_2 <= 123
            &&& count_2 <= 67
            &&& count_1 + count_2 <= 81
            &&& size_2 == 0 <==> count_2 == 0
            &&& size_2 > 0 ==> size_2 == size_1 + 1
        }),
        7 <= ec_codewords_per_block(version, level) <= 30,
{
}

/// The number of data codewords of a symbol, by version and level: entry
/// `4 * (version - 1) + level`.
pub const DATA_CODEWORDS: [u16; 160] = [
    19, 16, 13, 9, 34, 28, 22, 16,
    55, 44, 34, 26, 80, 64, 48, 36,
    108, 86, 62, 46, 136, 108, 76, 60,
    156, 124, 88, 66, 194, 154, 110, 86,
    232, 182, 132, 100, 274, 216, 154, 122,
    324, 254, 180, 140, 370, 290, 206, 158,
    428, 334, 244, 180, 461, 365, 261, 197,
    523, 415, 295, 223, 589, 453, 325, 253,
    647, 507, 367, 283, 721, 563, 397, 313,
    795, 627, 445, 341, 861, 669, 485, 385,
    932, 714, 512, 406, 1006, 782, 568, 442,
    1094, 860, 614, 464, 1174, 914, 664, 514,
    1276, 1000, 718, 538, 1370, 1062, 754, 596,
    1468, 1128, 808, 628, 1531, 1193, 871, 661,
    1631, 1267, 911, 701, 1735, 1373, 985, 745,
    1843, 1455, 1033, 793, 1955, 1541, 1115, 845,
    2071, 1631, 1171, 901, 2191, 1725, 1231, 961,
    2306, 1812, 1286, 986, 2434, 1914, 1354, 1054,
    2566, 1992, 1426, 1096, 2702, 2102, 1502, 1142,
    2812, 2216, 1582, 1222, 2956, 2334, 1666, 1276,
];

/// Entry of `DATA_CODEWORDS` for a version and level.
pub closed spec fn data_codewords_total(version: int, level: int) -> int {
    DATA_CODEWORDS[4 * (version - 1) + level] as int
}

/// `data_codewords_total` is the entry of the table.
pub proof fn lemma_total_entries(version: int, level: int)
    ensures
        data_codewords_total(version, level) == DATA_CODEWORDS[4 * (version - 1) + level],
{
}



proof fn lemma_data_codewords_1_to_5(version: int, level: int)
    requires
        1 <= version <= 5,
        0 <= level < 4,
    ensures
        data_codewords(version, level) == data_codewords_total(version, level),
{
    let (size_1, count_1, size_2, count_2) = block_structure(version, level);
    let s1 = size_1 as int;
    let c1 = count_1 as int;
    let s2 = size_2 as int;
    let c2 = count_2 as int;
    assert(s1 * c1 + s2 * c2 == data_codewords(version, level));
    if version == 1 && level == 0 {
        assert(s1 * c1 == 19) by (nonlinear_arith)
            requires
                s1 == 19,
                c1 == 1,
        ;
        assert(s2 * c2 == 0) by (nonlinear_arith)
            requires
                s2 == 0,
                c2 == 0,
        ;
    } else if version == 1 && level == 1 {
        assert(s1 * c1 == 16) by (nonlinear_arith)
            requires
                s1 == 16,
                c1 == 1,
        ;
        assert(s2 * c2 == 0) by (nonlinear_arith)
            requires
                s2 == 0,
                c2 == 0,
        ;
    } else if version == 1 && level == 2 {
        assert(s1 * c1 == 13) by (nonlinear_arith)
            requires
                s1 == 13,
                c1 == 1,
        ;
        assert(s2 * c2 == 0) by (nonlinear_arith)
            requires
                s2 == 0,
                c2 == 0,
        ;
    } else if version == 1 && level == 3 {
        assert(s1 * c1 == 9) by (nonlinear_arith)
            requires
                s1 == 9,
                c1 == 1,
        ;
        assert(s2 * c2 == 0) by (nonlinear_arith)
            requires
                s2 == 0,
                c2 == 0,
        ;
    } else if version == 2 && level == 0 {
        assert(s1 * c1 == 34) by (nonlinear_arith)
            requires
                s1 == 34,
                c1 == 1,
        ;
        assert(s2 * c2 == 0) by (nonlinear_arith)
            requires
                s2 == 0,
                c2 == 0,
        ;
    } else if version == 2 && level == 1 {
        assert(s1 * c1 == 28) by (nonlinear_arith)
            requires
                s1 == 28,
                c1 == 1,
        ;
        assert(s2 * c2 == 0) by (nonlinear_arith)
            requires
                s2 == 0,
                c2 == 0,
        ;
    } else if version == 2 && level == 2 {
        assert(s1 * c1 == 22) by (nonlinear_arith)
            requires
                s1 == 22,
                c1 == 1,
        ;
        assert(s2 * c2 == 0) by (nonlinear_arith)
            requires
                s2 == 0,
                c2 == 0,
        ;
    } else if version == 2 && level == 3 {
        assert(s1 * c1 == 16) by (nonlinear_arith)
            requires
                s1 == 16,
                c1 == 1,
        ;
        assert(s2 * c2 == 0) by (nonlinear_arith)
            requires
                s2 == 0,
                c2 == 0,
        ;
    } else if version == 3 && level == 0 {
        assert(s1 * c1 == 55) by (nonlinear_arith)
            requires
                s1 == 55,
                c1 == 1,
        ;
        assert(s2 * c2 == 0) by (nonlinear_arith)
            requires
                s2 == 0,
                c2 == 0,
        ;
    } else if version == 3 && level == 1 {
        assert(s1 * c1 == 44) by (nonlinear_arith)
            requires
                s1 == 44,
                c1 == 1,
        ;
        assert(s2 * c2 == 0) by (nonlinear_arith)
            requires
                s2 == 0,
                c2 == 0,
        ;
    } else if version == 3 && level == 2 {
        assert(s1 * c1 == 34) by (nonlinear_arith)
            requires
                s1 == 17,
                c1 == 2,
        ;
        assert(s2 * c2 == 0) by (nonlinear_arith)
            requires
                s2 == 0,
                c2 == 0,
        ;
    } else if version == 3 && level == 3 {
        assert(s1 * c1 == 26) by (nonlinear_arith)
            requires
                s1 == 13,
                c1 == 2,
        ;
        assert(s2 * c2 == 0) by (nonlinear_arith)
            requires
                s2 == 0,
                c2 == 0,
        ;
    } else if version == 4 && level == 0 {
        assert(s1 * c1 == 80) by (nonlinear_arith)
            requires
                s1 == 80,
                c1 == 1,
        ;
        assert(s2 * c2 == 0) by (nonlinear_arith)
            requires
                s2 == 0,
                c2 == 0,
        ;
    } else if version == 4 && level == 1 {
        assert(s1 * c1 == 64) by (nonlinear_arith)
            requires
                s1 == 32,
                c1 == 2,
        ;
        assert(s2 * c2 == 0) by (nonlinear_arith)
            requires
                s2 == 0,
                c2 == 0,
        ;
    } else if version == 4 && level == 2 {
        assert(s1 * c1 == 48) by (nonlinear_arith)
            requires
                s1 == 24,
                c1 == 2,
        ;
        assert(s2 * c2 == 0) by (nonlinear_arith)
            requires
                s2 == 0,
                c2 == 0,
        ;
    } else if version == 4 && level == 3 {
        assert(s1 * c1 == 36) by (nonlinear_arith)
            requires
                s1 == 9,
                c1 == 4,
        ;
        assert(s2 * c2 == 0) by (nonlinear_arith)
            requires
                s2 == 0,
                c2 == 0,
        ;
    } else if version == 5 && level == 0 {
        assert(s1 * c1 == 108) by (nonlinear_arith)
            requires
                s1 == 108,
                c1 == 1,
        ;
        assert(s2 * c2 == 0) by (nonlinear_arith)
            requires
                s2 == 0,
                c2 == 0,
        ;
    } else if version == 5 && level == 1 {
        assert(s1 * c1 == 86) by (nonlinear_arith)
            requires
                s1 == 43,
                c1 == 2,
        ;
        assert(s2 * c2 == 0) by (nonlinear_arith)
            requires
                s2 == 0,
                c2 == 0,
        ;
    } else if version == 5 && level == 2 {
        assert(s1 * c1 == 30) by (nonlinear_arith)
            requires
                s1 == 15,
                c1 == 2,
        ;
        assert(s2 * c2 == 32) by (nonlinear_arith)
            requires
                s2 == 16,
                c2 == 2,
        ;
    } else if version == 5 && level == 3 {
        assert(s1 * c1 == 22) by (nonlinear_arith)
            requires
                s1 == 11,
                c1 == 2,
        ;
        assert(s2 * c2 == 24) by (nonlinear_arith)
            requires
                s2 == 12,
                c2 == 2,
        ;
    }
}

proof fn lemma_data_codewords_6_to_10(version: int, level: int)
    requires
        6 <= version <= 10,
        0 <= level < 4,
    ensures
        data_codewords(version, level) == data_codewords_total(version, level),
{
    let (size_1, count_1, size_2, count_2) = block_structure(version, level);
    let s1 = size_1 as int;
    let c1 = count_1 as int;
    let s2 = size_2 as int;
    let c2 = count_2 as int;
    assert(s1 * c1 + s2 * c2 == data_codewords(version, level));
    if version == 6 && level == 0 {
        assert(s1 * c1 == 136) by (nonlinear_arith)
            requires
                s1 == 68,
                c1 == 2,
        ;
        assert(s2 * c2 == 0) by (nonlinear_arith)
            requires
                s2 == 0,
                c2 == 0,
        ;
    } else if version == 6 && level == 1 {
        assert(s1 * c1 == 108) by (nonlinear_arith)
            requires
                s1 == 27,
                c1 == 4,
        ;
        assert(s2 * c2 == 0) by (nonlinear_arith)
            requires
                s2 == 0,
                c2 == 0,
        ;
    } else if version == 6 && level == 2 {
        assert(s1 * c1 == 76) by (nonlinear_arith)
            requires
                s1 == 19,
                c1 == 4,
        ;
        assert(s2 * c2 == 0) by (nonlinear_arith)
            requires
                s2 == 0,
                c2 == 0,
        ;
    } else if version == 6 && level == 3 {
        assert(s1 * c1 == 60) by (nonlinear_arith)
            requires
                s1 == 15,
                c1 == 4,
        ;
        assert(s2 * c2 == 0) by (nonlinear_arith)
            requires
                s2 == 0,
                c2 == 0,
        ;
    } else if version == 7 && level == 0 {
        assert(s1 * c1 == 156) by (nonlinear_arith)
            requires
                s1 == 78,
                c1 == 2,
        ;
        assert(s2 * c2 == 0) by (nonlinear_arith)
            requires
                s2 == 0,
                c2 == 0,
        ;
    } else if version == 7 && level == 1 {
        assert(s1 * c1 == 124) by (nonlinear_arith)
            requires
                s1 == 31,
                c1 == 4,
        ;
        assert(s2 * c2 == 0) by (nonlinear_arith)
            requires
                s2 == 0,
                c2 == 0,
        ;
    } else if version == 7 && level == 2 {
        assert(s1 * c1 == 28) by (nonlinear_arith)
            requires
                s1 == 14,
                c1 == 2,
        ;
        assert(s2 * c2 == 60) by (nonlinear_arith)
            requires
                s2 == 15,
                c2 == 4,
        ;
    } else if version == 7 && level == 3 {
        assert(s1 * c1 == 52) by (nonlinear_arith)
            requires
                s1 == 13,
                c1 == 4,
        ;
        assert(s2 * c2 == 14) by (nonlinear_arith)
            requires
                s2 == 14,
                c2 == 1,
        ;
    } else if version == 8 && level == 0 {
        assert(s1 * c1 == 194) by (nonlinear_arith)
            requires
                s1 == 97,
                c1 == 2,
        ;
        assert(s2 * c2 == 0) by (nonlinear_arith)
            requires
                s2 == 0,
                c2 == 0,
        ;
    } else if version == 8 && level == 1 {
        assert(s1 * c1 == 76) by (nonlinear_arith)
            requires
                s1 == 38,
                c1 == 2,
        ;
        assert(s2 * c2 == 78) by (nonlinear_arith)
            requires
                s2 == 39,
                c2 == 2,
        ;
    } else if version == 8 && level == 2 {
        assert(s1 * c1 == 72) by (nonlinear_arith)
            requires
                s1 == 18,
                c1 == 4,
        ;
        assert(s2 * c2 == 38) by (nonlinear_arith)
            requires
                s2 == 19,
                c2 == 2,
        ;
    } else if version == 8 && level == 3 {
        assert(s1 * c1 == 56) by (nonlinear_arith)
            requires
                s1 == 14,
                c1 == 4,
        ;
        assert(s2 * c2 == 30) by (nonlinear_arith)
            requires
                s2 == 15,
                c2 == 2,
        ;
    } else if version == 9 && level == 0 {
        assert(s1 * c1 == 232) by (nonlinear_arith)
            requires
                s1 == 116,
                c1 == 2,
        ;
        assert(s2 * c2 == 0) by (nonlinear_arith)
            requires
                s2 == 0,
                c2 == 0,
        ;
    } else if version == 9 && level == 1 {
        assert(s1 * c1 == 108) by (nonlinear_arith)
            requires
                s1 == 36,
                c1 == 3,
        ;
        assert(s2 * c2 == 74) by (nonlinear_arith)
            requires
                s2 == 37,
                c2 == 2,
        ;
    } else if version == 9 && level == 2 {
        assert(s1 * c1 == 64) by (nonlinear_arith)
            requires
                s1 == 16,
                c1 == 4,
        ;
        assert(s2 * c2 == 68) by (nonlinear_arith)
            requires
                s2 == 17,
                c2 == 4,
        ;
    } else if version == 9 && level == 3 {
        assert(s1 * c1 == 48) by (nonlinear_arith)
            requires
                s1 == 12,
                c1 == 4,
        ;
        assert(s2 * c2 == 52) by (nonlinear_arith)
            requires
                s2 == 13,
                c2 == 4,
        ;
    } else if version == 10 && level == 0 {
        assert(s1 * c1 == 136) by (nonlinear_arith)
            requires
                s1 == 68,
                c1 == 2,
        ;
        assert(s2 * c2 == 138) by (nonlinear_arith)
            requires
                s2 == 69,
                c2 == 2,
        ;
    } else if version == 10 && level == 1 {
        assert(s1 * c1 == 172) by (nonlinear_arith)
            requires
                s1 == 43,
                c1 == 4,
        ;
        assert(s2 * c2 == 44) by (nonlinear_arith)
            requires
                s2 == 44,
                c2 == 1,
        ;
    } else if version == 10 && level == 2 {
        assert(s1 * c1 == 114) by (nonlinear_arith)
            requires
                s1 == 19,
                c1 == 6,
        ;
        assert(s2 * c2 == 40) by (nonlinear_arith)
            requires
                s2 == 20,
                c2 == 2,
        ;
    } else if version == 10 && level == 3 {
        assert(s1 * c1 == 90) by (nonlinear_arith)
            requires
                s1 == 15,
                c1 == 6,
        ;
        assert(s2 * c2 == 32) by (nonlinear_arith)
            requires
                s2 == 16,
                c2 == 2,
        ;
    }
}

proof fn lemma_data_codewords_11_to_15(version: int, level: int)
    requires
        11 <= version <= 15,
        0 <= level < 4,
    ensures
        data_codewords(version, level) == data_codewords_total(version, level),
{
    let (size_1, count_1, size_2, count_2) = block_structure(version, level);
    let s1 = size_1 as int;
    let c1 = count_1 as int;
    let s2 = size_2 as int;
    let c2 = count_2 as int;
    assert(s1 * c1 + s2 * c2 == data_codewords(version, level));
    if version == 11 && level == 0 {
        assert(s1 * c1 == 324) by (nonlinear_arith)
            requires
                s1 == 81,
                c1 == 4,
        ;
        assert(s2 * c2 == 0) by (nonlinear_arith)
            requires
                s2 == 0,
                c2 == 0,
        ;
    } else if version == 11 && level == 1 {
        assert(s1 * c1 == 50) by (nonlinear_arith)
            requires
                s1 == 50,
                c1 == 1,
        ;
        assert(s2 * c2 == 204) by (nonlinear_arith)
            requires
                s2 == 51,
                c2 == 4,
        ;
    } else if version == 11 && level == 2 {
        assert(s1 * c1 == 88) by (nonlinear_arith)
            requires
                s1 == 22,
                c1 == 4,
        ;
        assert(s2 * c2 == 92) by (nonlinear_arith)
            requires
                s2 == 23,
                c2 == 4,
        ;
    } else if version == 11 && level == 3 {
        assert(s1 * c1 == 36) by (nonlinear_arith)
            requires
                s1 == 12,
                c1 == 3,
        ;
        assert(s2 * c2 == 104) by (nonlinear_arith)
            requires
                s2 == 13,
                c2 == 8,
        ;
    } else if version == 12 && level == 0 {
        assert(s1 * c1 == 184) by (nonlinear_arith)
            requires
                s1 == 92,
                c1 == 2,
        ;
        assert(s2 * c2 == 186) by (nonlinear_arith)
            requires
                s2 == 93,
                c2 == 2,
        ;
    } else if version == 12 && level == 1 {
        assert(s1 * c1 == 216) by (nonlinear_arith)
            requires
                s1 == 36,
                c1 == 6,
        ;
        assert(s2 * c2 == 74) by (nonlinear_arith)
            requires
                s2 == 37,
                c2 == 2,
        ;
    } else if version == 12 && level == 2 {
        assert(s1 * c1 == 80) by (nonlinear_arith)
            requires
                s1 == 20,
                c1 == 4,
        ;
        assert(s2 * c2 == 126) by (nonlinear_arith)
            requires
                s2 == 21,
                c2 == 6,
        ;
    } else if version == 12 && level == 3 {
        assert(s1 * c1 == 98) by (nonlinear_arith)
            requires
                s1 == 14,
                c1 == 7,
        ;
        assert(s2 * c2 == 60) by (nonlinear_arith)
            requires
                s2 == 15,
                c2 == 4,
        ;
    } else if version == 13 && level == 0 {
        assert(s1 * c1 == 428) by (nonlinear_arith)
            requires
                s1 == 107,
                c1 == 4,
        ;
        assert(s2 * c2 == 0) by (nonlinear_arith)
            requires
                s2 == 0,
                c2 == 0,
        ;
    } else if version == 13 && level == 1 {
        assert(s1 * c1 == 296) by (nonlinear_arith)
            requires
                s1 == 37,
                c1 == 8,
        ;
        assert(s2 * c2 == 38) by (nonlinear_arith)
            requires
                s2 == 38,
                c2 == 1,
        ;
    } else if version == 13 && level == 2 {
        assert(s1 * c1 == 160) by (nonlinear_arith)
            requires
                s1 == 20,
                c1 == 8,
        ;
        assert(s2 * c2 == 84) by (nonlinear_arith)
            requires
                s2 == 21,
                c2 == 4,
        ;
    } else if version == 13 && level == 3 {
        assert(s1 * c1 == 132) by (nonlinear_arith)
            requires
                s1 == 11,
                c1 == 12,
        ;
        assert(s2 * c2 == 48) by (nonlinear_arith)
            requires
                s2 == 12,
                c2 == 4,
        ;
    } else if version == 14 && level == 0 {
        assert(s1 * c1 == 345) by (nonlinear_arith)
            requires
                s1 == 115,
                c1 == 3,
        ;
        assert(s2 * c2 == 116) by (nonlinear_arith)
            requires
                s2 == 116,
                c2 == 1,
        ;
    } else if version == 14 && level == 1 {
        assert(s1 * c1 == 160) by (nonlinear_arith)
            requires
                s1 == 40,
                c1 == 4,
        ;
        assert(s2 * c2 == 205) by (nonlinear_arith)
            requires
                s2 == 41,
                c2 == 5,
        ;
    } else if version == 14 && level == 2 {
        assert(s1 * c1 == 176) by (nonlinear_arith)
            requires
                s1 == 16,
                c1 == 11,
        ;
        assert(s2 * c2 == 85) by (nonlinear_arith)
            requires
                s2 == 17,
                c2 == 5,
        ;
    } else if version == 14 && level == 3 {
        assert(s1 * c1 == 132) by (nonlinear_arith)
            requires
                s1 == 12,
                c1 == 11,
        ;
        assert(s2 * c2 == 65) by (nonlinear_arith)
            requires
                s2 == 13,
                c2 == 5,
        ;
    } else if version == 15 && level == 0 {
        assert(s1 * c1 == 435) by (nonlinear_arith)
            requires
                s1 == 87,
                c1 == 5,
        ;
        assert(s2 * c2 == 88) by (nonlinear_arith)
            requires
                s2 == 88,
                c2 == 1,
        ;
    } else if version == 15 && level == 1 {
        assert(s1 * c1 == 205) by (nonlinear_arith)
            requires
                s1 == 41,
                c1 == 5,
        ;
        assert(s2 * c2 == 210) by (nonlinear_arith)
            requires
                s2 == 42,
                c2 == 5,
        ;
    } else if version == 15 && level == 2 {
        assert(s1 * c1 == 120) by (nonlinear_arith)
            requires
                s1 == 24,
                c1 == 5,
        ;
        assert(s2 * c2 == 175) by (nonlinear_arith)
            requires
                s2 == 25,
                c2 == 7,
        ;
    } else if version == 15 && level == 3 {
        assert(s1 * c1 == 132) by (nonlinear_arith)
            requires
                s1 == 12,
                c1 == 11,
        ;
        assert(s2 * c2 == 91) by (nonlinear_arith)
            requires
                s2 == 13,
                c2 == 7,
        ;
    }
}

proof fn lemma_data_codewords_16_to_20(version: int, level: int)
    requires
        16 <= version <= 20,
        0 <= level < 4,
    ensures
        data_codewords(version, level) == data_codewords_total(version, level),
{
    let (size_1, count_1, size_2, count_2) = block_structure(version, level);
    let s1 = size_1 as int;
    let c1 = count_1 as int;
    let s2 = size_2 as int;
    let c2 = count_2 as int;
    assert(s1 * c1 + s2 * c2 == data_codewords(version, level));
    if version == 16 && level == 0 {
        assert(s1 * c1 == 490) by (nonlinear_arith)
            requires
                s1 == 98,
                c1 == 5,
        ;
        assert(s2 * c2 == 99) by (nonlinear_arith)
            requires
                s2 == 99,
                c2 == 1,
        ;
    } else if version == 16 && level == 1 {
        assert(s1 * c1 == 315) by (nonlinear_arith)
            requires
                s1 == 45,
                c1 == 7,
        ;
        assert(s2 * c2 == 138) by (nonlinear_arith)
            requires
                s2 == 46,
                c2 == 3,
        ;
    } else if version == 16 && level == 2 {
        assert(s1 * c1 == 285) by (nonlinear_arith)
            requires
                s1 == 19,
                c1 == 15,
        ;
        assert(s2 * c2 == 40) by (nonlinear_arith)
            requires
                s2 == 20,
                c2 == 2,
        ;
    } else if version == 16 && level == 3 {
        assert(s1 * c1 == 45) by (nonlinear_arith)
            requires
                s1 == 15,
                c1 == 3,
        ;
        assert(s2 * c2 == 208) by (nonlinear_arith)
            requires
                s2 == 16,
                c2 == 13,
        ;
    } else if version == 17 && level == 0 {
        assert(s1 * c1 == 107) by (nonlinear_arith)
            requires
                s1 == 107,
                c1 == 1,
        ;
        assert(s2 * c2 == 540) by (nonlinear_arith)
            requires
                s2 == 108,
                c2 == 5,
        ;
    } else if version == 17 && level == 1 {
        assert(s1 * c1 == 460) by (nonlinear_arith)
            requires
                s1 == 46,
                c1 == 10,
        ;
        assert(s2 * c2 == 47) by (nonlinear_arith)
            requires
                s2 == 47,
                c2 == 1,
        ;
    } else if version == 17 && level == 2 {
        assert(s1 * c1 == 22) by (nonlinear_arith)
            requires
                s1 == 22,
                c1 == 1,
        ;
        assert(s2 * c2 == 345) by (nonlinear_arith)
            requires
                s2 == 23,
                c2 == 15,
        ;
    } else if version == 17 && level == 3 {
        assert(s1 * c1 == 28) by (nonlinear_arith)
            requires
                s1 == 14,
                c1 == 2,
        ;
        assert(s2 * c2 == 255) by (nonlinear_arith)
            requires
                s2 == 15,
                c2 == 17,
        ;
    } else if version == 18 && level == 0 {
        assert(s1 * c1 == 600) by (nonlinear_arith)
            requires
                s1 == 120,
                c1 == 5,
        ;
        assert(s2 * c2 == 121) by (nonlinear_arith)
            requires
                s2 == 121,
                c2 == 1,
        ;
    } else if version == 18 && level == 1 {
        assert(s1 * c1 == 387) by (nonlinear_arith)
            requires
                s1 == 43,
                c1 == 9,
        ;
        assert(s2 * c2 == 176) by (nonlinear_arith)
            requires
                s2 == 44,
                c2 == 4,
        ;
    } else if version == 18 && level == 2 {
        assert(s1 * c1 == 374) by (nonlinear_arith)
            requires
                s1 == 22,
                c1 == 17,
        ;
        assert(s2 * c2 == 23) by (nonlinear_arith)
            requires
                s2 == 23,
                c2 == 1,
        ;
    } else if version == 18 && level == 3 {
        assert(s1 * c1 == 28) by (nonlinear_arith)
            requires
                s1 == 14,
                c1 == 2,
        ;
        assert(s2 * c2 == 285) by (nonlinear_arith)
            requires
                s2 == 15,
                c2 == 19,
        ;
    } else if version == 19 && level == 0 {
        assert(s1 * c1 == 339) by (nonlinear_arith)
            requires
                s1 == 113,
                c1 == 3,
        ;
        assert(s2 * c2 == 456) by (nonlinear_arith)
            requires
                s2 == 114,
                c2 == 4,
        ;
    } else if version == 19 && level == 1 {
        assert(s1 * c1 == 132) by (nonlinear_arith)
            requires
                s1 == 44,
                c1 == 3,
        ;
        assert(s2 * c2 == 495) by (nonlinear_arith)
            requires
                s2 == 45,
                c2 == 11,
        ;
    } else if version == 19 && level == 2 {
        assert(s1 * c1 == 357) by (nonlinear_arith)
            requires
                s1 == 21,
                c1 == 17,
        ;
        assert(s2 * c2 == 88) by (nonlinear_arith)
            requires
                s2 == 22,
                c2 == 4,
        ;
    } else if version == 19 && level == 3 {
        assert(s1 * c1 == 117) by (nonlinear_arith)
            requires
                s1 == 13,
                c1 == 9,
        ;
        assert(s2 * c2 == 224) by (nonlinear_arith)
            requires
                s2 == 14,
                c2 == 16,
        ;
    } else if version == 20 && level == 0 {
        assert(s1 * c1 == 321) by (nonlinear_arith)
            requires
                s1 == 107,
                c1 == 3,
        ;
        assert(s2 * c2 == 540) by (nonlinear_arith)
            requires
                s2 == 108,
                c2 == 5,
        ;
    } else if version == 20 && level == 1 {
        assert(s1 * c1 == 123) by (nonlinear_arith)
            requires
                s1 == 41,
                c1 == 3,
        ;
        assert(s2 * c2 == 546) by (nonlinear_arith)
            requires
                s2 == 42,
                c2 == 13,
        ;
    } else if version == 20 && level == 2 {
        assert(s1 * c1 == 360) by (nonlinear_arith)
            requires
                s1 == 24,
                c1 == 15,
        ;
        assert(s2 * c2 == 125) by (nonlinear_arith)
            requires
                s2 == 25,
                c2 == 5,
        ;
    } else if version == 20 && level == 3 {
        assert(s1 * c1 == 225) by (nonlinear_arith)
            requires
                s1 == 15,
                c1 == 15,
        ;
        assert(s2 * c2 == 160) by (nonlinear_arith)
            requires
                s2 == 16,
                c2 == 10,
        ;
    }
}

proof fn lemma_data_codewords_21_to_25(version: int, level: int)
    requires
        21 <= version <= 25,
        0 <= level < 4,
    ensures
        data_codewords(version, level) == data_codewords_total(version, level),
{
    let (size_1, count_1, size_2, count_2) = block_structure(version, level);
    let s1 = size_1 as int;
    let c1 = count_1 as int;
    let s2 = size_2 as int;
    let c2 = count_2 as int;
    assert(s1 * c1 + s2 * c2 == data_codewords(version, level));
    if version == 21 && level == 0 {
        assert(s1 * c1 == 464) by (nonlinear_arith)
            requires
                s1 == 116,
                c1 == 4,
        ;
        assert(s2 * c2 == 468) by (nonlinear_arith)
            requires
                s2 == 117,
                c2 == 4,
        ;
    } else if version == 21 && level == 1 {
        assert(s1 * c1 == 714) by (nonlinear_arith)
            requires
                s1 == 42,
                c1 == 17,
        ;
        assert(s2 * c2 == 0) by (nonlinear_arith)
            requires
                s2 == 0,
                c2 == 0,
        ;
    } else if version == 21 && level == 2 {
        assert(s1 * c1 == 374) by (nonlinear_arith)
            requires
                s1 == 22,
                c1 == 17,
        ;
        assert(s2 * c2 == 138) by (nonlinear_arith)
            requires
                s2 == 23,
                c2 == 6,
        ;
    } else if version == 21 && level == 3 {
        assert(s1 * c1 == 304) by (nonlinear_arith)
            requires
                s1 == 16,
                c1 == 19,
        ;
        assert(s2 * c2 == 102) by (nonlinear_arith)
            requires
                s2 == 17,
                c2 == 6,
        ;
    } else if version == 22 && level == 0 {
        assert(s1 * c1 == 222) by (nonlinear_arith)
            requires
                s1 == 111,
                c1 == 2,
        ;
        assert(s2 * c2 == 784) by (nonlinear_arith)
            requires
                s2 == 112,
                c2 == 7,
        ;
    } else if version == 22 && level == 1 {
        assert(s1 * c1 == 782) by (nonlinear_arith)
            requires
                s1 == 46,
                c1 == 17,
        ;
        assert(s2 * c2 == 0) by (nonlinear_arith)
            requires
                s2 == 0,
                c2 == 0,
        ;
    } else if version == 22 && level == 2 {
        assert(s1 * c1 == 168) by (nonlinear_arith)
            requires
                s1 == 24,
                c1 == 7,
        ;
        assert(s2 * c2 == 400) by (nonlinear_arith)
            requires
                s2 == 25,
                c2 == 16,
        ;
    } else if version == 22 && level == 3 {
        assert(s1 * c1 == 442) by (nonlinear_arith)
            requires
                s1 == 13,
                c1 == 34,
        ;
        assert(s2 * c2 == 0) by (nonlinear_arith)
            requires
                s2 == 0,
                c2 == 0,
        ;
    } else if version == 23 && level == 0 {
        assert(s1 * c1 == 484) by (nonlinear_arith)
            requires
                s1 == 121,
                c1 == 4,
        ;
        assert(s2 * c2 == 610) by (nonlinear_arith)
            requires
                s2 == 122,
                c2 == 5,
        ;
    } else if version == 23 && level == 1 {
        assert(s1 * c1 == 188) by (nonlinear_arith)
            requires
                s1 == 47,
                c1 == 4,
        ;
        assert(s2 * c2 == 672) by (nonlinear_arith)
            requires
                s2 == 48,
                c2 == 14,
        ;
    } else if version == 23 && level == 2 {
        assert(s1 * c1 == 264) by (nonlinear_arith)
            requires
                s1 == 24,
                c1 == 11,
        ;
        assert(s2 * c2 == 350) by (nonlinear_arith)
            requires
                s2 == 25,
                c2 == 14,
        ;
    } else if version == 23 && level == 3 {
        assert(s1 * c1 == 240) by (nonlinear_arith)
            requires
                s1 == 15,
                c1 == 16,
        ;
        assert(s2 * c2 == 224) by (nonlinear_arith)
            requires
                s2 == 16,
                c2 == 14,
        ;
    } else if version == 24 && level == 0 {
        assert(s1 * c1 == 702) by (nonlinear_arith)
            requires
                s1 == 117,
                c1 == 6,
        ;
        assert(s2 * c2 == 472) by (nonlinear_arith)
            requires
                s2 == 118,
                c2 == 4,
        ;
    } else if version == 24 && level == 1 {
        assert(s1 * c1 == 270) by (nonlinear_arith)
            requires
                s1 == 45,
                c1 == 6,
        ;
        assert(s2 * c2 == 644) by (nonlinear_arith)
            requires
                s2 == 46,
                c2 == 14,
        ;
    } else if version == 24 && level == 2 {
        assert(s1 * c1 == 264) by (nonlinear_arith)
            requires
                s1 == 24,
                c1 == 11,
        ;
        assert(s2 * c2 == 400) by (nonlinear_arith)
            requires
                s2 == 25,
                c2 == 16,
        ;
    } else if version == 24 && level == 3 {
        assert(s1 * c1 == 480) by (nonlinear_arith)
            requires
                s1 == 16,
                c1 == 30,
        ;
        assert(s2 * c2 == 34) by (nonlinear_arith)
            requires
                s2 == 17,
                c2 == 2,
        ;
    } else if version == 25 && level == 0 {
        assert(s1 * c1 == 848) by (nonlinear_arith)
            requires
                s1 == 106,
                c1 == 8,
        ;
        assert(s2 * c2 == 428) by (nonlinear_arith)
            requires
                s2 == 107,
                c2 == 4,
        ;
    } else if version == 25 && level == 1 {
        assert(s1 * c1 == 376) by (nonlinear_arith)
            requires
                s1 == 47,
                c1 == 8,
        ;
        assert(s2 * c2 == 624) by (nonlinear_arith)
            requires
                s2 == 48,
                c2 == 13,
        ;
    } else if version == 25 && level == 2 {
        assert(s1 * c1 == 168) by (nonlinear_arith)
            requires
                s1 == 24,
                c1 == 7,
        ;
        assert(s2 * c2 == 550) by (nonlinear_arith)
            requires
                s2 == 25,
                c2 == 22,
        ;
    } else if version == 25 && level == 3 {
        assert(s1 * c1 == 330) by (nonlinear_arith)
            requires
                s1 == 15,
                c1 == 22,
        ;
        assert(s2 * c2 == 208) by (nonlinear_arith)
            requires
                s2 == 16,
                c2 == 13,
        ;
    }
}

proof fn lemma_data_codewords_26_to_30(version: int, level: int)
    requires
        26 <= version <= 30,
        0 <= level < 4,
    ensures
        data_codewords(version, level) == data_codewords_total(version, level),
{
    let (size_1, count_1, size_2, count_2) = block_structure(version, level);
    let s1 = size_1 as int;
    let c1 = count_1 as int;
    let s2 = size_2 as int;
    let c2 = count_2 as int;
    assert(s1 * c1 + s2 * c2 == data_codewords(version, level));
    if version == 26 && level == 0 {
        assert(s1 * c1 == 1140) by (nonlinear_arith)
            requires
                s1 == 114,
                c1 == 10,
        ;
        assert(s2 * c2 == 230) by (nonlinear_arith)
            requires
                s2 == 115,
                c2 == 2,
        ;
    } else if version == 26 && level == 1 {
        assert(s1 * c1 == 874) by (nonlinear_arith)
            requires
                s1 == 46,
                c1 == 19,
        ;
        assert(s2 * c2 == 188) by (nonlinear_arith)
            requires
                s2 == 47,
                c2 == 4,
        ;
    } else if version == 26 && level == 2 {
        assert(s1 * c1 == 616) by (nonlinear_arith)
            requires
                s1 == 22,
                c1 == 28,
        ;
        assert(s2 * c2 == 138) by (nonlinear_arith)
            requires
                s2 == 23,
                c2 == 6,
        ;
    } else if version == 26 && level == 3 {
        assert(s1 * c1 == 528) by (nonlinear_arith)
            requires
                s1 == 16,
                c1 == 33,
        ;
        assert(s2 * c2 == 68) by (nonlinear_arith)
            requires
                s2 == 17,
                c2 == 4,
        ;
    } else if version == 27 && level == 0 {
        assert(s1 * c1 == 976) by (nonlinear_arith)
            requires
                s1 == 122,
                c1 == 8,
        ;
        assert(s2 * c2 == 492) by (nonlinear_arith)
            requires
                s2 == 123,
                c2 == 4,
        ;
    } else if version == 27 && level == 1 {
        assert(s1 * c1 == 990) by (nonlinear_arith)
            requires
                s1 == 45,
                c1 == 22,
        ;
        assert(s2 * c2 == 138) by (nonlinear_arith)
            requires
                s2 == 46,
                c2 == 3,
        ;
    } else if version == 27 && level == 2 {
        assert(s1 * c1 == 184) by (nonlinear_arith)
            requires
                s1 == 23,
                c1 == 8,
        ;
        assert(s2 * c2 == 624) by (nonlinear_arith)
            requires
                s2 == 24,
                c2 == 26,
        ;
    } else if version == 27 && level == 3 {
        assert(s1 * c1 == 180) by (nonlinear_arith)
            requires
                s1 == 15,
                c1 == 12,
        ;
        assert(s2 * c2 == 448) by (nonlinear_arith)
            requires
                s2 == 16,
                c2 == 28,
        ;
    } else if version == 28 && level == 0 {
        assert(s1 * c1 == 351) by (nonlinear_arith)
            requires
                s1 == 117,
                c1 == 3,
        ;
        assert(s2 * c2 == 1180) by (nonlinear_arith)
            requires
                s2 == 118,
                c2 == 10,
        ;
    } else if version == 28 && level == 1 {
        assert(s1 * c1 == 135) by (nonlinear_arith)
            requires
                s1 == 45,
                c1 == 3,
        ;
        assert(s2 * c2 == 1058) by (nonlinear_arith)
            requires
                s2 == 46,
                c2 == 23,
        ;
    } else if version == 28 && level == 2 {
        assert(s1 * c1 == 96) by (nonlinear_arith)
            requires
                s1 == 24,
                c1 == 4,
        ;
        assert(s2 * c2 == 775) by (nonlinear_arith)
            requires
                s2 == 25,
                c2 == 31,
        ;
    } else if version == 28 && level == 3 {
        assert(s1 * c1 == 165) by (nonlinear_arith)
            requires
                s1 == 15,
                c1 == 11,
        ;
        assert(s2 * c2 == 496) by (nonlinear_arith)
            requires
                s2 == 16,
                c2 == 31,
        ;
    } else if version == 29 && level == 0 {
        assert(s1 * c1 == 812) by (nonlinear_arith)
            requires
                s1 == 116,
                c1 == 7,
        ;
        assert(s2 * c2 == 819) by (nonlinear_arith)
            requires
                s2 == 117,
                c2 == 7,
        ;
    } else if version == 29 && level == 1 {
        assert(s1 * c1 == 945) by (nonlinear_arith)
            requires
                s1 == 45,
                c1 == 21,
        ;
        assert(s2 * c2 == 322) by (nonlinear_arith)
            requires
                s2 == 46,
                c2 == 7,
        ;
    } else if version == 29 && level == 2 {
        assert(s1 * c1 == 23) by (nonlinear_arith)
            requires
                s1 == 23,
                c1 == 1,
        ;
        assert(s2 * c2 == 888) by (nonlinear_arith)
            requires
                s2 == 24,
                c2 == 37,
        ;
    } else if version == 29 && level == 3 {
        assert(s1 * c1 == 285) by (nonlinear_arith)
            requires
                s1 == 15,
                c1 == 19,
        ;
        assert(s2 * c2 == 416) by (nonlinear_arith)
            requires
                s2 == 16,
                c2 == 26,
        ;
    } else if version == 30 && level == 0 {
        assert(s1 * c1 == 575) by (nonlinear_arith)
            requires
                s1 == 115,
                c1 == 5,
        ;
        assert(s2 * c2 == 1160) by (nonlinear_arith)
            requires
                s2 == 116,
                c2 == 10,
        ;
    } else if version == 30 && level == 1 {
        assert(s1 * c1 == 893) by (nonlinear_arith)
            requires
                s1 == 47,
                c1 == 19,
        ;
        assert(s2 * c2 == 480) by (nonlinear_arith)
            requires
                s2 == 48,
                c2 == 10,
        ;
    } else if version == 30 && level == 2 {
        assert(s1 * c1 == 360) by (nonlinear_arith)
            requires
                s1 == 24,
                c1 == 15,
        ;
        assert(s2 * c2 == 625) by (nonlinear_arith)
            requires
                s2 == 25,
                c2 == 25,
        ;
    } else if version == 30 && level == 3 {
        assert(s1 * c1 == 345) by (nonlinear_arith)
            requires
                s1 == 15,
                c1 == 23,
        ;
        assert(s2 * c2 == 400) by (nonlinear_arith)
            requires
                s2 == 16,
                c2 == 25,
        ;
    }
}

proof fn lemma_data_codewords_31_to_35(version: int, level: int)
    requires
        31 <= version <= 35,
        0 <= level < 4,
    ensures
        data_codewords(version, level) == data_codewords_total(version, level),
{
    let (size_1, count_1, size_2, count_2) = block_structure(version, level);
    let s1 = size_1 as int;
    let c1 = count_1 as int;
    let s2 = size_2 as int;
    let c2 = count_2 as int;
    assert(s1 * c1 + s2 * c2 == data_codewords(version, level));
    if version == 31 && level == 0 {
        assert(s1 * c1 == 1495) by (nonlinear_arith)
            requires
                s1 == 115,
                c1 == 13,
        ;
        assert(s2 * c2 == 348) by (nonlinear_arith)
            requires
                s2 == 116,
                c2 == 3,
        ;
    } else if version == 31 && level == 1 {
        assert(s1 * c1 == 92) by (nonlinear_arith)
            requires
                s1 == 46,
                c1 == 2,
        ;
        assert(s2 * c2 == 1363) by (nonlinear_arith)
            requires
                s2 == 47,
                c2 == 29,
        ;
    } else if version == 31 && level == 2 {
        assert(s1 * c1 == 1008) by (nonlinear_arith)
            requires
                s1 == 24,
                c1 == 42,
        ;
        assert(s2 * c2 == 25) by (nonlinear_arith)
            requires
                s2 == 25,
                c2 == 1,
        ;
    } else if version == 31 && level == 3 {
        assert(s1 * c1 == 345) by (nonlinear_arith)
            requires
                s1 == 15,
                c1 == 23,
        ;
        assert(s2 * c2 == 448) by (nonlinear_arith)
            requires
                s2 == 16,
                c2 == 28,
        ;
    } else if version == 32 && level == 0 {
        assert(s1 * c1 == 1955) by (nonlinear_arith)
            requires
                s1 == 115,
                c1 == 17,
        ;
        assert(s2 * c2 == 0) by (nonlinear_arith)
            requires
                s2 == 0,
                c2 == 0,
        ;
    } else if version == 32 && level == 1 {
        assert(s1 * c1 == 460) by (nonlinear_arith)
            requires
                s1 == 46,
                c1 == 10,
        ;
        assert(s2 * c2 == 1081) by (nonlinear_arith)
            requires
                s2 == 47,
                c2 == 23,
        ;
    } else if version == 32 && level == 2 {
        assert(s1 * c1 == 240) by (nonlinear_arith)
            requires
                s1 == 24,
                c1 == 10,
        ;
        assert(s2 * c2 == 875) by (nonlinear_arith)
            requires
                s2 == 25,
                c2 == 35,
        ;
    } else if version == 32 && level == 3 {
        assert(s1 * c1 == 285) by (nonlinear_arith)
            requires
                s1 == 15,
                c1 == 19,
        ;
        assert(s2 * c2 == 560) by (nonlinear_arith)
            requires
                s2 == 16,
                c2 == 35,
        ;
    } else if version == 33 && level == 0 {
        assert(s1 * c1 == 1955) by (nonlinear_arith)
            requires
                s1 == 115,
                c1 == 17,
        ;
        assert(s2 * c2 == 116) by (nonlinear_arith)
            requires
                s2 == 116,
                c2 == 1,
        ;
    } else if version == 33 && level == 1 {
        assert(s1 * c1 == 644) by (nonlinear_arith)
            requires
                s1 == 46,
                c1 == 14,
        ;
        assert(s2 * c2 == 987) by (nonlinear_arith)
            requires
                s2 == 47,
                c2 == 21,
        ;
    } else if version == 33 && level == 2 {
        assert(s1 * c1 == 696) by (nonlinear_arith)
            requires
                s1 == 24,
                c1 == 29,
        ;
        assert(s2 * c2 == 475) by (nonlinear_arith)
            requires
                s2 == 25,
                c2 == 19,
        ;
    } else if version == 33 && level == 3 {
        assert(s1 * c1 == 165) by (nonlinear_arith)
            requires
                s1 == 15,
                c1 == 11,
        ;
        assert(s2 * c2 == 736) by (nonlinear_arith)
            requires
                s2 == 16,
                c2 == 46,
        ;
    } else if version == 34 && level == 0 {
        assert(s1 * c1 == 1495) by (nonlinear_arith)
            requires
                s1 == 115,
                c1 == 13,
        ;
        assert(s2 * c2 == 696) by (nonlinear_arith)
            requires
                s2 == 116,
                c2 == 6,
        ;
    } else if version == 34 && level == 1 {
        assert(s1 * c1 == 644) by (nonlinear_arith)
            requires
                s1 == 46,
                c1 == 14,
        ;
        assert(s2 * c2 == 1081) by (nonlinear_arith)
            requires
                s2 == 47,
                c2 == 23,
        ;
    } else if version == 34 && level == 2 {
        assert(s1 * c1 == 1056) by (nonlinear_arith)
            requires
                s1 == 24,
                c1 == 44,
        ;
        assert(s2 * c2 == 175) by (nonlinear_arith)
            requires
                s2 == 25,
                c2 == 7,
        ;
    } else if version == 34 && level == 3 {
        assert(s1 * c1 == 944) by (nonlinear_arith)
            requires
                s1 == 16,
                c1 == 59,
        ;
        assert(s2 * c2 == 17) by (nonlinear_arith)
            requires
                s2 == 17,
                c2 == 1,
        ;
    } else if version == 35 && level == 0 {
        assert(s1 * c1 == 1452) by (nonlinear_arith)
            requires
                s1 == 121,
                c1 == 12,
        ;
        assert(s2 * c2 == 854) by (nonlinear_arith)
            requires
                s2 == 122,
                c2 == 7,
        ;
    } else if version == 35 && level == 1 {
        assert(s1 * c1 == 564) by (nonlinear_arith)
            requires
                s1 == 47,
                c1 == 12,
        ;
        assert(s2 * c2 == 1248) by (nonlinear_arith)
            requires
                s2 == 48,
                c2 == 26,
        ;
    } else if version == 35 && level == 2 {
        assert(s1 * c1 == 936) by (nonlinear_arith)
            requires
                s1 == 24,
                c1 == 39,
        ;
        assert(s2 * c2 == 350) by (nonlinear_arith)
            requires
                s2 == 25,
                c2 == 14,
        ;
    } else if version == 35 && level == 3 {
        assert(s1 * c1 == 330) by (nonlinear_arith)
            requires
                s1 == 15,
                c1 == 22,
        ;
        assert(s2 * c2 == 656) by (nonlinear_arith)
            requires
                s2 == 16,
                c2 == 41,
        ;
    }
}

proof fn lemma_data_codewords_36_to_40(version: int, level: int)
    requires
        36 <= version <= 40,
        0 <= level < 4,
    ensures
        data_codewords(version, level) == data_codewords_total(version, level),
{
    let (size_1, count_1, size_2, count_2) = block_structure(version, level);
    let s1 = size_1 as int;
    let c1 = count_1 as int;
    let s2 = size_2 as int;
    let c2 = count_2 as int;
    assert(s1 * c1 + s2 * c2 == data_codewords(version, level));
    if version == 36 && level == 0 {
        assert(s1 * c1 == 726) by (nonlinear_arith)
            requires
                s1 == 121,
                c1 == 6,
        ;
        assert(s2 * c2 == 1708) by (nonlinear_arith)
            requires
                s2 == 122,
                c2 == 14,
        ;
    } else if version == 36 && level == 1 {
        assert(s1 * c1 == 282) by (nonlinear_arith)
            requires
                s1 == 47,
                c1 == 6,
        ;
        assert(s2 * c2 == 1632) by (nonlinear_arith)
            requires
                s2 == 48,
                c2 == 34,
        ;
    } else if version == 36 && level == 2 {
        assert(s1 * c1 == 1104) by (nonlinear_arith)
            requires
                s1 == 24,
                c1 == 46,
        ;
        assert(s2 * c2 == 250) by (nonlinear_arith)
            requires
                s2 == 25,
                c2 == 10,
        ;
    } else if version == 36 && level == 3 {
        assert(s1 * c1 == 30) by (nonlinear_arith)
            requires
                s1 == 15,
                c1 == 2,
        ;
        assert(s2 * c2 == 1024) by (nonlinear_arith)
            requires
                s2 == 16,
                c2 == 64,
        ;
    } else if version == 37 && level == 0 {
        assert(s1 * c1 == 2074) by (nonlinear_arith)
            requires
                s1 == 122,
                c1 == 17,
        ;
        assert(s2 * c2 == 492) by (nonlinear_arith)
            requires
                s2 == 123,
                c2 == 4,
        ;
    } else if version == 37 && level == 1 {
        assert(s1 * c1 == 1334) by (nonlinear_arith)
            requires
                s1 == 46,
                c1 == 29,
        ;
        assert(s2 * c2 == 658) by (nonlinear_arith)
            requires
                s2 == 47,
                c2 == 14,
        ;
    } else if version == 37 && level == 2 {
        assert(s1 * c1 == 1176) by (nonlinear_arith)
            requires
                s1 == 24,
                c1 == 49,
        ;
        assert(s2 * c2 == 250) by (nonlinear_arith)
            requires
                s2 == 25,
                c2 == 10,
        ;
    } else if version == 37 && level == 3 {
        assert(s1 * c1 == 360) by (nonlinear_arith)
            requires
                s1 == 15,
                c1 == 24,
        ;
        assert(s2 * c2 == 736) by (nonlinear_arith)
            requires
                s2 == 16,
                c2 == 46,
        ;
    } else if version == 38 && level == 0 {
        assert(s1 * c1 == 488) by (nonlinear_arith)
            requires
                s1 == 122,
                c1 == 4,
        ;
        assert(s2 * c2 == 2214) by (nonlinear_arith)
            requires
                s2 == 123,
                c2 == 18,
        ;
    } else if version == 38 && level == 1 {
        assert(s1 * c1 == 598) by (nonlinear_arith)
            requires
                s1 == 46,
                c1 == 13,
        ;
        assert(s2 * c2 == 1504) by (nonlinear_arith)
            requires
                s2 == 47,
                c2 == 32,
        ;
    } else if version == 38 && level == 2 {
        assert(s1 * c1 == 1152) by (nonlinear_arith)
            requires
                s1 == 24,
                c1 == 48,
        ;
        assert(s2 * c2 == 350) by (nonlinear_arith)
            requires
                s2 == 25,
                c2 == 14,
        ;
    } else if version == 38 && level == 3 {
        assert(s1 * c1 == 630) by (nonlinear_arith)
            requires
                s1 == 15,
                c1 == 42,
        ;
        assert(s2 * c2 == 512) by (nonlinear_arith)
            requires
                s2 == 16,
                c2 == 32,
        ;
    } else if version == 39 && level == 0 {
        assert(s1 * c1 == 2340) by (nonlinear_arith)
            requires
                s1 == 117,
                c1 == 20,
        ;
        assert(s2 * c2 == 472) by (nonlinear_arith)
            requires
                s2 == 118,
                c2 == 4,
        ;
    } else if version == 39 && level == 1 {
        assert(s1 * c1 == 1880) by (nonlinear_arith)
            requires
                s1 == 47,
                c1 == 40,
        ;
        assert(s2 * c2 == 336) by (nonlinear_arith)
            requires
                s2 == 48,
                c2 == 7,
        ;
    } else if version == 39 && level == 2 {
        assert(s1 * c1 == 1032) by (nonlinear_arith)
            requires
                s1 == 24,
                c1 == 43,
        ;
        assert(s2 * c2 == 550) by (nonlinear_arith)
            requires
                s2 == 25,
                c2 == 22,
        ;
    } else if version == 39 && level == 3 {
        assert(s1 * c1 == 150) by (nonlinear_arith)
            requires
                s1 == 15,
                c1 == 10,
        ;
        assert(s2 * c2 == 1072) by (nonlinear_arith)
            requires
                s2 == 16,
                c2 == 67,
        ;
    } else if version == 40 && level == 0 {
        assert(s1 * c1 == 2242) by (nonlinear_arith)
            requires
                s1 == 118,
                c1 == 19,
        ;
        assert(s2 * c2 == 714) by (nonlinear_arith)
            requires
                s2 == 119,
                c2 == 6,
        ;
    } else if version == 40 && level == 1 {
        assert(s1 * c1 == 846) by (nonlinear_arith)
            requires
                s1 == 47,
                c1 == 18,
        ;
        assert(s2 * c2 == 1488) by (nonlinear_arith)
            requires
                s2 == 48,
                c2 == 31,
        ;
    } else if version == 40 && level == 2 {
        assert(s1 * c1 == 816) by (nonlinear_arith)
            requires
                s1 == 24,
                c1 == 34,
        ;
        assert(s2 * c2 == 850) by (nonlinear_arith)
            requires
                s2 == 25,
                c2 == 34,
        ;
    } else if version == 40 && level == 3 {
        assert(s1 * c1 == 300) by (nonlinear_arith)
            requires
                s1 == 15,
                c1 == 20,
        ;
        assert(s2 * c2 == 976) by (nonlinear_arith)
            requires
                s2 == 16,
                c2 == 61,
        ;
    }
}

/// The number of data codewords of each version and level, worked out from
/// the block structure, is the entry of `DATA_CODEWORDS`.
pub proof fn lemma_data_codewords(version: int, level: int)
    requires
        1 <= version <= 40,
        0 <= level < 4,
    ensures
        data_codewords(version, level) == data_codewords_total(version, level),
        9 <= data_codewords(version, level) <= 2956,
{
    if version <= 5 {
        lemma_data_codewords_1_to_5(version, level);
    } else if version <= 10 {
        lemma_data_codewords_6_to_10(version, level);
    } else if version <= 15 {
        lemma_data_codewords_11_to_15(version, level);
    } else if version <= 20 {
        lemma_data_codewords_16_to_20(version, level);
    } else if version <= 25 {
        lemma_data_codewords_21_to_25(version, level);
    } else if version <= 30 {
        lemma_data_codewords_26_to_30(version, level);
    } else if version <= 35 {
        lemma_data_codewords_31_to_35(version, level);
    } else if version <= 40 {
        lemma_data_codewords_36_to_40(version, level);
    }
}


/// The number of codewords of a symbol: its data codewords and the
/// error-correction codewords of all its blocks.
pub open spec fn codewords_in_symbol(version: int, level: int) -> int {
    let (size_1, count_1, size_2, count_2) = block_structure(version, level);
    data_codewords(version, level) + (count_1 + count_2) * ec_codewords_per_block(version, level)
}

/// The number of modules that the function patterns of a symbol leave
/// free, by the version. A version from 2 on has two alignment coordinates
/// and one more for every seven versions.
pub open spec fn raw_modules(version: int) -> int {
    let n = version / 7 + 2;
    16 * version * version + 128 * version + 64 - (if version >= 2 {
        25 * n * n - 10 * n - 55
    } else {
        0
    }) - (if version >= 7 {
        36int
    } else {
        0int
    })
}

proof fn lemma_codewords_fill_1_to_5(version: int, level: int)
    requires
        1 <= version <= 5,
        0 <= level < 4,
    ensures
        8 * codewords_in_symbol(version, level) <= raw_modules(version) < 8 * codewords_in_symbol(
            version,
            level,
        ) + 8,
{
    let (size_1, count_1, size_2, count_2) = block_structure(version, level);
    let blocks = count_1 + count_2;
    let each = ec_codewords_per_block(version, level);
    lemma_data_codewords(version, level);
    let raw = raw_modules(version);
    if version == 1 && level == 0 {
        assert(blocks * each == 7) by (nonlinear_arith)
            requires
                blocks == 1,
                each == 7,
        ;
        assert(raw == 208) by (nonlinear_arith)
            requires
                version == 1,
                raw == raw_modules(version),
        ;
    } else if version == 1 && level == 1 {
        assert(blocks * each == 10) by (nonlinear_arith)
            requires
                blocks == 1,
                each == 10,
        ;
        assert(raw == 208) by (nonlinear_arith)
            requires
                version == 1,
                raw == raw_modules(version),
        ;
    } else if version == 1 && level == 2 {
        assert(blocks * each == 13) by (nonlinear_arith)
            requires
                blocks == 1,
                each == 13,
        ;
        assert(raw == 208) by (nonlinear_arith)
            requires
                version == 1,
                raw == raw_modules(version),
        ;
    } else if version == 1 && level == 3 {
        assert(blocks * each == 17) by (nonlinear_arith)
            requires
                blocks == 1,
                each == 17,
        ;
        assert(raw == 208) by (nonlinear_arith)
            requires
                version == 1,
                raw == raw_modules(version),
        ;
    } else if version == 2 && level == 0 {
        assert(blocks * each == 10) by (nonlinear_arith)
            requires
                blocks == 1,
                each == 10,
        ;
        assert(raw == 359) by (nonlinear_arith)
            requires
                version == 2,
                raw == raw_modules(version),
        ;
    } else if version == 2 && level == 1 {
        assert(blocks * each == 16) by (nonlinear_arith)
            requires
                blocks == 1,
                each == 16,
        ;
        assert(raw == 359) by (nonlinear_arith)
            requires
                version == 2,
                raw == raw_modules(version),
        ;
    } else if version == 2 && level == 2 {
        assert(blocks * each == 22) by (nonlinear_arith)
            requires
                blocks == 1,
                each == 22,
        ;
        assert(raw == 359) by (nonlinear_arith)
            requires
                version == 2,
                raw == raw_modules(version),
        ;
    } else if version == 2 && level == 3 {
        assert(blocks * each == 28) by (nonlinear_arith)
            requires
                blocks == 1,
                each == 28,
        ;
        assert(raw == 359) by (nonlinear_arith)
            requires
                version == 2,
                raw == raw_modules(version),
        ;
    } else if version == 3 && level == 0 {
        assert(blocks * each == 15) by (nonlinear_arith)
            requires
                blocks == 1,
                each == 15,
        ;
        assert(raw == 567) by (nonlinear_arith)
            requires
                version == 3,
                raw == raw_modules(version),
        ;
    } else if version == 3 && level == 1 {
        assert(blocks * each == 26) by (nonlinear_arith)
            requires
                blocks == 1,
                each == 26,
        ;
        assert(raw == 567) by (nonlinear_arith)
            requires
                version == 3,
                raw == raw_modules(version),
        ;
    } else if version == 3 && level == 2 {
        assert(blocks * each == 36) by (nonlinear_arith)
            requires
                blocks == 2,
                each == 18,
        ;
        assert(raw == 567) by (nonlinear_arith)
            requires
                version == 3,
                raw == raw_modules(version),
        ;
    } else if version == 3 && level == 3 {
        assert(blocks * each == 44) by (nonlinear_arith)
            requires
                blocks == 2,
                each == 22,
        ;
        assert(raw == 567) by (nonlinear_arith)
            requires
                version == 3,
                raw == raw_modules(version),
        ;
    } else if version == 4 && level == 0 {
        assert(blocks * each == 20) by (nonlinear_arith)
            requires
                blocks == 1,
                each == 20,
        ;
        assert(raw == 807) by (nonlinear_arith)
            requires
                version == 4,
                raw == raw_modules(version),
        ;
    } else if version == 4 && level == 1 {
        assert(blocks * each == 36) by (nonlinear_arith)
            requires
                blocks == 2,
                each == 18,
        ;
        assert(raw == 807) by (nonlinear_arith)
            requires
                version == 4,
                raw == raw_modules(version),
        ;
    } else if version == 4 && level == 2 {
        assert(blocks * each == 52) by (nonlinear_arith)
            requires
                blocks == 2,
                each == 26,
        ;
        assert(raw == 807) by (nonlinear_arith)
            requires
                version == 4,
                raw == raw_modules(version),
        ;
    } else if version == 4 && level == 3 {
        assert(blocks * each == 64) by (nonlinear_arith)
            requires
                blocks == 4,
                each == 16,
        ;
        assert(raw == 807) by (nonlinear_arith)
            requires
                version == 4,
                raw == raw_modules(version),
        ;
    } else if version == 5 && level == 0 {
        assert(blocks * each == 26) by (nonlinear_arith)
            requires
                blocks == 1,
                each == 26,
        ;
        assert(raw == 1079) by (nonlinear_arith)
            requires
                version == 5,
                raw == raw_modules(version),
        ;
    } else if version == 5 && level == 1 {
        assert(blocks * each == 48) by (nonlinear_arith)
            requires
                blocks == 2,
                each == 24,
        ;
        assert(raw == 1079) by (nonlinear_arith)
            requires
                version == 5,
                raw == raw_modules(version),
        ;
    } else if version == 5 && level == 2 {
        assert(blocks * each == 72) by (nonlinear_arith)
            requires
                blocks == 4,
                each == 18,
        ;
        assert(raw == 1079) by (nonlinear_arith)
            requires
                version == 5,
                raw == raw_modules(version),
        ;
    } else if version == 5 && level == 3 {
        assert(blocks * each == 88) by (nonlinear_arith)
            requires
                blocks == 4,
                each == 22,
        ;
        assert(raw == 1079) by (nonlinear_arith)
            requires
                version == 5,
                raw == raw_modules(version),
        ;
    }
}

proof fn lemma_codewords_fill_6_to_10(version: int, level: int)
    requires
        6 <= version <= 10,
        0 <= level < 4,
    ensures
        8 * codewords_in_symbol(version, level) <= raw_modules(version) < 8 * codewords_in_symbol(
            version,
            level,
        ) + 8,
{
    let (size_1, count_1, size_2, count_2) = block_structure(version, level);
    let blocks = count_1 + count_2;
    let each = ec_codewords_per_block(version, level);
    lemma_data_codewords(version, level);
    let raw = raw_modules(version);
    if version == 6 && level == 0 {
        assert(blocks * each == 36) by (nonlinear_arith)
            requires
                blocks == 2,
                each == 18,
        ;
        assert(raw == 1383) by (nonlinear_arith)
            requires
                version == 6,
                raw == raw_modules(version),
        ;
    } else if version == 6 && level == 1 {
        assert(blocks * each == 64) by (nonlinear_arith)
            requires
                blocks == 4,
                each == 16,
        ;
        assert(raw == 1383) by (nonlinear_arith)
            requires
                version == 6,
                raw == raw_modules(version),
        ;
    } else if version == 6 && level == 2 {
        assert(blocks * each == 96) by (nonlinear_arith)
            requires
                blocks == 4,
                each == 24,
        ;
        assert(raw == 1383) by (nonlinear_arith)
            requires
                version == 6,
                raw == raw_modules(version),
        ;
    } else if version == 6 && level == 3 {
        assert(blocks * each == 112) by (nonlinear_arith)
            requires
                blocks == 4,
                each == 28,
        ;
        assert(raw == 1383) by (nonlinear_arith)
            requires
                version == 6,
                raw == raw_modules(version),
        ;
    } else if version == 7 && level == 0 {
        assert(blocks * each == 40) by (nonlinear_arith)
            requires
                blocks == 2,
                each == 20,
        ;
        assert(raw == 1568) by (nonlinear_arith)
            requires
                version == 7,
                raw == raw_modules(version),
        ;
    } else if version == 7 && level == 1 {
        assert(blocks * each == 72) by (nonlinear_arith)
            requires
                blocks == 4,
                each == 18,
        ;
        assert(raw == 1568) by (nonlinear_arith)
            requires
                version == 7,
                raw == raw_modules(version),
        ;
    } else if version == 7 && level == 2 {
        assert(blocks * each == 108) by (nonlinear_arith)
            requires
                blocks == 6,
                each == 18,
        ;
        assert(raw == 1568) by (nonlinear_arith)
            requires
                version == 7,
                raw == raw_modules(version),
        ;
    } else if version == 7 && level == 3 {
        assert(blocks * each == 130) by (nonlinear_arith)
            requires
                blocks == 5,
                each == 26,
        ;
        assert(raw == 1568) by (nonlinear_arith)
            requires
                version == 7,
                raw == raw_modules(version),
        ;
    } else if version == 8 && level == 0 {
        assert(blocks * each == 48) by (nonlinear_arith)
            requires
                blocks == 2,
                each == 24,
        ;
        assert(raw == 1936) by (nonlinear_arith)
            requires
                version == 8,
                raw == raw_modules(version),
        ;
    } else if version == 8 && level == 1 {
        assert(blocks * each == 88) by (nonlinear_arith)
            requires
                blocks == 4,
                each == 22,
        ;
        assert(raw == 1936) by (nonlinear_arith)
            requires
                version == 8,
                raw == raw_modules(version),
        ;
    } else if version == 8 && level == 2 {
        assert(blocks * each == 132) by (nonlinear_arith)
            requires
                blocks == 6,
                each == 22,
        ;
        assert(raw == 1936) by (nonlinear_arith)
            requires
                version == 8,
                raw == raw_modules(version),
        ;
    } else if version == 8 && level == 3 {
        assert(blocks * each == 156) by (nonlinear_arith)
            requires
                blocks == 6,
                each == 26,
        ;
        assert(raw == 1936) by (nonlinear_arith)
            requires
                version == 8,
                raw == raw_modules(version),
        ;
    } else if version == 9 && level == 0 {
        assert(blocks * each == 60) by (nonlinear_arith)
            requires
                blocks == 2,
                each == 30,
        ;
        assert(raw == 2336) by (nonlinear_arith)
            requires
                version == 9,
                raw == raw_modules(version),
        ;
    } else if version == 9 && level == 1 {
        assert(blocks * each == 110) by (nonlinear_arith)
            requires
                blocks == 5,
                each == 22,
        ;
        assert(raw == 2336) by (nonlinear_arith)
            requires
                version == 9,
                raw == raw_modules(version),
        ;
    } else if version == 9 && level == 2 {
        assert(blocks * each == 160) by (nonlinear_arith)
            requires
                blocks == 8,
                each == 20,
        ;
        assert(raw == 2336) by (nonlinear_arith)
            requires
                version == 9,
                raw == raw_modules(version),
        ;
    } else if version == 9 && level == 3 {
        assert(blocks * each == 192) by (nonlinear_arith)
            requires
                blocks == 8,
                each == 24,
        ;
        assert(raw == 2336) by (nonlinear_arith)
            requires
                version == 9,
                raw == raw_modules(version),
        ;
    } else if version == 10 && level == 0 {
        assert(blocks * each == 72) by (nonlinear_arith)
            requires
                blocks == 4,
                each == 18,
        ;
        assert(raw == 2768) by (nonlinear_arith)
            requires
                version == 10,
                raw == raw_modules(version),
        ;
    } else if version == 10 && level == 1 {
        assert(blocks * each == 130) by (nonlinear_arith)
            requires
                blocks == 5,
                each == 26,
        ;
        assert(raw == 2768) by (nonlinear_arith)
            requires
                version == 10,
                raw == raw_modules(version),
        ;
    } else if version == 10 && level == 2 {
        assert(blocks * each == 192) by (nonlinear_arith)
            requires
                blocks == 8,
                each == 24,
        ;
        assert(raw == 2768) by (nonlinear_arith)
            requires
                version == 10,
                raw == raw_modules(version),
        ;
    } else if version == 10 && level == 3 {
        assert(blocks * each == 224) by (nonlinear_arith)
            requires
                blocks == 8,
                each == 28,
        ;
        assert(raw == 2768) by (nonlinear_arith)
            requires
                version == 10,
                raw == raw_modules(version),
        ;
    }
}

proof fn lemma_codewords_fill_11_to_15(version: int, level: int)
    requires
        11 <= version <= 15,
        0 <= level < 4,
    ensures
        8 * codewords_in_symbol(version, level) <= raw_modules(version) < 8 * codewords_in_symbol(
            version,
            level,
        ) + 8,
{
    let (size_1, count_1, size_2, count_2) = block_structure(version, level);
    let blocks = count_1 + count_2;
    let each = ec_codewords_per_block(version, level);
    lemma_data_codewords(version, level);
    let raw = raw_modules(version);
    if version == 11 && level == 0 {
        assert(blocks * each == 80) by (nonlinear_arith)
            requires
                blocks == 4,
                each == 20,
        ;
        assert(raw == 3232) by (nonlinear_arith)
            requires
                version == 11,
                raw == raw_modules(version),
        ;
    } else if version == 11 && level == 1 {
        assert(blocks * each == 150) by (nonlinear_arith)
            requires
                blocks == 5,
                each == 30,
        ;
        assert(raw == 3232) by (nonlinear_arith)
            requires
                version == 11,
                raw == raw_modules(version),
        ;
    } else if version == 11 && level == 2 {
        assert(blocks * each == 224) by (nonlinear_arith)
            requires
                blocks == 8,
                each == 28,
        ;
        assert(raw == 3232) by (nonlinear_arith)
            requires
                version == 11,
                raw == raw_modules(version),
        ;
    } else if version == 11 && level == 3 {
        assert(blocks * each == 264) by (nonlinear_arith)
            requires
                blocks == 11,
                each == 24,
        ;
        assert(raw == 3232) by (nonlinear_arith)
            requires
                version == 11,
                raw == raw_modules(version),
        ;
    } else if version == 12 && level == 0 {
        assert(blocks * each == 96) by (nonlinear_arith)
            requires
                blocks == 4,
                each == 24,
        ;
        assert(raw == 3728) by (nonlinear_arith)
            requires
                version == 12,
                raw == raw_modules(version),
        ;
    } else if version == 12 && level == 1 {
        assert(blocks * each == 176) by (nonlinear_arith)
            requires
                blocks == 8,
                each == 22,
        ;
        assert(raw == 3728) by (nonlinear_arith)
            requires
                version == 12,
                raw == raw_modules(version),
        ;
    } else if version == 12 && level == 2 {
        assert(blocks * each == 260) by (nonlinear_arith)
            requires
                blocks == 10,
                each == 26,
        ;
        assert(raw == 3728) by (nonlinear_arith)
            requires
                version == 12,
                raw == raw_modules(version),
        ;
    } else if version == 12 && level == 3 {
        assert(blocks * each == 308) by (nonlinear_arith)
            requires
                blocks == 11,
                each == 28,
        ;
        assert(raw == 3728) by (nonlinear_arith)
            requires
                version == 12,
                raw == raw_modules(version),
        ;
    } else if version == 13 && level == 0 {
        assert(blocks * each == 104) by (nonlinear_arith)
            requires
                blocks == 4,
                each == 26,
        ;
        assert(raw == 4256) by (nonlinear_arith)
            requires
                version == 13,
                raw == raw_modules(version),
        ;
    } else if version == 13 && level == 1 {
        assert(blocks * each == 198) by (nonlinear_arith)
            requires
                blocks == 9,
                each == 22,
        ;
        assert(raw == 4256) by (nonlinear_arith)
            requires
                version == 13,
                raw == raw_modules(version),
        ;
    } else if version == 13 && level == 2 {
        assert(blocks * each == 288) by (nonlinear_arith)
            requires
                blocks == 12,
                each == 24,
        ;
        assert(raw == 4256) by (nonlinear_arith)
            requires
                version == 13,
                raw == raw_modules(version),
        ;
    } else if version == 13 && level == 3 {
        assert(blocks * each == 352) by (nonlinear_arith)
            requires
                blocks == 16,
                each == 22,
        ;
        assert(raw == 4256) by (nonlinear_arith)
            requires
                version == 13,
                raw == raw_modules(version),
        ;
    } else if version == 14 && level == 0 {
        assert(blocks * each == 120) by (nonlinear_arith)
            requires
                blocks == 4,
                each == 30,
        ;
        assert(raw == 4651) by (nonlinear_arith)
            requires
                version == 14,
                raw == raw_modules(version),
        ;
    } else if version == 14 && level == 1 {
        assert(blocks * each == 216) by (nonlinear_arith)
            requires
                blocks == 9,
                each == 24,
        ;
        assert(raw == 4651) by (nonlinear_arith)
            requires
                version == 14,
                raw == raw_modules(version),
        ;
    } else if version == 14 && level == 2 {
        assert(blocks * each == 320) by (nonlinear_arith)
            requires
                blocks == 16,
                each == 20,
        ;
        assert(raw == 4651) by (nonlinear_arith)
            requires
                version == 14,
                raw == raw_modules(version),
        ;
    } else if version == 14 && level == 3 {
        assert(blocks * each == 384) by (nonlinear_arith)
            requires
                blocks == 16,
                each == 24,
        ;
        assert(raw == 4651) by (nonlinear_arith)
            requires
                version == 14,
                raw == raw_modules(version),
        ;
    } else if version == 15 && level == 0 {
        assert(blocks * each == 132) by (nonlinear_arith)
            requires
                blocks == 6,
                each == 22,
        ;
        assert(raw == 5243) by (nonlinear_arith)
            requires
                version == 15,
                raw == raw_modules(version),
        ;
    } else if version == 15 && level == 1 {
        assert(blocks * each == 240) by (nonlinear_arith)
            requires
                blocks == 10,
                each == 24,
        ;
        assert(raw == 5243) by (nonlinear_arith)
            requires
                version == 15,
                raw == raw_modules(version),
        ;
    } else if version == 15 && level == 2 {
        assert(blocks * each == 360) by (nonlinear_arith)
            requires
                blocks == 12,
                each == 30,
        ;
        assert(raw == 5243) by (nonlinear_arith)
            requires
                version == 15,
                raw == raw_modules(version),
        ;
    } else if version == 15 && level == 3 {
        assert(blocks * each == 432) by (nonlinear_arith)
            requires
                blocks == 18,
                each == 24,
        ;
        assert(raw == 5243) by (nonlinear_arith)
            requires
                version == 15,
                raw == raw_modules(version),
        ;
    }
}

proof fn lemma_codewords_fill_16_to_20(version: int, level: int)
    requires
        16 <= version <= 20,
        0 <= level < 4,
    ensures
        8 * codewords_in_symbol(version, level) <= raw_modules(version) < 8 * codewords_in_symbol(
            version,
            level,
        ) + 8,
{
    let (size_1, count_1, size_2, count_2) = block_structure(version, level);
    let blocks = count_1 + count_2;
    let each = ec_codewords_per_block(version, level);
    lemma_data_codewords(version, level);
    let raw = raw_modules(version);
    if version == 16 && level == 0 {
        assert(blocks * each == 144) by (nonlinear_arith)
            requires
                blocks == 6,
                each == 24,
        ;
        assert(raw == 5867) by (nonlinear_arith)
            requires
                version == 16,
                raw == raw_modules(version),
        ;
    } else if version == 16 && level == 1 {
        assert(blocks * each == 280) by (nonlinear_arith)
            requires
                blocks == 10,
                each == 28,
        ;
        assert(raw == 5867) by (nonlinear_arith)
            requires
                version == 16,
                raw == raw_modules(version),
        ;
    } else if version == 16 && level == 2 {
        assert(blocks * each == 408) by (nonlinear_arith)
            requires
                blocks == 17,
                each == 24,
        ;
        assert(raw == 5867) by (nonlinear_arith)
            requires
                version == 16,
                raw == raw_modules(version),
        ;
    } else if version == 16 && level == 3 {
        assert(blocks * each == 480) by (nonlinear_arith)
            requires
                blocks == 16,
                each == 30,
        ;
        assert(raw == 5867) by (nonlinear_arith)
            requires
                version == 16,
                raw == raw_modules(version),
        ;
    } else if version == 17 && level == 0 {
        assert(blocks * each == 168) by (nonlinear_arith)
            requires
                blocks == 6,
                each == 28,
        ;
        assert(raw == 6523) by (nonlinear_arith)
            requires
                version == 17,
                raw == raw_modules(version),
        ;
    } else if version == 17 && level == 1 {
        assert(blocks * each == 308) by (nonlinear_arith)
            requires
                blocks == 11,
                each == 28,
        ;
        assert(raw == 6523) by (nonlinear_arith)
            requires
                version == 17,
                raw == raw_modules(version),
        ;
    } else if version == 17 && level == 2 {
        assert(blocks * each == 448) by (nonlinear_arith)
            requires
                blocks == 16,
                each == 28,
        ;
        assert(raw == 6523) by (nonlinear_arith)
            requires
                version == 17,
                raw == raw_modules(version),
        ;
    } else if version == 17 && level == 3 {
        assert(blocks * each == 532) by (nonlinear_arith)
            requires
                blocks == 19,
                each == 28,
        ;
        assert(raw == 6523) by (nonlinear_arith)
            requires
                version == 17,
                raw == raw_modules(version),
        ;
    } else if version == 18 && level == 0 {
        assert(blocks * each == 180) by (nonlinear_arith)
            requires
                blocks == 6,
                each == 30,
        ;
        assert(raw == 7211) by (nonlinear_arith)
            requires
                version == 18,
                raw == raw_modules(version),
        ;
    } else if version == 18 && level == 1 {
        assert(blocks * each == 338) by (nonlinear_arith)
            requires
                blocks == 13,
                each == 26,
        ;
        assert(raw == 7211) by (nonlinear_arith)
            requires
                version == 18,
                raw == raw_modules(version),
        ;
    } else if version == 18 && level == 2 {
        assert(blocks * each == 504) by (nonlinear_arith)
            requires
                blocks == 18,
                each == 28,
        ;
        assert(raw == 7211) by (nonlinear_arith)
            requires
                version == 18,
                raw == raw_modules(version),
        ;
    } else if version == 18 && level == 3 {
        assert(blocks * each == 588) by (nonlinear_arith)
            requires
                blocks == 21,
                each == 28,
        ;
        assert(raw == 7211) by (nonlinear_arith)
            requires
                version == 18,
                raw == raw_modules(version),
        ;
    } else if version == 19 && level == 0 {
        assert(blocks * each == 196) by (nonlinear_arith)
            requires
                blocks == 7,
                each == 28,
        ;
        assert(raw == 7931) by (nonlinear_arith)
            requires
                version == 19,
                raw == raw_modules(version),
        ;
    } else if version == 19 && level == 1 {
        assert(blocks * each == 364) by (nonlinear_arith)
            requires
                blocks == 14,
                each == 26,
        ;
        assert(raw == 7931) by (nonlinear_arith)
            requires
                version == 19,
                raw == raw_modules(version),
        ;
    } else if version == 19 && level == 2 {
        assert(blocks * each == 546) by (nonlinear_arith)
            requires
                blocks == 21,
                each == 26,
        ;
        assert(raw == 7931) by (nonlinear_arith)
            requires
                version == 19,
                raw == raw_modules(version),
        ;
    } else if version == 19 && level == 3 {
        assert(blocks * each == 650) by (nonlinear_arith)
            requires
                blocks == 25,
                each == 26,
        ;
        assert(raw == 7931) by (nonlinear_arith)
            requires
                version == 19,
                raw == raw_modules(version),
        ;
    } else if version == 20 && level == 0 {
        assert(blocks * each == 224) by (nonlinear_arith)
            requires
                blocks == 8,
                each == 28,
        ;
        assert(raw == 8683) by (nonlinear_arith)
            requires
                version == 20,
                raw == raw_modules(version),
        ;
    } else if version == 20 && level == 1 {
        assert(blocks * each == 416) by (nonlinear_arith)
            requires
                blocks == 16,
                each == 26,
        ;
        assert(raw == 8683) by (nonlinear_arith)
            requires
                version == 20,
                raw == raw_modules(version),
        ;
    } else if version == 20 && level == 2 {
        assert(blocks * each == 600) by (nonlinear_arith)
            requires
                blocks == 20,
                each == 30,
        ;
        assert(raw == 8683) by (nonlinear_arith)
            requires
                version == 20,
                raw == raw_modules(version),
        ;
    } else if version == 20 && level == 3 {
        assert(blocks * each == 700) by (nonlinear_arith)
            requires
                blocks == 25,
                each == 28,
        ;
        assert(raw == 8683) by (nonlinear_arith)
            requires
                version == 20,
                raw == raw_modules(version),
        ;
    }
}

proof fn lemma_codewords_fill_21_to_25(version: int, level: int)
    requires
        21 <= version <= 25,
        0 <= level < 4,
    ensures
        8 * codewords_in_symbol(version, level) <= raw_modules(version) < 8 * codewords_in_symbol(
            version,
            level,
        ) + 8,
{
    let (size_1, count_1, size_2, count_2) = block_structure(version, level);
    let blocks = count_1 + count_2;
    let each = ec_codewords_per_block(version, level);
    lemma_data_codewords(version, level);
    let raw = raw_modules(version);
    if version == 21 && level == 0 {
        assert(blocks * each == 224) by (nonlinear_arith)
            requires
                blocks == 8,
                each == 28,
        ;
        assert(raw == 9252) by (nonlinear_arith)
            requires
                version == 21,
                raw == raw_modules(version),
        ;
    } else if version == 21 && level == 1 {
        assert(blocks * each == 442) by (nonlinear_arith)
            requires
                blocks == 17,
                each == 26,
        ;
        assert(raw == 9252) by (nonlinear_arith)
            requires
                version == 21,
                raw == raw_modules(version),
        ;
    } else if version == 21 && level == 2 {
        assert(blocks * each == 644) by (nonlinear_arith)
            requires
                blocks == 23,
                each == 28,
        ;
        assert(raw == 9252) by (nonlinear_arith)
            requires
                version == 21,
                raw == raw_modules(version),
        ;
    } else if version == 21 && level == 3 {
        assert(blocks * each == 750) by (nonlinear_arith)
            requires
                blocks == 25,
                each == 30,
        ;
        assert(raw == 9252) by (nonlinear_arith)
            requires
                version == 21,
                raw == raw_modules(version),
        ;
    } else if version == 22 && level == 0 {
        assert(blocks * each == 252) by (nonlinear_arith)
            requires
                blocks == 9,
                each == 28,
        ;
        assert(raw == 10068) by (nonlinear_arith)
            requires
                version == 22,
                raw == raw_modules(version),
        ;
    } else if version == 22 && level == 1 {
        assert(blocks * each == 476) by (nonlinear_arith)
            requires
                blocks == 17,
                each == 28,
        ;
        assert(raw == 10068) by (nonlinear_arith)
            requires
                version == 22,
                raw == raw_modules(version),
        ;
    } else if version == 22 && level == 2 {
        assert(blocks * each == 690) by (nonlinear_arith)
            requires
                blocks == 23,
                each == 30,
        ;
        assert(raw == 10068) by (nonlinear_arith)
            requires
                version == 22,
                raw == raw_modules(version),
        ;
    } else if version == 22 && level == 3 {
        assert(blocks * each == 816) by (nonlinear_arith)
            requires
                blocks == 34,
                each == 24,
        ;
        assert(raw == 10068) by (nonlinear_arith)
            requires
                version == 22,
                raw == raw_modules(version),
        ;
    } else if version == 23 && level == 0 {
        assert(blocks * each == 270) by (nonlinear_arith)
            requires
                blocks == 9,
                each == 30,
        ;
        assert(raw == 10916) by (nonlinear_arith)
            requires
                version == 23,
                raw == raw_modules(version),
        ;
    } else if version == 23 && level == 1 {
        assert(blocks * each == 504) by (nonlinear_arith)
            requires
                blocks == 18,
                each == 28,
        ;
        assert(raw == 10916) by (nonlinear_arith)
            requires
                version == 23,
                raw == raw_modules(version),
        ;
    } else if version == 23 && level == 2 {
        assert(blocks * each == 750) by (nonlinear_arith)
            requires
                blocks == 25,
                each == 30,
        ;
        assert(raw == 10916) by (nonlinear_arith)
            requires
                version == 23,
                raw == raw_modules(version),
        ;
    } else if version == 23 && level == 3 {
        assert(blocks * each == 900) by (nonlinear_arith)
            requires
                blocks == 30,
                each == 30,
        ;
        assert(raw == 10916) by (nonlinear_arith)
            requires
                version == 23,
                raw == raw_modules(version),
        ;
    } else if version == 24 && level == 0 {
        assert(blocks * each == 300) by (nonlinear_arith)
            requires
                blocks == 10,
                each == 30,
        ;
        assert(raw == 11796) by (nonlinear_arith)
            requires
                version == 24,
                raw == raw_modules(version),
        ;
    } else if version == 24 && level == 1 {
        assert(blocks * each == 560) by (nonlinear_arith)
            requires
                blocks == 20,
                each == 28,
        ;
        assert(raw == 11796) by (nonlinear_arith)
            requires
                version == 24,
                raw == raw_modules(version),
        ;
    } else if version == 24 && level == 2 {
        assert(blocks * each == 810) by (nonlinear_arith)
            requires
                blocks == 27,
                each == 30,
        ;
        assert(raw == 11796) by (nonlinear_arith)
            requires
                version == 24,
                raw == raw_modules(version),
        ;
    } else if version == 24 && level == 3 {
        assert(blocks * each == 960) by (nonlinear_arith)
            requires
                blocks == 32,
                each == 30,
        ;
        assert(raw == 11796) by (nonlinear_arith)
            requires
                version == 24,
                raw == raw_modules(version),
        ;
    } else if version == 25 && level == 0 {
        assert(blocks * each == 312) by (nonlinear_arith)
            requires
                blocks == 12,
                each == 26,
        ;
        assert(raw == 12708) by (nonlinear_arith)
            requires
                version == 25,
                raw == raw_modules(version),
        ;
    } else if version == 25 && level == 1 {
        assert(blocks * each == 588) by (nonlinear_arith)
            requires
                blocks == 21,
                each == 28,
        ;
        assert(raw == 12708) by (nonlinear_arith)
            requires
                version == 25,
                raw == raw_modules(version),
        ;
    } else if version == 25 && level == 2 {
        assert(blocks * each == 870) by (nonlinear_arith)
            requires
                blocks == 29,
                each == 30,
        ;
        assert(raw == 12708) by (nonlinear_arith)
            requires
                version == 25,
                raw == raw_modules(version),
        ;
    } else if version == 25 && level == 3 {
        assert(blocks * each == 1050) by (nonlinear_arith)
            requires
                blocks == 35,
                each == 30,
        ;
        assert(raw == 12708) by (nonlinear_arith)
            requires
                version == 25,
                raw == raw_modules(version),
        ;
    }
}

proof fn lemma_codewords_fill_26_to_30(version: int, level: int)
    requires
        26 <= version <= 30,
        0 <= level < 4,
    ensures
        8 * codewords_in_symbol(version, level) <= raw_modules(version) < 8 * codewords_in_symbol(
            version,
            level,
        ) + 8,
{
    let (size_1, count_1, size_2, count_2) = block_structure(version, level);
    let blocks = count_1 + count_2;
    let each = ec_codewords_per_block(version, level);
    lemma_data_codewords(version, level);
    let raw = raw_modules(version);
    if version == 26 && level == 0 {
        assert(blocks * each == 336) by (nonlinear_arith)
            requires
                blocks == 12,
                each == 28,
        ;
        assert(raw == 13652) by (nonlinear_arith)
            requires
                version == 26,
                raw == raw_modules(version),
        ;
    } else if version == 26 && level == 1 {
        assert(blocks * each == 644) by (nonlinear_arith)
            requires
                blocks == 23,
                each == 28,
        ;
        assert(raw == 13652) by (nonlinear_arith)
            requires
                version == 26,
                raw == raw_modules(version),
        ;
    } else if version == 26 && level == 2 {
        assert(blocks * each == 952) by (nonlinear_arith)
            requires
                blocks == 34,
                each == 28,
        ;
        assert(raw == 13652) by (nonlinear_arith)
            requires
                version == 26,
                raw == raw_modules(version),
        ;
    } else if version == 26 && level == 3 {
        assert(blocks * each == 1110) by (nonlinear_arith)
            requires
                blocks == 37,
                each == 30,
        ;
        assert(raw == 13652) by (nonlinear_arith)
            requires
                version == 26,
                raw == raw_modules(version),
        ;
    } else if version == 27 && level == 0 {
        assert(blocks * each == 360) by (nonlinear_arith)
            requires
                blocks == 12,
                each == 30,
        ;
        assert(raw == 14628) by (nonlinear_arith)
            requires
                version == 27,
                raw == raw_modules(version),
        ;
    } else if version == 27 && level == 1 {
        assert(blocks * each == 700) by (nonlinear_arith)
            requires
                blocks == 25,
                each == 28,
        ;
        assert(raw == 14628) by (nonlinear_arith)
            requires
                version == 27,
                raw == raw_modules(version),
        ;
    } else if version == 27 && level == 2 {
        assert(blocks * each == 1020) by (nonlinear_arith)
            requires
                blocks == 34,
                each == 30,
        ;
        assert(raw == 14628) by (nonlinear_arith)
            requires
                version == 27,
                raw == raw_modules(version),
        ;
    } else if version == 27 && level == 3 {
        assert(blocks * each == 1200) by (nonlinear_arith)
            requires
                blocks == 40,
                each == 30,
        ;
        assert(raw == 14628) by (nonlinear_arith)
            requires
                version == 27,
                raw == raw_modules(version),
        ;
    } else if version == 28 && level == 0 {
        assert(blocks * each == 390) by (nonlinear_arith)
            requires
                blocks == 13,
                each == 30,
        ;
        assert(raw == 15371) by (nonlinear_arith)
            requires
                version == 28,
                raw == raw_modules(version),
        ;
    } else if version == 28 && level == 1 {
        assert(blocks * each == 728) by (nonlinear_arith)
            requires
                blocks == 26,
                each == 28,
        ;
        assert(raw == 15371) by (nonlinear_arith)
            requires
                version == 28,
                raw == raw_modules(version),
        ;
    } else if version == 28 && level == 2 {
        assert(blocks * each == 1050) by (nonlinear_arith)
            requires
                blocks == 35,
                each == 30,
        ;
        assert(raw == 15371) by (nonlinear_arith)
            requires
                version == 28,
                raw == raw_modules(version),
        ;
    } else if version == 28 && level == 3 {
        assert(blocks * each == 1260) by (nonlinear_arith)
            requires
                blocks == 42,
                each == 30,
        ;
        assert(raw == 15371) by (nonlinear_arith)
            requires
                version == 28,
                raw == raw_modules(version),
        ;
    } else if version == 29 && level == 0 {
        assert(blocks * each == 420) by (nonlinear_arith)
            requires
                blocks == 14,
                each == 30,
        ;
        assert(raw == 16411) by (nonlinear_arith)
            requires
                version == 29,
                raw == raw_modules(version),
        ;
    } else if version == 29 && level == 1 {
        assert(blocks * each == 784) by (nonlinear_arith)
            requires
                blocks == 28,
                each == 28,
        ;
        assert(raw == 16411) by (nonlinear_arith)
            requires
                version == 29,
                raw == raw_modules(version),
        ;
    } else if version == 29 && level == 2 {
        assert(blocks * each == 1140) by (nonlinear_arith)
            requires
                blocks == 38,
                each == 30,
        ;
        assert(raw == 16411) by (nonlinear_arith)
            requires
                version == 29,
                raw == raw_modules(version),
        ;
    } else if version == 29 && level == 3 {
        assert(blocks * each == 1350) by (nonlinear_arith)
            requires
                blocks == 45,
                each == 30,
        ;
        assert(raw == 16411) by (nonlinear_arith)
            requires
                version == 29,
                raw == raw_modules(version),
        ;
    } else if version == 30 && level == 0 {
        assert(blocks * each == 450) by (nonlinear_arith)
            requires
                blocks == 15,
                each == 30,
        ;
        assert(raw == 17483) by (nonlinear_arith)
            requires
                version == 30,
                raw == raw_modules(version),
        ;
    } else if version == 30 && level == 1 {
        assert(blocks * each == 812) by (nonlinear_arith)
            requires
                blocks == 29,
                each == 28,
        ;
        assert(raw == 17483) by (nonlinear_arith)
            requires
                version == 30,
                raw == raw_modules(version),
        ;
    } else if version == 30 && level == 2 {
        assert(blocks * each == 1200) by (nonlinear_arith)
            requires
                blocks == 40,
                each == 30,
        ;
        assert(raw == 17483) by (nonlinear_arith)
            requires
                version == 30,
                raw == raw_modules(version),
        ;
    } else if version == 30 && level == 3 {
        assert(blocks * each == 1440) by (nonlinear_arith)
            requires
                blocks == 48,
                each == 30,
        ;
        assert(raw == 17483) by (nonlinear_arith)
            requires
                version == 30,
                raw == raw_modules(version),
        ;
    }
}

proof fn lemma_codewords_fill_31_to_35(version: int, level: int)
    requires
        31 <= version <= 35,
        0 <= level < 4,
    ensures
        8 * codewords_in_symbol(version, level) <= raw_modules(version) < 8 * codewords_in_symbol(
            version,
            level,
        ) + 8,
{
    let (size_1, count_1, size_2, count_2) = block_structure(version, level);
    let blocks = count_1 + count_2;
    let each = ec_codewords_per_block(version, level);
    lemma_data_codewords(version, level);
    let raw = raw_modules(version);
    if version == 31 && level == 0 {
        assert(blocks * each == 480) by (nonlinear_arith)
            requires
                blocks == 16,
                each == 30,
        ;
        assert(raw == 18587) by (nonlinear_arith)
            requires
                version == 31,
                raw == raw_modules(version),
        ;
    } else if version == 31 && level == 1 {
        assert(blocks * each == 868) by (nonlinear_arith)
            requires
                blocks == 31,
                each == 28,
        ;
        assert(raw == 18587) by (nonlinear_arith)
            requires
                version == 31,
                raw == raw_modules(version),
        ;
    } else if version == 31 && level == 2 {
        assert(blocks * each == 1290) by (nonlinear_arith)
            requires
                blocks == 43,
                each == 30,
        ;
        assert(raw == 18587) by (nonlinear_arith)
            requires
                version == 31,
                raw == raw_modules(version),
        ;
    } else if version == 31 && level == 3 {
        assert(blocks * each == 1530) by (nonlinear_arith)
            requires
                blocks == 51,
                each == 30,
        ;
        assert(raw == 18587) by (nonlinear_arith)
            requires
                version == 31,
                raw == raw_modules(version),
        ;
    } else if version == 32 && level == 0 {
        assert(blocks * each == 510) by (nonlinear_arith)
            requires
                blocks == 17,
                each == 30,
        ;
        assert(raw == 19723) by (nonlinear_arith)
            requires
                version == 32,
                raw == raw_modules(version),
        ;
    } else if version == 32 && level == 1 {
        assert(blocks * each == 924) by (nonlinear_arith)
            requires
                blocks == 33,
                each == 28,
        ;
        assert(raw == 19723) by (nonlinear_arith)
            requires
                version == 32,
                raw == raw_modules(version),
        ;
    } else if version == 32 && level == 2 {
        assert(blocks * each == 1350) by (nonlinear_arith)
            requires
                blocks == 45,
                each == 30,
        ;
        assert(raw == 19723) by (nonlinear_arith)
            requires
                version == 32,
                raw == raw_modules(version),
        ;
    } else if version == 32 && level == 3 {
        assert(blocks * each == 1620) by (nonlinear_arith)
            requires
                blocks == 54,
                each == 30,
        ;
        assert(raw == 19723) by (nonlinear_arith)
            requires
                version == 32,
                raw == raw_modules(version),
        ;
    } else if version == 33 && level == 0 {
        assert(blocks * each == 540) by (nonlinear_arith)
            requires
                blocks == 18,
                each == 30,
        ;
        assert(raw == 20891) by (nonlinear_arith)
            requires
                version == 33,
                raw == raw_modules(version),
        ;
    } else if version == 33 && level == 1 {
        assert(blocks * each == 980) by (nonlinear_arith)
            requires
                blocks == 35,
                each == 28,
        ;
        assert(raw == 20891) by (nonlinear_arith)
            requires
                version == 33,
                raw == raw_modules(version),
        ;
    } else if version == 33 && level == 2 {
        assert(blocks * each == 1440) by (nonlinear_arith)
            requires
                blocks == 48,
                each == 30,
        ;
        assert(raw == 20891) by (nonlinear_arith)
            requires
                version == 33,
                raw == raw_modules(version),
        ;
    } else if version == 33 && level == 3 {
        assert(blocks * each == 1710) by (nonlinear_arith)
            requires
                blocks == 57,
                each == 30,
        ;
        assert(raw == 20891) by (nonlinear_arith)
            requires
                version == 33,
                raw == raw_modules(version),
        ;
    } else if version == 34 && level == 0 {
        assert(blocks * each == 570) by (nonlinear_arith)
            requires
                blocks == 19,
                each == 30,
        ;
        assert(raw == 22091) by (nonlinear_arith)
            requires
                version == 34,
                raw == raw_modules(version),
        ;
    } else if version == 34 && level == 1 {
        assert(blocks * each == 1036) by (nonlinear_arith)
            requires
                blocks == 37,
                each == 28,
        ;
        assert(raw == 22091) by (nonlinear_arith)
            requires
                version == 34,
                raw == raw_modules(version),
        ;
    } else if version == 34 && level == 2 {
        assert(blocks * each == 1530) by (nonlinear_arith)
            requires
                blocks == 51,
                each == 30,
        ;
        assert(raw == 22091) by (nonlinear_arith)
            requires
                version == 34,
                raw == raw_modules(version),
        ;
    } else if version == 34 && level == 3 {
        assert(blocks * each == 1800) by (nonlinear_arith)
            requires
                blocks == 60,
                each == 30,
        ;
        assert(raw == 22091) by (nonlinear_arith)
            requires
                version == 34,
                raw == raw_modules(version),
        ;
    } else if version == 35 && level == 0 {
        assert(blocks * each == 570) by (nonlinear_arith)
            requires
                blocks == 19,
                each == 30,
        ;
        assert(raw == 23008) by (nonlinear_arith)
            requires
                version == 35,
                raw == raw_modules(version),
        ;
    } else if version == 35 && level == 1 {
        assert(blocks * each == 1064) by (nonlinear_arith)
            requires
                blocks == 38,
                each == 28,
        ;
        assert(raw == 23008) by (nonlinear_arith)
            requires
                version == 35,
                raw == raw_modules(version),
        ;
    } else if version == 35 && level == 2 {
        assert(blocks * each == 1590) by (nonlinear_arith)
            requires
                blocks == 53,
                each == 30,
        ;
        assert(raw == 23008) by (nonlinear_arith)
            requires
                version == 35,
                raw == raw_modules(version),
        ;
    } else if version == 35 && level == 3 {
        assert(blocks * each == 1890) by (nonlinear_arith)
            requires
                blocks == 63,
                each == 30,
        ;
        assert(raw == 23008) by (nonlinear_arith)
            requires
                version == 35,
                raw == raw_modules(version),
        ;
    }
}

proof fn lemma_codewords_fill_36_to_40(version: int, level: int)
    requires
        36 <= version <= 40,
        0 <= level < 4,
    ensures
        8 * codewords_in_symbol(version, level) <= raw_modules(version) < 8 * codewords_in_symbol(
            version,
            level,
        ) + 8,
{
    let (size_1, count_1, size_2, count_2) = block_structure(version, level);
    let blocks = count_1 + count_2;
    let each = ec_codewords_per_block(version, level);
    lemma_data_codewords(version, level);
    let raw = raw_modules(version);
    if version == 36 && level == 0 {
        assert(blocks * each == 600) by (nonlinear_arith)
            requires
                blocks == 20,
                each == 30,
        ;
        assert(raw == 24272) by (nonlinear_arith)
            requires
                version == 36,
                raw == raw_modules(version),
        ;
    } else if version == 36 && level == 1 {
        assert(blocks * each == 1120) by (nonlinear_arith)
            requires
                blocks == 40,
                each == 28,
        ;
        assert(raw == 24272) by (nonlinear_arith)
            requires
                version == 36,
                raw == raw_modules(version),
        ;
    } else if version == 36 && level == 2 {
        assert(blocks * each == 1680) by (nonlinear_arith)
            requires
                blocks == 56,
                each == 30,
        ;
        assert(raw == 24272) by (nonlinear_arith)
            requires
                version == 36,
                raw == raw_modules(version),
        ;
    } else if version == 36 && level == 3 {
        assert(blocks * each == 1980) by (nonlinear_arith)
            requires
                blocks == 66,
                each == 30,
        ;
        assert(raw == 24272) by (nonlinear_arith)
            requires
                version == 36,
                raw == raw_modules(version),
        ;
    } else if version == 37 && level == 0 {
        assert(blocks * each == 630) by (nonlinear_arith)
            requires
                blocks == 21,
                each == 30,
        ;
        assert(raw == 25568) by (nonlinear_arith)
            requires
                version == 37,
                raw == raw_modules(version),
        ;
    } else if version == 37 && level == 1 {
        assert(blocks * each == 1204) by (nonlinear_arith)
            requires
                blocks == 43,
                each == 28,
        ;
        assert(raw == 25568) by (nonlinear_arith)
            requires
                version == 37,
                raw == raw_modules(version),
        ;
    } else if version == 37 && level == 2 {
        assert(blocks * each == 1770) by (nonlinear_arith)
            requires
                blocks == 59,
                each == 30,
        ;
        assert(raw == 25568) by (nonlinear_arith)
            requires
                version == 37,
                raw == raw_modules(version),
        ;
    } else if version == 37 && level == 3 {
        assert(blocks * each == 2100) by (nonlinear_arith)
            requires
                blocks == 70,
                each == 30,
        ;
        assert(raw == 25568) by (nonlinear_arith)
            requires
                version == 37,
                raw == raw_modules(version),
        ;
    } else if version == 38 && level == 0 {
        assert(blocks * each == 660) by (nonlinear_arith)
            requires
                blocks == 22,
                each == 30,
        ;
        assert(raw == 26896) by (nonlinear_arith)
            requires
                version == 38,
                raw == raw_modules(version),
        ;
    } else if version == 38 && level == 1 {
        assert(blocks * each == 1260) by (nonlinear_arith)
            requires
                blocks == 45,
                each == 28,
        ;
        assert(raw == 26896) by (nonlinear_arith)
            requires
                version == 38,
                raw == raw_modules(version),
        ;
    } else if version == 38 && level == 2 {
        assert(blocks * each == 1860) by (nonlinear_arith)
            requires
                blocks == 62,
                each == 30,
        ;
        assert(raw == 26896) by (nonlinear_arith)
            requires
                version == 38,
                raw == raw_modules(version),
        ;
    } else if version == 38 && level == 3 {
        assert(blocks * each == 2220) by (nonlinear_arith)
            requires
                blocks == 74,
                each == 30,
        ;
        assert(raw == 26896) by (nonlinear_arith)
            requires
                version == 38,
                raw == raw_modules(version),
        ;
    } else if version == 39 && level == 0 {
        assert(blocks * each == 720) by (nonlinear_arith)
            requires
                blocks == 24,
                each == 30,
        ;
        assert(raw == 28256) by (nonlinear_arith)
            requires
                version == 39,
                raw == raw_modules(version),
        ;
    } else if version == 39 && level == 1 {
        assert(blocks * each == 1316) by (nonlinear_arith)
            requires
                blocks == 47,
                each == 28,
        ;
        assert(raw == 28256) by (nonlinear_arith)
            requires
                version == 39,
                raw == raw_modules(version),
        ;
    } else if version == 39 && level == 2 {
        assert(blocks * each == 1950) by (nonlinear_arith)
            requires
                blocks == 65,
                each == 30,
        ;
        assert(raw == 28256) by (nonlinear_arith)
            requires
                version == 39,
                raw == raw_modules(version),
        ;
    } else if version == 39 && level == 3 {
        assert(blocks * each == 2310) by (nonlinear_arith)
            requires
                blocks == 77,
                each == 30,
        ;
        assert(raw == 28256) by (nonlinear_arith)
            requires
                version == 39,
                raw == raw_modules(version),
        ;
    } else if version == 40 && level == 0 {
        assert(blocks * each == 750) by (nonlinear_arith)
            requires
                blocks == 25,
                each == 30,
        ;
        assert(raw == 29648) by (nonlinear_arith)
            requires
                version == 40,
                raw == raw_modules(version),
        ;
    } else if version == 40 && level == 1 {
        assert(blocks * each == 1372) by (nonlinear_arith)
            requires
                blocks == 49,
                each == 28,
        ;
        assert(raw == 29648) by (nonlinear_arith)
            requires
                version == 40,
                raw == raw_modules(version),
        ;
    } else if version == 40 && level == 2 {
        assert(blocks * each == 2040) by (nonlinear_arith)
            requires
                blocks == 68,
                each == 30,
        ;
        assert(raw == 29648) by (nonlinear_arith)
            requires
                version == 40,
                raw == raw_modules(version),
        ;
    } else if version == 40 && level == 3 {
        assert(blocks * each == 2430) by (nonlinear_arith)
            requires
                blocks == 81,
                each == 30,
        ;
        assert(raw == 29648) by (nonlinear_arith)
            requires
                version == 40,
                raw == raw_modules(version),
        ;
    }
}

/// The codewords of a symbol fill the modules that its function patterns
/// leave free, but for fewer than eight modules that are left over.
pub proof fn lemma_codewords_fill_modules(version: int, level: int)
    requires
        1 <= version <= 40,
        0 <= level < 4,
    ensures
        8 * codewords_in_symbol(version, level) <= raw_modules(version) < 8 * codewords_in_symbol(
            version,
            level,
        ) + 8,
{
    if version <= 5 {
        lemma_codewords_fill_1_to_5(version, level);
    } else if version <= 10 {
        lemma_codewords_fill_6_to_10(version, level);
    } else if version <= 15 {
        lemma_codewords_fill_11_to_15(version, level);
    } else if version <= 20 {
        lemma_codewords_fill_16_to_20(version, level);
    } else if version <= 25 {
        lemma_codewords_fill_21_to_25(version, level);
    } else if version <= 30 {
        lemma_codewords_fill_26_to_30(version, level);
    } else if version <= 35 {
        lemma_codewords_fill_31_to_35(version, level);
    } else if version <= 40 {
        lemma_codewords_fill_36_to_40(version, level);
    }
}

/// Reads the block structure of a version and level.
pub fn block_structure_entry(version: u8, level: u8) -> (entry: (usize, usize, usize, usize))
    requires
        1 <= version <= 40,
        level < 4,
    ensures
        entry == block_structure(version as int, level as int),
{
    DATA_BYTES_PER_BLOCK[(version - 1) as usize][level as usize]
}

/// Reads the number of error-correction codewords per block.
pub fn ec_codewords_entry(version: u8, level: u8) -> (count: usize)
    requires
        1 <= version <= 40,
        level < 4,
    ensures
        count == ec_codewords_per_block(version as int, level as int),
{
    EC_BYTES_PER_BLOCK[(version - 1) as usize][level as usize]
}

} // verus!
