//! How many characters a symbol holds, and how wide its character count is.
use crate::encoding::Encoding;
use crate::tables::blocks::{data_codewords_total, lemma_total_entries, DATA_CODEWORDS};
use vstd::prelude::*;

verus! {

/// The largest number of digits a symbol holds, by version and
/// error-correction level: entry `4 * (version - 1) + level`.
pub const NUMERIC_SIZE: [u32; 160] = [
    41, 34, 27, 17,
    77, 63, 48, 34,
    127, 101, 77, 58,
    187, 149, 111, 82,
    255, 202, 144, 106,
    322, 255, 178, 139,
    370, 293, 207, 154,
    461, 365, 259, 202,
    552, 432, 312, 235,
    652, 513, 364, 288,
    772, 604, 427, 331,
    883, 691, 489, 374,
    1022, 796, 580, 427,
    1101, 871, 621, 468,
    1250, 991, 703, 530,
    1408, 1082, 775, 602,
    1548, 1212, 876, 674,
    1725, 1346, 948, 746,
    1903, 1500, 1063, 813,
    2061, 1600, 1159, 919,
    2232, 1708, 1224, 969,
    2409, 1872, 1358, 1056,
    2620, 2059, 1468, 1108,
    2812, 2188, 1588, 1228,
    3057, 2395, 1718, 1286,
    3283, 2544, 1804, 1425,
    3517, 2701, 1933, 1501,
    3669, 2857, 2085, 1581,
    3909, 3035, 2181, 1677,
    4158, 3289, 2358, 1782,
    4417, 3486, 2473, 1897,
    4686, 3693, 2670, 2022,
    4965, 3909, 2805, 2157,
    5253, 4134, 2949, 2301,
    5529, 4343, 3081, 2361,
    5836, 4588, 3244, 2524,
    6153, 4775, 3417, 2625,
    6479, 5039, 3599, 2735,
    6743, 5313, 3791, 2927,
    7089, 5596, 3993, 3057,
];

/// The largest number of alphanumeric characters a symbol holds, by version and
/// error-correction level: entry `4 * (version - 1) + level`.
pub const ALPHANUMERIC_SIZE: [u32; 160] = [
    25, 20, 16, 10,
    47, 38, 29, 20,
    77, 61, 47, 35,
    114, 90, 67, 50,
    154, 122, 87, 64,
    195, 154, 108, 84,
    224, 178, 125, 93,
    279, 221, 157, 122,
    335, 262, 189, 143,
    395, 311, 221, 174,
    468, 366, 259, 200,
    535, 419, 296, 227,
    619, 483, 352, 259,
    667, 528, 376, 283,
    758, 600, 426, 321,
    854, 656, 470, 365,
    938, 734, 531, 408,
    1046, 816, 574, 452,
    1153, 909, 644, 493,
    1249, 970, 702, 557,
    1352, 1035, 742, 587,
    1460, 1134, 823, 640,
    1588, 1248, 890, 672,
    1704, 1326, 963, 744,
    1853, 1451, 1041, 779,
    1990, 1542, 1094, 864,
    2132, 1637, 1172, 910,
    2223, 1732, 1263, 958,
    2369, 1839, 1322, 1016,
    2520, 1994, 1429, 1080,
    2677, 2113, 1499, 1150,
    2840, 2238, 1618, 1226,
    3009, 2369, 1700, 1307,
    3183, 2506, 1787, 1394,
    3351, 2632, 1867, 1431,
    3537, 2780, 1966, 1530,
    3729, 2894, 2071, 1591,
    3927, 3054, 2181, 1658,
    4087, 3220, 2298, 1774,
    4296, 3391, 2420, 1852,
];

/// The largest number of bytes a symbol holds, by version and
/// error-correction level: entry `4 * (version - 1) + level`.
pub const BYTE_SIZE: [u32; 160] = [
    17, 14, 11, 7,
    32, 26, 20, 14,
    53, 42, 32, 24,
    78, 62, 46, 34,
    106, 84, 60, 44,
    134, 106, 74, 58,
    154, 122, 86, 64,
    192, 152, 108, 84,
    230, 180, 130, 98,
    271, 213, 151, 119,
    321, 251, 177, 137,
    367, 287, 203, 155,
    425, 331, 241, 177,
    458, 362, 258, 194,
    520, 412, 292, 220,
    586, 450, 322, 250,
    644, 504, 364, 280,
    718, 560, 394, 310,
    792, 624, 442, 338,
    858, 666, 482, 382,
    929, 711, 509, 403,
    1003, 779, 565, 439,
    1091, 857, 611, 461,
    1171, 911, 661, 511,
    1273, 997, 715, 535,
    1367, 1059, 751, 593,
    1465, 1125, 805, 625,
    1528, 1190, 868, 658,
    1628, 1264, 908, 698,
    1732, 1370, 982, 742,
    1840, 1452, 1030, 790,
    1952, 1538, 1112, 842,
    2068, 1628, 1168, 898,
    2188, 1722, 1228, 958,
    2303, 1809, 1283, 983,
    2431, 1911, 1351, 1051,
    2563, 1989, 1423, 1093,
    2699, 2099, 1499, 1139,
    2809, 2213, 1579, 1219,
    2953, 2331, 1663, 1273,
];

/// The largest number of Kanji characters a symbol holds, by version and
/// error-correction level: entry `4 * (version - 1) + level`.
pub const KANJI_SIZE: [u32; 160] = [
    10, 8, 7, 4,
    20, 16, 12, 8,
    32, 26, 20, 15,
    48, 38, 28, 21,
    65, 52, 37, 27,
    82, 65, 45, 36,
    95, 75, 53, 39,
    118, 93, 66, 52,
    141, 111, 80, 60,
    167, 131, 93, 74,
    198, 155, 109, 85,
    226, 177, 125, 96,
    262, 204, 149, 109,
    282, 223, 159, 120,
    320, 254, 180, 136,
    361, 277, 198, 154,
    397, 310, 224, 173,
    442, 345, 243, 191,
    488, 384, 272, 208,
    528, 410, 297, 235,
    572, 438, 314, 248,
    618, 480, 348, 270,
    672, 528, 376, 284,
    721, 561, 407, 315,
    784, 614, 440, 330,
    842, 652, 462, 365,
    902, 692, 496, 385,
    940, 732, 534, 405,
    1002, 778, 559, 430,
    1066, 843, 604, 457,
    1132, 894, 634, 486,
    1201, 947, 684, 518,
    1273, 1002, 719, 553,
    1347, 1060, 756, 590,
    1417, 1113, 790, 605,
    1496, 1176, 832, 647,
    1577, 1224, 876, 673,
    1661, 1292, 923, 701,
    1729, 1362, 972, 750,
    1817, 1435, 1024, 784,
];

/// Width in bits of the character count of numeric mode, for versions 1 to 9,
/// 10 to 26 and 27 to 40.
pub const NUMERIC_CHAR_COUNT: [u8; 3] = [10, 12, 14];

/// Width in bits of the character count of alphanumeric mode, for versions 1 to 9,
/// 10 to 26 and 27 to 40.
pub const ALPHANUMERIC_CHAR_COUNT: [u8; 3] = [9, 11, 13];

/// Width in bits of the character count of byte mode, for versions 1 to 9,
/// 10 to 26 and 27 to 40.
pub const BYTE_CHAR_COUNT: [u8; 3] = [8, 16, 16];

/// Width in bits of the character count of Kanji mode, for versions 1 to 9,
/// 10 to 26 and 27 to 40.
pub const KANJI_CHAR_COUNT: [u8; 3] = [8, 10, 12];

/// The capacity table of an encoding mode, as a sequence.
pub closed spec fn capacity_table(encoding: Encoding) -> Seq<u32> {
    match encoding {
        Encoding::Numeric => NUMERIC_SIZE@,
        Encoding::Alphanumeric => ALPHANUMERIC_SIZE@,
        Encoding::Byte => BYTE_SIZE@,
        Encoding::Kanji => KANJI_SIZE@,
    }
}

/// The largest number of characters that a symbol of the given version and
/// level (0 for L to 3 for H) holds in the given mode.
pub open spec fn capacity(encoding: Encoding, version: int, level: int) -> int {
    capacity_table(encoding)[4 * (version - 1) + level] as int
}

/// The range of versions that share a width of the character count: 0 for
/// versions 1 to 9, 1 for 10 to 26, 2 for 27 to 40.
pub open spec fn version_range(version: int) -> int {
    if version <= 9 {
        0
    } else if version <= 26 {
        1
    } else {
        2
    }
}

/// The width in bits of the character count of a mode at a version.
pub closed spec fn count_bits(encoding: Encoding, version: int) -> int {
    let range = version_range(version);
    match encoding {
        Encoding::Numeric => NUMERIC_CHAR_COUNT[range] as int,
        Encoding::Alphanumeric => ALPHANUMERIC_CHAR_COUNT[range] as int,
        Encoding::Byte => BYTE_CHAR_COUNT[range] as int,
        Encoding::Kanji => KANJI_CHAR_COUNT[range] as int,
    }
}

/// `capacity_table` and `count_bits` are the entries of the tables.
pub proof fn lemma_table_entries(encoding: Encoding, version: int)
    ensures
        capacity_table(encoding) == (match encoding {
            Encoding::Numeric => NUMERIC_SIZE@,
            Encoding::Alphanumeric => ALPHANUMERIC_SIZE@,
            Encoding::Byte => BYTE_SIZE@,
            Encoding::Kanji => KANJI_SIZE@,
        }),
        count_bits(encoding, version) == (match encoding {
            Encoding::Numeric => NUMERIC_CHAR_COUNT[version_range(version)],
            Encoding::Alphanumeric => ALPHANUMERIC_CHAR_COUNT[version_range(version)],
            Encoding::Byte => BYTE_CHAR_COUNT[version_range(version)],
            Encoding::Kanji => KANJI_CHAR_COUNT[version_range(version)],
        }),
{
}

/// The widths of the character count, written out.
pub proof fn lemma_count_bits(encoding: Encoding, version: int)
    ensures
        count_bits(encoding, version) == (match encoding {
            Encoding::Numeric => 10 + 2 * version_range(version),
            Encoding::Alphanumeric => 9 + 2 * version_range(version),
            Encoding::Byte => if version_range(version) == 0 {
                8
            } else {
                16
            },
            Encoding::Kanji => 8 + 2 * version_range(version),
        }),
{
}

proof fn lemma_numeric_size(i: int)
    requires
        0 <= i < 160,
    ensures
        0 < NUMERIC_SIZE[i] <= 7089,
        i < 156 ==> NUMERIC_SIZE[i] < NUMERIC_SIZE[i + 4],
{
}

proof fn lemma_alphanumeric_size(i: int)
    requires
        0 <= i < 160,
    ensures
        0 < ALPHANUMERIC_SIZE[i] <= 7089,
        i < 156 ==> ALPHANUMERIC_SIZE[i] < ALPHANUMERIC_SIZE[i + 4],
{
}

proof fn lemma_byte_size(i: int)
    requires
        0 <= i < 160,
    ensures
        0 < BYTE_SIZE[i] <= 7089,
        i < 156 ==> BYTE_SIZE[i] < BYTE_SIZE[i + 4],
{
}

proof fn lemma_kanji_size(i: int)
    requires
        0 <= i < 160,
    ensures
        0 < KANJI_SIZE[i] <= 7089,
        i < 156 ==> KANJI_SIZE[i] < KANJI_SIZE[i + 4],
{
}

/// Every capacity table has one entry for each version and level, a symbol
/// of a higher version holds more, and no symbol holds more than 7089
/// characters.
pub proof fn lemma_capacity(encoding: Encoding, version: int, level: int)
    requires
        1 <= version <= 40,
        0 <= level < 4,
    ensures
        capacity_table(encoding).len() == 160,
        0 < capacity(encoding, version, level) <= 7089,
        version < 40 ==> capacity(encoding, version, level) < capacity(encoding, version + 1, level),
{
    let i = 4 * (version - 1) + level;
    match encoding {
        Encoding::Numeric => lemma_numeric_size(i),
        Encoding::Alphanumeric => lemma_alphanumeric_size(i),
        Encoding::Byte => lemma_byte_size(i),
        Encoding::Kanji => lemma_kanji_size(i),
    }
}

/// The capacity table of an encoding mode.
pub fn table_from_encoding(encoding: Encoding) -> (table: &'static [u32; 160])
    ensures
        table@ == capacity_table(encoding),
{
    match encoding {
        Encoding::Numeric => &NUMERIC_SIZE,
        Encoding::Alphanumeric => &ALPHANUMERIC_SIZE,
        Encoding::Byte => &BYTE_SIZE,
        Encoding::Kanji => &KANJI_SIZE,
    }
}

/// Reads the capacity of a symbol from the table of the mode.
pub fn capacity_entry(encoding: Encoding, version: u8, level: u8) -> (limit: u32)
    requires
        1 <= version <= 40,
        level < 4,
    ensures
        limit == capacity(encoding, version as int, level as int),
{
    let table = table_from_encoding(encoding);
    table[4 * (version as usize - 1) + level as usize]
}

/// The width in bits of the character count of a mode at a version.
pub fn char_count(version: u8, encoding: Encoding) -> (width: u8)
    requires
        1 <= version <= 40,
    ensures
        width == count_bits(encoding, version as int),
{
    let index: usize = if version <= 9 {
        0
    } else if version <= 26 {
        1
    } else {
        2
    };
    match encoding {
        Encoding::Numeric => NUMERIC_CHAR_COUNT[index],
        Encoding::Alphanumeric => ALPHANUMERIC_CHAR_COUNT[index],
        Encoding::Byte => BYTE_CHAR_COUNT[index],
        Encoding::Kanji => KANJI_CHAR_COUNT[index],
    }
}

/// The number of bits that spell `count` characters in a mode. Kanji mode
/// is not implemented and spells nothing.
pub open spec fn payload_bits(encoding: Encoding, count: int) -> int {
    match encoding {
        Encoding::Numeric => 10 * (count / 3) + (if count % 3 == 0 {
            0int
        } else if count % 3 == 1 {
            4int
        } else {
            7int
        }),
        Encoding::Alphanumeric => 11 * (count / 2) + 6 * (count % 2),
        Encoding::Byte => 8 * count,
        Encoding::Kanji => 0,
    }
}

/// The number of bits of the data segment of `count` characters: mode
/// indicator, character count and the characters themselves.
pub open spec fn segment_bits(encoding: Encoding, version: int, count: int) -> int {
    4 + count_bits(encoding, version) + payload_bits(encoding, count)
}

/// More characters take at least as many bits.
pub proof fn lemma_payload_bits_grow(encoding: Encoding, fewer: int, more: int)
    requires
        0 <= fewer <= more,
    ensures
        0 <= payload_bits(encoding, fewer) <= payload_bits(encoding, more),
{
}

proof fn lemma_numeric_fits(i: int)
    requires
        0 <= i < 160,
    ensures
        4 + NUMERIC_CHAR_COUNT[version_range(i / 4 + 1)] + payload_bits(
            Encoding::Numeric,
            NUMERIC_SIZE[i] as int,
        ) <= 8 * DATA_CODEWORDS[i],
        4 + NUMERIC_CHAR_COUNT[version_range(i / 4 + 1)] + payload_bits(
            Encoding::Numeric,
            NUMERIC_SIZE[i] + 1,
        ) > 8 * DATA_CODEWORDS[i],
        NUMERIC_SIZE[i] < vstd::arithmetic::power2::pow2(
            NUMERIC_CHAR_COUNT[version_range(i / 4 + 1)] as nat,
        ),
{
    vstd::arithmetic::power2::lemma2_to64();
}

proof fn lemma_alphanumeric_fits(i: int)
    requires
        0 <= i < 160,
    ensures
        4 + ALPHANUMERIC_CHAR_COUNT[version_range(i / 4 + 1)] + payload_bits(
            Encoding::Alphanumeric,
            ALPHANUMERIC_SIZE[i] as int,
        ) <= 8 * DATA_CODEWORDS[i],
        4 + ALPHANUMERIC_CHAR_COUNT[version_range(i / 4 + 1)] + payload_bits(
            Encoding::Alphanumeric,
            ALPHANUMERIC_SIZE[i] + 1,
        ) > 8 * DATA_CODEWORDS[i],
        ALPHANUMERIC_SIZE[i] < vstd::arithmetic::power2::pow2(
            ALPHANUMERIC_CHAR_COUNT[version_range(i / 4 + 1)] as nat,
        ),
{
    vstd::arithmetic::power2::lemma2_to64();
}

proof fn lemma_byte_fits(i: int)
    requires
        0 <= i < 160,
    ensures
        4 + BYTE_CHAR_COUNT[version_range(i / 4 + 1)] + payload_bits(
            Encoding::Byte,
            BYTE_SIZE[i] as int,
        ) <= 8 * DATA_CODEWORDS[i],
        4 + BYTE_CHAR_COUNT[version_range(i / 4 + 1)] + payload_bits(
            Encoding::Byte,
            BYTE_SIZE[i] + 1,
        ) > 8 * DATA_CODEWORDS[i],
        BYTE_SIZE[i] < vstd::arithmetic::power2::pow2(
            BYTE_CHAR_COUNT[version_range(i / 4 + 1)] as nat,
        ),
{
    vstd::arithmetic::power2::lemma2_to64();
}

/// A text that a symbol holds by the capacity table fits into its data
/// codewords: the data segment of no more characters than the capacity is
/// no longer than the data codewords of the symbol, and the number of
/// characters can be written in the bits of the character count.
pub proof fn lemma_capacity_fits(encoding: Encoding, version: int, level: int, count: int)
    requires
        encoding != Encoding::Kanji,
        1 <= version <= 40,
        0 <= level < 4,
        0 <= count <= capacity(encoding, version, level),
    ensures
        segment_bits(encoding, version, count) <= 8 * data_codewords_total(version, level),
        count < vstd::arithmetic::power2::pow2(count_bits(encoding, version) as nat),
{
    let i = 4 * (version - 1) + level;
    assert(i / 4 + 1 == version);
    lemma_total_entries(version, level);
    lemma_payload_bits_grow(encoding, count, capacity(encoding, version, level));
    match encoding {
        Encoding::Numeric => lemma_numeric_fits(i),
        Encoding::Alphanumeric => lemma_alphanumeric_fits(i),
        Encoding::Byte => lemma_byte_fits(i),
        Encoding::Kanji => {},
    }
}

/// The capacity table is tight: the data segment of one character more
/// than the capacity of a symbol is longer than its data codewords.
pub proof fn lemma_capacity_is_tight(encoding: Encoding, version: int, level: int)
    requires
        encoding != Encoding::Kanji,
        1 <= version <= 40,
        0 <= level < 4,
    ensures
        segment_bits(encoding, version, capacity(encoding, version, level) + 1) > 8
            * data_codewords_total(version, level),
{
    let i = 4 * (version - 1) + level;
    assert(i / 4 + 1 == version);
    lemma_total_entries(version, level);
    match encoding {
        Encoding::Numeric => lemma_numeric_fits(i),
        Encoding::Alphanumeric => lemma_alphanumeric_fits(i),
        Encoding::Byte => lemma_byte_fits(i),
        Encoding::Kanji => {},
    }
}

} // verus!
