//! The encoded format and version words.
use vstd::prelude::*;

verus! {

/// The encoded 15-bit format words: entry `8 * level + mask`.
pub const FORMAT_BITS: [u32; 32] = [
    0x77c4, 0x72f3, 0x7daa, 0x789d, 0x662f, 0x6318, 0x6c41, 0x6976,
    0x5412, 0x5125, 0x5e7c, 0x5b4b, 0x45f9, 0x40ce, 0x4f97, 0x4aa0,
    0x355f, 0x3068, 0x3f31, 0x3a06, 0x24b4, 0x2183, 0x2eda, 0x2bed,
    0x1689, 0x13be, 0x1ce7, 0x19d0, 0x0762, 0x0255, 0x0d0c, 0x083b,
];

/// The encoded 18-bit version words, for versions 7 to 40: entry
/// `version - 7`.
pub const VERSION_BITS: [u32; 34] = [
    0x07c94, 0x085bc, 0x09a99, 0x0a4d3, 0x0bbf6, 0x0c762,
    0x0d847, 0x0e60d, 0x0f928, 0x10b78, 0x1145d, 0x12a17,
    0x13532, 0x149a6, 0x15683, 0x168c9, 0x177ec, 0x18ec4,
    0x191e1, 0x1afab, 0x1b08e, 0x1cc1a, 0x1d33f, 0x1ed75,
    0x1f250, 0x209d5, 0x216f0, 0x228ba, 0x2379f, 0x24b0b,
    0x2542e, 0x26a64, 0x27541, 0x28c69,
];

/// The encoded format word of a level (0 for L to 3 for H) and a mask
/// pattern (0 to 7).
pub closed spec fn format_word(level: int, mask: int) -> u32 {
    FORMAT_BITS[8 * level + mask]
}

/// The encoded version word of a version from 7 to 40.
pub closed spec fn version_word(version: int) -> u32 {
    VERSION_BITS[version - 7]
}

/// `format_word` and `version_word` are the entries of the two tables.
pub proof fn lemma_table_entries(level: int, mask: int, version: int)
    ensures
        format_word(level, mask) == FORMAT_BITS[8 * level + mask],
        version_word(version) == VERSION_BITS[version - 7],
{
}

/// A format word has 15 bits and a version word has 18; the upper six bits
/// of a version word are the version number.
pub proof fn lemma_word_widths(level: int, mask: int, version: int)
    requires
        0 <= level < 4,
        0 <= mask < 8,
        7 <= version <= 40,
    ensures
        format_word(level, mask) < 0x8000,
        version_word(version) < 0x40000,
        version_word(version) / 0x1000 == version,
{
}

/// Reads the format word of a level and mask pattern.
pub fn format_bits(level: u8, mask: u8) -> (word: u32)
    requires
        level < 4,
        mask < 8,
    ensures
        word == format_word(level as int, mask as int),
{
    FORMAT_BITS[(8 * level + mask) as usize]
}

/// Reads the version word of a version.
pub fn version_bits(version: u8) -> (word: u32)
    requires
        7 <= version <= 40,
    ensures
        word == version_word(version as int),
{
    VERSION_BITS[(version - 7) as usize]
}

/// One step of the division of a polynomial with binary coefficients by
/// `generator`: if the coefficient of the power `degree + k` is set, the
/// generator, moved up by `k` places, is taken off.
pub open spec fn cancel(c: u32, generator: u32, degree: u32, k: u32) -> u32 {
    if c & (1u32 << (degree + k)) != 0 {
        c ^ (generator << k)
    } else {
        c
    }
}

/// The remainder of a format word, with its mask of 0x5412 taken off, after
/// division by the generator polynomial of the format code,
/// x^10 + x^8 + x^5 + x^4 + x^2 + x + 1.
pub open spec fn format_remainder(word: u32) -> u32 {
    cancel(
        cancel(
            cancel(cancel(cancel(word ^ 0x5412, 0x537, 10, 4), 0x537, 10, 3), 0x537, 10, 2),
            0x537,
            10,
            1,
        ),
        0x537,
        10,
        0,
    )
}

/// The remainder of a version word after division by the generator
/// polynomial of the version code,
/// x^12 + x^11 + x^10 + x^9 + x^8 + x^5 + x^2 + 1.
pub open spec fn version_remainder(word: u32) -> u32 {
    cancel(
        cancel(
            cancel(
                cancel(cancel(cancel(word, 0x1f25, 12, 5), 0x1f25, 12, 4), 0x1f25, 12, 3),
                0x1f25,
                12,
                2,
            ),
            0x1f25,
            12,
            1,
        ),
        0x1f25,
        12,
        0,
    )
}

/// The five data bits of a format word if the word is a codeword of the
/// format code, and 32 if it is none.
pub open spec fn format_check(word: u32) -> u32 {
    if format_remainder(word) == 0 {
        (word ^ 0x5412) >> 10
    } else {
        32
    }
}

/// The six data bits of a version word if the word is a codeword of the
/// version code, and 64 if it is none.
pub open spec fn version_check(word: u32) -> u32 {
    if version_remainder(word) == 0 {
        word >> 12
    } else {
        64
    }
}

/// The two bits that stand for an error-correction level (0 for L to 3 for
/// H) in the format information: 01, 00, 11 and 10.
pub open spec fn level_bits(level: int) -> int {
    if level == 0 {
        1
    } else if level == 1 {
        0
    } else if level == 2 {
        3
    } else {
        2
    }
}

proof fn lemma_format_codewords()
    by (bit_vector)
    ensures
        format_check(0x77c4) == 8,
        format_check(0x72f3) == 9,
        format_check(0x7daa) == 10,
        format_check(0x789d) == 11,
        format_check(0x662f) == 12,
        format_check(0x6318) == 13,
        format_check(0x6c41) == 14,
        format_check(0x6976) == 15,
        format_check(0x5412) == 0,
        format_check(0x5125) == 1,
        format_check(0x5e7c) == 2,
        format_check(0x5b4b) == 3,
        format_check(0x45f9) == 4,
        format_check(0x40ce) == 5,
        format_check(0x4f97) == 6,
        format_check(0x4aa0) == 7,
        format_check(0x355f) == 24,
        format_check(0x3068) == 25,
        format_check(0x3f31) == 26,
        format_check(0x3a06) == 27,
        format_check(0x24b4) == 28,
        format_check(0x2183) == 29,
        format_check(0x2eda) == 30,
        format_check(0x2bed) == 31,
        format_check(0x1689) == 16,
        format_check(0x13be) == 17,
        format_check(0x1ce7) == 18,
        format_check(0x19d0) == 19,
        format_check(0x0762) == 20,
        format_check(0x0255) == 21,
        format_check(0x0d0c) == 22,
        format_check(0x083b) == 23,
{
}

proof fn lemma_version_codewords()
    by (bit_vector)
    ensures
        version_check(0x07c94) == 7,
        version_check(0x085bc) == 8,
        version_check(0x09a99) == 9,
        version_check(0x0a4d3) == 10,
        version_check(0x0bbf6) == 11,
        version_check(0x0c762) == 12,
        version_check(0x0d847) == 13,
        version_check(0x0e60d) == 14,
        version_check(0x0f928) == 15,
        version_check(0x10b78) == 16,
        version_check(0x1145d) == 17,
        version_check(0x12a17) == 18,
        version_check(0x13532) == 19,
        version_check(0x149a6) == 20,
        version_check(0x15683) == 21,
        version_check(0x168c9) == 22,
        version_check(0x177ec) == 23,
        version_check(0x18ec4) == 24,
        version_check(0x191e1) == 25,
        version_check(0x1afab) == 26,
        version_check(0x1b08e) == 27,
        version_check(0x1cc1a) == 28,
        version_check(0x1d33f) == 29,
        version_check(0x1ed75) == 30,
        version_check(0x1f250) == 31,
        version_check(0x209d5) == 32,
        version_check(0x216f0) == 33,
        version_check(0x228ba) == 34,
        version_check(0x2379f) == 35,
        version_check(0x24b0b) == 36,
        version_check(0x2542e) == 37,
        version_check(0x26a64) == 38,
        version_check(0x27541) == 39,
        version_check(0x28c69) == 40,
{
}

/// Every format word is a codeword of the format code, masked with 0x5412:
/// its upper five bits are the two bits of the level and the three bits of
/// the mask pattern, and the word without its mask is a multiple of the
/// generator polynomial of the code.
pub proof fn lemma_format_words_are_codewords(level: int, mask: int)
    requires
        0 <= level < 4,
        0 <= mask < 8,
    ensures
        format_remainder(format_word(level, mask)) == 0,
        (format_word(level, mask) ^ 0x5412) >> 10 == 8 * level_bits(level) + mask,
{
    lemma_format_codewords();
    assert(format_check(format_word(level, mask)) == 8 * level_bits(level) + mask);
}

/// Every version word is a codeword of the version code: its upper six
/// bits are the version, and the word is a multiple of the generator
/// polynomial of the code.
pub proof fn lemma_version_words_are_codewords(version: int)
    requires
        7 <= version <= 40,
    ensures
        version_remainder(version_word(version)) == 0,
        version_word(version) >> 12 == version,
{
    lemma_version_codewords();
    assert(version_check(version_word(version)) == version);
}

} // verus!
