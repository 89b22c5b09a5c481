//! The field of 256 elements in which the error-correction codewords are
//! computed: its tables of exponents and logarithms, and what they hold.
use vstd::prelude::*;

verus! {

/// Powers of the generator of the field: entry `i` is the `i`-th power.
/// Entry 255 repeats entry 0.
pub const EXP_TABLE: [u8; 256] = [
    1, 2, 4, 8, 16, 32, 64, 128, 29, 58, 116, 232, 205, 135, 19, 38,
    76, 152, 45, 90, 180, 117, 234, 201, 143, 3, 6, 12, 24, 48, 96, 192,
    157, 39, 78, 156, 37, 74, 148, 53, 106, 212, 181, 119, 238, 193, 159, 35,
    70, 140, 5, 10, 20, 40, 80, 160, 93, 186, 105, 210, 185, 111, 222, 161,
    95, 190, 97, 194, 153, 47, 94, 188, 101, 202, 137, 15, 30, 60, 120, 240,
    253, 231, 211, 187, 107, 214, 177, 127, 254, 225, 223, 163, 91, 182, 113, 226,
    217, 175, 67, 134, 17, 34, 68, 136, 13, 26, 52, 104, 208, 189, 103, 206,
    129, 31, 62, 124, 248, 237, 199, 147, 59, 118, 236, 197, 151, 51, 102, 204,
    133, 23, 46, 92, 184, 109, 218, 169, 79, 158, 33, 66, 132, 21, 42, 84,
    168, 77, 154, 41, 82, 164, 85, 170, 73, 146, 57, 114, 228, 213, 183, 115,
    230, 209, 191, 99, 198, 145, 63, 126, 252, 229, 215, 179, 123, 246, 241, 255,
    227, 219, 171, 75, 150, 49, 98, 196, 149, 55, 110, 220, 165, 87, 174, 65,
    130, 25, 50, 100, 200, 141, 7, 14, 28, 56, 112, 224, 221, 167, 83, 166,
    81, 162, 89, 178, 121, 242, 249, 239, 195, 155, 43, 86, 172, 69, 138, 9,
    18, 36, 72, 144, 61, 122, 244, 245, 247, 243, 251, 235, 203, 139, 11, 22,
    44, 88, 176, 125, 250, 233, 207, 131, 27, 54, 108, 216, 173, 71, 142, 1,
];

/// Logarithms to the base of the generator: entry `v` is the exponent whose
/// power is `v`. Entry 0 is a filler: zero has no logarithm.
pub const LOG_TABLE: [u8; 256] = [
    0, 0, 1, 25, 2, 50, 26, 198, 3, 223, 51, 238, 27, 104, 199, 75,
    4, 100, 224, 14, 52, 141, 239, 129, 28, 193, 105, 248, 200, 8, 76, 113,
    5, 138, 101, 47, 225, 36, 15, 33, 53, 147, 142, 218, 240, 18, 130, 69,
    29, 181, 194, 125, 106, 39, 249, 185, 201, 154, 9, 120, 77, 228, 114, 166,
    6, 191, 139, 98, 102, 221, 48, 253, 226, 152, 37, 179, 16, 145, 34, 136,
    54, 208, 148, 206, 143, 150, 219, 189, 241, 210, 19, 92, 131, 56, 70, 64,
    30, 66, 182, 163, 195, 72, 126, 110, 107, 58, 40, 84, 250, 133, 186, 61,
    202, 94, 155, 159, 10, 21, 121, 43, 78, 212, 229, 172, 115, 243, 167, 87,
    7, 112, 192, 247, 140, 128, 99, 13, 103, 74, 222, 237, 49, 197, 254, 24,
    227, 165, 153, 119, 38, 184, 180, 124, 17, 68, 146, 217, 35, 32, 137, 46,
    55, 63, 209, 91, 149, 188, 207, 205, 144, 135, 151, 178, 220, 252, 190, 97,
    242, 86, 211, 171, 20, 42, 93, 158, 132, 60, 57, 83, 71, 109, 65, 162,
    31, 45, 67, 216, 183, 123, 164, 118, 196, 23, 73, 236, 127, 12, 111, 246,
    108, 161, 59, 82, 41, 157, 85, 170, 251, 96, 134, 177, 187, 204, 62, 90,
    203, 89, 95, 176, 156, 169, 160, 81, 11, 245, 22, 235, 122, 117, 44, 215,
    79, 174, 213, 233, 230, 231, 173, 232, 116, 214, 244, 234, 168, 80, 88, 175,
];

/// The product of `v` and the generator of the field: `v` shifted left by
/// one place and reduced by the polynomial x^8 + x^4 + x^3 + x^2 + 1.
pub open spec fn alpha_times(v: u8) -> u8 {
    if v < 128 {
        (2 * v) as u8
    } else {
        ((2 * v - 256) as u8) ^ 0x1d
    }
}

/// The `i`-th power of the generator of the field.
pub open spec fn alpha_pow(i: nat) -> u8
    decreases i,
{
    if i == 0 {
        1
    } else {
        alpha_times(alpha_pow((i - 1) as nat))
    }
}

/// Entry `i` of the table of exponents.
pub closed spec fn exp(i: int) -> u8 {
    EXP_TABLE[i]
}

/// Entry `v` of the table of logarithms.
pub closed spec fn log(v: u8) -> u8 {
    LOG_TABLE[v as int]
}

/// Reads the table of exponents.
pub fn exp_entry(i: usize) -> (v: u8)
    requires
        i < 256,
    ensures
        v == exp(i as int),
{
    EXP_TABLE[i]
}

/// Reads the table of logarithms.
pub fn log_entry(v: u8) -> (e: u8)
    ensures
        e == log(v),
{
    LOG_TABLE[v as usize]
}

/// `exp` and `log` are the entries of the two tables.
pub proof fn lemma_table_entries(i: int, v: u8)
    ensures
        exp(i) == EXP_TABLE[i],
        log(v) == LOG_TABLE[v as int],
{
}

proof fn lemma_reduce(w: u8)
    by (bit_vector)
    requires
        w % 2 == 0,
    ensures
        w ^ 0x1d == w + 29 - 8 * ((w / 4) % 2) - 16 * ((w / 8) % 2) - 32 * ((w / 16) % 2),
{
}

/// Each entry of the table of exponents is the entry before it times the
/// generator of the field; the table starts with 1 and comes back to 1 at
/// the exponent 255.
pub proof fn lemma_exp_step(i: int)
    requires
        0 <= i < 255,
    ensures
        exp(i + 1) == alpha_times(exp(i)),
        exp(0) == 1,
        exp(255) == 1,
{
    let v = exp(i);
    if v >= 128 {
        lemma_reduce((2 * v - 256) as u8);
    }
}

/// Entry `i` of the table of exponents is the `i`-th power of the
/// generator.
pub proof fn lemma_exp_is_power(i: nat)
    requires
        i <= 255,
    ensures
        exp(i as int) == alpha_pow(i),
    decreases i,
{
    if i > 0 {
        lemma_exp_is_power((i - 1) as nat);
        lemma_exp_step(i - 1);
    }
}

/// The table of logarithms inverts the table of exponents on the nonzero
/// elements, and the logarithm of one is zero.
pub proof fn lemma_exp_of_log(v: u8)
    requires
        v != 0,
    ensures
        log(v) < 255,
        exp(log(v) as int) == v,
        log(1) == 0,
{
}

/// The table of exponents inverts the table of logarithms on the exponents
/// below 255, and no power of the generator is zero.
pub proof fn lemma_log_of_exp(i: int)
    requires
        0 <= i < 255,
    ensures
        exp(i) != 0,
        log(exp(i)) == i,
{
}

/// The product in the field of `c` and the power of the generator whose
/// exponent is `exponent`: zero for `c == 0`, otherwise the power whose
/// exponent is the sum of `exponent` and the logarithm of `c`.
pub open spec fn times_alpha_pow(c: u8, exponent: u8) -> u8 {
    if c == 0 {
        0
    } else {
        exp((exponent + log(c)) % 255)
    }
}

/// `times_alpha_pow` written with powers of the generator instead of the
/// table of exponents.
pub proof fn lemma_times_alpha_pow(c: u8, exponent: u8)
    requires
        c != 0,
    ensures
        times_alpha_pow(c, exponent) == alpha_pow(((exponent + log(c)) % 255) as nat),
{
    lemma_exp_is_power(((exponent + log(c)) % 255) as nat);
}

/// `exp` and `log` are the entries of the two tables, for all arguments
/// at once.
pub proof fn lemma_tables_revealed()
    ensures
        forall|i: int| #[trigger] exp(i) == EXP_TABLE[i],
        forall|v: u8| #[trigger] log(v) == LOG_TABLE[v as int],
{
}

/// Exclusive or adds the binary digits of its operands place by place,
/// without carry.
pub proof fn lemma_xor_by_digits(a: u8, b: u8)
    by (bit_vector)
    ensures
        a ^ b == ((a % 2 + b % 2) % 2) + 2 * (((a / 2) % 2 + (b / 2) % 2) % 2) + 4 * (((a / 4) % 2
            + (b / 4) % 2) % 2) + 8 * (((a / 8) % 2 + (b / 8) % 2) % 2) + 16 * (((a / 16) % 2 + (b
            / 16) % 2) % 2) + 32 * (((a / 32) % 2 + (b / 32) % 2) % 2) + 64 * (((a / 64) % 2 + (b
            / 64) % 2) % 2) + 128 * (((a / 128) % 2 + (b / 128) % 2) % 2),
{
}

/// Exclusive or, the addition of the field, may be regrouped.
pub proof fn lemma_xor_regroup(a: u8, t: u8, m: u8)
    by (bit_vector)
    ensures
        (a ^ t) ^ m == (a ^ m) ^ t,
{
}

/// Zero is neutral for the addition of the field.
pub proof fn lemma_xor_zero(a: u8)
    by (bit_vector)
    ensures
        a ^ 0 == a,
        0 ^ a == a,
{
}

} // verus!
