//! Arithmetic in the field of 256 elements: addition is exclusive or, and
//! multiplication is what the tables of exponents and logarithms compute.
use crate::tables::field::{
    alpha_times, exp, lemma_exp_of_log, lemma_exp_step, lemma_log_of_exp, log, times_alpha_pow,
};
use vstd::prelude::*;

verus! {

/// The product of two elements of the field: zero if one of them is zero,
/// otherwise the power of the generator whose exponent is the sum of their
/// logarithms.
pub open spec fn field_mul(a: u8, b: u8) -> u8 {
    if a == 0 || b == 0 {
        0
    } else {
        exp((log(a) + log(b)) % 255)
    }
}

/// `c` multiplied by the generator of the field `count` times.
pub open spec fn alpha_times_repeated(c: u8, count: nat) -> u8
    decreases count,
{
    if count == 0 {
        c
    } else {
        alpha_times(alpha_times_repeated(c, (count - 1) as nat))
    }
}

/// Addition in the field is commutative and associative, and every element
/// is its own negative.
pub proof fn lemma_xor_laws(a: u8, b: u8, c: u8)
    by (bit_vector)
    ensures
        a ^ b == b ^ a,
        (a ^ b) ^ c == a ^ (b ^ c),
        a ^ a == 0,
        a ^ 0 == a,
        (a ^ b == 0) == (a == b),
{
}

proof fn lemma_alpha_times_is_linear(a: u8, b: u8)
    by (bit_vector)
    ensures
        (if (a ^ b) < 128 {
            (2 * (a ^ b)) as u8
        } else {
            ((2 * (a ^ b) - 256) as u8) ^ 0x1d
        }) == (if a < 128 {
            (2 * a) as u8
        } else {
            ((2 * a - 256) as u8) ^ 0x1d
        }) ^ (if b < 128 {
            (2 * b) as u8
        } else {
            ((2 * b - 256) as u8) ^ 0x1d
        }),
{
}

/// Multiplying by the generator of the field any number of times
/// distributes over addition.
pub proof fn lemma_alpha_times_repeated_is_linear(a: u8, b: u8, count: nat)
    ensures
        alpha_times_repeated(a ^ b, count) == alpha_times_repeated(a, count)
            ^ alpha_times_repeated(b, count),
    decreases count,
{
    if count > 0 {
        lemma_alpha_times_repeated_is_linear(a, b, (count - 1) as nat);
        lemma_alpha_times_is_linear(
            alpha_times_repeated(a, (count - 1) as nat),
            alpha_times_repeated(b, (count - 1) as nat),
        );
    }
}

/// Raising the exponent by one multiplies by the generator of the field.
pub proof fn lemma_times_alpha_pow_step(c: u8, exponent: u8)
    requires
        exponent < 255,
    ensures
        times_alpha_pow(c, 0) == c,
        times_alpha_pow(c, (exponent + 1) as u8) == alpha_times(times_alpha_pow(c, exponent)),
{
    if c != 0 {
        lemma_exp_of_log(c);
        let i = (exponent + log(c)) % 255;
        lemma_exp_step(i);
        if i + 1 == 255 {
            assert((exponent + 1 + log(c)) % 255 == 0);
        } else {
            assert((exponent + 1 + log(c)) % 255 == i + 1);
        }
    } else {
        assert(alpha_times(0) == 0);
    }
}

/// The product of `c` and a power of the generator of the field, read from
/// the tables, is `c` multiplied by the generator as often as the exponent
/// says.
pub proof fn lemma_times_alpha_pow_is_repeated(c: u8, exponent: u8)
    ensures
        times_alpha_pow(c, exponent) == alpha_times_repeated(c, exponent as nat),
    decreases exponent,
{
    if exponent == 0 {
        lemma_times_alpha_pow_step(c, 0);
    } else {
        lemma_times_alpha_pow_is_repeated(c, (exponent - 1) as u8);
        lemma_times_alpha_pow_step(c, (exponent - 1) as u8);
    }
}

/// The product of `c` and the power of the generator with the exponent `e`
/// is the product of `c` and the entry `e` of the table of exponents.
pub proof fn lemma_times_alpha_pow_is_product(c: u8, e: u8)
    ensures
        times_alpha_pow(c, e) == field_mul(c, exp(e as int)),
        exp(e as int) != 0,
{
    lemma_exp_step(0);
    if e < 255 {
        lemma_log_of_exp(e as int);
    } else {
        lemma_exp_of_log(1);
    }
    if c != 0 {
        lemma_exp_of_log(c);
    }
}

/// Multiplication in the field: zero annihilates, one is neutral, and the
/// product of two elements that are not zero is not zero.
pub proof fn lemma_mul_basics(a: u8, b: u8)
    ensures
        field_mul(a, 0) == 0,
        field_mul(0, a) == 0,
        field_mul(a, 1) == a,
        field_mul(1, a) == a,
        field_mul(a, b) == field_mul(b, a),
        a != 0 && b != 0 ==> field_mul(a, b) != 0,
{
    lemma_exp_of_log(1);
    if a != 0 {
        lemma_exp_of_log(a);
        if b != 0 {
            lemma_exp_of_log(b);
            lemma_log_of_exp((log(a) + log(b)) % 255);
        }
    }
}

/// Multiplication in the field is associative.
pub proof fn lemma_mul_is_associative(a: u8, b: u8, c: u8)
    ensures
        field_mul(field_mul(a, b), c) == field_mul(a, field_mul(b, c)),
{
    lemma_mul_basics(a, b);
    lemma_mul_basics(b, c);
    if a != 0 && b != 0 && c != 0 {
        lemma_exp_of_log(a);
        lemma_exp_of_log(b);
        lemma_exp_of_log(c);
        lemma_log_of_exp((log(a) + log(b)) % 255);
        lemma_log_of_exp((log(b) + log(c)) % 255);
        assert(((log(a) + log(b)) % 255 + log(c)) % 255 == (log(a) + (log(b) + log(c)) % 255)
            % 255);
    }
}

/// Multiplication in the field distributes over addition.
pub proof fn lemma_mul_distributes(a: u8, b: u8, c: u8)
    ensures
        field_mul(a ^ b, c) == field_mul(a, c) ^ field_mul(b, c),
        field_mul(c, a ^ b) == field_mul(c, a) ^ field_mul(c, b),
{
    lemma_mul_basics(a, c);
    lemma_mul_basics(b, c);
    lemma_mul_basics(a ^ b, c);
    if c == 0 {
        lemma_xor_laws(0, 0, 0);
    } else {
        lemma_exp_of_log(c);
        let k = log(c);
        // multiplying by c is multiplying by the generator log(c) times
        assert forall|x: u8| #[trigger] field_mul(x, c) == alpha_times_repeated(x, k as nat) by {
            lemma_times_alpha_pow_is_product(x, k);
            lemma_times_alpha_pow_is_repeated(x, k);
        }
        lemma_alpha_times_repeated_is_linear(a, b, k as nat);
    }
}

} // verus!
