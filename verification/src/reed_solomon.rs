//! What the error-correction codewords are for: a block followed by its
//! error-correction codewords is a polynomial over the field of 256
//! elements that vanishes at the first powers of the generator of the
//! field, as many as there are error-correction codewords.
use crate::ec::{lemma_remainder_len, remainder, remainder_step};
use crate::galois::{
    field_mul, lemma_mul_basics, lemma_mul_distributes, lemma_mul_is_associative,
    lemma_times_alpha_pow_is_product, lemma_xor_laws,
};
use crate::tables::field::{exp, times_alpha_pow};
use crate::tables::polynomials::{
    coefficient, generator, lemma_generator_is_root_product, lemma_generator_len, root_product,
    times_linear,
};
use vstd::prelude::*;

verus! {

/// The value at `r` of the polynomial with the coefficients `p`, leading
/// coefficient first.
pub open spec fn eval(p: Seq<u8>, r: u8) -> u8
    decreases p.len(),
{
    if p.len() == 0 {
        0
    } else {
        field_mul(eval(p.drop_last(), r), r) ^ p.last()
    }
}

/// The sum of two polynomials of the same length.
pub open spec fn poly_add(p: Seq<u8>, q: Seq<u8>) -> Seq<u8> {
    Seq::new(p.len(), |j: int| p[j] ^ q[j])
}

/// The polynomial `p` times the element `c` of the field.
pub open spec fn poly_scale(c: u8, p: Seq<u8>) -> Seq<u8> {
    Seq::new(p.len(), |j: int| field_mul(c, p[j]))
}

/// The polynomial `p` with `count` zero coefficients in front.
pub open spec fn poly_lead_zeros(count: nat, p: Seq<u8>) -> Seq<u8> {
    Seq::new(count, |j: int| 0u8) + p
}

/// The monic polynomial whose coefficients below the leading one have the
/// logarithms `gen`.
pub open spec fn monic(gen: Seq<u8>) -> Seq<u8> {
    seq![1u8] + Seq::new(gen.len(), |j: int| exp(gen[j] as int))
}

/// The value of a sum of polynomials is the sum of their values.
pub proof fn lemma_eval_add(p: Seq<u8>, q: Seq<u8>, r: u8)
    requires
        p.len() == q.len(),
    ensures
        eval(poly_add(p, q), r) == eval(p, r) ^ eval(q, r),
    decreases p.len(),
{
    if p.len() == 0 {
        lemma_xor_laws(0, 0, 0);
    } else {
        let sum = poly_add(p, q);
        lemma_eval_add(p.drop_last(), q.drop_last(), r);
        assert(sum.drop_last() =~= poly_add(p.drop_last(), q.drop_last()));
        let a = eval(p.drop_last(), r);
        let b = eval(q.drop_last(), r);
        lemma_mul_distributes(a, b, r);
        let ma = field_mul(a, r);
        let mb = field_mul(b, r);
        // (ma ^ mb) ^ (x ^ y) == (ma ^ x) ^ (mb ^ y)
        lemma_xor_laws(ma, mb, p.last() ^ q.last());
        lemma_xor_laws(mb, p.last(), q.last());
        lemma_xor_laws(p.last(), mb, q.last());
        lemma_xor_laws(mb, p.last(), 0);
        lemma_xor_laws(ma, p.last(), mb ^ q.last());
    }
}

/// The value of a multiple of a polynomial is the multiple of its value.
pub proof fn lemma_eval_scale(c: u8, p: Seq<u8>, r: u8)
    ensures
        eval(poly_scale(c, p), r) == field_mul(c, eval(p, r)),
    decreases p.len(),
{
    if p.len() == 0 {
        lemma_mul_basics(c, 0);
    } else {
        let scaled = poly_scale(c, p);
        lemma_eval_scale(c, p.drop_last(), r);
        assert(scaled.drop_last() =~= poly_scale(c, p.drop_last()));
        let v = eval(p.drop_last(), r);
        lemma_mul_is_associative(c, v, r);
        lemma_mul_distributes(field_mul(v, r), p.last(), c);
    }
}

/// Zero coefficients in front of a polynomial do not change its value.
pub proof fn lemma_eval_lead_zeros(count: nat, p: Seq<u8>, r: u8)
    ensures
        eval(poly_lead_zeros(count, p), r) == eval(p, r),
    decreases p.len(), count,
{
    let all = poly_lead_zeros(count, p);
    if p.len() == 0 {
        if count > 0 {
            lemma_eval_lead_zeros((count - 1) as nat, p, r);
            assert(all.drop_last() =~= poly_lead_zeros((count - 1) as nat, p));
            lemma_mul_basics(r, 0);
            lemma_xor_laws(0, 0, 0);
        } else {
            assert(all =~= p);
        }
    } else {
        lemma_eval_lead_zeros(count, p.drop_last(), r);
        assert(all.drop_last() =~= poly_lead_zeros(count, p.drop_last()));
    }
}

/// The value of a polynomial times x.
pub proof fn lemma_eval_times_x(p: Seq<u8>, r: u8)
    ensures
        eval(p.push(0), r) == field_mul(eval(p, r), r),
{
    assert(p.push(0).drop_last() =~= p);
    lemma_xor_laws(field_mul(eval(p, r), r), 0, 0);
}

/// The value of a polynomial times x + a is its value times r + a.
pub proof fn lemma_eval_times_linear(p: Seq<u8>, e: u8, r: u8)
    ensures
        eval(times_linear(p, e), r) == field_mul(eval(p, r), r ^ exp(e as int)),
{
    let a = exp(e as int);
    let shifted = p.push(0);
    let scaled = poly_lead_zeros(1, poly_scale(a, p));
    assert forall|j: int| 0 <= j < p.len() + 1 implies times_linear(p, e)[j] == shifted[j]
        ^ scaled[j] by {
        if j > 0 {
            lemma_times_alpha_pow_is_product(p[j - 1], e);
            lemma_mul_basics(p[j - 1], a);
        }
    }
    assert(times_linear(p, e) =~= poly_add(shifted, scaled));
    lemma_eval_add(shifted, scaled, r);
    lemma_eval_times_x(p, r);
    lemma_eval_lead_zeros(1, poly_scale(a, p), r);
    lemma_eval_scale(a, p, r);
    let v = eval(p, r);
    lemma_mul_basics(a, v);
    lemma_mul_distributes(r, a, v);
}

/// The product of the polynomials x + a over the first powers a of the
/// generator of the field vanishes at each of those powers.
pub proof fn lemma_root_product_vanishes(degree: nat, i: int)
    requires
        0 <= i < degree <= 255,
    ensures
        eval(root_product(degree), exp(i)) == 0,
    decreases degree,
{
    let r = exp(i);
    let below = (degree - 1) as nat;
    lemma_eval_times_linear(root_product(below), below as u8, r);
    if i == below {
        lemma_xor_laws(r, r, 0);
        lemma_mul_basics(eval(root_product(below), r), 0);
    } else {
        lemma_root_product_vanishes(below, i);
        lemma_mul_basics(r ^ exp(below as int), 0);
    }
}

/// One step of the division keeps the roots: if the codewords read so far,
/// followed by their remainder, vanish at a root of the generator
/// polynomial, so do the codewords with one more, followed by the new
/// remainder.
pub proof fn lemma_step_keeps_root(data: Seq<u8>, rem: Seq<u8>, next: u8, gen: Seq<u8>, r: u8)
    requires
        rem.len() == gen.len(),
        eval(monic(gen), r) == 0,
        eval(data + rem, r) == 0,
    ensures
        eval(data.push(next) + remainder_step(rem, next, gen), r) == 0,
{
    let e = gen.len() as int;
    let k = data.len();
    let after = remainder_step(rem, next, gen);
    let lead = if e > 0 {
        rem[0] ^ next
    } else {
        next
    };
    let shifted = (data + rem).push(0);
    let multiple = poly_lead_zeros(k, poly_scale(lead, monic(gen)));
    let sum = poly_add(shifted, multiple);
    let goal = data.push(next) + after;
    assert forall|j: int| 0 <= j < goal.len() implies goal[j] == sum[j] by {
        if j < k {
            lemma_xor_laws(data[j], 0, 0);
        } else if j == k {
            lemma_mul_basics(lead, 1);
            if e > 0 {
                // rem[0] ^ lead == next
                lemma_xor_laws(rem[0], rem[0], next);
                lemma_xor_laws(next, 0, 0);
                lemma_xor_laws(0, next, 0);
            } else {
                lemma_xor_laws(0, next, 0);
                lemma_xor_laws(next, 0, 0);
            }
        } else {
            let t = j - k - 1;
            lemma_times_alpha_pow_is_product(lead, gen[t]);
            assert(after[t] == (if t + 1 < e {
                rem[t + 1]
            } else {
                0u8
            }) ^ times_alpha_pow(lead, gen[t]));
        }
    }
    assert(goal =~= sum);
    lemma_eval_add(shifted, multiple, r);
    lemma_eval_times_x(data + rem, r);
    lemma_eval_lead_zeros(k, poly_scale(lead, monic(gen)), r);
    lemma_eval_scale(lead, monic(gen), r);
    lemma_mul_basics(lead, 0);
    lemma_mul_basics(r, 0);
    lemma_xor_laws(0, 0, 0);
}

/// A block followed by its remainder vanishes at every root of the
/// generator polynomial.
pub proof fn lemma_remainder_keeps_root(data: Seq<u8>, gen: Seq<u8>, r: u8)
    requires
        eval(monic(gen), r) == 0,
    ensures
        eval(data + remainder(data, gen), r) == 0,
    decreases data.len(),
{
    if data.len() == 0 {
        lemma_eval_lead_zeros(gen.len(), Seq::<u8>::empty(), r);
    } else {
        let front = data.drop_last();
        lemma_remainder_keeps_root(front, gen, r);
        lemma_remainder_len(front, gen);
        lemma_step_keeps_root(front, remainder(front, gen), data.last(), gen, r);
        assert(front.push(data.last()) =~= data);
    }
}

/// A block of a symbol followed by its error-correction codewords, read as
/// a polynomial over the field, has the first powers of the generator of
/// the field as roots, as many as there are error-correction codewords.
pub proof fn lemma_codeword_has_roots(data: Seq<u8>, degree: int, i: int)
    requires
        0 <= i < degree <= 30,
    ensures
        remainder(data, generator(degree)).len() == degree,
        eval(data + remainder(data, generator(degree)), exp(i)) == 0,
{
    let gen = generator(degree);
    lemma_generator_len(degree);
    lemma_remainder_len(data, gen);
    lemma_generator_is_root_product(degree as nat);
    assert(monic(gen) =~= root_product(degree as nat)) by {
        assert forall|j: int| 0 <= j < degree + 1 implies monic(gen)[j] == root_product(
            degree as nat,
        )[j] by {
            assert(root_product(degree as nat)[j] == coefficient(degree, j - 1));
        }
    }
    lemma_root_product_vanishes(degree as nat, i);
    lemma_remainder_keeps_root(data, gen, exp(i));
}

} // verus!
