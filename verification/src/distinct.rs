//! Different texts give different symbols: every step from the text to the
//! picture of its symbol can be undone, so the picture tells the text.
use crate::alignment::{lemma_after_alignment, lemma_function_modules_are_reserved};
use crate::bit::{bit_at, bit_run, Bit};
use crate::ec::{
    block_seq_eq, data_stream, ec_stream, lemma_block_in_stream, lemma_first_in_stream,
    lemma_split_by_block_structure, lemma_stream_lengths, split_into_blocks, EcLevel,
};
use crate::encoding::{
    alphanumeric_bits, alphanumeric_code, byte_bits, digit_value, lemma_payload_len,
    numeric_bits, Encoding,
};
use crate::format::{
    all_unreserved, bytes_of_modules, colours, lemma_bytes_of_modules_of_bytes,
    lemma_digits_of_packed_byte, lemma_modules_of_bytes_of_modules, modules_of_bytes,
};
use crate::layout::{
    format_modules, format_paint, in_grid, lemma_painted_module,
    lemma_place_in_storage, mask_paint, module_at, side, version_modules, version_paint,
    with_alignment, with_dark_module, with_data, with_format, with_timing,
};
use crate::mask::MaskPattern;
use crate::placement::lemma_placed_module;
use crate::preprocessor::{
    finished, fits, framed, lemma_framed_fills_data_codewords, segment, symbol_stream,
};
use crate::reserved::lemma_finished_keeps_function_patterns;
use crate::room::{
    data_modules, function_grid, lemma_module_of_rank, lemma_stream_fills_the_symbol,
};
use crate::tables::blocks::{
    block_structure, data_codewords, ec_codewords_per_block, lemma_block_structure,
};
use crate::tables::capacity::{count_bits, lemma_capacity_fits, lemma_count_bits};
use crate::tables::info::{format_word, lemma_format_words_are_codewords, lemma_word_widths};
use vstd::arithmetic::power2::{lemma2_to64, lemma_pow2_pos, lemma_pow2_unfold, pow2};
use vstd::prelude::*;

verus! {

proof fn lemma_mod_of_double(v: int, m: int)
    requires
        0 <= v,
        0 < m,
    ensures
        v % (2 * m) == v % m + m * ((v / m) % 2),
{
    let q = v / m;
    let r = v % m;
    let half = q / 2;
    let bit = q % 2;
    vstd::arithmetic::div_mod::lemma_fundamental_div_mod(v, m);
    assert(v == (2 * m) * half + (m * bit + r) && 0 <= m * bit + r < 2 * m) by (nonlinear_arith)
        requires
            v == m * q + r,
            0 <= r < m,
            q == 2 * half + bit,
            0 <= bit < 2,
    ;
    vstd::arithmetic::div_mod::lemma_fundamental_div_mod_converse(
        v,
        2 * m,
        half,
        m * bit + r,
    );
}

/// Two numbers whose low `n` binary digits agree leave the same remainder
/// when divided by the `n`-th power of 2.
pub proof fn lemma_digits_determine(a: nat, b: nat, n: nat)
    requires
        forall|k: nat| k < n ==> bit_at(a, k) == bit_at(b, k),
    ensures
        a % pow2(n) == b % pow2(n),
    decreases n,
{
    if n == 0 {
        lemma2_to64();
    } else {
        let below = (n - 1) as nat;
        lemma_digits_determine(a, b, below);
        lemma_pow2_unfold(n);
        lemma_pow2_pos(below);
        let m = pow2(below) as int;
        lemma_mod_of_double(a as int, m);
        lemma_mod_of_double(b as int, m);
        assert(bit_at(a, below) == bit_at(b, below));
    }
}

/// Two runs of equal length that spell numbers below the power of 2 of
/// their length, most significant digit first, are equal only if the
/// numbers are.
pub proof fn lemma_bit_run_tells_number(a: u32, b: u32, n: nat, functional: bool)
    requires
        a < pow2(n),
        b < pow2(n),
        bit_run(a, n, functional, true) == bit_run(b, n, functional, true),
    ensures
        a == b,
{
    let run_a = bit_run(a, n, functional, true);
    let run_b = bit_run(b, n, functional, true);
    assert forall|k: nat| k < n implies bit_at(a as nat, k) == bit_at(b as nat, k) by {
        let i = n - 1 - k;
        assert(run_a[i] == run_b[i]);
    }
    lemma_digits_determine(a as nat, b as nat, n);
    vstd::arithmetic::div_mod::lemma_small_mod(a as nat, pow2(n));
    vstd::arithmetic::div_mod::lemma_small_mod(b as nat, pow2(n));
}

/// Two pairs of sequences whose first parts are equally long are joined to
/// the same sequence only if they are the same pairs.
pub proof fn lemma_joined_parts<A>(a1: Seq<A>, b1: Seq<A>, a2: Seq<A>, b2: Seq<A>)
    requires
        a1.len() == a2.len(),
        a1 + b1 == a2 + b2,
    ensures
        a1 == a2,
        b1 == b2,
{
    assert((a1 + b1).take(a1.len() as int) =~= a1);
    assert((a1 + b1).skip(a1.len() as int) =~= b1);
}

/// Two runs of digits of the same length are spelled alike in numeric mode
/// only if they are the same digits.
pub proof fn lemma_numeric_bits_tell_text(t1: Seq<char>, t2: Seq<char>)
    requires
        t1.len() == t2.len(),
        Encoding::Numeric.accepts_all(t1),
        Encoding::Numeric.accepts_all(t2),
        numeric_bits(t1) == numeric_bits(t2),
    ensures
        t1 == t2,
    decreases t1.len(),
{
    lemma2_to64();
    if t1.len() == 0 {
        assert(t1 =~= t2);
    } else if t1.len() == 1 {
        let a = digit_value(t1[0]).unwrap();
        let b = digit_value(t2[0]).unwrap();
        lemma_bit_run_tells_number(a, b, 4, false);
    } else if t1.len() == 2 {
        let a = (10 * digit_value(t1[0]).unwrap() + digit_value(t1[1]).unwrap()) as u32;
        let b = (10 * digit_value(t2[0]).unwrap() + digit_value(t2[1]).unwrap()) as u32;
        lemma_bit_run_tells_number(a, b, 7, false);
    } else {
        let a = (100 * digit_value(t1[0]).unwrap() + 10 * digit_value(t1[1]).unwrap()
            + digit_value(t1[2]).unwrap()) as u32;
        let b = (100 * digit_value(t2[0]).unwrap() + 10 * digit_value(t2[1]).unwrap()
            + digit_value(t2[2]).unwrap()) as u32;
        let rest1 = t1.skip(3);
        let rest2 = t2.skip(3);
        lemma_joined_parts(
            bit_run(a, 10, false, true),
            numeric_bits(rest1),
            bit_run(b, 10, false, true),
            numeric_bits(rest2),
        );
        lemma_bit_run_tells_number(a, b, 10, false);
        assert forall|i: int| 0 <= i < rest1.len() implies Encoding::Numeric.accepts(
            #[trigger] rest1[i],
        ) by {
            assert(rest1[i] == t1[i + 3]);
        }
        assert forall|i: int| 0 <= i < rest2.len() implies Encoding::Numeric.accepts(
            #[trigger] rest2[i],
        ) by {
            assert(rest2[i] == t2[i + 3]);
        }
        lemma_numeric_bits_tell_text(rest1, rest2);
        assert forall|i: int| 0 <= i < t1.len() implies t1[i] == t2[i] by {
            if i >= 3 {
                assert(rest1[i - 3] == rest2[i - 3]);
            }
        }
    }
}

/// Two runs of alphanumeric characters of the same length are spelled
/// alike in alphanumeric mode only if they are the same characters.
pub proof fn lemma_alphanumeric_bits_tell_text(t1: Seq<char>, t2: Seq<char>)
    requires
        t1.len() == t2.len(),
        Encoding::Alphanumeric.accepts_all(t1),
        Encoding::Alphanumeric.accepts_all(t2),
        alphanumeric_bits(t1) == alphanumeric_bits(t2),
    ensures
        t1 == t2,
    decreases t1.len(),
{
    lemma2_to64();
    if t1.len() == 0 {
        assert(t1 =~= t2);
    } else if t1.len() == 1 {
        let a = alphanumeric_code(t1[0]).unwrap() as u32;
        let b = alphanumeric_code(t2[0]).unwrap() as u32;
        lemma_bit_run_tells_number(a, b, 6, false);
    } else {
        let a = (45 * alphanumeric_code(t1[0]).unwrap() + alphanumeric_code(t1[1]).unwrap())
            as u32;
        let b = (45 * alphanumeric_code(t2[0]).unwrap() + alphanumeric_code(t2[1]).unwrap())
            as u32;
        let rest1 = t1.skip(2);
        let rest2 = t2.skip(2);
        lemma_joined_parts(
            bit_run(a, 11, false, true),
            alphanumeric_bits(rest1),
            bit_run(b, 11, false, true),
            alphanumeric_bits(rest2),
        );
        lemma_bit_run_tells_number(a, b, 11, false);
        assert forall|i: int| 0 <= i < rest1.len() implies Encoding::Alphanumeric.accepts(
            #[trigger] rest1[i],
        ) by {
            assert(rest1[i] == t1[i + 2]);
        }
        assert forall|i: int| 0 <= i < rest2.len() implies Encoding::Alphanumeric.accepts(
            #[trigger] rest2[i],
        ) by {
            assert(rest2[i] == t2[i + 2]);
        }
        lemma_alphanumeric_bits_tell_text(rest1, rest2);
        assert forall|i: int| 0 <= i < t1.len() implies t1[i] == t2[i] by {
            if i >= 2 {
                assert(rest1[i - 2] == rest2[i - 2]);
            }
        }
    }
}

proof fn lemma_char_code(c: char)
    ensures
        c as u32 as int == c as int,
{
}

/// Two texts of the same length are spelled alike in byte mode only if they
/// are the same text.
pub proof fn lemma_byte_bits_tell_text(t1: Seq<char>, t2: Seq<char>)
    requires
        t1.len() == t2.len(),
        Encoding::Byte.accepts_all(t1),
        Encoding::Byte.accepts_all(t2),
        byte_bits(t1) == byte_bits(t2),
    ensures
        t1 == t2,
{
    lemma2_to64();
    assert forall|i: int| 0 <= i < t1.len() implies t1[i] == t2[i] by {
        let a = t1[i] as u32 as nat;
        let b = t2[i] as u32 as nat;
        assert forall|k: nat| k < 8 implies bit_at(a, k) == bit_at(b, k) by {
            let j = 8 * i + (7 - k);
            assert(byte_bits(t1)[j].dark() == bit_at(a, k));
        }
        lemma_digits_determine(a, b, 8);
        vstd::arithmetic::div_mod::lemma_small_mod(a, pow2(8));
        vstd::arithmetic::div_mod::lemma_small_mod(b, pow2(8));
        lemma_char_code(t1[i]);
        lemma_char_code(t2[i]);
    }
}

/// Two accepted texts of the same length have the same payload only if
/// they are the same text.
pub proof fn lemma_payload_tells_text(encoding: Encoding, t1: Seq<char>, t2: Seq<char>)
    requires
        encoding != Encoding::Kanji,
        t1.len() == t2.len(),
        encoding.accepts_all(t1),
        encoding.accepts_all(t2),
        encoding.payload(t1) == encoding.payload(t2),
    ensures
        t1 == t2,
{
    match encoding {
        Encoding::Numeric => lemma_numeric_bits_tell_text(t1, t2),
        Encoding::Alphanumeric => lemma_alphanumeric_bits_tell_text(t1, t2),
        Encoding::Byte => lemma_byte_bits_tell_text(t1, t2),
        Encoding::Kanji => {},
    }
}

/// The payload of an accepted text holds no reserved module.
pub proof fn lemma_payload_is_unreserved(encoding: Encoding, text: Seq<char>)
    ensures
        all_unreserved(encoding.payload(text)),
    decreases text.len(),
{
    match encoding {
        Encoding::Numeric => {
            if text.len() >= 3 {
                lemma_payload_is_unreserved(encoding, text.skip(3));
            }
        },
        Encoding::Alphanumeric => {
            if text.len() >= 2 {
                lemma_payload_is_unreserved(encoding, text.skip(2));
            }
        },
        Encoding::Byte => {},
        Encoding::Kanji => {},
    }
}

/// The padded data segment of a text holds no reserved module.
pub proof fn lemma_framed_is_unreserved(
    encoding: Encoding,
    level: EcLevel,
    version: int,
    text: Seq<char>,
)
    ensures
        all_unreserved(framed(encoding, level, version, text)),
{
    lemma_payload_is_unreserved(encoding, text);
    let bits = segment(encoding, version, text);
    assert forall|k: int| 0 <= k < bits.len() implies !(#[trigger] bits[k]).reserved() by {
        let head = bit_run(encoding.indicator(), 4, false, true) + bit_run(
            text.len() as u32,
            count_bits(encoding, version) as nat,
            false,
            true,
        );
        if k >= head.len() {
            assert(bits[k] == encoding.payload(text)[k - head.len()]);
        }
    }
}

/// Two accepted texts that fit a symbol have the same padded data segment
/// only if they are the same text.
pub proof fn lemma_framed_tells_text(
    encoding: Encoding,
    level: EcLevel,
    version: int,
    t1: Seq<char>,
    t2: Seq<char>,
)
    requires
        encoding != Encoding::Kanji,
        encoding.accepts_all(t1),
        encoding.accepts_all(t2),
        1 <= version <= 40,
        fits(encoding, level, version, t1.len() as int),
        fits(encoding, level, version, t2.len() as int),
        framed(encoding, level, version, t1) == framed(encoding, level, version, t2),
    ensures
        t1 == t2,
{
    let width = count_bits(encoding, version) as nat;
    let s1 = segment(encoding, version, t1);
    let s2 = segment(encoding, version, t2);
    let f1 = framed(encoding, level, version, t1);
    lemma_framed_fills_data_codewords(encoding, level, version, t1);
    lemma_framed_fills_data_codewords(encoding, level, version, t2);
    lemma_capacity_fits(encoding, version, level.index(), t1.len() as int);
    lemma_capacity_fits(encoding, version, level.index(), t2.len() as int);
    lemma_count_bits(encoding, version);
    lemma_payload_len(encoding, t1);
    lemma_payload_len(encoding, t2);
    lemma2_to64();
    vstd::arithmetic::power2::lemma2_to64_rest();
    let n1 = t1.len() as u32;
    let n2 = t2.len() as u32;
    let c1 = bit_run(n1, width, false, true);
    let c2 = bit_run(n2, width, false, true);
    assert forall|j: int| 0 <= j < width implies c1[j] == c2[j] by {
        assert(f1[4 + j] == s1[4 + j]);
    }
    assert(c1 =~= c2);
    lemma_bit_run_tells_number(n1, n2, width, false);
    let head = bit_run(encoding.indicator(), 4, false, true) + c1;
    assert forall|k: int| 0 <= k < s1.len() implies s1[k] == s2[k] by {
        assert(f1[k] == s1[k]);
    }
    assert(s1 =~= s2);
    lemma_joined_parts(head, encoding.payload(t1), head, encoding.payload(t2));
    lemma_payload_tells_text(encoding, t1, t2);
}

/// Two runs of whole codewords without reserved modules pack to the same
/// codewords only if they are the same run.
pub proof fn lemma_bytes_tell_modules(b1: Seq<Bit>, b2: Seq<Bit>)
    requires
        b1.len() % 8 == 0,
        b2.len() % 8 == 0,
        all_unreserved(b1),
        all_unreserved(b2),
        bytes_of_modules(b1) == bytes_of_modules(b2),
    ensures
        b1 == b2,
{
    lemma_modules_of_bytes_of_modules(b1);
    lemma_modules_of_bytes_of_modules(b2);
}

/// Two runs of codewords are spelled by the same modules only if they are
/// the same run.
pub proof fn lemma_modules_tell_bytes(a: Seq<u8>, b: Seq<u8>)
    requires
        modules_of_bytes(a) == modules_of_bytes(b),
    ensures
        a == b,
{
    lemma_bytes_of_modules_of_bytes(a);
    lemma_bytes_of_modules_of_bytes(b);
}

/// Where codeword `m` of the data codewords of a symbol goes: the block
/// and the place in the block. Both depend on the block structure only.
pub open spec fn block_of_codeword(version: int, level: EcLevel, m: int) -> (int, int) {
    let (size_1, count_1, size_2, count_2) = block_structure(version, level.index());
    let group_1 = size_1 * count_1;
    if m < group_1 {
        (m / (size_1 as int), m % (size_1 as int))
    } else {
        (count_1 + (m - group_1) / (size_2 as int), (m - group_1) % (size_2 as int))
    }
}

proof fn lemma_quotient_in_range(m: int, size: int, count: int)
    requires
        0 < size,
        0 <= m < size * count,
    ensures
        0 <= m / size < count,
        0 <= m % size < size,
        (m / size) * size + m % size == m,
        (m / size + 1) * size == (m / size) * size + size,
        (m / size + 1) * size <= size * count,
        0 <= (m / size) * size,
{
    let q = m / size;
    let r = m % size;
    vstd::arithmetic::div_mod::lemma_fundamental_div_mod(m, size);
    vstd::arithmetic::div_mod::lemma_mod_bound(m, size);
    assert(0 <= q < count && q * size + r == m && (q + 1) * size == q * size + size && (q + 1)
        * size <= size * count && 0 <= q * size) by (nonlinear_arith)
        requires
            0 < size,
            0 <= m < size * count,
            m == size * q + r,
            0 <= r < size,
    ;
}

/// Every data codeword of a symbol is a codeword of one of its blocks.
pub proof fn lemma_codeword_in_block(data: Seq<u8>, version: int, level: EcLevel, m: int)
    requires
        1 <= version <= 40,
        data.len() == data_codewords(version, level.index()),
        0 <= m < data.len(),
    ensures
        ({
            let (b, i) = block_of_codeword(version, level, m);
            let blocks = split_into_blocks(data, version, level);
            &&& 0 <= b < blocks.len()
            &&& 0 <= i < blocks[b].len()
            &&& blocks[b][i] == data[m]
        }),
{
    let (size_1, count_1, size_2, count_2) = block_structure(version, level.index());
    let s1 = size_1 as int;
    let c1 = count_1 as int;
    let s2 = size_2 as int;
    let c2 = count_2 as int;
    let blocks = split_into_blocks(data, version, level);
    lemma_block_structure(version, level.index());
    lemma_split_by_block_structure(data, version, level);
    let group_1 = s1 * c1;
    if m < group_1 {
        lemma_quotient_in_range(m, s1, c1);
        let b = m / s1;
    } else {
        let rest = m - group_1;
        let tail = s2 * c2;
        assert(s2 > 0) by (nonlinear_arith)
            requires
                tail == s2 * c2,
                tail > 0,
                s2 >= 0,
                c2 >= 0,
        ;
        lemma_quotient_in_range(rest, s2, c2);
    }
}

/// The blocks of two runs of data codewords of a symbol have the same
/// lengths.
pub proof fn lemma_blocks_of_one_structure(d1: Seq<u8>, d2: Seq<u8>, version: int, level: EcLevel)
    requires
        1 <= version <= 40,
        d1.len() == data_codewords(version, level.index()),
        d2.len() == data_codewords(version, level.index()),
    ensures
        block_seq_eq(
            split_into_blocks(d1, version, level),
            split_into_blocks(d2, version, level),
        ),
{
    crate::ec::lemma_block_lengths(d1, version, level);
    crate::ec::lemma_block_lengths(d2, version, level);
}

/// Two runs of data codewords of a symbol interleave to the same stream
/// only if they are the same run.
pub proof fn lemma_data_stream_tells_bytes(d1: Seq<u8>, d2: Seq<u8>, version: int, level: EcLevel)
    requires
        1 <= version <= 40,
        d1.len() == data_codewords(version, level.index()),
        d2.len() == data_codewords(version, level.index()),
        data_stream(d1, version, level) == data_stream(d2, version, level),
    ensures
        d1 == d2,
{
    let blocks1 = split_into_blocks(d1, version, level);
    let blocks2 = split_into_blocks(d2, version, level);
    lemma_blocks_of_one_structure(d1, d2, version, level);
    assert forall|m: int| 0 <= m < d1.len() implies d1[m] == d2[m] by {
        let (b, i) = block_of_codeword(version, level, m);
        lemma_codeword_in_block(d1, version, level, m);
        lemma_codeword_in_block(d2, version, level, m);
        lemma_block_in_stream(blocks1, blocks2, b, i);
    }
}

/// Two accepted texts that fit a symbol have the same bit stream only if
/// they are the same text.
pub proof fn lemma_stream_tells_text(
    encoding: Encoding,
    level: EcLevel,
    version: int,
    t1: Seq<char>,
    t2: Seq<char>,
)
    requires
        encoding != Encoding::Kanji,
        encoding.accepts_all(t1),
        encoding.accepts_all(t2),
        1 <= version <= 40,
        fits(encoding, level, version, t1.len() as int),
        fits(encoding, level, version, t2.len() as int),
        symbol_stream(encoding, level, version, t1) == symbol_stream(encoding, level, version, t2),
    ensures
        t1 == t2,
{
    let f1 = framed(encoding, level, version, t1);
    let f2 = framed(encoding, level, version, t2);
    let d1 = bytes_of_modules(f1);
    let d2 = bytes_of_modules(f2);
    let ec_size = ec_codewords_per_block(version, level.index());
    lemma_block_structure(version, level.index());
    lemma_framed_fills_data_codewords(encoding, level, version, t1);
    lemma_framed_fills_data_codewords(encoding, level, version, t2);
    lemma_stream_lengths(d1, version, level, ec_size);
    lemma_stream_lengths(d2, version, level, ec_size);
    lemma_joined_parts(
        modules_of_bytes(data_stream(d1, version, level)),
        modules_of_bytes(ec_stream(d1, version, level, ec_size)),
        modules_of_bytes(data_stream(d2, version, level)),
        modules_of_bytes(ec_stream(d2, version, level, ec_size)),
    );
    lemma_modules_tell_bytes(data_stream(d1, version, level), data_stream(d2, version, level));
    lemma_data_stream_tells_bytes(d1, d2, version, level);
    lemma_framed_is_unreserved(encoding, level, version, t1);
    lemma_framed_is_unreserved(encoding, level, version, t2);
    lemma_bytes_tell_modules(f1, f2);
    lemma_framed_tells_text(encoding, level, version, t1, t2);
}

/// Two bit streams without reserved modules that a symbol has room for
/// give the same picture only if they are the same stream.
pub proof fn lemma_picture_tells_stream(
    version: int,
    level: EcLevel,
    mask: MaskPattern,
    s1: Seq<Bit>,
    s2: Seq<Bit>,
)
    requires
        1 <= version <= 40,
        s1.len() == s2.len(),
        s1.len() <= data_modules(version),
        all_unreserved(s1),
        all_unreserved(s2),
        colours(finished(version, level, mask, s1)) == colours(
            finished(version, level, mask, s2),
        ),
    ensures
        s1 == s2,
{
    let s = side(version);
    let grid = function_grid(version, level, mask);
    crate::alignment::lemma_function_modules_are_reserved(version, level.index(), mask, 0, 0);
    assert forall|r: int| 0 <= r < s1.len() implies s1[r] == s2[r] by {
        let (x, y) = lemma_module_of_rank(version, level, mask, r);
        lemma_place_in_storage(s, x, y);
        lemma_placed_module(version, grid, s1, x, y);
        lemma_placed_module(version, grid, s2, x, y);
        let placed1 = with_data(grid, s, s1);
        let placed2 = with_data(grid, s, s2);
        lemma_painted_module(placed1, s, mask_paint(mask), x, y);
        lemma_painted_module(placed2, s, mask_paint(mask), x, y);
        let i = x + s * y;
        let done1 = finished(version, level, mask, s1);
        let done2 = finished(version, level, mask, s2);
        assert(colours(done1)[i] == colours(done2)[i]);
    }
}

/// The module of the first copy of the format information that holds bit
/// `i`, counted from the most significant of the 15 bits.
pub open spec fn format_place(i: int) -> (int, int) {
    if i < 6 {
        (i, 8)
    } else if i < 8 {
        (i + 1, 8)
    } else if i == 8 {
        (8, 7)
    } else {
        (8, 14 - i)
    }
}

/// The first copy of the format information stands in every symbol with
/// its function patterns: the module at the place of bit `i` holds that bit
/// of the format word of the level and the mask pattern, and is reserved.
pub proof fn lemma_format_in_function_grid(version: int, level: EcLevel, mask: MaskPattern, i: int)
    requires
        1 <= version <= 40,
        0 <= i < 15,
    ensures
        in_grid(side(version), format_place(i).0, format_place(i).1),
        module_at(
            function_grid(version, level, mask),
            side(version),
            format_place(i).0,
            format_place(i).1,
        ) == format_modules(level.index(), mask)[i],
        format_modules(level.index(), mask)[i].reserved(),
{
    let s = side(version);
    let (x, y) = format_place(i);
    let aligned = with_alignment(crate::alignment::before_alignment(version), s, version);
    lemma_after_alignment(version, x, y);
    let timing = with_timing(aligned, s);
    let dark = with_dark_module(timing, s, version);
    let format = with_format(dark, s, level.index(), mask);
    lemma_painted_module(dark, s, format_paint(s, format_modules(level.index(), mask)), x, y);
    if version >= 7 {
        lemma_painted_module(format, s, version_paint(s, version_modules(version)), x, y);
    }
}

/// Two symbols of one version show the same format information only if
/// they are made at the same error-correction level and with the same mask
/// pattern.
pub proof fn lemma_picture_tells_format(
    version: int,
    level1: EcLevel,
    mask1: MaskPattern,
    stream1: Seq<Bit>,
    level2: EcLevel,
    mask2: MaskPattern,
    stream2: Seq<Bit>,
)
    requires
        1 <= version <= 40,
        colours(finished(version, level1, mask1, stream1)) == colours(
            finished(version, level2, mask2, stream2),
        ),
    ensures
        level1 == level2,
        mask1 == mask2,
{
    let s = side(version);
    let done1 = finished(version, level1, mask1, stream1);
    let done2 = finished(version, level2, mask2, stream2);
    let word1 = format_word(level1.index(), mask1.index());
    let word2 = format_word(level2.index(), mask2.index());
    let run1 = format_modules(level1.index(), mask1);
    let run2 = format_modules(level2.index(), mask2);
    lemma_function_modules_are_reserved(version, level1.index(), mask1, 0, 0);
    lemma_function_modules_are_reserved(version, level2.index(), mask2, 0, 0);
    assert forall|i: int| 0 <= i < 15 implies run1[i] == run2[i] by {
        let (x, y) = format_place(i);
        lemma_format_in_function_grid(version, level1, mask1, i);
        lemma_format_in_function_grid(version, level2, mask2, i);
        lemma_finished_keeps_function_patterns(version, level1, mask1, stream1, x, y);
        lemma_finished_keeps_function_patterns(version, level2, mask2, stream2, x, y);
        lemma_place_in_storage(s, x, y);
        let k = x + s * y;
        assert(colours(done1)[k] == colours(done2)[k]);
    }
    assert(run1 =~= run2);
    lemma_word_widths(level1.index(), mask1.index(), 7);
    lemma_word_widths(level2.index(), mask2.index(), 7);
    lemma2_to64();
    lemma_bit_run_tells_number(word1, word2, 15, true);
    lemma_format_words_are_codewords(level1.index(), mask1.index());
    lemma_format_words_are_codewords(level2.index(), mask2.index());
}

/// The bit stream of a symbol starts with the four bits of the mode
/// indicator.
pub proof fn lemma_stream_starts_with_mode(
    encoding: Encoding,
    level: EcLevel,
    version: int,
    text: Seq<char>,
    j: int,
)
    requires
        encoding != Encoding::Kanji,
        encoding.accepts_all(text),
        1 <= version <= 40,
        fits(encoding, level, version, text.len() as int),
        0 <= j < 4,
    ensures
        4 <= symbol_stream(encoding, level, version, text).len(),
        symbol_stream(encoding, level, version, text)[j] == bit_run(
            encoding.indicator(),
            4,
            false,
            true,
        )[j],
{
    let bits = framed(encoding, level, version, text);
    let bytes = bytes_of_modules(bits);
    let blocks = split_into_blocks(bytes, version, level);
    lemma_block_structure(version, level.index());
    lemma_framed_fills_data_codewords(encoding, level, version, text);
    lemma_count_bits(encoding, version);
    let (size_1, count_1, size_2, count_2) = block_structure(version, level.index());
    let s1 = size_1 as int;
    let c1 = count_1 as int;
    assert(0 < s1 * c1 && 0int / s1 == 0 && 0int % s1 == 0) by (nonlinear_arith)
        requires
            0 < s1,
            0 < c1,
    ;
    lemma_codeword_in_block(bytes, version, level, 0);
    lemma_first_in_stream(blocks);
    lemma_digits_of_packed_byte(bits, 0, j);
    lemma_framed_is_unreserved(encoding, level, version, text);
}

/// The picture of a symbol tells all that went into it. Two accepted texts,
/// each in the symbol of a version that holds it, give the same picture of
/// dark and light modules only if they are the same text in the same
/// encoding mode, at the same error-correction level and with the same
/// mask pattern.
pub proof fn lemma_picture_tells_all(
    encoding1: Encoding,
    level1: EcLevel,
    mask1: MaskPattern,
    v1: int,
    t1: Seq<char>,
    encoding2: Encoding,
    level2: EcLevel,
    mask2: MaskPattern,
    v2: int,
    t2: Seq<char>,
)
    requires
        encoding1 != Encoding::Kanji,
        encoding2 != Encoding::Kanji,
        encoding1.accepts_all(t1),
        encoding2.accepts_all(t2),
        1 <= v1 <= 40,
        1 <= v2 <= 40,
        fits(encoding1, level1, v1, t1.len() as int),
        fits(encoding2, level2, v2, t2.len() as int),
        colours(finished(v1, level1, mask1, symbol_stream(encoding1, level1, v1, t1))) == colours(
            finished(v2, level2, mask2, symbol_stream(encoding2, level2, v2, t2)),
        ),
    ensures
        v1 == v2,
        encoding1 == encoding2,
        level1 == level2,
        mask1 == mask2,
        t1 == t2,
{
    let stream1 = symbol_stream(encoding1, level1, v1, t1);
    let stream2 = symbol_stream(encoding2, level2, v2, t2);
    lemma_function_modules_are_reserved(v1, level1.index(), mask1, 0, 0);
    lemma_function_modules_are_reserved(v2, level2.index(), mask2, 0, 0);
    let side1 = side(v1);
    let side2 = side(v2);
    assert(colours(finished(v1, level1, mask1, stream1)).len() == side1 * side1);
    assert(side1 == side2) by (nonlinear_arith)
        requires
            side1 * side1 == side2 * side2,
            side1 > 0,
            side2 > 0,
    ;
    lemma_picture_tells_format(v1, level1, mask1, stream1, level2, mask2, stream2);
    lemma_stream_fills_the_symbol(encoding1, level1, mask1, v1, t1);
    lemma_stream_fills_the_symbol(encoding2, level1, mask1, v1, t2);
    lemma_picture_tells_stream(v1, level1, mask1, stream1, stream2);
    let mode1 = bit_run(encoding1.indicator(), 4, false, true);
    let mode2 = bit_run(encoding2.indicator(), 4, false, true);
    assert forall|j: int| 0 <= j < 4 implies mode1[j] == mode2[j] by {
        lemma_stream_starts_with_mode(encoding1, level1, v1, t1, j);
        lemma_stream_starts_with_mode(encoding2, level1, v1, t2, j);
    }
    assert(mode1 =~= mode2);
    lemma2_to64();
    lemma_bit_run_tells_number(encoding1.indicator(), encoding2.indicator(), 4, false);
    lemma_stream_tells_text(encoding1, level1, v1, t1, t2);
}

} // verus!
