//! Error correction: the partition of the data codewords into blocks, the
//! Reed-Solomon codewords of each block, and the interleaving of blocks.
use crate::tables::blocks::{
    block_structure, block_structure_entry, data_codewords, lemma_block_structure,
};
use crate::tables::field::{
    exp_entry, lemma_xor_regroup, lemma_xor_zero, log, log_entry, times_alpha_pow,
};
use crate::tables::polynomials::{generator, generator_polynomial, lemma_generator_len};
use vstd::prelude::*;

verus! {

/// The error-correction level of a symbol.
#[derive(Clone, Copy, Debug, PartialEq, Eq, Structural)]
pub enum EcLevel {
    H,
    Q,
    M,
    L,
}

impl EcLevel {
    /// The position of the level in the order L, M, Q, H, by which the
    /// tables are indexed.
    pub open spec fn index(self) -> int {
        match self {
            EcLevel::L => 0,
            EcLevel::M => 1,
            EcLevel::Q => 2,
            EcLevel::H => 3,
        }
    }

    pub fn ordinal(&self) -> (n: u8)
        ensures
            n == self.index(),
    {
        match self {
            EcLevel::L => 0,
            EcLevel::M => 1,
            EcLevel::Q => 2,
            EcLevel::H => 3,
        }
    }
}

/// One step of the division by the generator polynomial: the remainder of
/// the codewords read so far, `rem`, becomes that of the same codewords
/// followed by `next`. The remainder moves up by one place, and the multiple
/// of the generator that cancels the coefficient pushed out is added to it.
pub open spec fn remainder_step(rem: Seq<u8>, next: u8, gen: Seq<u8>) -> Seq<u8> {
    let lead = if rem.len() > 0 {
        rem[0] ^ next
    } else {
        next
    };
    Seq::new(
        rem.len(),
        |j: int|
            (if j + 1 < rem.len() {
                rem[j + 1]
            } else {
                0u8
            }) ^ times_alpha_pow(lead, gen[j]),
    )
}

/// The error-correction codewords of a block: the remainder of the block,
/// followed by as many zeros as the generator has coefficients, after
/// division by the generator polynomial `gen` over the field of 256
/// elements.
pub open spec fn remainder(data: Seq<u8>, gen: Seq<u8>) -> Seq<u8>
    decreases data.len(),
{
    if data.len() == 0 {
        Seq::new(gen.len(), |j: int| 0u8)
    } else {
        remainder_step(remainder(data.drop_last(), gen), data.last(), gen)
    }
}

/// The remainder has one codeword for each coefficient of the generator.
pub proof fn lemma_remainder_len(data: Seq<u8>, gen: Seq<u8>)
    ensures
        remainder(data, gen).len() == gen.len(),
    decreases data.len(),
{
    if data.len() > 0 {
        lemma_remainder_len(data.drop_last(), gen);
    }
}

/// Codeword `k` of a block that is followed by zeros.
pub open spec fn padded(data: Seq<u8>, k: int) -> u8 {
    if 0 <= k < data.len() {
        data[k]
    } else {
        0
    }
}

/// The state of the division buffer when the first `i` codewords of `data`
/// have been cancelled: the next positions hold the remainder so far, added
/// to the codewords still to come.
pub open spec fn division_state(buf: Seq<u8>, data: Seq<u8>, gen: Seq<u8>, i: int) -> bool {
    &&& buf.len() == data.len() + gen.len()
    &&& forall|k: int|
        i <= k < buf.len() ==> #[trigger] buf[k] == (if k < i + gen.len() {
            remainder(data.take(i), gen)[k - i] ^ padded(data, k)
        } else {
            padded(data, k)
        })
}

proof fn lemma_division_advance(
    before: Seq<u8>,
    after: Seq<u8>,
    data: Seq<u8>,
    gen: Seq<u8>,
    i: int,
)
    requires
        0 <= i < data.len(),
        division_state(before, data, gen, i),
        after.len() == before.len(),
        forall|k: int|
            i + 1 <= k < i + 1 + gen.len() ==> #[trigger] after[k] == before[k] ^ times_alpha_pow(
                before[i],
                gen[k - i - 1],
            ),
        forall|k: int| i + 1 + gen.len() <= k < after.len() ==> after[k] == before[k],
    ensures
        division_state(after, data, gen, i + 1),
{
    let e = gen.len() as int;
    let rem = remainder(data.take(i), gen);
    let next = remainder(data.take(i + 1), gen);
    lemma_remainder_len(data.take(i), gen);
    lemma_remainder_len(data.take(i + 1), gen);
    assert(data.take(i + 1).drop_last() =~= data.take(i));
    if e > 0 {
        assert forall|k: int| i + 1 <= k < after.len() implies #[trigger] after[k] == (if k < i + 1
            + e {
            next[k - i - 1] ^ padded(data, k)
        } else {
            padded(data, k)
        }) by {
            if k < i + 1 + e {
                let j = k - i - 1;
                let m = times_alpha_pow(before[i], gen[j]);
                let t = padded(data, k);
                if j + 1 < e {
                    lemma_xor_regroup(rem[j + 1], t, m);
                } else {
                    lemma_xor_regroup(0u8, t, m);
                    lemma_xor_zero(t);
                }
            }
        }
    }
}

proof fn lemma_division_skip(buf: Seq<u8>, data: Seq<u8>, gen: Seq<u8>, i: int)
    requires
        0 <= i < data.len(),
        division_state(buf, data, gen, i),
        buf[i] == 0,
    ensures
        forall|k: int|
            i + 1 <= k < i + 1 + gen.len() ==> #[trigger] buf[k] == buf[k] ^ times_alpha_pow(
                buf[i],
                gen[k - i - 1],
            ),
{
    assert forall|k: int| i + 1 <= k < i + 1 + gen.len() implies #[trigger] buf[k] == buf[k]
        ^ times_alpha_pow(buf[i], gen[k - i - 1]) by {
        lemma_xor_zero(buf[k]);
    }
}

/// Computes the error-correction codewords of one block by long division
/// in place. The generator polynomial is given by the logarithms of its
/// coefficients, of which the first `ec_size` are used.
pub fn create_ec_for_block(block: Vec<u8>, ec_size: usize, generator_polynomial: &[u8]) -> (ec:
    Vec<u8>)
    requires
        ec_size <= generator_polynomial@.len(),
        block@.len() + ec_size <= usize::MAX,
    ensures
        ec@ == remainder(block@, generator_polynomial@.take(ec_size as int)),
{
    let ghost data = block@;
    let ghost gen = generator_polynomial@.take(ec_size as int);
    let data_len = block.len();
    let mut codewords = block;
    let mut z: usize = 0;
    while z < ec_size
        invariant
            z <= ec_size,
            data_len + ec_size <= usize::MAX,
            data_len == data.len(),
            codewords@.len() == data_len + z,
            forall|k: int| 0 <= k < codewords@.len() ==> #[trigger] codewords@[k] == padded(data, k),
        decreases ec_size - z,
    {
        codewords.push(0);
        z = z + 1;
    }
    proof {
        assert forall|k: int| 0 <= k < codewords@.len() implies #[trigger] codewords@[k] == (if k
            < 0 + gen.len() {
            remainder(data.take(0), gen)[k - 0] ^ padded(data, k)
        } else {
            padded(data, k)
        }) by {
            lemma_xor_zero(padded(data, k));
        }
    }
    let mut i: usize = 0;
    while i < data_len
        invariant
            i <= data_len,
            data_len == data.len(),
            ec_size == gen.len(),
            ec_size <= generator_polynomial@.len(),
            gen == generator_polynomial@.take(ec_size as int),
            data_len + ec_size <= usize::MAX,
            division_state(codewords@, data, gen, i as int),
        decreases data_len - i,
    {
        let lead_coeff = codewords[i];
        let ghost before = codewords@;
        if lead_coeff != 0 {
            let log_lead_coeff: usize = log_entry(lead_coeff) as usize;
            let mut j: usize = 0;
            while j < ec_size
                invariant
                    j <= ec_size,
                    i < data_len,
                    lead_coeff != 0,
                    lead_coeff == before[i as int],
                    log_lead_coeff == log(lead_coeff),
                    ec_size == gen.len(),
                    ec_size <= generator_polynomial@.len(),
                    gen == generator_polynomial@.take(ec_size as int),
                    data_len + ec_size <= usize::MAX,
                    codewords@.len() == data_len + ec_size,
                    before.len() == codewords@.len(),
                    forall|k: int|
                        i + 1 <= k < i + 1 + j ==> #[trigger] codewords@[k] == before[k]
                            ^ times_alpha_pow(lead_coeff, gen[k - i - 1]),
                    forall|k: int|
                        0 <= k < codewords@.len() && !(i + 1 <= k < i + 1 + j)
                            ==> #[trigger] codewords@[k] == before[k],
                decreases ec_size - j,
            {
                let gen_coeff = generator_polynomial[j];
                let term = exp_entry((gen_coeff as usize + log_lead_coeff) % 255);
                let updated = codewords[i + 1 + j] ^ term;
                codewords.set(i + 1 + j, updated);
                j = j + 1;
            }
        } else {
            proof {
                lemma_division_skip(before, data, gen, i as int);
            }
        }
        proof {
            lemma_division_advance(before, codewords@, data, gen, i as int);
        }
        i = i + 1;
    }
    let ec = codewords.split_off(data_len);
    proof {
        lemma_remainder_len(data, gen);
        assert(data.take(data_len as int) =~= data);
        assert forall|j: int| 0 <= j < ec_size implies ec@[j] == remainder(data, gen)[j] by {
            lemma_xor_zero(remainder(data, gen)[j]);
        }
    }
    ec
}

/// The contents of a list of blocks.
pub open spec fn views(blocks: Seq<Vec<u8>>) -> Seq<Seq<u8>> {
    Seq::new(blocks.len(), |k: int| blocks[k]@)
}

/// How many pieces of `size` codewords, the last one possibly shorter, a run
/// of `len` codewords falls into.
pub open spec fn chunk_count(len: nat, size: nat) -> nat {
    if size == 0 {
        0
    } else {
        ((len + size - 1) / (size as int)) as nat
    }
}

/// A run of codewords cut into consecutive pieces of `size` codewords; the
/// last piece holds what is left and may be shorter.
pub open spec fn chunks(s: Seq<u8>, size: nat) -> Seq<Seq<u8>> {
    Seq::new(
        chunk_count(s.len(), size),
        |k: int|
            s.subrange(
                k * size,
                if (k + 1) * size <= s.len() {
                    (k + 1) * size
                } else {
                    s.len() as int
                },
            ),
    )
}

/// The blocks into which the data codewords of a symbol are split: the
/// codewords of the first group in pieces of the first block size, then the
/// rest in pieces of the second block size. A run that does not reach past
/// the first group is cut into pieces of the first block size throughout.
pub open spec fn split_into_blocks(data: Seq<u8>, version: int, level: EcLevel) -> Seq<Seq<u8>> {
    let (size_1, count_1, size_2, count_2) = block_structure(version, level.index());
    let group_1 = size_1 * count_1;
    if group_1 < data.len() {
        chunks(data.take(group_1), size_1 as nat) + (if size_2 > 0 {
            chunks(data.skip(group_1), size_2 as nat)
        } else {
            Seq::empty()
        })
    } else {
        chunks(data, size_1 as nat)
    }
}

proof fn lemma_more_chunks(n: nat, size: nat, k: nat)
    requires
        size > 0,
        k * size < n,
    ensures
        k < chunk_count(n, size),
{
    let q = (n + size - 1) / (size as int);
    let r = (n + size - 1) % (size as int);
    vstd::arithmetic::div_mod::lemma_fundamental_div_mod(n + size - 1, size as int);
    assert(k < q) by (nonlinear_arith)
        requires
            size > 0,
            k * size < n,
            n + size - 1 == size * q + r,
            0 <= r < size,
    ;
}

proof fn lemma_last_chunk(n: nat, size: nat, k: nat)
    requires
        size > 0,
        k * size < n <= (k + 1) * size,
    ensures
        chunk_count(n, size) == k + 1,
{
    let q = (n + size - 1) / (size as int);
    let r = (n + size - 1) % (size as int);
    vstd::arithmetic::div_mod::lemma_fundamental_div_mod(n + size - 1, size as int);
    assert(q == k + 1) by (nonlinear_arith)
        requires
            size > 0,
            k * size < n <= (k + 1) * size,
            n + size - 1 == size * q + r,
            0 <= r < size,
    ;
}

fn copy_range(data: &Vec<u8>, from: usize, to: usize) -> (piece: Vec<u8>)
    requires
        from <= to <= data@.len(),
    ensures
        piece@ == data@.subrange(from as int, to as int),
{
    let mut piece: Vec<u8> = Vec::new();
    let mut i: usize = from;
    while i < to
        invariant
            from <= i <= to <= data@.len(),
            piece@ == data@.subrange(from as int, i as int),
        decreases to - i,
    {
        piece.push(data[i]);
        i = i + 1;
    }
    piece
}

fn push_chunks(blocks: &mut Vec<Vec<u8>>, data: &Vec<u8>, from: usize, to: usize, size: usize)
    requires
        from <= to <= data@.len(),
        size > 0,
    ensures
        views(final(blocks)@) == views(old(blocks)@) + chunks(
            data@.subrange(from as int, to as int),
            size as nat,
        ),
{
    let ghost s = data@.subrange(from as int, to as int);
    let ghost before = views(blocks@);
    let n = to - from;
    let mut pos: usize = 0;
    let ghost mut k: nat = 0;
    proof {
        if n == 0 {
            vstd::arithmetic::div_mod::lemma_basic_div(size - 1, size as int);
        }
    }
    while pos < n
        invariant
            size > 0,
            n == to - from,
            from <= to <= data@.len(),
            s == data@.subrange(from as int, to as int),
            pos <= n,
            pos < n ==> pos == k * size,
            pos == n ==> k == chunk_count(n as nat, size as nat),
            k <= chunk_count(n as nat, size as nat),
            views(blocks@) == before + chunks(s, size as nat).take(k as int),
        decreases n - pos,
    {
        let end = if n - pos > size {
            pos + size
        } else {
            n
        };
        let piece = copy_range(data, from + pos, from + end);
        proof {
            lemma_more_chunks(n as nat, size as nat, k);
            assert((k + 1) * size == k * size + size) by (nonlinear_arith);
            if end == n {
                lemma_last_chunk(n as nat, size as nat, k);
            }
            let all = chunks(s, size as nat);
            assert(piece@ =~= all[k as int]);
            assert(views(blocks@.push(piece)) =~= views(blocks@).push(piece@));
        }
        blocks.push(piece);
        pos = end;
        proof {
            k = k + 1;
        }
    }
    proof {
        let all = chunks(s, size as nat);
    }
}

/// Splits the data codewords of a symbol into its blocks.
pub fn groups(data: &Vec<u8>, version: u8, ec_level: &EcLevel) -> (blocks: Vec<Vec<u8>>)
    requires
        1 <= version <= 40,
    ensures
        views(blocks@) == split_into_blocks(data@, version as int, *ec_level),
{
    let level = ec_level.ordinal();
    let (block_1_size, block_1_count, block_2_size, _block_2_count) = block_structure_entry(
        version,
        level,
    );
    proof {
        lemma_block_structure(version as int, ec_level.index());
    }
    assert(block_1_count * block_1_size == block_1_size * block_1_count && block_1_count
        * block_1_size <= 7198) by (nonlinear_arith)
        requires
            block_1_size <= 122,
            block_1_count <= 59,
    ;
    let group_1_size = block_1_count * block_1_size;
    let mut blocks: Vec<Vec<u8>> = Vec::new();
    if group_1_size < data.len() {
        push_chunks(&mut blocks, data, 0, group_1_size, block_1_size);
        if block_2_size > 0 {
            push_chunks(&mut blocks, data, group_1_size, data.len(), block_2_size);
            assert(data@.subrange(group_1_size as int, data@.len() as int) =~= data@.skip(
                group_1_size as int,
            ));
        }
    } else {
        push_chunks(&mut blocks, data, 0, data.len(), block_1_size);
        assert(data@.subrange(0, data@.len() as int) =~= data@);
    }
    blocks
}

/// Codeword `i` of every block that has one, in block order.
pub open spec fn column(blocks: Seq<Seq<u8>>, i: int) -> Seq<u8>
    decreases blocks.len(),
{
    if blocks.len() == 0 {
        Seq::empty()
    } else if i < blocks.last().len() {
        column(blocks.drop_last(), i).push(blocks.last()[i])
    } else {
        column(blocks.drop_last(), i)
    }
}

/// The first `upto` columns of a list of blocks, one after the other.
pub open spec fn interleaved(blocks: Seq<Seq<u8>>, upto: nat) -> Seq<u8>
    decreases upto,
{
    if upto == 0 {
        Seq::empty()
    } else {
        interleaved(blocks, (upto - 1) as nat) + column(blocks, upto - 1)
    }
}

/// The length of the longest block, 0 for an empty list.
pub open spec fn longest(blocks: Seq<Seq<u8>>) -> nat
    decreases blocks.len(),
{
    if blocks.len() == 0 {
        0
    } else if longest(blocks.drop_last()) < blocks.last().len() {
        blocks.last().len()
    } else {
        longest(blocks.drop_last())
    }
}

/// The codeword stream of a list of blocks: the first codeword of every
/// block, then the second of every block that has one, and so on.
pub open spec fn interleave_blocks(blocks: Seq<Seq<u8>>) -> Seq<u8> {
    interleaved(blocks, longest(blocks))
}

/// Whether every block has the length `len`.
pub open spec fn all_of_length(blocks: Seq<Seq<u8>>, len: nat) -> bool {
    forall|b: int| 0 <= b < blocks.len() ==> (#[trigger] blocks[b]).len() == len
}

/// No block is longer than the longest, and a nonempty list has a block of
/// that length.
pub proof fn lemma_longest(blocks: Seq<Seq<u8>>)
    ensures
        forall|b: int| 0 <= b < blocks.len() ==> (#[trigger] blocks[b]).len() <= longest(blocks),
        blocks.len() > 0 ==> exists|b: int|
            0 <= b < blocks.len() && (#[trigger] blocks[b]).len() == longest(blocks),
    decreases blocks.len(),
{
    if blocks.len() > 0 {
        let front = blocks.drop_last();
        lemma_longest(front);
        assert forall|b: int| 0 <= b < blocks.len() implies (#[trigger] blocks[b]).len()
            <= longest(blocks) by {
            if b < front.len() {
                assert(blocks[b] == front[b]);
            }
        }
        if longest(front) < blocks.last().len() || front.len() == 0 {
            assert(blocks[blocks.len() - 1].len() == longest(blocks));
        } else {
            let b = choose|b: int| 0 <= b < front.len() && (#[trigger] front[b]).len() == longest(
                front,
            );
        }
    }
}

/// A column of blocks of one length holds one codeword of every block.
pub proof fn lemma_column_of_equal_blocks(blocks: Seq<Seq<u8>>, len: nat, i: int)
    requires
        all_of_length(blocks, len),
        0 <= i < len,
    ensures
        column(blocks, i).len() == blocks.len(),
        forall|b: int| 0 <= b < blocks.len() ==> #[trigger] column(blocks, i)[b] == blocks[b][i],
    decreases blocks.len(),
{
    if blocks.len() > 0 {
        let front = blocks.drop_last();
        assert forall|b: int| 0 <= b < front.len() implies (#[trigger] front[b]).len() == len by {
            assert(front[b] == blocks[b]);
        }
        lemma_column_of_equal_blocks(front, len, i);
        assert forall|b: int| 0 <= b < blocks.len() implies #[trigger] column(blocks, i)[b]
            == blocks[b][i] by {
            if b < front.len() {
                assert(front[b] == blocks[b]);
            }
        }
    }
}

/// The first columns of blocks of one length, read as a matrix: entry
/// `i * n + b` of the stream is codeword `i` of block `b`, where `n` is the
/// number of blocks.
pub proof fn lemma_interleaved_equal_blocks(blocks: Seq<Seq<u8>>, len: nat, upto: nat)
    requires
        all_of_length(blocks, len),
        upto <= len,
    ensures
        interleaved(blocks, upto).len() == upto * blocks.len(),
        forall|i: int, b: int|
            0 <= i < upto && 0 <= b < blocks.len() ==> interleaved(blocks, upto)[i * blocks.len()
                + b] == #[trigger] blocks[b][i],
    decreases upto,
{
    let n = blocks.len();
    if upto > 0 {
        let before = (upto - 1) as nat;
        lemma_interleaved_equal_blocks(blocks, len, before);
        lemma_column_of_equal_blocks(blocks, len, upto - 1);
        assert(upto * n == before * n + n) by (nonlinear_arith)
            requires
                upto == before + 1,
        ;
        assert forall|i: int, b: int| 0 <= i < upto && 0 <= b < n implies interleaved(
            blocks,
            upto,
        )[i * n + b] == #[trigger] blocks[b][i] by {
            if i < before {
                assert(i * n + b < before * n) by (nonlinear_arith)
                    requires
                        0 <= i < before,
                        0 <= b < n,
                ;
                assert(0 <= i * n + b) by (nonlinear_arith)
                    requires
                        0 <= i,
                        0 <= b,
                        0 <= n,
                ;
            } else {
                assert(column(blocks, upto - 1)[b] == blocks[b][i]);
            }
        }
    } else {
        assert(upto * n == 0) by (nonlinear_arith)
            requires
                upto == 0,
        ;
    }
}

/// Interleaving blocks of one length transposes them: if the blocks are the
/// rows of a matrix, the stream reads the matrix column by column.
pub proof fn lemma_interleave_is_transpose(blocks: Seq<Seq<u8>>, len: nat)
    requires
        all_of_length(blocks, len),
    ensures
        interleave_blocks(blocks).len() == len * blocks.len(),
        forall|i: int, b: int|
            0 <= i < len && 0 <= b < blocks.len() ==> interleave_blocks(blocks)[i * blocks.len()
                + b] == #[trigger] blocks[b][i],
{
    if blocks.len() > 0 {
        lemma_longest(blocks);
        lemma_interleaved_equal_blocks(blocks, len, len);
    } else {
        assert(len * blocks.len() == 0) by (nonlinear_arith)
            requires
                blocks.len() == 0,
        ;
    }
}

/// The number of codewords of all blocks together.
pub open spec fn total_len(blocks: Seq<Seq<u8>>) -> nat
    decreases blocks.len(),
{
    if blocks.len() == 0 {
        0
    } else {
        total_len(blocks.drop_last()) + blocks.last().len()
    }
}

/// The number of codewords of all blocks together, counting no more than
/// the first `cap` of each block.
pub open spec fn capped_len(blocks: Seq<Seq<u8>>, cap: nat) -> nat
    decreases blocks.len(),
{
    if blocks.len() == 0 {
        0
    } else {
        capped_len(blocks.drop_last(), cap) + (if blocks.last().len() < cap {
            blocks.last().len()
        } else {
            cap
        })
    }
}

proof fn lemma_capped_len_step(blocks: Seq<Seq<u8>>, cap: nat)
    ensures
        capped_len(blocks, cap + 1) == capped_len(blocks, cap) + column(blocks, cap as int).len(),
    decreases blocks.len(),
{
    if blocks.len() > 0 {
        lemma_capped_len_step(blocks.drop_last(), cap);
    }
}

proof fn lemma_capped_len_is_total(blocks: Seq<Seq<u8>>, cap: nat)
    requires
        forall|b: int| 0 <= b < blocks.len() ==> (#[trigger] blocks[b]).len() <= cap,
    ensures
        capped_len(blocks, cap) == total_len(blocks),
    decreases blocks.len(),
{
    if blocks.len() > 0 {
        let front = blocks.drop_last();
        assert forall|b: int| 0 <= b < front.len() implies (#[trigger] front[b]).len() <= cap by {
            assert(front[b] == blocks[b]);
        }
        lemma_capped_len_is_total(front, cap);
    }
}

proof fn lemma_interleaved_len(blocks: Seq<Seq<u8>>, upto: nat)
    ensures
        interleaved(blocks, upto).len() == capped_len(blocks, upto),
    decreases upto,
{
    if upto > 0 {
        lemma_interleaved_len(blocks, (upto - 1) as nat);
        lemma_capped_len_step(blocks, (upto - 1) as nat);
    } else {
        lemma_capped_len_is_zero(blocks);
    }
}

proof fn lemma_capped_len_is_zero(blocks: Seq<Seq<u8>>)
    ensures
        capped_len(blocks, 0) == 0,
    decreases blocks.len(),
{
    if blocks.len() > 0 {
        lemma_capped_len_is_zero(blocks.drop_last());
    }
}

/// Interleaving neither drops nor adds a codeword: the stream is as long
/// as all blocks together.
pub proof fn lemma_interleave_len(blocks: Seq<Seq<u8>>)
    ensures
        interleave_blocks(blocks).len() == total_len(blocks),
{
    lemma_longest(blocks);
    lemma_interleaved_len(blocks, longest(blocks));
    lemma_capped_len_is_total(blocks, longest(blocks));
}

/// Whether two lists hold as many blocks, block by block of the same
/// length.
pub open spec fn block_seq_eq(a: Seq<Seq<u8>>, b: Seq<Seq<u8>>) -> bool {
    &&& a.len() == b.len()
    &&& forall|k: int| 0 <= k < a.len() ==> (#[trigger] a[k]).len() == b[k].len()
}

/// How many of the blocks before block `b` have a codeword `i`.
pub open spec fn longer_before(blocks: Seq<Seq<u8>>, b: int, i: int) -> nat
    decreases b,
{
    if b <= 0 {
        0
    } else {
        longer_before(blocks, b - 1, i) + (if i < blocks[b - 1].len() {
            1nat
        } else {
            0nat
        })
    }
}

/// Where codeword `i` of block `b` stands in the interleaved stream: after
/// the codewords before `i` of all blocks, and after the codewords `i` of
/// the blocks before `b`.
pub open spec fn place_in_stream(blocks: Seq<Seq<u8>>, b: int, i: int) -> int {
    (capped_len(blocks, i as nat) + longer_before(blocks, b, i)) as int
}

proof fn lemma_column_entry(blocks: Seq<Seq<u8>>, b: int, i: int)
    requires
        0 <= i,
    ensures
        column(blocks, i).len() == longer_before(blocks, blocks.len() as int, i),
        0 <= b < blocks.len() && i < blocks[b].len() ==> longer_before(blocks, b, i) < column(
            blocks,
            i,
        ).len() && column(blocks, i)[longer_before(blocks, b, i) as int] == blocks[b][i],
    decreases blocks.len(),
{
    if blocks.len() > 0 {
        let front = blocks.drop_last();
        let last = blocks.len() - 1;
        lemma_column_entry(front, b, i);
        lemma_longer_before_of_front(blocks, last, i);
        if 0 <= b < last {
            lemma_longer_before_of_front(blocks, b, i);
        }
    }
}

proof fn lemma_longer_before_of_front(blocks: Seq<Seq<u8>>, b: int, i: int)
    requires
        blocks.len() > 0,
        b <= blocks.len() - 1,
    ensures
        longer_before(blocks.drop_last(), b, i) == longer_before(blocks, b, i),
    decreases b,
{
    if b > 0 {
        lemma_longer_before_of_front(blocks, b - 1, i);
    }
}

proof fn lemma_interleaved_entry(blocks: Seq<Seq<u8>>, upto: nat, i: int, j: int)
    requires
        0 <= i < upto,
        0 <= j < column(blocks, i).len(),
    ensures
        capped_len(blocks, i as nat) + j < interleaved(blocks, upto).len(),
        interleaved(blocks, upto)[capped_len(blocks, i as nat) + j] == column(blocks, i)[j],
    decreases upto,
{
    let before = (upto - 1) as nat;
    lemma_interleaved_len(blocks, before);
    if i < before {
        lemma_interleaved_entry(blocks, before, i, j);
    }
}

proof fn lemma_places_of_equal_lengths(a: Seq<Seq<u8>>, b: Seq<Seq<u8>>, k: int, i: int)
    requires
        block_seq_eq(a, b),
        0 <= k <= a.len(),
        0 <= i,
    ensures
        capped_len(a, i as nat) == capped_len(b, i as nat),
        longer_before(a, k, i) == longer_before(b, k, i),
        longest(a) == longest(b),
    decreases a.len(), k,
{
    if k > 0 {
        lemma_places_of_equal_lengths(a, b, k - 1, i);
    }
    if a.len() > 0 {
        let fa = a.drop_last();
        let fb = b.drop_last();
        assert(block_seq_eq(fa, fb)) by {
            assert forall|m: int| 0 <= m < fa.len() implies (#[trigger] fa[m]).len()
                == fb[m].len() by {
                assert(fa[m] == a[m] && fb[m] == b[m]);
            }
        }
        lemma_places_of_equal_lengths(fa, fb, 0, i);
    }
}

/// Every codeword of every block stands in the interleaved stream, at a
/// place that depends on the lengths of the blocks only.
pub proof fn lemma_place_in_stream(blocks: Seq<Seq<u8>>, b: int, i: int)
    requires
        0 <= b < blocks.len(),
        0 <= i < blocks[b].len(),
    ensures
        0 <= place_in_stream(blocks, b, i) < interleave_blocks(blocks).len(),
        interleave_blocks(blocks)[place_in_stream(blocks, b, i)] == blocks[b][i],
{
    lemma_longest(blocks);
    lemma_column_entry(blocks, b, i);
    lemma_interleaved_entry(blocks, longest(blocks), i, longer_before(blocks, b, i) as int);
}

/// The interleaved stream starts with the first codeword of the first
/// block.
pub proof fn lemma_first_in_stream(blocks: Seq<Seq<u8>>)
    requires
        blocks.len() > 0,
        blocks[0].len() > 0,
    ensures
        interleave_blocks(blocks).len() > 0,
        interleave_blocks(blocks)[0] == blocks[0][0],
{
    lemma_place_in_stream(blocks, 0, 0);
    lemma_capped_len_is_zero(blocks);
}

/// Two lists of blocks of the same lengths that interleave to the same
/// stream hold the same codewords.
pub proof fn lemma_block_in_stream(a: Seq<Seq<u8>>, b: Seq<Seq<u8>>, k: int, i: int)
    requires
        block_seq_eq(a, b),
        interleave_blocks(a) == interleave_blocks(b),
        0 <= k < a.len(),
        0 <= i < a[k].len(),
    ensures
        a[k][i] == b[k][i],
{
    lemma_place_in_stream(a, k, i);
    lemma_place_in_stream(b, k, i);
    lemma_places_of_equal_lengths(a, b, k, i);
}

/// The number of codewords of blocks that come in two groups, each of
/// blocks of one length.
pub proof fn lemma_total_len_of_groups(
    blocks: Seq<Seq<u8>>,
    count_1: nat,
    size_1: nat,
    count_2: nat,
    size_2: nat,
)
    requires
        blocks.len() == count_1 + count_2,
        forall|b: int| 0 <= b < count_1 ==> (#[trigger] blocks[b]).len() == size_1,
        forall|b: int| count_1 <= b < count_1 + count_2 ==> (#[trigger] blocks[b]).len() == size_2,
    ensures
        total_len(blocks) == count_1 * size_1 + count_2 * size_2,
    decreases blocks.len(),
{
    if blocks.len() == 0 {
        assert(count_1 * size_1 + count_2 * size_2 == 0) by (nonlinear_arith)
            requires
                count_1 == 0,
                count_2 == 0,
        ;
    } else {
        let front = blocks.drop_last();
        if count_2 > 0 {
            assert forall|b: int| 0 <= b < count_1 implies (#[trigger] front[b]).len() == size_1 by {
                assert(front[b] == blocks[b]);
            }
            assert forall|b: int| count_1 <= b < count_1 + (count_2 - 1) implies (
            #[trigger] front[b]).len() == size_2 by {
                assert(front[b] == blocks[b]);
            }
            lemma_total_len_of_groups(front, count_1, size_1, (count_2 - 1) as nat, size_2);
            assert(count_2 * size_2 == (count_2 - 1) * size_2 + size_2) by (nonlinear_arith);
        } else {
            assert forall|b: int| 0 <= b < count_1 - 1 implies (#[trigger] front[b]).len()
                == size_1 by {
                assert(front[b] == blocks[b]);
            }
            lemma_total_len_of_groups(front, (count_1 - 1) as nat, size_1, 0, size_2);
            assert(count_1 * size_1 == (count_1 - 1) * size_1 + size_1) by (nonlinear_arith);
            assert(count_2 * size_2 == 0 && 0 * size_2 == 0) by (nonlinear_arith)
                requires
                    count_2 == 0,
            ;
        }
    }
}

/// The lengths of the blocks of the data codewords of a symbol: those of
/// the first group have the first size, those of the second group the
/// second.
pub proof fn lemma_block_lengths(data: Seq<u8>, version: int, level: EcLevel)
    requires
        1 <= version <= 40,
        data.len() == data_codewords(version, level.index()),
    ensures
        ({
            let (size_1, count_1, size_2, count_2) = block_structure(version, level.index());
            let blocks = split_into_blocks(data, version, level);
            &&& blocks.len() == count_1 + count_2
            &&& forall|b: int|
                0 <= b < blocks.len() ==> (#[trigger] blocks[b]).len() == (if b < count_1 {
                    size_1
                } else {
                    size_2
                })
        }),
{
    let (size_1, count_1, size_2, count_2) = block_structure(version, level.index());
    let blocks = split_into_blocks(data, version, level);
    lemma_block_structure(version, level.index());
    lemma_split_by_block_structure(data, version, level);
    assert forall|b: int| 0 <= b < blocks.len() implies (#[trigger] blocks[b]).len() == (if b
        < count_1 {
        size_1
    } else {
        size_2
    }) by {
        if b < count_1 {
            assert((b + 1) * size_1 - b * size_1 == size_1) by (nonlinear_arith);
            assert(0 <= b * size_1 && (b + 1) * size_1 <= size_1 * count_1) by (nonlinear_arith)
                requires
                    0 <= b < count_1,
                    0 <= size_1,
            ;
        } else {
            let k = b - count_1;
            assert(blocks[count_1 + k] == blocks[b]);
            assert((k + 1) * size_2 - k * size_2 == size_2) by (nonlinear_arith);
            assert(0 <= k * size_2 && (k + 1) * size_2 <= size_2 * count_2 && 0 <= size_1
                * count_1) by (nonlinear_arith)
                requires
                    0 <= k < count_2,
                    0 <= size_2,
                    0 <= size_1,
                    0 <= count_1,
            ;
        }
    }
}

/// The two streams of a symbol hold all its codewords: the data stream as
/// many as the symbol has data codewords, and the error-correction stream
/// as many as each block has, for every block.
pub proof fn lemma_stream_lengths(data: Seq<u8>, version: int, level: EcLevel, ec_size: int)
    requires
        1 <= version <= 40,
        0 <= ec_size,
        data.len() == data_codewords(version, level.index()),
    ensures
        data_stream(data, version, level).len() == data.len(),
        ({
            let (size_1, count_1, size_2, count_2) = block_structure(version, level.index());
            ec_stream(data, version, level, ec_size).len() == (count_1 + count_2) * ec_size
        }),
{
    let (size_1, count_1, size_2, count_2) = block_structure(version, level.index());
    let blocks = split_into_blocks(data, version, level);
    lemma_block_structure(version, level.index());
    lemma_split_by_block_structure(data, version, level);
    lemma_interleave_len(blocks);
    lemma_block_lengths(data, version, level);
    lemma_total_len_of_groups(
        blocks,
        count_1 as nat,
        size_1 as nat,
        count_2 as nat,
        size_2 as nat,
    );
    assert(count_1 * size_1 == size_1 * count_1 && count_2 * size_2 == size_2 * count_2)
        by (nonlinear_arith);
    let gen = generator(ec_size);
    lemma_generator_len(ec_size);
    let ecs = ec_blocks(blocks, gen);
    assert forall|b: int| 0 <= b < count_1 + count_2 implies (#[trigger] ecs[b]).len()
        == ec_size by {
        lemma_remainder_len(blocks[b], gen);
    }
    lemma_interleave_len(ecs);
    lemma_total_len_of_groups(ecs, (count_1 + count_2) as nat, ec_size as nat, 0, 0);
}

fn longest_block(blocks: &Vec<Vec<u8>>) -> (max_len: usize)
    ensures
        max_len == longest(views(blocks@)),
{
    let mut max_len: usize = 0;
    let mut b: usize = 0;
    proof {
        assert(views(blocks@).take(0) =~= Seq::<Seq<u8>>::empty());
    }
    while b < blocks.len()
        invariant
            b <= blocks@.len(),
            max_len == longest(views(blocks@).take(b as int)),
        decreases blocks@.len() - b,
    {
        proof {
            let all = views(blocks@);
            assert(all.take(b + 1).drop_last() =~= all.take(b as int));
        }
        if blocks[b].len() > max_len {
            max_len = blocks[b].len();
        }
        b = b + 1;
    }
    proof {
        assert(views(blocks@).take(b as int) =~= views(blocks@));
    }
    max_len
}

/// Interleaves blocks: the first codeword of every block, then the second
/// of every block that has one, and so on to the end of the longest block.
pub fn interleave(blocks: Vec<Vec<u8>>) -> (result: Vec<u8>)
    ensures
        result@ == interleave_blocks(views(blocks@)),
{
    let mut result: Vec<u8> = Vec::new();
    let max_len = longest_block(&blocks);
    let ghost all = views(blocks@);
    let mut i: usize = 0;
    while i < max_len
        invariant
            i <= max_len,
            all == views(blocks@),
            result@ == interleaved(all, i as nat),
        decreases max_len - i,
    {
        let ghost start = result@;
        let mut b: usize = 0;
        proof {
            assert(all.take(0) =~= Seq::<Seq<u8>>::empty());
        }
        while b < blocks.len()
            invariant
                b <= blocks@.len(),
                all == views(blocks@),
                result@ == start + column(all.take(b as int), i as int),
            decreases blocks@.len() - b,
        {
            proof {
                assert(all.take(b + 1).drop_last() =~= all.take(b as int));
            }
            if i < blocks[b].len() {
                result.push(blocks[b][i]);
            }
            proof {
                assert(result@ =~= start + column(all.take(b + 1), i as int));
            }
            b = b + 1;
        }
        proof {
            assert(all.take(b as int) =~= all);
        }
        i = i + 1;
    }
    result
}

/// The error-correction codewords of every block of a list.
pub open spec fn ec_blocks(blocks: Seq<Seq<u8>>, gen: Seq<u8>) -> Seq<Seq<u8>> {
    Seq::new(blocks.len(), |b: int| remainder(blocks[b], gen))
}

/// The interleaved error-correction codewords of the data codewords of a
/// symbol, with `ec_size` codewords for each block.
pub open spec fn ec_stream(data: Seq<u8>, version: int, level: EcLevel, ec_size: int) -> Seq<u8> {
    interleave_blocks(ec_blocks(split_into_blocks(data, version, level), generator(ec_size)))
}

/// The interleaved data codewords of a symbol.
pub open spec fn data_stream(data: Seq<u8>, version: int, level: EcLevel) -> Seq<u8> {
    interleave_blocks(split_into_blocks(data, version, level))
}

fn ec_for_blocks(blocks: &Vec<Vec<u8>>, cw_per_block: usize) -> (ec: Vec<Vec<u8>>)
    requires
        cw_per_block <= 30,
        forall|b: int|
            0 <= b < blocks@.len() ==> (#[trigger] blocks@[b])@.len() + cw_per_block <= usize::MAX,
    ensures
        views(ec@) == ec_blocks(views(blocks@), generator(cw_per_block as int)),
{
    let generator_polynomial = generator_polynomial(cw_per_block);
    let mut ec: Vec<Vec<u8>> = Vec::new();
    let mut b: usize = 0;
    proof {
        lemma_generator_len(cw_per_block as int);
    }
    while b < blocks.len()
        invariant
            b <= blocks@.len(),
            cw_per_block <= 30,
            generator_polynomial@ == generator(cw_per_block as int),
            generator_polynomial@.len() == cw_per_block,
            forall|k: int|
                0 <= k < blocks@.len() ==> (#[trigger] blocks@[k])@.len() + cw_per_block
                    <= usize::MAX,
            ec@.len() == b,
            forall|k: int|
                0 <= k < b ==> (#[trigger] ec@[k])@ == remainder(
                    blocks@[k]@,
                    generator(cw_per_block as int),
                ),
        decreases blocks@.len() - b,
    {
        let block = blocks[b].clone();
        let codewords = create_ec_for_block(block, cw_per_block, generator_polynomial.as_slice());
        proof {
            assert(generator_polynomial@.take(cw_per_block as int) =~= generator_polynomial@);
        }
        ec.push(codewords);
        b = b + 1;
    }
    proof {
        assert(views(ec@) =~= ec_blocks(views(blocks@), generator(cw_per_block as int)));
    }
    ec
}

/// Every piece of a cut run starts inside the run, is not empty and is no
/// longer than the piece size.
pub proof fn lemma_chunk_lengths(s: Seq<u8>, size: nat, k: int)
    requires
        size > 0,
        0 <= k < chunk_count(s.len(), size),
    ensures
        0 <= k * size < s.len(),
        1 <= chunks(s, size)[k].len() <= size,
        chunks(s, size)[k].len() <= s.len(),
        (k + 1) * size == k * size + size,
        (k + 1) * size <= s.len() ==> chunks(s, size)[k].len() == size,
{
    let n = s.len() as int;
    let q = (n + size - 1) / (size as int);
    let r = (n + size - 1) % (size as int);
    vstd::arithmetic::div_mod::lemma_fundamental_div_mod(n + size - 1, size as int);
    assert(0 <= k * size < n && (k + 1) * size == k * size + size) by (nonlinear_arith)
        requires
            size > 0,
            0 <= k < q,
            n + size - 1 == size * q + r,
            0 <= r < size,
    ;
}

/// A run of `count` times `size` codewords falls into `count` pieces.
pub proof fn lemma_whole_chunks(count: nat, size: nat)
    requires
        size > 0,
    ensures
        chunk_count(count * size, size) == count,
{
    let n = count * size;
    if count == 0 {
        assert(n == 0) by (nonlinear_arith)
            requires
                n == count * size,
                count == 0,
        ;
        vstd::arithmetic::div_mod::lemma_basic_div(size - 1, size as int);
    } else {
        assert((count - 1) * size < n && n <= (count - 1 + 1) * size) by (nonlinear_arith)
            requires
                n == count * size,
                size > 0,
                count > 0,
        ;
        lemma_last_chunk(n, size, (count - 1) as nat);
    }
}

/// The data codewords of a symbol fall into the blocks that the block
/// structure lists: first the blocks of the first group, each of the first
/// size, then those of the second group, each of the second size, all of
/// them cut from the codewords in order.
pub proof fn lemma_split_by_block_structure(data: Seq<u8>, version: int, level: EcLevel)
    requires
        1 <= version <= 40,
        data.len() == data_codewords(version, level.index()),
    ensures
        ({
            let (size_1, count_1, size_2, count_2) = block_structure(version, level.index());
            let blocks = split_into_blocks(data, version, level);
            &&& blocks.len() == count_1 + count_2
            &&& forall|k: int|
                0 <= k < count_1 ==> #[trigger] blocks[k] == data.subrange(
                    k * size_1,
                    (k + 1) * size_1,
                )
            &&& forall|k: int|
                0 <= k < count_2 ==> #[trigger] blocks[count_1 + k] == data.subrange(
                    size_1 * count_1 + k * size_2,
                    size_1 * count_1 + (k + 1) * size_2,
                )
        }),
{
    lemma_block_structure(version, level.index());
    let (size_1, count_1, size_2, count_2) = block_structure(version, level.index());
    let s1 = size_1 as int;
    let c1 = count_1 as int;
    let s2 = size_2 as int;
    let c2 = count_2 as int;
    let group_1 = s1 * c1;
    let blocks = split_into_blocks(data, version, level);
    assert(group_1 == c1 * s1 && s2 * c2 == c2 * s2 && s2 * c2 >= 0 && (c2 > 0 && s2 > 0 ==> s2
        * c2 > 0)) by (nonlinear_arith)
        requires
            group_1 == s1 * c1,
            s1 >= 0,
            c1 >= 0,
            s2 >= 0,
            c2 >= 0,
    ;
    lemma_whole_chunks(c1 as nat, s1 as nat);
    if c2 > 0 {
        lemma_whole_chunks(c2 as nat, s2 as nat);
        let head = data.take(group_1);
        let tail = data.skip(group_1);
        assert forall|k: int| 0 <= k < c1 implies #[trigger] blocks[k] == data.subrange(
            k * s1,
            (k + 1) * s1,
        ) by {
            lemma_chunk_lengths(head, s1 as nat, k);
            assert((k + 1) * s1 <= c1 * s1) by (nonlinear_arith)
                requires
                    0 <= k < c1,
                    s1 >= 0,
            ;
        }
        assert forall|k: int| 0 <= k < c2 implies #[trigger] blocks[c1 + k] == data.subrange(
            group_1 + k * s2,
            group_1 + (k + 1) * s2,
        ) by {
            lemma_chunk_lengths(tail, s2 as nat, k);
            assert((k + 1) * s2 <= c2 * s2) by (nonlinear_arith)
                requires
                    0 <= k < c2,
                    s2 >= 0,
            ;
            assert(chunks(tail, s2 as nat)[k] =~= data.subrange(
                group_1 + k * s2,
                group_1 + (k + 1) * s2,
            ));
        }
    } else {
        assert(s2 * c2 == 0) by (nonlinear_arith)
            requires
                c2 == 0,
        ;
        assert forall|k: int| 0 <= k < c1 implies #[trigger] blocks[k] == data.subrange(
            k * s1,
            (k + 1) * s1,
        ) by {
            lemma_chunk_lengths(data, s1 as nat, k);
            assert((k + 1) * s1 <= c1 * s1) by (nonlinear_arith)
                requires
                    0 <= k < c1,
                    s1 >= 0,
            ;
        }
    }
}

/// No block of a split is longer than the run that was split.
pub proof fn lemma_split_block_lengths(data: Seq<u8>, version: int, level: EcLevel)
    requires
        1 <= version <= 40,
    ensures
        forall|b: int|
            0 <= b < split_into_blocks(data, version, level).len() ==> (
            #[trigger] split_into_blocks(data, version, level)[b]).len() <= data.len(),
{
    lemma_block_structure(version, level.index());
    let (size_1, count_1, size_2, count_2) = block_structure(version, level.index());
    let group_1 = size_1 * count_1;
    let blocks = split_into_blocks(data, version, level);
    assert forall|b: int| 0 <= b < blocks.len() implies (#[trigger] blocks[b]).len()
        <= data.len() by {
        if group_1 < data.len() {
            let first = chunks(data.take(group_1), size_1 as nat);
            if b < first.len() {
                lemma_chunk_lengths(data.take(group_1), size_1 as nat, b);
            } else {
                lemma_chunk_lengths(data.skip(group_1), size_2 as nat, b - first.len());
            }
        } else {
            lemma_chunk_lengths(data, size_1 as nat, b);
        }
    }
}

/// Computes the error-correction codewords of every block of the data
/// codewords and interleaves them.
pub fn error_correction(data: &Vec<u8>, version: u8, ec_level: &EcLevel, cw_per_block: usize) -> (ec:
    Vec<u8>)
    requires
        1 <= version <= 40,
        cw_per_block <= 30,
        data@.len() + cw_per_block <= usize::MAX,
    ensures
        ec@ == ec_stream(data@, version as int, *ec_level, cw_per_block as int),
{
    let blocks = groups(data, version, ec_level);
    proof {
        lemma_split_block_lengths(data@, version as int, *ec_level);
        assert forall|b: int| 0 <= b < blocks@.len() implies (#[trigger] blocks@[b])@.len()
            + cw_per_block <= usize::MAX by {
            assert(views(blocks@)[b] == blocks@[b]@);
        }
    }
    let ec_blocks = ec_for_blocks(&blocks, cw_per_block);
    interleave(ec_blocks)
}

/// Splits the data codewords into blocks and returns the interleaved data
/// codewords together with the interleaved error-correction codewords.
pub fn codewords(data: &Vec<u8>, version: u8, ec_level: &EcLevel, cw_per_block: usize) -> (streams:
    (Vec<u8>, Vec<u8>))
    requires
        1 <= version <= 40,
        cw_per_block <= 30,
        data@.len() + cw_per_block <= usize::MAX,
    ensures
        streams.0@ == data_stream(data@, version as int, *ec_level),
        streams.1@ == ec_stream(data@, version as int, *ec_level, cw_per_block as int),
{
    let blocks = groups(data, version, ec_level);
    let ec = error_correction(data, version, ec_level, cw_per_block);
    (interleave(blocks), ec)
}

} // verus!
