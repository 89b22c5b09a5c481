//! Conversions between module runs and codewords, most significant bit first.
use crate::bit::{bit_at, Bit};
use vstd::arithmetic::power2::lemma2_to64;
use vstd::prelude::*;

verus! {

/// The eight modules that spell `byte`, most significant bit first, none of
/// them reserved.
pub open spec fn byte_modules(byte: u8) -> Seq<Bit> {
    Seq::new(8, |j: int| Bit::of(bit_at(byte as nat, (7 - j) as nat), false))
}

/// The modules that spell a sequence of codewords: eight per codeword, in
/// order, most significant bit first, none of them reserved.
pub open spec fn modules_of_bytes(bytes: Seq<u8>) -> Seq<Bit> {
    Seq::new(
        8 * bytes.len(),
        |i: int| Bit::of(bit_at(bytes[i / 8] as nat, (7 - i % 8) as nat), false),
    )
}

/// What module `k` of `bits` adds to a codeword in which it has the weight
/// `weight`: the weight if the module exists and is dark, nothing otherwise.
pub open spec fn module_weight(bits: Seq<Bit>, k: int, weight: nat) -> nat {
    if 0 <= k < bits.len() && bits[k].dark() {
        weight
    } else {
        0
    }
}

/// The codeword read from the eight modules that start at `start`, most
/// significant bit first. Modules past the end of `bits` read as light.
pub open spec fn packed_byte(bits: Seq<Bit>, start: int) -> nat {
    module_weight(bits, start, 128) + module_weight(bits, start + 1, 64) + module_weight(
        bits,
        start + 2,
        32,
    ) + module_weight(bits, start + 3, 16) + module_weight(bits, start + 4, 8) + module_weight(
        bits,
        start + 5,
        4,
    ) + module_weight(bits, start + 6, 2) + module_weight(bits, start + 7, 1)
}

/// The codewords read from a run of modules: one per group of eight, the
/// last group filled up with light modules on the right.
pub open spec fn bytes_of_modules(bits: Seq<Bit>) -> Seq<u8> {
    Seq::new((bits.len() + 7) / 8, |i: int| packed_byte(bits, 8 * i) as u8)
}

/// The colours of a run of modules, without the reservation flags.
pub open spec fn colours(bits: Seq<Bit>) -> Seq<bool> {
    Seq::new(bits.len(), |i: int| bits[i].dark())
}

/// Whether no module of the run is reserved.
pub open spec fn all_unreserved(bits: Seq<Bit>) -> bool {
    forall|i: int| 0 <= i < bits.len() ==> !(#[trigger] bits[i]).reserved()
}

/// A codeword is the sum of its binary digits, each with its weight.
pub proof fn lemma_byte_digits(v: u8)
    ensures
        bit_at(v as nat, 0) == (v % 2 == 1),
        bit_at(v as nat, 1) == ((v / 2) % 2 == 1),
        bit_at(v as nat, 2) == ((v / 4) % 2 == 1),
        bit_at(v as nat, 3) == ((v / 8) % 2 == 1),
        bit_at(v as nat, 4) == ((v / 16) % 2 == 1),
        bit_at(v as nat, 5) == ((v / 32) % 2 == 1),
        bit_at(v as nat, 6) == ((v / 64) % 2 == 1),
        bit_at(v as nat, 7) == ((v / 128) % 2 == 1),
        v == (v % 2) + 2 * ((v / 2) % 2) + 4 * ((v / 4) % 2) + 8 * ((v / 8) % 2) + 16 * ((v / 16)
            % 2) + 32 * ((v / 32) % 2) + 64 * ((v / 64) % 2) + 128 * ((v / 128) % 2),
{
    lemma2_to64();
}

/// Reading back the modules of a codeword gives the codeword.
pub proof fn lemma_packed_byte_of_modules(bytes: Seq<u8>, i: int)
    requires
        0 <= i < bytes.len(),
    ensures
        packed_byte(modules_of_bytes(bytes), 8 * i) == bytes[i],
{
    let bits = modules_of_bytes(bytes);
    let v = bytes[i];
    lemma_byte_digits(v);
    assert forall|k: int| 8 * i <= k < 8 * i + 8 implies (#[trigger] bits[k]).dark() == bit_at(
        v as nat,
        (7 - (k - 8 * i)) as nat,
    ) by {
        assert(k / 8 == i);
    }
}

/// Packing the modules of a codeword sequence gives the sequence back.
pub proof fn lemma_bytes_of_modules_of_bytes(bytes: Seq<u8>)
    ensures
        bytes_of_modules(modules_of_bytes(bytes)) == bytes,
{
    let back = bytes_of_modules(modules_of_bytes(bytes));
    assert forall|i: int| 0 <= i < bytes.len() implies back[i] == bytes[i] by {
        lemma_packed_byte_of_modules(bytes, i);
    }
}

/// The digits of a packed codeword are the colours of the modules it was
/// read from.
pub proof fn lemma_digits_of_packed_byte(bits: Seq<Bit>, start: int, j: int)
    requires
        0 <= start,
        0 <= j < 8,
    ensures
        packed_byte(bits, start) < 256,
        bit_at(packed_byte(bits, start), (7 - j) as nat) == (start + j < bits.len() && bits[start
            + j].dark()),
{
    let p = packed_byte(bits, start);
    lemma_byte_digits(p as u8);
}

/// Spelling out the codewords packed from a run of whole groups of eight
/// gives the colours of the run back.
pub proof fn lemma_colours_of_modules_of_bytes(bits: Seq<Bit>)
    requires
        bits.len() % 8 == 0,
    ensures
        colours(modules_of_bytes(bytes_of_modules(bits))) == colours(bits),
{
    let bytes = bytes_of_modules(bits);
    let back = modules_of_bytes(bytes);
    assert forall|k: int| 0 <= k < bits.len() implies back[k].dark() == bits[k].dark() by {
        let i = k / 8;
        let j = k % 8;
        lemma_digits_of_packed_byte(bits, 8 * i, j);
    }
}

/// Spelling out the codewords packed from a run of whole groups of eight
/// gives the run back, provided none of its modules is reserved.
pub proof fn lemma_modules_of_bytes_of_modules(bits: Seq<Bit>)
    requires
        bits.len() % 8 == 0,
        all_unreserved(bits),
    ensures
        modules_of_bytes(bytes_of_modules(bits)) == bits,
{
    let back = modules_of_bytes(bytes_of_modules(bits));
    lemma_colours_of_modules_of_bytes(bits);
    assert forall|k: int| 0 <= k < bits.len() implies back[k] == bits[k] by {
        assert(colours(back)[k] == colours(bits)[k]);
    }
}

fn weight(data: &Vec<Bit>, k: usize, w: u8) -> (r: u8)
    ensures
        r == module_weight(data@, k as int, w as nat),
{
    if k < data.len() && data[k].value() {
        w
    } else {
        0
    }
}

impl Bit {
    /// Packs a run of modules into codewords, most significant bit first.
    /// A last group of fewer than eight modules is filled up with zeros on
    /// the right. The reservation flags are ignored.
    pub fn bytes(data: &Vec<Bit>) -> (bytes: Vec<u8>)
        ensures
            bytes@ == bytes_of_modules(data@),
    {
        let mut bytes: Vec<u8> = Vec::new();
        let whole = data.len() / 8;
        let count = if data.len() % 8 == 0 {
            whole
        } else {
            whole + 1
        };
        let mut i: usize = 0;
        while i < count
            invariant
                i <= count,
                count == (data@.len() + 7) / 8,
                bytes@ == bytes_of_modules(data@).take(i as int),
            decreases count - i,
        {
            let start = 8 * i;
            let rest = data.len() - start;
            let byte = weight(data, start, 128) + if rest > 1 {
                weight(data, start + 1, 64)
            } else {
                0
            } + if rest > 2 {
                weight(data, start + 2, 32)
            } else {
                0
            } + if rest > 3 {
                weight(data, start + 3, 16)
            } else {
                0
            } + if rest > 4 {
                weight(data, start + 4, 8)
            } else {
                0
            } + if rest > 5 {
                weight(data, start + 5, 4)
            } else {
                0
            } + if rest > 6 {
                weight(data, start + 6, 2)
            } else {
                0
            } + if rest > 7 {
                weight(data, start + 7, 1)
            } else {
                0
            };
            assert(byte == packed_byte(data@, start as int));
            bytes.push(byte);
            i = i + 1;
        }
        bytes
    }

    /// Spells a sequence of codewords as modules, eight per codeword, most
    /// significant bit first, none of them reserved.
    pub fn bits(data: &Vec<u8>) -> (bits: Vec<Bit>)
        ensures
            bits@ == modules_of_bytes(data@),
    {
        let mut bits: Vec<Bit> = Vec::new();
        let mut i: usize = 0;
        while i < data.len()
            invariant
                i <= data.len(),
                bits@ == modules_of_bytes(data@).take(8 * i),
            decreases data.len() - i,
        {
            let byte = data[i];
            proof {
                lemma_byte_digits(byte);
            }
            bits.push(Bit::new((byte / 128) % 2 == 1, false));
            bits.push(Bit::new((byte / 64) % 2 == 1, false));
            bits.push(Bit::new((byte / 32) % 2 == 1, false));
            bits.push(Bit::new((byte / 16) % 2 == 1, false));
            bits.push(Bit::new((byte / 8) % 2 == 1, false));
            bits.push(Bit::new((byte / 4) % 2 == 1, false));
            bits.push(Bit::new((byte / 2) % 2 == 1, false));
            bits.push(Bit::new(byte % 2 == 1, false));
            proof {
                let all = modules_of_bytes(data@);
                assert forall|k: int| 8 * i <= k < 8 * i + 8 implies bits@[k] == all[k] by {
                    assert(k / 8 == i);
                }
            }
            i = i + 1;
        }
        bits
    }
}

} // verus!
