//! Modules of a symbol: a colour and a reservation flag.
use vstd::arithmetic::power2::pow2;
use vstd::bits::lemma_u32_shr_is_div;
use vstd::prelude::*;

verus! {

/// One module of a symbol. `One` is dark and `Zero` is light; the flag says
/// whether the module belongs to a function pattern, in which case neither
/// data placement nor masking may touch it.
#[derive(Copy, Clone, Debug, PartialEq, Eq, Structural)]
pub enum Bit {
    One(bool),
    Zero(bool),
}

/// Binary digit `k` of `v`, counted from the least significant one.
pub open spec fn bit_at(v: nat, k: nat) -> bool {
    (v / pow2(k)) % 2 == 1
}

/// The run of `n` modules that spells the low `n` binary digits of `data`:
/// most significant digit first when `reverse` is set, least significant
/// first otherwise. Every module carries the flag `functional`.
pub open spec fn bit_run(data: u32, n: nat, functional: bool, reverse: bool) -> Seq<Bit> {
    Seq::new(
        n,
        |i: int|
            Bit::of(
                bit_at(
                    data as nat,
                    if reverse {
                        (n - 1 - i) as nat
                    } else {
                        i as nat
                    },
                ),
                functional,
            ),
    )
}

proof fn lemma_low_bit(v: u32)
    ensures
        v & 1 == v % 2,
{
    assert(v & 1 == v % 2) by (bit_vector);
}

impl Bit {
    /// The module with the given colour and reservation flag.
    pub open spec fn of(dark: bool, reserved: bool) -> Bit {
        if dark {
            Bit::One(reserved)
        } else {
            Bit::Zero(reserved)
        }
    }

    /// Whether the module is dark.
    pub open spec fn dark(self) -> bool {
        self is One
    }

    /// Whether the module belongs to a function pattern.
    pub open spec fn reserved(self) -> bool {
        match self {
            Bit::One(flag) => flag,
            Bit::Zero(flag) => flag,
        }
    }

    /// The same module with the opposite colour.
    pub open spec fn inverted(self) -> Bit {
        Bit::of(!self.dark(), self.reserved())
    }

    pub fn is_functional(&self) -> (flag: bool)
        ensures
            flag == self.reserved(),
    {
        match self {
            Bit::One(val) => *val,
            Bit::Zero(val) => *val,
        }
    }

    pub fn value(&self) -> (dark: bool)
        ensures
            dark == self.dark(),
    {
        match self {
            Bit::One(_) => true,
            Bit::Zero(_) => false,
        }
    }

    /// Builds a module from its colour and reservation flag.
    pub fn new(dark: bool, functional: bool) -> (bit: Bit)
        ensures
            bit == Bit::of(dark, functional),
    {
        if dark {
            Bit::One(functional)
        } else {
            Bit::Zero(functional)
        }
    }

    /// Flips the colour and keeps the reservation flag.
    pub fn invert(&self) -> (bit: Bit)
        ensures
            bit == self.inverted(),
    {
        match self {
            Bit::One(val) => Bit::Zero(*val),
            Bit::Zero(val) => Bit::One(*val),
        }
    }

    /// Spells the low `n_bits` binary digits of `data` as modules.
    pub fn from(data: u32, n_bits: u8, functional: bool, reverse: bool) -> (bits: Vec<Bit>)
        requires
            n_bits <= 32,
        ensures
            bits@ == bit_run(data, n_bits as nat, functional, reverse),
    {
        let mut bits: Vec<Bit> = Vec::new();
        let mut i: u8 = 0;
        while i < n_bits
            invariant
                i <= n_bits <= 32,
                bits@ == bit_run(data, n_bits as nat, functional, reverse).take(i as int),
            decreases n_bits - i,
        {
            let k: u8 = if reverse {
                n_bits - i - 1
            } else {
                i
            };
            let shifted: u32 = data >> (k as u32);
            let dark = (shifted & 1) == 1;
            proof {
                lemma_u32_shr_is_div(data, k as u32);
                lemma_low_bit(shifted);
                assert(dark == bit_at(data as nat, k as nat));
            }
            bits.push(Bit::new(dark, functional));
            i = i + 1;
        }
        bits
    }
}

} // verus!
