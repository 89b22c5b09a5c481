//! Encoding modes and the bit streams they produce.
use crate::bit::{bit_at, bit_run, Bit};
use crate::error::QrError;
use crate::format::modules_of_bytes;
use crate::tables::capacity::payload_bits;
use vstd::prelude::*;

verus! {

/// How the text of a symbol is turned into bits.
#[derive(Copy, Clone, Debug, PartialEq, Eq, Structural)]
pub enum Encoding {
    Numeric,
    Alphanumeric,
    Byte,
    Kanji,
}

/// The value of a decimal digit, if the character is one.
pub open spec fn digit_value(c: char) -> Option<u32> {
    if '0' <= c <= '9' {
        Some((c as u32 - '0' as u32) as u32)
    } else {
        None
    }
}

/// The value of a character in the alphabet of 45 symbols of alphanumeric
/// mode, if it belongs to it: the digits, the upper-case letters, and
/// space, `$`, `%`, `*`, `+`, `-`, `.`, `/` and `:`.
pub open spec fn alphanumeric_code(c: char) -> Option<u16> {
    if '0' <= c <= '9' {
        Some((c as u32 - '0' as u32) as u16)
    } else if 'A' <= c <= 'Z' {
        Some((c as u32 - 'A' as u32 + 10) as u16)
    } else if c == ' ' {
        Some(36)
    } else if c == '$' {
        Some(37)
    } else if c == '%' {
        Some(38)
    } else if c == '*' {
        Some(39)
    } else if c == '+' {
        Some(40)
    } else if c == '-' {
        Some(41)
    } else if c == '.' {
        Some(42)
    } else if c == '/' {
        Some(43)
    } else if c == ':' {
        Some(44)
    } else {
        None
    }
}

/// The code point of a character, if it has one in ISO 8859-1.
pub open spec fn iso_8859_1_code(c: char) -> Option<u8> {
    if c as u32 <= 0xff {
        Some(c as u32 as u8)
    } else {
        None
    }
}

/// The bits of a run of digits: ten for each group of three digits, read
/// as a number, then seven for two digits left over or four for one.
pub open spec fn numeric_bits(text: Seq<char>) -> Seq<Bit>
    decreases text.len(),
{
    if text.len() == 0 {
        Seq::empty()
    } else if text.len() == 1 {
        bit_run(digit_value(text[0]).unwrap(), 4, false, true)
    } else if text.len() == 2 {
        bit_run(
            (10 * digit_value(text[0]).unwrap() + digit_value(text[1]).unwrap()) as u32,
            7,
            false,
            true,
        )
    } else {
        bit_run(
            (100 * digit_value(text[0]).unwrap() + 10 * digit_value(text[1]).unwrap() + digit_value(
                text[2],
            ).unwrap()) as u32,
            10,
            false,
            true,
        ) + numeric_bits(text.skip(3))
    }
}

/// The bits of a run of alphanumeric characters: eleven for each pair,
/// whose value is 45 times the first code plus the second, then six for a
/// character left over.
pub open spec fn alphanumeric_bits(text: Seq<char>) -> Seq<Bit>
    decreases text.len(),
{
    if text.len() == 0 {
        Seq::empty()
    } else if text.len() == 1 {
        bit_run(alphanumeric_code(text[0]).unwrap() as u32, 6, false, true)
    } else {
        bit_run(
            (45 * alphanumeric_code(text[0]).unwrap() + alphanumeric_code(text[1]).unwrap()) as u32,
            11,
            false,
            true,
        ) + alphanumeric_bits(text.skip(2))
    }
}

/// The bits of a run of characters in byte mode: the eight bits of each
/// code point, most significant first.
pub open spec fn byte_bits(text: Seq<char>) -> Seq<Bit> {
    Seq::new(
        8 * text.len(),
        |k: int| Bit::of(bit_at(text[k / 8] as u32 as nat, (7 - k % 8) as nat), false),
    )
}

/// The low eight bits of every character of a text, most significant first.
pub open spec fn low_byte_bits(text: Seq<char>) -> Seq<Bit> {
    Seq::new(
        8 * text.len(),
        |k: int| Bit::of(bit_at((text[k / 8] as u32 % 256) as nat, (7 - k % 8) as nat), false),
    )
}

impl Encoding {
    /// The four-bit number that announces the mode in the bit stream.
    pub open spec fn indicator(self) -> u32 {
        match self {
            Encoding::Numeric => 1,
            Encoding::Alphanumeric => 2,
            Encoding::Byte => 4,
            Encoding::Kanji => 8,
        }
    }

    /// Whether the alphabet of the mode holds the character. Kanji mode is
    /// not implemented and rejects no character on account of its alphabet.
    pub open spec fn accepts(self, c: char) -> bool {
        match self {
            Encoding::Numeric => digit_value(c) is Some,
            Encoding::Alphanumeric => alphanumeric_code(c) is Some,
            Encoding::Byte => iso_8859_1_code(c) is Some,
            Encoding::Kanji => true,
        }
    }

    /// Whether the alphabet of the mode holds every character of the text.
    pub open spec fn accepts_all(self, text: Seq<char>) -> bool {
        forall|i: int| 0 <= i < text.len() ==> self.accepts(#[trigger] text[i])
    }

    /// Whether the character at `i` is the first of the text that the
    /// alphabet of the mode does not hold.
    pub open spec fn rejects_first_at(self, text: Seq<char>, i: int) -> bool {
        &&& 0 <= i < text.len()
        &&& !self.accepts(text[i])
        &&& self.accepts_all(text.take(i))
    }

    /// The bits that spell an accepted text in the mode.
    pub open spec fn payload(self, text: Seq<char>) -> Seq<Bit> {
        match self {
            Encoding::Numeric => numeric_bits(text),
            Encoding::Alphanumeric => alphanumeric_bits(text),
            Encoding::Byte => byte_bits(text),
            Encoding::Kanji => Seq::empty(),
        }
    }

    /// What encoding a text gives: its bits, or the first character that
    /// the mode rejects, or the answer that the mode is not implemented.
    pub open spec fn encodes(self, text: Seq<char>, result: Result<Seq<Bit>, QrError>) -> bool {
        match result {
            Ok(bits) => self != Encoding::Kanji && self.accepts_all(text) && bits == self.payload(
                text,
            ),
            Err(QrError::InvalidCharacter(c)) => exists|i: int|
                #[trigger] self.rejects_first_at(text, i) && text[i] == c,
            Err(QrError::Unsupported) => self == Encoding::Kanji,
            Err(_) => false,
        }
    }

    /// The mode indicator, four bits with the most significant first.
    pub fn mod_indicator(&self) -> (bits: Vec<Bit>)
        ensures
            bits@ == bit_run(self.indicator(), 4, false, true),
    {
        match self {
            Encoding::Numeric => Bit::from(1, 4, false, true),
            Encoding::Alphanumeric => Bit::from(2, 4, false, true),
            Encoding::Byte => Bit::from(4, 4, false, true),
            Encoding::Kanji => Bit::from(8, 4, false, true),
        }
    }

    /// Encodes a text in this mode.
    pub fn encode(&self, data: &str) -> (result: Result<Vec<Bit>, QrError>)
        ensures
            self.encodes(
                data@,
                match result {
                    Ok(bits) => Ok(bits@),
                    Err(e) => Err(e),
                },
            ),
    {
        match self {
            Encoding::Numeric => Encoding::encode_numeric(data),
            Encoding::Alphanumeric => Encoding::encode_alphanumeric(data),
            Encoding::Byte => Encoding::encode_byte(data),
            Encoding::Kanji => Err(QrError::Unsupported),
        }
    }

    /// The value of a decimal digit.
    pub fn numeric_value(c: char) -> (result: Result<u32, QrError>)
        ensures
            result == (match digit_value(c) {
                Some(v) => Ok::<u32, QrError>(v),
                None => Err(QrError::InvalidCharacter(c)),
            }),
    {
        let code = c as u32;
        if 48 <= code && code <= 57 {
            Ok(code - 48)
        } else {
            Err(QrError::InvalidCharacter(c))
        }
    }

    /// The value of a character in the alphanumeric alphabet.
    pub fn alphanumeric_value(c: char) -> (result: Result<u16, QrError>)
        ensures
            result == (match alphanumeric_code(c) {
                Some(v) => Ok::<u16, QrError>(v),
                None => Err(QrError::InvalidCharacter(c)),
            }),
    {
        let code = c as u32;
        if 48 <= code && code <= 57 {
            Ok((code - 48) as u16)
        } else if 65 <= code && code <= 90 {
            Ok((code - 65 + 10) as u16)
        } else if c == ' ' {
            Ok(36)
        } else if c == '$' {
            Ok(37)
        } else if c == '%' {
            Ok(38)
        } else if c == '*' {
            Ok(39)
        } else if c == '+' {
            Ok(40)
        } else if c == '-' {
            Ok(41)
        } else if c == '.' {
            Ok(42)
        } else if c == '/' {
            Ok(43)
        } else if c == ':' {
            Ok(44)
        } else {
            Err(QrError::InvalidCharacter(c))
        }
    }

    /// The code point of a character in ISO 8859-1.
    pub fn char_to_iso_8859_1(c: char) -> (result: Result<u8, QrError>)
        ensures
            result == (match iso_8859_1_code(c) {
                Some(v) => Ok::<u8, QrError>(v),
                None => Err(QrError::InvalidCharacter(c)),
            }),
    {
        let code = c as u32;
        if code <= 0xFF {
            Ok(code as u8)
        } else {
            Err(QrError::InvalidCharacter(c))
        }
    }

    /// Encodes a run of decimal digits.
    pub fn encode_numeric(data: &str) -> (result: Result<Vec<Bit>, QrError>)
        ensures
            Encoding::Numeric.encodes(
                data@,
                match result {
                    Ok(bits) => Ok(bits@),
                    Err(e) => Err(e),
                },
            ),
    {
        let chars = characters(data);
        let ghost text = data@;
        let mut bits: Vec<Bit> = Vec::new();
        let mut i: usize = 0;
        proof {
            assert(text.skip(0) =~= text);
        }
        while i < chars.len()
            invariant
                i <= chars@.len(),
                chars@ == text,
                text == data@,
                Encoding::Numeric.accepts_all(text.take(i as int)),
                bits@ + numeric_bits(text.skip(i as int)) == numeric_bits(text),
            decreases chars@.len() - i,
        {
            let rest = chars.len() - i;
            let ghost tail = text.skip(i as int);
            let first = match Encoding::numeric_value(chars[i]) {
                Ok(v) => v,
                Err(e) => {
                    assert(Encoding::Numeric.rejects_first_at(text, i as int));
                    return Err(e);
                },
            };
            proof {
                assert(text.take(i + 1) =~= text.take(i as int).push(text[i as int]));
            }
            if rest == 1 {
                let mut group = Bit::from(first, 4, false, true);
                bits.append(&mut group);
                proof {
                    assert(text.skip(i + 1) =~= Seq::<char>::empty());
                }
                i = i + 1;
            } else {
                let second = match Encoding::numeric_value(chars[i + 1]) {
                    Ok(v) => v,
                    Err(e) => {
                        assert(Encoding::Numeric.rejects_first_at(text, i + 1));
                        return Err(e);
                    },
                };
                proof {
                    assert(text.take(i + 2) =~= text.take(i + 1).push(text[i + 1]));
                }
                if rest == 2 {
                    let mut group = Bit::from(10 * first + second, 7, false, true);
                    bits.append(&mut group);
                    proof {
                        assert(text.skip(i + 2) =~= Seq::<char>::empty());
                    }
                    i = i + 2;
                } else {
                    let third = match Encoding::numeric_value(chars[i + 2]) {
                        Ok(v) => v,
                        Err(e) => {
                            assert(Encoding::Numeric.rejects_first_at(text, i + 2));
                            return Err(e);
                        },
                    };
                    let mut group = Bit::from(100 * first + 10 * second + third, 10, false, true);
                    let ghost before = bits@;
                    bits.append(&mut group);
                    proof {
                        assert(tail.skip(3) =~= text.skip(i + 3));
                        assert(bits@ + numeric_bits(text.skip(i + 3)) =~= before + numeric_bits(
                            tail,
                        ));
                    }
                    i = i + 3;
                }
            }
        }
        proof {
            assert(text.take(i as int) =~= text);
        }
        Ok(bits)
    }

    /// Encodes a run of characters of the alphanumeric alphabet.
    pub fn encode_alphanumeric(data: &str) -> (result: Result<Vec<Bit>, QrError>)
        ensures
            Encoding::Alphanumeric.encodes(
                data@,
                match result {
                    Ok(bits) => Ok(bits@),
                    Err(e) => Err(e),
                },
            ),
    {
        let chars = characters(data);
        let ghost text = data@;
        let mut bits: Vec<Bit> = Vec::new();
        let mut i: usize = 0;
        proof {
            assert(text.skip(0) =~= text);
        }
        while i < chars.len()
            invariant
                i <= chars@.len(),
                chars@ == text,
                text == data@,
                Encoding::Alphanumeric.accepts_all(text.take(i as int)),
                bits@ + alphanumeric_bits(text.skip(i as int)) == alphanumeric_bits(text),
            decreases chars@.len() - i,
        {
            let rest = chars.len() - i;
            let ghost tail = text.skip(i as int);
            let first = match Encoding::alphanumeric_value(chars[i]) {
                Ok(v) => v,
                Err(e) => {
                    assert(Encoding::Alphanumeric.rejects_first_at(text, i as int));
                    return Err(e);
                },
            };
            proof {
                assert(text.take(i + 1) =~= text.take(i as int).push(text[i as int]));
            }
            if rest == 1 {
                let mut group = Bit::from(first as u32, 6, false, true);
                bits.append(&mut group);
                proof {
                    assert(text.skip(i + 1) =~= Seq::<char>::empty());
                }
                i = i + 1;
            } else {
                let second = match Encoding::alphanumeric_value(chars[i + 1]) {
                    Ok(v) => v,
                    Err(e) => {
                        assert(Encoding::Alphanumeric.rejects_first_at(text, i + 1));
                        return Err(e);
                    },
                };
                let value = first * 45 + second;
                let mut group = Bit::from(value as u32, 11, false, true);
                let ghost before = bits@;
                bits.append(&mut group);
                proof {
                    assert(tail.skip(2) =~= text.skip(i + 2));
                    assert(bits@ + alphanumeric_bits(text.skip(i + 2)) =~= before
                        + alphanumeric_bits(tail));
                }
                i = i + 2;
            }
        }
        proof {
            assert(text.take(i as int) =~= text);
        }
        Ok(bits)
    }

    /// Encodes a run of characters of ISO 8859-1, one byte each.
    pub fn encode_byte(data: &str) -> (result: Result<Vec<Bit>, QrError>)
        ensures
            Encoding::Byte.encodes(
                data@,
                match result {
                    Ok(bits) => Ok(bits@),
                    Err(e) => Err(e),
                },
            ),
    {
        let chars = characters(data);
        let ghost text = data@;
        let mut bits: Vec<Bit> = Vec::new();
        let mut i: usize = 0;
        while i < chars.len()
            invariant
                i <= chars@.len(),
                chars@ == text,
                text == data@,
                Encoding::Byte.accepts_all(text.take(i as int)),
                bits@ == byte_bits(text).take(8 * i),
            decreases chars@.len() - i,
        {
            let byte = match Encoding::char_to_iso_8859_1(chars[i]) {
                Ok(v) => v,
                Err(e) => {
                    assert(Encoding::Byte.rejects_first_at(text, i as int));
                    return Err(e);
                },
            };
            let mut group = Bit::from(byte as u32, 8, false, true);
            bits.append(&mut group);
            proof {
                let all = byte_bits(text);
                assert forall|k: int| 8 * i <= k < 8 * i + 8 implies bits@[k] == all[k] by {
                    assert(k / 8 == i);
                }
            }
            i = i + 1;
        }
        proof {
            assert(text.take(i as int) =~= text);
            assert(bits@ =~= byte_bits(text));
        }
        Ok(bits)
    }
}

/// An accepted text is spelled in as many bits as its number of
/// characters asks for.
pub proof fn lemma_payload_len(encoding: Encoding, text: Seq<char>)
    ensures
        encoding.payload(text).len() == payload_bits(encoding, text.len() as int),
    decreases text.len(),
{
    match encoding {
        Encoding::Numeric => {
            if text.len() >= 3 {
                lemma_payload_len(encoding, text.skip(3));
            }
        },
        Encoding::Alphanumeric => {
            if text.len() >= 2 {
                lemma_payload_len(encoding, text.skip(2));
            }
        },
        Encoding::Byte => {},
        Encoding::Kanji => {},
    }
}

/// The characters of a text, in order.
pub fn characters(text: &str) -> (chars: Vec<char>)
    ensures
        chars@ == text@,
{
    let mut chars: Vec<char> = Vec::new();
    for c in it: text.chars()
        invariant
            chars@ == it.seq().take(it.index() as int),
            it.seq() == text@,
    {
        chars.push(c);
    }
    chars
}

/// Spells the low eight bits of every character of a text, most significant
/// bit first, as unreserved modules.
pub fn to_bits_str(data: &str) -> (bits: Vec<Bit>)
    ensures
        bits@ == low_byte_bits(data@),
{
    let chars = characters(data);
    let ghost text = data@;
    let mut bits: Vec<Bit> = Vec::new();
    let mut i: usize = 0;
    while i < chars.len()
        invariant
            i <= chars@.len(),
            chars@ == text,
            bits@ == low_byte_bits(text).take(8 * i),
        decreases chars@.len() - i,
    {
        let low = (chars[i] as u32) % 256;
        let mut group = Bit::from(low, 8, false, true);
        bits.append(&mut group);
        proof {
            let all = low_byte_bits(text);
            assert forall|k: int| 8 * i <= k < 8 * i + 8 implies bits@[k] == all[k] by {
                assert(k / 8 == i);
            }
        }
        i = i + 1;
    }
    bits
}

/// Spells a run of bytes, most significant bit first, as unreserved
/// modules.
pub fn to_bits_array(data: &[u8]) -> (bits: Vec<Bit>)
    ensures
        bits@ == modules_of_bytes(data@),
{
    let mut bits: Vec<Bit> = Vec::new();
    let mut i: usize = 0;
    while i < data.len()
        invariant
            i <= data@.len(),
            bits@ == modules_of_bytes(data@).take(8 * i),
        decreases data@.len() - i,
    {
        let mut group = Bit::from(data[i] as u32, 8, false, true);
        bits.append(&mut group);
        proof {
            let all = modules_of_bytes(data@);
            assert forall|k: int| 8 * i <= k < 8 * i + 8 implies bits@[k] == all[k] by {
                assert(k / 8 == i);
            }
        }
        i = i + 1;
    }
    bits
}

} // verus!
