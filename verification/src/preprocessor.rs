//! From a text to the bit stream of its symbol: choice of the version,
//! assembly and padding of the data segment, error correction.
use crate::bit::{bit_run, Bit};
use crate::ec::{codewords, data_stream, ec_stream, EcLevel};
use crate::encoding::{lemma_payload_len, Encoding};
use crate::error::QrError;
use crate::format::{byte_modules, bytes_of_modules, modules_of_bytes};
use crate::layout::{blank, side, with_data, with_function_patterns, with_mask};
use crate::mask::MaskPattern;
use crate::qrcode::{BuilderStage, QrCode};
use crate::tables::blocks::{
    block_structure, block_structure_entry, data_codewords, ec_codewords_entry,
    ec_codewords_per_block, lemma_block_structure, lemma_data_codewords,
};
use crate::tables::capacity::{
    capacity, capacity_entry, char_count, count_bits, lemma_capacity, lemma_capacity_fits,
    lemma_count_bits, segment_bits,
};
use vstd::prelude::*;
use vstd::string::StrSliceExecFns;

verus! {

/// Whether a symbol of the given version and level holds `count`
/// characters in the given mode.
pub open spec fn fits(encoding: Encoding, level: EcLevel, version: int, count: int) -> bool {
    count <= capacity(encoding, version, level.index())
}

/// Whether `version` is the smallest version whose symbol holds `count`
/// characters.
pub open spec fn is_smallest_fit(encoding: Encoding, level: EcLevel, count: int, version: int) -> bool {
    &&& 1 <= version <= 40
    &&& fits(encoding, level, version, count)
    &&& forall|smaller: int| 1 <= smaller < version ==> !fits(encoding, level, smaller, count)
}

/// Whether no symbol holds `count` characters.
pub open spec fn nothing_fits(encoding: Encoding, level: EcLevel, count: int) -> bool {
    forall|version: int| 1 <= version <= 40 ==> !fits(encoding, level, version, count)
}

/// The data segment of a text: mode indicator, character count and the
/// bits of the characters, each most significant bit first.
pub open spec fn segment(encoding: Encoding, version: int, text: Seq<char>) -> Seq<Bit> {
    bit_run(encoding.indicator(), 4, false, true) + bit_run(
        text.len() as u32,
        count_bits(encoding, version) as nat,
        false,
        true,
    ) + encoding.payload(text)
}

/// The smallest multiple of 8 that is not below `n`.
pub open spec fn round_up_8(n: int) -> int {
    (n + 7) / 8 * 8
}

/// Where the zero bits end that follow a data segment of `len` bits in a
/// symbol with room for `room` bits: after a terminator of four zeros, or
/// fewer if the room ends before, and after the zeros that fill the last
/// codeword.
pub open spec fn zeros_end(len: int, room: int) -> int {
    round_up_8(
        if len + 4 <= room {
            len + 4
        } else if len <= room {
            room
        } else {
            len
        },
    )
}

/// The length of a padded data segment.
pub open spec fn padded_len(len: int, room: int) -> int {
    if zeros_end(len, room) <= room {
        room
    } else {
        zeros_end(len, room)
    }
}

/// Pad codeword `k`: the pad codewords are 0xEC and 0x11 in turn, starting
/// with 0xEC.
pub open spec fn pad_codeword(k: int) -> u8 {
    if k % 2 == 0 {
        0xEC
    } else {
        0x11
    }
}

/// A data segment padded to the room of its symbol, which is a whole
/// number of codewords: the segment, the terminator, zeros to the end of
/// the codeword, and pad codewords to the end of the room.
pub open spec fn padded(bits: Seq<Bit>, room: int) -> Seq<Bit> {
    Seq::new(
        padded_len(bits.len() as int, room) as nat,
        |k: int|
            if k < bits.len() {
                bits[k]
            } else if k < zeros_end(bits.len() as int, room) {
                Bit::Zero(false)
            } else {
                byte_modules(pad_codeword((k - zeros_end(bits.len() as int, room)) / 8))[k % 8]
            },
    )
}

/// The padded data segment of a text in a symbol of the given version and
/// level.
pub open spec fn framed(encoding: Encoding, level: EcLevel, version: int, text: Seq<char>) -> Seq<
    Bit,
> {
    padded(segment(encoding, version, text), 8 * data_codewords(version, level.index()))
}

/// The bit stream of a symbol: its data codewords, block after block
/// interleaved, followed by the interleaved error-correction codewords of
/// the blocks.
pub open spec fn symbol_stream(encoding: Encoding, level: EcLevel, version: int, text: Seq<char>) -> Seq<
    Bit,
> {
    let bytes = bytes_of_modules(framed(encoding, level, version, text));
    modules_of_bytes(data_stream(bytes, version, level)) + modules_of_bytes(
        ec_stream(bytes, version, level, ec_codewords_per_block(version, level.index())),
    )
}

/// The finished symbol for a bit stream: the function patterns on a blank
/// grid, then the bit stream, then the mask.
pub open spec fn finished(version: int, level: EcLevel, mask: MaskPattern, stream: Seq<Bit>) -> Seq<
    Bit,
> {
    let s = side(version);
    with_mask(
        with_data(with_function_patterns(blank(s), version, level.index(), mask), s, stream),
        s,
        mask,
    )
}

/// The data segment of a text that its symbol holds fills the data
/// codewords of the symbol exactly once it is padded: the number of data
/// bits is eight times the number of data codewords that the block
/// structure gives.
pub proof fn lemma_framed_fills_data_codewords(
    encoding: Encoding,
    level: EcLevel,
    version: int,
    text: Seq<char>,
)
    requires
        encoding != Encoding::Kanji,
        encoding.accepts_all(text),
        1 <= version <= 40,
        fits(encoding, level, version, text.len() as int),
    ensures
        segment(encoding, version, text).len() == segment_bits(
            encoding,
            version,
            text.len() as int,
        ),
        segment(encoding, version, text).len() <= 8 * data_codewords(version, level.index()),
        framed(encoding, level, version, text).len() == 8 * data_codewords(version, level.index()),
        ({
            let (size_1, count_1, size_2, count_2) = block_structure(version, level.index());
            framed(encoding, level, version, text).len() == (size_1 * count_1 + size_2 * count_2)
                * 8
        }),
{
    lemma_payload_len(encoding, text);
    lemma_count_bits(encoding, version);
    lemma_capacity_fits(encoding, version, level.index(), text.len() as int);
    lemma_data_codewords(version, level.index());
}

/// The smallest version whose symbol holds `count` characters, if there
/// is one.
pub fn select_version(count: usize, encoding: Encoding, ec_level: EcLevel) -> (version: Option<u8>)
    ensures
        match version {
            Some(v) => is_smallest_fit(encoding, ec_level, count as int, v as int),
            None => nothing_fits(encoding, ec_level, count as int),
        },
{
    let level = ec_level.ordinal();
    let mut version: u8 = 1;
    while version <= 40
        invariant
            1 <= version <= 41,
            level == ec_level.index(),
            forall|smaller: int|
                1 <= smaller < version ==> !fits(encoding, ec_level, smaller, count as int),
        decreases 41 - version,
    {
        let limit = capacity_entry(encoding, version, level);
        if count <= limit as usize {
            return Some(version);
        }
        version = version + 1;
    }
    None
}

/// Pads a data segment to `codewords` whole codewords: a terminator of up
/// to four zeros, zeros to the end of the codeword, then the pad codewords
/// 0xEC and 0x11 in turn.
pub fn pad_segment(data_segment: &mut Vec<Bit>, codewords: usize)
    requires
        8 * codewords <= usize::MAX,
    ensures
        final(data_segment)@ == padded(old(data_segment)@, 8 * codewords),
{
    let ghost bits = data_segment@;
    let ghost len = bits.len() as int;
    let total_data_bits = 8 * codewords;
    let ghost zeros = zeros_end(len, total_data_bits as int);
    if data_segment.len() < total_data_bits {
        let empty_bits = total_data_bits - data_segment.len();
        let terminator = if empty_bits >= 4 {
            4
        } else {
            empty_bits
        };
        let mut t: usize = 0;
        while t < terminator
            invariant
                t <= terminator <= 4,
                len == bits.len(),
                data_segment@.len() == len + t,
                forall|k: int| 0 <= k < len ==> data_segment@[k] == bits[k],
                forall|k: int| len <= k < len + t ==> data_segment@[k] == Bit::Zero(false),
            decreases terminator - t,
        {
            data_segment.push(Bit::Zero(false));
            t = t + 1;
        }
    }
    let ghost terminated = data_segment@.len() as int;
    while data_segment.len() % 8 != 0
        invariant
            len == bits.len(),
            len <= terminated <= data_segment@.len() <= round_up_8(terminated),
            forall|k: int| 0 <= k < len ==> data_segment@[k] == bits[k],
            forall|k: int| len <= k < data_segment@.len() ==> data_segment@[k] == Bit::Zero(false),
        decreases round_up_8(terminated) - data_segment@.len(),
    {
        data_segment.push(Bit::Zero(false));
    }
    let mut pad: usize = 0;
    while data_segment.len() < total_data_bits
        invariant
            total_data_bits == 8 * codewords,
            len == bits.len(),
            zeros % 8 == 0,
            0 <= len <= zeros,
            data_segment@.len() == zeros + 8 * pad,
            pad == 0 || data_segment@.len() <= total_data_bits,
            forall|k: int| 0 <= k < len ==> data_segment@[k] == bits[k],
            forall|k: int| len <= k < zeros ==> data_segment@[k] == Bit::Zero(false),
            forall|k: int|
                zeros <= k < data_segment@.len() ==> data_segment@[k] == byte_modules(
                    pad_codeword((k - zeros) / 8),
                )[k % 8],
        decreases total_data_bits - data_segment@.len(),
    {
        let codeword: u8 = if pad % 2 == 0 {
            236
        } else {
            17
        };
        let mut group = Bit::from(codeword as u32, 8, false, true);
        let ghost start = data_segment@.len() as int;
        let ghost previous = data_segment@;
        data_segment.append(&mut group);
        proof {
            assert forall|k: int| zeros <= k < data_segment@.len() implies data_segment@[k]
                == byte_modules(pad_codeword((k - zeros) / 8))[k % 8] by {
                if k < start {
                    assert(data_segment@[k] == previous[k]);
                } else {
                    assert((k - zeros) / 8 == pad);
                }
            }
        }
        pad = pad + 1;
    }
    proof {
        let goal = padded(bits, 8 * codewords);
        assert forall|k: int| 0 <= k < goal.len() implies data_segment@[k] == goal[k] by {}
    }
}

/// A text on its way to a symbol: the version chosen for it and the bit
/// stream that will be placed on the matrix.
pub struct Preprocessor {
    qrcode_bits: Vec<Bit>,
    encoding: Encoding,
    ec_level: EcLevel,
    version: u8,
    mask_pattern: MaskPattern,
}

impl Preprocessor {
    #[verifier::type_invariant]
    spec fn well_formed(&self) -> bool {
        1 <= self.version <= 40
    }

    /// The bit stream of the symbol.
    pub closed spec fn spec_bits(&self) -> Seq<Bit> {
        self.qrcode_bits@
    }

    /// The version chosen for the text.
    pub closed spec fn spec_version(&self) -> u8 {
        self.version
    }

    /// The encoding mode of the text.
    pub closed spec fn spec_encoding(&self) -> Encoding {
        self.encoding
    }

    /// The error-correction level of the symbol.
    pub closed spec fn spec_ec_level(&self) -> EcLevel {
        self.ec_level
    }

    /// The mask pattern of the symbol.
    pub closed spec fn spec_mask_pattern(&self) -> MaskPattern {
        self.mask_pattern
    }

    /// What preparing a text gives: the smallest version that holds it and
    /// the bit stream of its symbol, or the reason why there is no symbol.
    /// A character that the mode rejects is reported before anything else,
    /// then a mode that is not implemented, then a text that is too long.
    pub open spec fn prepares(
        text: Seq<char>,
        encoding: Encoding,
        level: EcLevel,
        result: Result<(int, Seq<Bit>), QrError>,
    ) -> bool {
        match result {
            Ok((version, bits)) => {
                &&& encoding != Encoding::Kanji
                &&& encoding.accepts_all(text)
                &&& is_smallest_fit(encoding, level, text.len() as int, version)
                &&& bits == symbol_stream(encoding, level, version, text)
            },
            Err(QrError::InvalidCharacter(c)) => exists|i: int|
                #[trigger] encoding.rejects_first_at(text, i) && text[i] == c,
            Err(QrError::Unsupported) => encoding == Encoding::Kanji,
            Err(QrError::CapacityExceeded) => {
                &&& encoding != Encoding::Kanji
                &&& encoding.accepts_all(text)
                &&& nothing_fits(encoding, level, text.len() as int)
            },
            Err(QrError::InvalidVersion) => false,
        }
    }

    #[verifier::when_used_as_spec(spec_version)]
    pub fn version(&self) -> (version: u8)
        ensures
            version == self.spec_version(),
            1 <= version <= 40,
    {
        proof {
            use_type_invariant(self);
        }
        self.version
    }

    #[verifier::when_used_as_spec(spec_encoding)]
    pub fn encoding(&self) -> (encoding: Encoding)
        ensures
            encoding == self.spec_encoding(),
    {
        self.encoding
    }

    #[verifier::when_used_as_spec(spec_ec_level)]
    pub fn ec_level(&self) -> (level: EcLevel)
        ensures
            level == self.spec_ec_level(),
    {
        self.ec_level
    }

    #[verifier::when_used_as_spec(spec_mask_pattern)]
    pub fn mask_pattern(&self) -> (pattern: MaskPattern)
        ensures
            pattern == self.spec_mask_pattern(),
    {
        self.mask_pattern
    }

    /// The bit stream of the symbol.
    pub fn bits(&self) -> (bits: &Vec<Bit>)
        ensures
            bits@ == self.spec_bits(),
    {
        &self.qrcode_bits
    }

    /// The capacity table of an encoding mode.
    pub fn table_from_encoding(encoding: Encoding) -> (table: &'static [u32; 160])
        ensures
            table@ == crate::tables::capacity::capacity_table(encoding),
    {
        crate::tables::capacity::table_from_encoding(encoding)
    }

    /// The width in bits of the character count of a mode at a version.
    pub fn char_count(version: u8, encoding: Encoding) -> (width: u8)
        requires
            1 <= version <= 40,
        ensures
            width == count_bits(encoding, version as int),
    {
        char_count(version, encoding)
    }

    /// Prepares a text: encodes it, chooses the smallest version that
    /// holds it, pads the data segment and adds the error correction.
    pub fn new(data: &str, encoding: Encoding, ec_level: EcLevel, mask_pattern: MaskPattern) -> (result:
        Result<Preprocessor, QrError>)
        ensures
            Self::prepares(
                data@,
                encoding,
                ec_level,
                match result {
                    Ok(p) => Ok((p.spec_version() as int, p.spec_bits())),
                    Err(e) => Err(e),
                },
            ),
            result matches Ok(p) ==> {
                &&& p.spec_encoding() == encoding
                &&& p.spec_ec_level() == ec_level
                &&& p.spec_mask_pattern() == mask_pattern
            },
    {
        let ghost text = data@;
        let mut bits = match encoding.encode(data) {
            Ok(bits) => bits,
            Err(e) => {
                return Err(e);
            },
        };
        let count = data.unicode_len();
        let version = match select_version(count, encoding, ec_level) {
            Some(v) => v,
            None => {
                return Err(QrError::CapacityExceeded);
            },
        };
        let level = ec_level.ordinal();
        proof {
            lemma_capacity(encoding, version as int, level as int);
            lemma_count_bits(encoding, version as int);
            lemma_framed_fills_data_codewords(encoding, ec_level, version as int, text);
            lemma_block_structure(version as int, level as int);
            lemma_data_codewords(version as int, level as int);
        }
        let width = char_count(version, encoding);
        let mut char_count_bits = Bit::from(count as u32, width, false, true);
        let mut data_segment = encoding.mod_indicator();
        data_segment.append(&mut char_count_bits);
        data_segment.append(&mut bits);
        let (block_1_size, block_1_count, block_2_size, block_2_count) = block_structure_entry(
            version,
            level,
        );
        assert(block_1_size * block_1_count <= 7198 && block_2_size * block_2_count <= 8241)
            by (nonlinear_arith)
            requires
                block_1_size <= 122,
                block_1_count <= 59,
                block_2_size <= 123,
                block_2_count <= 67,
        ;
        let total = block_1_size * block_1_count + block_2_size * block_2_count;
        pad_segment(&mut data_segment, total);
        let cw_per_block = ec_codewords_entry(version, level);
        let bytes = Bit::bytes(&data_segment);
        let (data_codewords, ec_codewords) = codewords(&bytes, version, &ec_level, cw_per_block);
        let mut data_bits = Bit::bits(&data_codewords);
        let mut error_correction = Bit::bits(&ec_codewords);
        data_bits.append(&mut error_correction);
        Ok(Preprocessor { qrcode_bits: data_bits, encoding, ec_level, version, mask_pattern })
    }

    /// Builds the symbol: the function patterns, then the bit stream, then
    /// the mask.
    pub fn generate_qrcode(&self) -> (code: QrCode)
        ensures
            code.spec_version() == self.spec_version(),
            code.spec_ec_level() == self.spec_ec_level(),
            code.spec_mask_pattern() == self.spec_mask_pattern(),
            code.spec_encoding() == self.spec_encoding(),
            code.spec_stage() == BuilderStage::Masked,
            code@ == finished(
                self.spec_version() as int,
                self.spec_ec_level(),
                self.spec_mask_pattern(),
                self.spec_bits(),
            ),
    {
        proof {
            use_type_invariant(self);
        }
        match QrCode::new(self.version, self.ec_level, self.mask_pattern, self.encoding) {
            Ok(mut res) => {
                res.all_functional_patterns();
                res.fill(&self.qrcode_bits);
                res.apply_mask();
                res
            },
            Err(_) => vstd::pervasive::unreached(),
        }
    }
}

} // verus!
