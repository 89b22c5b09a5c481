//! A generator of QR Code symbols for versions 1 through 40.
//!
//! A text is encoded in a chosen mode, framed into the data codewords of
//! the smallest version that holds it, protected by Reed-Solomon error
//! correction and laid out on the matrix of the symbol, to which the
//! chosen mask pattern is applied.
use crate::bit::Bit;
use crate::distinct::lemma_picture_tells_all;
use crate::ec::EcLevel;
use crate::encoding::Encoding;
use crate::error::QrError;
use crate::format::colours;
use crate::mask::MaskPattern;
use crate::preprocessor::{finished, is_smallest_fit, nothing_fits, symbol_stream, Preprocessor};
use crate::qrcode::{BuilderStage, QrCode};
use vstd::prelude::*;

pub mod alignment;
pub mod bit;
pub mod distinct;
pub mod ec;
pub mod encoding;
pub mod error;
pub mod format;
pub mod galois;
pub mod layout;
pub mod mask;
pub mod placement;
pub mod preprocessor;
pub mod qrcode;
pub mod reed_solomon;
pub mod reserved;
pub mod room;
pub mod tables;

verus! {

/// What generating a symbol gives: the finished matrix of the smallest
/// version that holds the text, or the reason why there is none. A
/// character that the mode rejects is reported before anything else, then a
/// mode that is not implemented, then a text that is too long.
pub open spec fn generates(
    text: Seq<char>,
    mode: Encoding,
    ec: EcLevel,
    mask: MaskPattern,
    result: Result<(int, Seq<Bit>), QrError>,
) -> bool {
    match result {
        Ok((version, modules)) => {
            &&& mode != Encoding::Kanji
            &&& mode.accepts_all(text)
            &&& is_smallest_fit(mode, ec, text.len() as int, version)
            &&& modules == finished(version, ec, mask, symbol_stream(mode, ec, version, text))
        },
        Err(QrError::InvalidCharacter(c)) => exists|i: int|
            #[trigger] mode.rejects_first_at(text, i) && text[i] == c,
        Err(QrError::Unsupported) => mode == Encoding::Kanji,
        Err(QrError::CapacityExceeded) => {
            &&& mode != Encoding::Kanji
            &&& mode.accepts_all(text)
            &&& nothing_fits(mode, ec, text.len() as int)
        },
        Err(QrError::InvalidVersion) => false,
    }
}

/// Generates the symbol of a text.
pub fn generate(text: &str, mode: Encoding, ec: EcLevel, mask: MaskPattern) -> (result: Result<
    QrCode,
    QrError,
>)
    ensures
        generates(
            text@,
            mode,
            ec,
            mask,
            match result {
                Ok(code) => Ok((code.spec_version() as int, code@)),
                Err(e) => Err(e),
            },
        ),
        result matches Ok(code) ==> {
            &&& code.spec_ec_level() == ec
            &&& code.spec_mask_pattern() == mask
            &&& code.spec_encoding() == mode
            &&& code.spec_stage() == BuilderStage::Masked
        },
{
    match Preprocessor::new(text, mode, ec, mask) {
        Ok(preprocessor) => Ok(preprocessor.generate_qrcode()),
        Err(e) => Err(e),
    }
}

/// Different requests give different symbols: two requests that are both
/// served give the same picture of dark and light modules only if they ask
/// for the same text in the same mode, at the same error-correction level
/// and with the same mask pattern. So the picture of a symbol tells the
/// text it was made for.
pub proof fn lemma_generate_is_one_to_one(
    text1: Seq<char>,
    mode1: Encoding,
    ec1: EcLevel,
    mask1: MaskPattern,
    symbol1: (int, Seq<Bit>),
    text2: Seq<char>,
    mode2: Encoding,
    ec2: EcLevel,
    mask2: MaskPattern,
    symbol2: (int, Seq<Bit>),
)
    requires
        generates(text1, mode1, ec1, mask1, Ok(symbol1)),
        generates(text2, mode2, ec2, mask2, Ok(symbol2)),
        colours(symbol1.1) == colours(symbol2.1),
    ensures
        text1 == text2,
        mode1 == mode2,
        ec1 == ec2,
        mask1 == mask2,
        symbol1 == symbol2,
{
    lemma_picture_tells_all(
        mode1,
        ec1,
        mask1,
        symbol1.0,
        text1,
        mode2,
        ec2,
        mask2,
        symbol2.0,
        text2,
    );
}

} // verus!
