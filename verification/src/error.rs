//! Errors reported by the symbol generator.
use vstd::prelude::*;
use vstd::string::StringExecFns;

verus! {

/// Why a symbol could not be produced.
///
/// The variants are listed in order of precedence: when several apply to one
/// request, the first of them is the one reported.
#[derive(Clone, Copy, Debug, PartialEq, Eq, Structural)]
pub enum QrError {
    /// The text holds a character outside the alphabet of the chosen
    /// encoding mode. Carries the first such character.
    InvalidCharacter(char),
    /// The encoding mode is not implemented.
    Unsupported,
    /// The text is longer than the largest symbol can hold at the chosen
    /// error-correction level.
    CapacityExceeded,
    /// The version number lies outside 1..=40.
    InvalidVersion,
}

/// The text of `QrError::message` for a rejected character.
pub open spec fn invalid_character_message(c: char) -> Seq<char> {
    "Invalid character: "@.push(c)
}

/// `String::push`: appends one character to the end of the string and
/// leaves the rest of it as it was.
#[verifier::external_body]
pub(crate) fn push_char(s: &mut String, c: char)
    ensures
        final(s)@ == old(s)@.push(c),
{
    s.push(c);
}

impl QrError {
    /// The message of this error, as a sequence of characters.
    pub open spec fn message_spec(self) -> Seq<char> {
        match self {
            QrError::InvalidCharacter(c) => invalid_character_message(c),
            QrError::Unsupported => "Unsupported encoding mode."@,
            QrError::CapacityExceeded => "Not enough space."@,
            QrError::InvalidVersion => "Invalid version."@,
        }
    }

    /// A human-readable description of the error.
    pub fn message(&self) -> (text: String)
        ensures
            text@ == self.message_spec(),
    {
        match self {
            QrError::InvalidCharacter(c) => {
                let mut text = String::from_str("Invalid character: ");
                push_char(&mut text, *c);
                text
            },
            QrError::Unsupported => String::from_str("Unsupported encoding mode."),
            QrError::CapacityExceeded => String::from_str("Not enough space."),
            QrError::InvalidVersion => String::from_str("Invalid version."),
        }
    }
}

} // verus!
