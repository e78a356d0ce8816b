use vstd::prelude::*;

verus! {

/// Why a decode was abandoned. Every error is fatal for the unit being
/// decoded; nothing is retried and no partial result is produced.
#[derive(Clone, Copy, Debug, PartialEq, Eq, Structural)]
pub enum DecodeError {
    /// The container does not start with the `UnityFS` signature.
    InvalidSignature,
    /// The low six bits of a flags word select no known codec.
    UnsupportedCodec,
    /// A compressed chunk is corrupt, or does not decompress to its declared size.
    Decompression,
    /// A read or a seek went beyond the available bytes.
    Truncated,
    /// A directory entry or an object lies outside the buffer that owns it.
    OutOfRange,
    /// A string field is not valid UTF-8.
    InvalidText,
    /// The levels of a type tree's nodes do not describe a pre-order traversal.
    InvalidNesting,
}

impl DecodeError {
    /// A short description of the error.
    pub fn message(&self) -> (r: &'static str)
        ensures
            r@ == self.text(),
    {
        match self {
            DecodeError::InvalidSignature => "invalid signature",
            DecodeError::UnsupportedCodec => "unsupported codec",
            DecodeError::Decompression => "decompression failed",
            DecodeError::Truncated => "unexpected end of data",
            DecodeError::OutOfRange => "offset and size out of range",
            DecodeError::InvalidText => "string is not valid text",
            DecodeError::InvalidNesting => "type tree levels are not nested",
        }
    }

    pub open spec fn text(&self) -> Seq<char> {
        match self {
            DecodeError::InvalidSignature => "invalid signature"@,
            DecodeError::UnsupportedCodec => "unsupported codec"@,
            DecodeError::Decompression => "decompression failed"@,
            DecodeError::Truncated => "unexpected end of data"@,
            DecodeError::OutOfRange => "offset and size out of range"@,
            DecodeError::InvalidText => "string is not valid text"@,
            DecodeError::InvalidNesting => "type tree levels are not nested"@,
        }
    }
}

} // verus!
