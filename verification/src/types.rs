//! The error type and result alias of the crate.
use crate::bytes::Bytes;
use vstd::prelude::*;

verus! {

/// Why an operation could not produce its output.
#[derive(Clone, Copy, Debug, PartialEq, Eq, Structural)]
pub enum Error {
    /// The authentication tag of a GCM message does not match its contents.
    AuthenticationFailed,
    /// The mode works on 16-byte blocks only and was given another size.
    UnsupportedBlockSize,
    /// The input is shorter than the authentication tag it has to carry.
    MissingTag,
    /// The data handed to `unpad` does not end in a well-formed padding.
    InvalidPadding,
    /// A group of the hexadecimal input does not start with the prefix.
    UnexpectedPrefix,
    /// A group of the hexadecimal input is not one or two hex digits.
    InvalidHexDigit,
    /// The Base64 input holds a byte outside the alphabet.
    InvalidBase64Character,
    /// The Base64 input is padded wrongly (strict mode only).
    InvalidBase64Padding,
}

/// What the fallible functions of the crate return.
pub type Result<T> = std::result::Result<T, Error>;

/// What an operation or a mode returns, as plain values.
pub open spec fn outcome(r: std::result::Result<Bytes, Error>) -> std::result::Result<
    Seq<u8>,
    Error,
> {
    match r {
        Ok(bytes) => Ok(bytes@),
        Err(e) => Err(e),
    }
}

} // verus!
