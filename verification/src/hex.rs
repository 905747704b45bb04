//! Hexadecimal text.
use vstd::prelude::*;

mod from_hex;
mod to_hex;

pub use from_hex::{decoded, first_match, hex_value, parse_byte, part_value, starts_with, FromHex};
pub use to_hex::{encoded, encoded_byte, hex_digit, ToHex};

verus! {

/// The bytes of a text.
pub open spec fn text_bytes(text: Seq<char>) -> Seq<u8> {
    vstd::utf8::encode_utf8(text)
}

/// What one hexadecimal digit stands for, if `c` is one.
pub open spec fn digit_value(c: u8) -> Option<u8> {
    if 48 <= c <= 57 {
        Some((c - 48) as u8)
    } else if 97 <= c <= 102 {
        Some((c - 87) as u8)
    } else if 65 <= c <= 70 {
        Some((c - 55) as u8)
    } else {
        None
    }
}

} // verus!
