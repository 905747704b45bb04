//! Rotation of the letters of the Latin alphabet.
use crate::bytes::Bytes;
use crate::operation::Operation;
use crate::types::Error;
use vstd::prelude::*;

verus! {

/// The letter `A`.
pub const UPPER_A: u8 = 65;

/// The letter `Z`.
pub const UPPER_Z: u8 = 90;

/// The letter `a`.
pub const LOWER_A: u8 = 97;

/// The letter `z`.
pub const LOWER_Z: u8 = 122;

/// A letter moved `shift` places along its alphabet, wrapping around from Z
/// to A; any other byte as it is.
pub open spec fn rotate_letter(byte: u8, shift: u8) -> u8 {
    if UPPER_A <= byte <= UPPER_Z {
        ((byte - UPPER_A + shift % 26) % 26 + UPPER_A) as u8
    } else if LOWER_A <= byte <= LOWER_Z {
        ((byte - LOWER_A + shift % 26) % 26 + LOWER_A) as u8
    } else {
        byte
    }
}

/// Every byte of `input` rotated.
pub open spec fn rotated(input: Seq<u8>, shift: u8) -> Seq<u8> {
    Seq::new(input.len(), |i: int| rotate_letter(input[i], shift))
}

/// The rotation cipher. The default shift is 13.
#[derive(Debug)]
pub struct Rot13 {
    pub shift: u8,
}

impl Rot13 {
    /// The rotation by `shift` places, reduced modulo 26.
    pub fn new(shift: u8) -> (r: Rot13)
        ensures
            r.shift == shift % 26,
    {
        Rot13 { shift: shift % 26 }
    }
}

impl Default for Rot13 {
    fn default() -> (r: Rot13)
        ensures
            r.shift == 13,
    {
        Rot13::new(13)
    }
}

impl Operation for Rot13 {
    open spec fn spec_run(&self, input: Seq<u8>) -> Result<Seq<u8>, Error> {
        Ok(rotated(input, self.shift))
    }

    fn run(&self, input: &[u8]) -> (r: Result<Bytes, Error>) {
        let shift = self.shift % 26;
        if shift == 0 {
            assert(input@ =~= rotated(input@, self.shift));
            return Ok(Bytes::from_slice(input));
        }
        let left_shift = 26 - shift;
        let upper_divider = UPPER_Z - shift + 1;
        let lower_divider = LOWER_Z - shift + 1;
        let mut output: Vec<u8> = Vec::with_capacity(input.len());
        let mut i: usize = 0;
        while i < input.len()
            invariant
                i <= input.len(),
                0 < shift < 26,
                shift == self.shift % 26,
                left_shift == 26 - shift,
                upper_divider == 91 - shift,
                lower_divider == 123 - shift,
                output@.len() == i,
                forall|j: int| 0 <= j < i ==> output@[j] == rotate_letter(input@[j], self.shift),
            decreases input.len() - i,
        {
            let byte = input[i];
            let moved = if (byte >= UPPER_A && byte < upper_divider) || (byte >= LOWER_A
                && byte < lower_divider) {
                byte + shift
            } else if (byte >= upper_divider && byte <= UPPER_Z) || (byte >= lower_divider
                && byte <= LOWER_Z) {
                byte - left_shift
            } else {
                byte
            };
            output.push(moved);
            i += 1;
        }
        assert(output@ =~= rotated(input@, self.shift));
        Ok(Bytes::new(output))
    }
}

} // verus!
