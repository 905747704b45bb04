//! Rotation of the letters of the Latin alphabet, by remainders.
use crate::bytes::Bytes;
use crate::operation::Operation;
use crate::rot13::{rotate_letter, rotated, LOWER_A, LOWER_Z, UPPER_A, UPPER_Z};
use crate::types::Error;
use vstd::prelude::*;

verus! {

/// The rotation cipher. The default shift is 13.
#[derive(Debug)]
pub struct Rot {
    pub shift: u8,
}

impl Rot {
    /// The rotation by `shift` places, reduced modulo 26.
    pub fn new(shift: u8) -> (r: Rot)
        ensures
            r.shift == shift % 26,
    {
        Rot { shift: shift % 26 }
    }
}

impl Default for Rot {
    fn default() -> (r: Rot)
        ensures
            r.shift == 13,
    {
        Rot::new(13)
    }
}

impl Operation for Rot {
    open spec fn spec_run(&self, input: Seq<u8>) -> Result<Seq<u8>, Error> {
        Ok(rotated(input, self.shift))
    }

    fn run(&self, input: &[u8]) -> (r: Result<Bytes, Error>) {
        let shift = self.shift % 26;
        if shift == 0 {
            assert(input@ =~= rotated(input@, self.shift));
            return Ok(Bytes::from_slice(input));
        }
        let mut output: Vec<u8> = Vec::with_capacity(input.len());
        let mut i: usize = 0;
        while i < input.len()
            invariant
                i <= input.len(),
                shift == self.shift % 26,
                output@.len() == i,
                forall|j: int| 0 <= j < i ==> output@[j] == rotate_letter(input@[j], self.shift),
            decreases input.len() - i,
        {
            let byte = input[i];
            let moved = if byte >= UPPER_A && byte <= UPPER_Z {
                ((byte - UPPER_A + shift) % 26) + UPPER_A
            } else if byte >= LOWER_A && byte <= LOWER_Z {
                ((byte - LOWER_A + shift) % 26) + LOWER_A
            } else {
                byte
            };
            output.push(moved);
            i += 1;
        }
        assert(output@ =~= rotated(input@, self.shift));
        Ok(Bytes::new(output))
    }
}

} // verus!
