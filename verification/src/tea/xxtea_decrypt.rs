use crate::bytes::Bytes;
use crate::enums::Endian;
use crate::operation::Operation;
use crate::tea::{
    key_offset, key_words, lemma_key_index, pad_to_words, padded4, read_key, round_count, spec_mx,
    to_words, words_le, xxtea_mx, DELTA,
};
use crate::types::Error;
use crate::word::{bytes_of_words32, write_words32};
use std::ops::Deref;
use vstd::prelude::*;

verus! {

/// The words and the last changed word after the positions from the last
/// down to `p` were worked on in a round: each word shrinks by the mixing
/// function of the word before it and the word changed before.
pub open spec fn dec_pass(v: Seq<u32>, y: u32, sum: u32, e: usize, key: Seq<u32>, p: int) -> (
    Seq<u32>,
    u32,
)
    decreases v.len() - p,
{
    if p >= v.len() {
        (v, y)
    } else {
        let before = dec_pass(v, y, sum, e, key, p + 1);
        let x = before.0[p].wrapping_sub(
            spec_mx(before.0[p - 1], before.1, sum, key, p as usize, e),
        );
        (before.0.update(p, x), x)
    }
}

/// The words, the last changed word and the running sum after one round:
/// all positions but the first are worked on from the last down, the first
/// word takes the last word as the word before it, and the sum shrinks.
pub open spec fn dec_round(v: Seq<u32>, y: u32, sum: u32, key: Seq<u32>) -> (Seq<u32>, u32, u32) {
    let e = ((sum as usize) >> 2) & 3;
    let n = v.len() as int;
    let mid = dec_pass(v, y, sum, e, key, 1);
    let x = mid.0[0].wrapping_sub(spec_mx(mid.0[n - 1], mid.1, sum, key, 0, e));
    (mid.0.update(0, x), x, sum.wrapping_sub(DELTA))
}

/// The state after `r` rounds.
pub open spec fn dec_rounds(v: Seq<u32>, y: u32, sum: u32, key: Seq<u32>, r: int) -> (
    Seq<u32>,
    u32,
    u32,
)
    decreases r,
{
    if r <= 0 {
        (v, y, sum)
    } else {
        let before = dec_rounds(v, y, sum, key, r - 1);
        dec_round(before.0, before.1, before.2, key)
    }
}

/// The decrypted form of a block of words.
pub open spec fn decrypt_words(v: Seq<u32>, key: Seq<u32>) -> Seq<u32> {
    if v.len() == 0 {
        v
    } else {
        dec_rounds(
            v,
            v[0],
            (round_count(v.len()) as u32).wrapping_mul(DELTA),
            key,
            round_count(v.len()),
        ).0
    }
}

/// The plaintext of a ciphertext. Where the message carries its length,
/// the last word states how many bytes of the plaintext are kept.
pub open spec fn xxtea_decrypted(key: Seq<u8>, include_length: bool, input: Seq<u8>) -> Seq<u8> {
    let words = decrypt_words(words_le(padded4(input)), key_words(key));
    let bytes = bytes_of_words32(words, Endian::Little);
    if include_length && words.len() > 0 && words.last() < bytes.len() {
        bytes.take(words.last() as int)
    } else {
        bytes
    }
}

/// XXTEA decryption of the whole message as one block.
#[derive(Debug)]
pub struct XxteaDecrypt {
    pub key: Bytes,
    pub include_length: bool,
}

impl XxteaDecrypt {
    pub fn new(key: &[u8], include_length: bool) -> (r: XxteaDecrypt)
        ensures
            r.key@ == key@,
            r.include_length == include_length,
    {
        XxteaDecrypt { key: Bytes::from_slice(key), include_length }
    }
}

impl Operation for XxteaDecrypt {
    open spec fn spec_run(&self, input: Seq<u8>) -> Result<Seq<u8>, Error> {
        Ok(xxtea_decrypted(self.key@, self.include_length, input))
    }

    fn run(&self, input: &[u8]) -> (r: Result<Bytes, Error>) {
        let bytes = pad_to_words(input);
        let key = read_key(self.key.deref());
        let mut v = to_words(bytes.as_slice());
        let ghost start = v@;
        let n = v.len();
        if n == 0 {
            assert(bytes_of_words32(start, Endian::Little) =~= Seq::<u8>::empty());
            return Ok(Bytes::default());
        }
        let rounds = 6 + 52 / n;
        let mut sum = (rounds as u32).wrapping_mul(DELTA);
        let ghost first_sum = sum;
        let mut y = v[0];
        let mut round: usize = 0;
        while round < rounds
            invariant
                round <= rounds,
                n == start.len(),
                n > 0,
                v@.len() == n,
                key@.len() == 4,
                (v@, y, sum) == dec_rounds(start, start[0], first_sum, key@, round as int),
            decreases rounds - round,
        {
            let ghost begun = v@;
            let ghost y_begun = y;
            let e = key_offset(sum);
            let mut p: usize = n;
            while p > 1
                invariant
                    1 <= p <= n,
                    v@.len() == n,
                    begun.len() == n,
                    key@.len() == 4,
                    e < 4,
                    (v@, y) == dec_pass(begun, y_begun, sum, e, key@, p as int),
                decreases p,
            {
                p -= 1;
                let z = v[p - 1];
                proof {
                    lemma_key_index(p, e);
                }
                let x = v[p].wrapping_sub(xxtea_mx(z, y, sum, key.as_slice(), p, e));
                v.set(p, x);
                y = x;
            }
            let z = v[n - 1];
            proof {
                lemma_key_index(0, e);
            }
            let x = v[0].wrapping_sub(xxtea_mx(z, y, sum, key.as_slice(), 0, e));
            v.set(0, x);
            y = x;
            sum = sum.wrapping_sub(DELTA);
            round += 1;
        }
        let mut output = write_words32(v.as_slice(), Endian::Little);
        if self.include_length {
            let stated_length = v[n - 1];
            if (stated_length as u64) < output.len() as u64 {
                output.truncate(stated_length as usize);
            }
        }
        Ok(Bytes::new(output))
    }
}

} // verus!
