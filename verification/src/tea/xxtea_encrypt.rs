use crate::bytes::{field_bytes, write_number, Bytes};
use crate::enums::Endian;
use crate::operation::Operation;
use crate::tea::{
    key_offset, key_words, lemma_key_index, pad_to_words, padded4, read_key, round_count, spec_mx,
    to_words, words_le, xxtea_mx, DELTA,
};
use crate::types::Error;
use crate::word::{bytes_of_words32, write_words32};
use std::ops::Deref;
use vstd::prelude::*;

verus! {

/// The words and the last changed word after the positions below `p` were
/// worked on in a round: each word grows by the mixing function of the
/// word changed before it and the word after it.
pub open spec fn enc_pass(v: Seq<u32>, z: u32, sum: u32, e: usize, key: Seq<u32>, p: int) -> (
    Seq<u32>,
    u32,
)
    decreases p,
{
    if p <= 0 {
        (v, z)
    } else {
        let before = enc_pass(v, z, sum, e, key, p - 1);
        let q = p - 1;
        let x = before.0[q].wrapping_add(
            spec_mx(before.1, before.0[q + 1], sum, key, q as usize, e),
        );
        (before.0.update(q, x), x)
    }
}

/// The words, the last changed word and the running sum after one round:
/// the sum grows, all positions but the last are worked on in order, and the
/// last word takes the first word as the word after it.
pub open spec fn enc_round(v: Seq<u32>, z: u32, sum_before: u32, key: Seq<u32>) -> (
    Seq<u32>,
    u32,
    u32,
) {
    let sum = sum_before.wrapping_add(DELTA);
    let e = ((sum as usize) >> 2) & 3;
    let n = v.len() as int;
    let mid = enc_pass(v, z, sum, e, key, n - 1);
    let x = mid.0[n - 1].wrapping_add(spec_mx(mid.1, mid.0[0], sum, key, (n - 1) as usize, e));
    (mid.0.update(n - 1, x), x, sum)
}

/// The state after `r` rounds.
pub open spec fn enc_rounds(v: Seq<u32>, z: u32, sum: u32, key: Seq<u32>, r: int) -> (
    Seq<u32>,
    u32,
    u32,
)
    decreases r,
{
    if r <= 0 {
        (v, z, sum)
    } else {
        let before = enc_rounds(v, z, sum, key, r - 1);
        enc_round(before.0, before.1, before.2, key)
    }
}

/// The encrypted form of a block of words.
pub open spec fn encrypt_words(v: Seq<u32>, key: Seq<u32>) -> Seq<u32> {
    if v.len() == 0 {
        v
    } else {
        enc_rounds(v, v.last(), 0, key, round_count(v.len())).0
    }
}

/// The bytes that are encrypted: the message filled up with zero bytes to
/// whole words and, where asked for, its length as one more word.
pub open spec fn prepared(input: Seq<u8>, include_length: bool) -> Seq<u8> {
    if include_length {
        padded4(input) + field_bytes(input.len() % 0x1_0000_0000, 4, Endian::Little)
    } else {
        padded4(input)
    }
}

/// The ciphertext of a message.
pub open spec fn xxtea_encrypted(key: Seq<u8>, include_length: bool, input: Seq<u8>) -> Seq<u8> {
    bytes_of_words32(
        encrypt_words(words_le(prepared(input, include_length)), key_words(key)),
        Endian::Little,
    )
}

/// XXTEA encryption of the whole message as one block.
#[derive(Debug)]
pub struct XxteaEncrypt {
    pub key: Bytes,
    pub include_length: bool,
}

impl XxteaEncrypt {
    pub fn new(key: &[u8], include_length: bool) -> (r: XxteaEncrypt)
        ensures
            r.key@ == key@,
            r.include_length == include_length,
    {
        XxteaEncrypt { key: Bytes::from_slice(key), include_length }
    }
}

impl Operation for XxteaEncrypt {
    open spec fn spec_run(&self, input: Seq<u8>) -> Result<Seq<u8>, Error> {
        Ok(xxtea_encrypted(self.key@, self.include_length, input))
    }

    fn run(&self, input: &[u8]) -> (r: Result<Bytes, Error>) {
        let mut bytes = pad_to_words(input);
        let length = input.len();
        if self.include_length {
            let length_bytes = write_number(
                (length as u64 % 0x1_0000_0000) as u128,
                4,
                Endian::Little,
            );
            let ghost before = bytes@;
            bytes.extend_from_slice(length_bytes.as_slice());
            assert(bytes@ =~= before + length_bytes@);
        }
        let key = read_key(self.key.deref());
        let mut v = to_words(bytes.as_slice());
        let ghost start = v@;
        let n = v.len();
        if n == 0 {
            assert(bytes_of_words32(start, Endian::Little) =~= Seq::<u8>::empty());
            return Ok(Bytes::default());
        }
        let rounds = 6 + 52 / n;
        let mut sum = 0u32;
        let mut z = v[n - 1];
        let mut round: usize = 0;
        while round < rounds
            invariant
                round <= rounds,
                n == start.len(),
                n > 0,
                v@.len() == n,
                key@.len() == 4,
                (v@, z, sum) == enc_rounds(start, start.last(), 0, key@, round as int),
            decreases rounds - round,
        {
            let ghost begun = v@;
            let ghost z_begun = z;
            sum = sum.wrapping_add(DELTA);
            let e = key_offset(sum);
            let mut p: usize = 0;
            while p < n - 1
                invariant
                    p <= n - 1,
                    n > 0,
                    v@.len() == n,
                    begun.len() == n,
                    key@.len() == 4,
                    e < 4,
                    (v@, z) == enc_pass(begun, z_begun, sum, e, key@, p as int),
                decreases n - 1 - p,
            {
                let y = v[p + 1];
                proof {
                    lemma_key_index(p, e);
                }
                let x = v[p].wrapping_add(xxtea_mx(z, y, sum, key.as_slice(), p, e));
                v.set(p, x);
                z = x;
                p += 1;
            }
            let y = v[0];
            proof {
                lemma_key_index((n - 1) as usize, e);
            }
            let x = v[n - 1].wrapping_add(xxtea_mx(z, y, sum, key.as_slice(), n - 1, e));
            v.set(n - 1, x);
            z = x;
            round += 1;
        }
        Ok(Bytes::new(write_words32(v.as_slice(), Endian::Little)))
    }
}

} // verus!
