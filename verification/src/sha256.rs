//! SHA-256.
use crate::bytes::Bytes;
use crate::enums::{BlockSize, Endian};
use crate::operation::{Hashing, Operation};
use crate::padding::{lemma_bit_padding_whole_blocks, BitPadding, Padding};
use crate::types::Error;
use crate::word::{bytes_of_words32, read_word32, rotate_right32, rotr32, word32, write_words32};
use vstd::prelude::*;

verus! {

/// The first 32 bits of the fractional parts of the square roots of the
/// first eight primes.
pub const INIT: [u32; 8] = [
    0x6a09e667, 0xbb67ae85, 0x3c6ef372, 0xa54ff53a, 0x510e527f, 0x9b05688c, 0x1f83d9ab, 0x5be0cd19,
];

/// The first 32 bits of the fractional parts of the cube roots of the first
/// 64 primes.
pub const K: [u32; 64] = [
    0x428a2f98, 0x71374491, 0xb5c0fbcf, 0xe9b5dba5, 0x3956c25b, 0x59f111f1, 0x923f82a4, 0xab1c5ed5,
    0xd807aa98, 0x12835b01, 0x243185be, 0x550c7dc3, 0x72be5d74, 0x80deb1fe, 0x9bdc06a7, 0xc19bf174,
    0xe49b69c1, 0xefbe4786, 0x0fc19dc6, 0x240ca1cc, 0x2de92c6f, 0x4a7484aa, 0x5cb0a9dc, 0x76f988da,
    0x983e5152, 0xa831c66d, 0xb00327c8, 0xbf597fc7, 0xc6e00bf3, 0xd5a79147, 0x06ca6351, 0x14292967,
    0x27b70a85, 0x2e1b2138, 0x4d2c6dfc, 0x53380d13, 0x650a7354, 0x766a0abb, 0x81c2c92e, 0x92722c85,
    0xa2bfe8a1, 0xa81a664b, 0xc24b8b70, 0xc76c51a3, 0xd192e819, 0xd6990624, 0xf40e3585, 0x106aa070,
    0x19a4c116, 0x1e376c08, 0x2748774c, 0x34b0bcb5, 0x391c0cb3, 0x4ed8aa4a, 0x5b9cca4f, 0x682e6ff3,
    0x748f82ee, 0x78a5636f, 0x84c87814, 0x8cc70208, 0x90befffa, 0xa4506ceb, 0xbef9a3f7, 0xc67178f2,
];

/// The padding of the hash function: bit padding for blocks of 64 bytes with
/// the length in big-endian order.
pub open spec fn spec_padding() -> BitPadding {
    BitPadding { block_size: BlockSize::Bytes64, endian: Endian::Big }
}

/// Word `t` of the message schedule of a block.
pub open spec fn schedule(block: Seq<u8>, t: int) -> u32
    decreases t,
{
    if t < 16 {
        word32(block, 4 * t, Endian::Big)
    } else {
        let w2 = schedule(block, t - 2);
        let w7 = schedule(block, t - 7);
        let w15 = schedule(block, t - 15);
        let w16 = schedule(block, t - 16);
        w16.wrapping_add(rotr32(w15, 7) ^ rotr32(w15, 18) ^ (w15 >> 3)).wrapping_add(
            w7,
        ).wrapping_add(rotr32(w2, 17) ^ rotr32(w2, 19) ^ (w2 >> 10))
    }
}

/// One round of the compression function on the eight working variables.
pub open spec fn round(s: Seq<u32>, k: u32, w: u32) -> Seq<u32> {
    let temp1 = s[7].wrapping_add(rotr32(s[4], 6) ^ rotr32(s[4], 11) ^ rotr32(s[4], 25)).wrapping_add(
        (s[4] & s[5]) ^ ((!s[4]) & s[6]),
    ).wrapping_add(k).wrapping_add(w);
    let temp2 = (rotr32(s[0], 2) ^ rotr32(s[0], 13) ^ rotr32(s[0], 22)).wrapping_add(
        (s[0] & s[1]) ^ (s[0] & s[2]) ^ (s[1] & s[2]),
    );
    seq![
        temp1.wrapping_add(temp2),
        s[0],
        s[1],
        s[2],
        s[3].wrapping_add(temp1),
        s[4],
        s[5],
        s[6],
    ]
}

/// The working variables after the first `t` rounds on a block.
pub open spec fn rounds(block: Seq<u8>, start: Seq<u32>, t: int) -> Seq<u32>
    decreases t,
{
    if t <= 0 {
        start
    } else {
        round(rounds(block, start, t - 1), K[t - 1], schedule(block, t - 1))
    }
}

/// The hash value after a block: the 64 rounds start from the hash value
/// before it, and their result is added to it word by word.
pub open spec fn compress(hash: Seq<u32>, block: Seq<u8>) -> Seq<u32> {
    let s = rounds(block, hash, 64);
    Seq::new(8, |i: int| hash[i].wrapping_add(s[i]))
}

/// The hash value after the first `n` blocks of `data`.
pub open spec fn hash_after(data: Seq<u8>, n: int) -> Seq<u32>
    decreases n,
{
    if n <= 0 {
        INIT@
    } else {
        compress(hash_after(data, n - 1), data.subrange(64 * (n - 1), 64 * n))
    }
}

/// The SHA-256 digest of a message.
pub open spec fn sha256(input: Seq<u8>) -> Seq<u8> {
    let padded = spec_padding().spec_pad(input);
    bytes_of_words32(hash_after(padded, padded.len() as int / 64), Endian::Big)
}

/// The hash function SHA-256.
#[derive(Debug)]
pub struct SHA256;

impl Default for SHA256 {
    fn default() -> (r: SHA256) {
        SHA256
    }
}

/// Pads a message for hashing.
pub fn padding(data: &[u8]) -> (r: Vec<u8>)
    ensures
        r@ == spec_padding().spec_pad(data@),
        r@.len() % 64 == 0,
{
    proof {
        lemma_bit_padding_whole_blocks(spec_padding(), data@);
    }
    BitPadding::new(BlockSize::Bytes64, Endian::Big).pad(data)
}

impl SHA256 {
    /// The length of the digest in bytes.
    pub fn output_size(&self) -> (n: usize)
        ensures
            n == 32,
    {
        32
    }
}

impl Operation for SHA256 {
    open spec fn spec_run(&self, input: Seq<u8>) -> Result<Seq<u8>, Error> {
        Ok(sha256(input))
    }

    fn run(&self, input: &[u8]) -> (r: Result<Bytes, Error>) {
        let padded_data = padding(input);
        let mut a0 = INIT[0];
        let mut b0 = INIT[1];
        let mut c0 = INIT[2];
        let mut d0 = INIT[3];
        let mut e0 = INIT[4];
        let mut f0 = INIT[5];
        let mut g0 = INIT[6];
        let mut h0 = INIT[7];
        let length = padded_data.len();
        let mut start: usize = 0;
        let ghost mut n: int = 0;
        assert(seq![a0, b0, c0, d0, e0, f0, g0, h0] =~= INIT@);
        while start < length
            invariant
                start <= length,
                length == padded_data@.len(),
                length % 64 == 0,
                start == 64 * n,
                seq![a0, b0, c0, d0, e0, f0, g0, h0] == hash_after(padded_data@, n),
            decreases length - start,
        {
            let chunk = vstd::slice::slice_subrange(padded_data.as_slice(), start, start + 64);
            let ghost hash = seq![a0, b0, c0, d0, e0, f0, g0, h0];
            let mut a = a0;
            let mut b = b0;
            let mut c = c0;
            let mut d = d0;
            let mut e = e0;
            let mut f = f0;
            let mut g = g0;
            let mut h = h0;
            let mut words: Vec<u32> = Vec::new();
            let mut i: usize = 0;
            while i < 64
                invariant
                    i <= 64,
                    chunk@.len() == 64,
                    words@.len() == i,
                    forall|j: int| 0 <= j < i ==> words@[j] == schedule(chunk@, j),
                    seq![a, b, c, d, e, f, g, h] == rounds(chunk@, hash, i as int),
                decreases 64 - i,
            {
                let word = if i < 16 {
                    read_word32(chunk, i * 4, Endian::Big)
                } else {
                    let w15 = words[i - 15];
                    let w2 = words[i - 2];
                    words[i - 16].wrapping_add(
                        rotate_right32(w15, 7) ^ rotate_right32(w15, 18) ^ (w15 >> 3),
                    ).wrapping_add(words[i - 7]).wrapping_add(
                        rotate_right32(w2, 17) ^ rotate_right32(w2, 19) ^ (w2 >> 10),
                    )
                };
                words.push(word);
                let ghost before = seq![a, b, c, d, e, f, g, h];
                let temp1 = h.wrapping_add(
                    rotate_right32(e, 6) ^ rotate_right32(e, 11) ^ rotate_right32(e, 25),
                ).wrapping_add((e & f) ^ ((!e) & g)).wrapping_add(K[i]).wrapping_add(word);
                let temp2 = (rotate_right32(a, 2) ^ rotate_right32(a, 13) ^ rotate_right32(
                    a,
                    22,
                )).wrapping_add((a & b) ^ (a & c) ^ (b & c));
                h = g;
                g = f;
                f = e;
                e = d.wrapping_add(temp1);
                d = c;
                c = b;
                b = a;
                a = temp1.wrapping_add(temp2);
                i += 1;
                assert(seq![a, b, c, d, e, f, g, h] =~= round(before, K[i - 1], word));
            }
            a0 = a0.wrapping_add(a);
            b0 = b0.wrapping_add(b);
            c0 = c0.wrapping_add(c);
            d0 = d0.wrapping_add(d);
            e0 = e0.wrapping_add(e);
            f0 = f0.wrapping_add(f);
            g0 = g0.wrapping_add(g);
            h0 = h0.wrapping_add(h);
            start += 64;
            proof {
                n = n + 1;
                assert(seq![a0, b0, c0, d0, e0, f0, g0, h0] =~= compress(hash, chunk@));
            }
        }
        let state = [a0, b0, c0, d0, e0, f0, g0, h0];
        assert(state@ =~= seq![a0, b0, c0, d0, e0, f0, g0, h0]);
        Ok(Bytes::new(write_words32(state.as_slice(), Endian::Big)))
    }
}

impl Hashing for SHA256 {
    open spec fn spec_block_size(&self) -> BlockSize {
        BlockSize::Bytes64
    }

    open spec fn spec_digest(&self, input: Seq<u8>) -> Seq<u8> {
        sha256(input)
    }

    fn block_size(&self) -> (r: BlockSize) {
        BlockSize::Bytes64
    }

    proof fn lemma_run_is_digest(&self, input: Seq<u8>) {
    }
}

} // verus!
