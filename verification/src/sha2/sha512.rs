//! SHA-512.
use crate::bytes::Bytes;
use crate::enums::{BlockSize, Endian};
use crate::operation::{Hashing, Operation};
use crate::padding::{lemma_bit_padding_whole_blocks, BitPadding, Padding};
use crate::types::Error;
use crate::word::{bytes_of_words64, read_word64, rotate_right64, rotr64, word64, write_words64};
use vstd::prelude::*;

verus! {

/// The first 64 bits of the fractional parts of the square roots of the
/// first eight primes.
pub const INIT: [u64; 8] = [
    0x6a09e667f3bcc908, 0xbb67ae8584caa73b, 0x3c6ef372fe94f82b, 0xa54ff53a5f1d36f1,
    0x510e527fade682d1, 0x9b05688c2b3e6c1f, 0x1f83d9abfb41bd6b, 0x5be0cd19137e2179,
];

/// The first 64 bits of the fractional parts of the cube roots of the first
/// 80 primes.
pub const K: [u64; 80] = [
    0x428a2f98d728ae22, 0x7137449123ef65cd, 0xb5c0fbcfec4d3b2f, 0xe9b5dba58189dbbc,
    0x3956c25bf348b538, 0x59f111f1b605d019, 0x923f82a4af194f9b, 0xab1c5ed5da6d8118,
    0xd807aa98a3030242, 0x12835b0145706fbe, 0x243185be4ee4b28c, 0x550c7dc3d5ffb4e2,
    0x72be5d74f27b896f, 0x80deb1fe3b1696b1, 0x9bdc06a725c71235, 0xc19bf174cf692694,
    0xe49b69c19ef14ad2, 0xefbe4786384f25e3, 0x0fc19dc68b8cd5b5, 0x240ca1cc77ac9c65,
    0x2de92c6f592b0275, 0x4a7484aa6ea6e483, 0x5cb0a9dcbd41fbd4, 0x76f988da831153b5,
    0x983e5152ee66dfab, 0xa831c66d2db43210, 0xb00327c898fb213f, 0xbf597fc7beef0ee4,
    0xc6e00bf33da88fc2, 0xd5a79147930aa725, 0x06ca6351e003826f, 0x142929670a0e6e70,
    0x27b70a8546d22ffc, 0x2e1b21385c26c926, 0x4d2c6dfc5ac42aed, 0x53380d139d95b3df,
    0x650a73548baf63de, 0x766a0abb3c77b2a8, 0x81c2c92e47edaee6, 0x92722c851482353b,
    0xa2bfe8a14cf10364, 0xa81a664bbc423001, 0xc24b8b70d0f89791, 0xc76c51a30654be30,
    0xd192e819d6ef5218, 0xd69906245565a910, 0xf40e35855771202a, 0x106aa07032bbd1b8,
    0x19a4c116b8d2d0c8, 0x1e376c085141ab53, 0x2748774cdf8eeb99, 0x34b0bcb5e19b48a8,
    0x391c0cb3c5c95a63, 0x4ed8aa4ae3418acb, 0x5b9cca4f7763e373, 0x682e6ff3d6b2b8a3,
    0x748f82ee5defb2fc, 0x78a5636f43172f60, 0x84c87814a1f0ab72, 0x8cc702081a6439ec,
    0x90befffa23631e28, 0xa4506cebde82bde9, 0xbef9a3f7b2c67915, 0xc67178f2e372532b,
    0xca273eceea26619c, 0xd186b8c721c0c207, 0xeada7dd6cde0eb1e, 0xf57d4f7fee6ed178,
    0x06f067aa72176fba, 0x0a637dc5a2c898a6, 0x113f9804bef90dae, 0x1b710b35131c471b,
    0x28db77f523047d84, 0x32caab7b40c72493, 0x3c9ebe0a15c9bebc, 0x431d67c49c100d4c,
    0x4cc5d4becb3e42b6, 0x597f299cfc657e2a, 0x5fcb6fab3ad6faec, 0x6c44198c4a475817,
];

/// The padding of the hash function: bit padding for blocks of 128 bytes with
/// the length in big-endian order.
pub open spec fn spec_padding() -> BitPadding {
    BitPadding { block_size: BlockSize::Bytes128, endian: Endian::Big }
}

/// Word `t` of the message schedule of a block.
pub open spec fn schedule(block: Seq<u8>, t: int) -> u64
    decreases t,
{
    if t < 16 {
        word64(block, 8 * t, Endian::Big)
    } else {
        let w2 = schedule(block, t - 2);
        let w7 = schedule(block, t - 7);
        let w15 = schedule(block, t - 15);
        let w16 = schedule(block, t - 16);
        w16.wrapping_add(rotr64(w15, 1) ^ rotr64(w15, 8) ^ (w15 >> 7)).wrapping_add(
            w7,
        ).wrapping_add(rotr64(w2, 19) ^ rotr64(w2, 61) ^ (w2 >> 6))
    }
}

/// One round of the compression function on the eight working variables.
pub open spec fn round(s: Seq<u64>, k: u64, w: u64) -> Seq<u64> {
    let temp1 = s[7].wrapping_add(rotr64(s[4], 14) ^ rotr64(s[4], 18) ^ rotr64(s[4], 41)).wrapping_add(
        (s[4] & s[5]) ^ ((!s[4]) & s[6]),
    ).wrapping_add(k).wrapping_add(w);
    let temp2 = (rotr64(s[0], 28) ^ rotr64(s[0], 34) ^ rotr64(s[0], 39)).wrapping_add(
        (s[0] & s[1]) ^ (s[0] & s[2]) ^ (s[1] & s[2]),
    );
    seq![
        temp1.wrapping_add(temp2),
        s[0],
        s[1],
        s[2],
        s[3].wrapping_add(temp1),
        s[4],
        s[5],
        s[6],
    ]
}

/// The working variables after the first `t` rounds on a block.
pub open spec fn rounds(block: Seq<u8>, start: Seq<u64>, t: int) -> Seq<u64>
    decreases t,
{
    if t <= 0 {
        start
    } else {
        round(rounds(block, start, t - 1), K[t - 1], schedule(block, t - 1))
    }
}

/// The hash value after a block: the 80 rounds start from the hash value
/// before it, and their result is added to it word by word.
pub open spec fn compress(hash: Seq<u64>, block: Seq<u8>) -> Seq<u64> {
    let s = rounds(block, hash, 80);
    Seq::new(8, |i: int| hash[i].wrapping_add(s[i]))
}

/// The hash value after the first `n` blocks of `data`.
pub open spec fn hash_after(data: Seq<u8>, n: int) -> Seq<u64>
    decreases n,
{
    if n <= 0 {
        INIT@
    } else {
        compress(hash_after(data, n - 1), data.subrange(128 * (n - 1), 128 * n))
    }
}

/// The SHA-512 digest of a message.
pub open spec fn sha512(input: Seq<u8>) -> Seq<u8> {
    let padded = spec_padding().spec_pad(input);
    bytes_of_words64(hash_after(padded, padded.len() as int / 128), Endian::Big)
}

/// The hash function SHA-512.
#[derive(Debug)]
pub struct SHA512;

impl Default for SHA512 {
    fn default() -> (r: SHA512) {
        SHA512
    }
}

/// Pads a message for hashing.
fn padding(data: &[u8]) -> (r: Vec<u8>)
    ensures
        r@ == spec_padding().spec_pad(data@),
        r@.len() % 128 == 0,
{
    proof {
        lemma_bit_padding_whole_blocks(spec_padding(), data@);
    }
    BitPadding::new(BlockSize::Bytes128, Endian::Big).pad(data)
}

impl SHA512 {
    /// The length of the digest in bytes.
    pub fn output_size(&self) -> (n: usize)
        ensures
            n == 64,
    {
        64
    }
}

impl Operation for SHA512 {
    open spec fn spec_run(&self, input: Seq<u8>) -> Result<Seq<u8>, Error> {
        Ok(sha512(input))
    }

    fn run(&self, input: &[u8]) -> (r: Result<Bytes, Error>) {
        let padded_data = padding(input);
        let mut a0 = INIT[0];
        let mut b0 = INIT[1];
        let mut c0 = INIT[2];
        let mut d0 = INIT[3];
        let mut e0 = INIT[4];
        let mut f0 = INIT[5];
        let mut g0 = INIT[6];
        let mut h0 = INIT[7];
        let length = padded_data.len();
        let mut start: usize = 0;
        let ghost mut n: int = 0;
        assert(seq![a0, b0, c0, d0, e0, f0, g0, h0] =~= INIT@);
        while start < length
            invariant
                start <= length,
                length == padded_data@.len(),
                length % 128 == 0,
                start == 128 * n,
                seq![a0, b0, c0, d0, e0, f0, g0, h0] == hash_after(padded_data@, n),
            decreases length - start,
        {
            let chunk = vstd::slice::slice_subrange(padded_data.as_slice(), start, start + 128);
            let ghost hash = seq![a0, b0, c0, d0, e0, f0, g0, h0];
            let mut a = a0;
            let mut b = b0;
            let mut c = c0;
            let mut d = d0;
            let mut e = e0;
            let mut f = f0;
            let mut g = g0;
            let mut h = h0;
            let mut words: Vec<u64> = Vec::new();
            let mut i: usize = 0;
            while i < 80
                invariant
                    i <= 80,
                    chunk@.len() == 128,
                    words@.len() == i,
                    forall|j: int| 0 <= j < i ==> words@[j] == schedule(chunk@, j),
                    seq![a, b, c, d, e, f, g, h] == rounds(chunk@, hash, i as int),
                decreases 80 - i,
            {
                let word = if i < 16 {
                    read_word64(chunk, i * 8, Endian::Big)
                } else {
                    let w15 = words[i - 15];
                    let w2 = words[i - 2];
                    words[i - 16].wrapping_add(
                        rotate_right64(w15, 1) ^ rotate_right64(w15, 8) ^ (w15 >> 7),
                    ).wrapping_add(words[i - 7]).wrapping_add(
                        rotate_right64(w2, 19) ^ rotate_right64(w2, 61) ^ (w2 >> 6),
                    )
                };
                words.push(word);
                let ghost before = seq![a, b, c, d, e, f, g, h];
                let temp1 = h.wrapping_add(
                    rotate_right64(e, 14) ^ rotate_right64(e, 18) ^ rotate_right64(e, 41),
                ).wrapping_add((e & f) ^ ((!e) & g)).wrapping_add(K[i]).wrapping_add(word);
                let temp2 = (rotate_right64(a, 28) ^ rotate_right64(a, 34) ^ rotate_right64(
                    a,
                    39,
                )).wrapping_add((a & b) ^ (a & c) ^ (b & c));
                h = g;
                g = f;
                f = e;
                e = d.wrapping_add(temp1);
                d = c;
                c = b;
                b = a;
                a = temp1.wrapping_add(temp2);
                i += 1;
                assert(seq![a, b, c, d, e, f, g, h] =~= round(before, K[i - 1], word));
            }
            a0 = a0.wrapping_add(a);
            b0 = b0.wrapping_add(b);
            c0 = c0.wrapping_add(c);
            d0 = d0.wrapping_add(d);
            e0 = e0.wrapping_add(e);
            f0 = f0.wrapping_add(f);
            g0 = g0.wrapping_add(g);
            h0 = h0.wrapping_add(h);
            start += 128;
            proof {
                n = n + 1;
                assert(seq![a0, b0, c0, d0, e0, f0, g0, h0] =~= compress(hash, chunk@));
            }
        }
        let state = [a0, b0, c0, d0, e0, f0, g0, h0];
        assert(state@ =~= seq![a0, b0, c0, d0, e0, f0, g0, h0]);
        Ok(Bytes::new(write_words64(state.as_slice(), Endian::Big)))
    }
}

impl Hashing for SHA512 {
    open spec fn spec_block_size(&self) -> BlockSize {
        BlockSize::Bytes128
    }

    open spec fn spec_digest(&self, input: Seq<u8>) -> Seq<u8> {
        sha512(input)
    }

    fn block_size(&self) -> (r: BlockSize) {
        BlockSize::Bytes128
    }

    proof fn lemma_run_is_digest(&self, input: Seq<u8>) {
    }
}

} // verus!
