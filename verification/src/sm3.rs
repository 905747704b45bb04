//! SM3.
use crate::bytes::Bytes;
use crate::enums::{BlockSize, Endian};
use crate::operation::{Hashing, Operation};
use crate::padding::{lemma_bit_padding_whole_blocks, BitPadding, Padding};
use crate::types::Error;
use crate::word::{bytes_of_words32, read_word32, rotate_left32, rotl32, word32, write_words32};
use vstd::prelude::*;

verus! {

/// The initial hash value.
pub const IV: [u32; 8] = [
    0x7380166f, 0x4914b2b9, 0x172442d7, 0xda8a0600, 0xa96f30bc, 0x163138aa, 0xe38dee4d, 0xb0fb0e4e,
];

/// The padding of the hash function: bit padding for blocks of 64 bytes with
/// the length in big-endian order.
pub open spec fn spec_padding() -> BitPadding {
    BitPadding { block_size: BlockSize::Bytes64, endian: Endian::Big }
}

/// The constant of round `j`.
pub open spec fn spec_tj(j: int) -> u32 {
    if j < 16 {
        0x79cc4519
    } else {
        0x7a879d8a
    }
}

/// The first boolean function of round `j`.
pub open spec fn spec_ffj(j: int, x: u32, y: u32, z: u32) -> u32 {
    if j < 16 {
        x ^ y ^ z
    } else {
        (x & y) | (x & z) | (y & z)
    }
}

/// The second boolean function of round `j`.
pub open spec fn spec_ggj(j: int, x: u32, y: u32, z: u32) -> u32 {
    if j < 16 {
        x ^ y ^ z
    } else {
        (x & y) | (!x & z)
    }
}

/// The permutation of the compression.
pub open spec fn spec_p0(x: u32) -> u32 {
    x ^ rotl32(x, 9) ^ rotl32(x, 17)
}

/// The permutation of the message expansion.
pub open spec fn spec_p1(x: u32) -> u32 {
    x ^ rotl32(x, 15) ^ rotl32(x, 23)
}

/// Word `j` of the expanded message of a block: sixteen words of the block,
/// 52 words made from them, and 64 words that each mix two of those.
pub open spec fn expanded(block: Seq<u8>, j: int) -> u32
    decreases
            if j < 68 {
                j
            } else {
                j + 68
            },
{
    if j < 16 {
        word32(block, 4 * j, Endian::Big)
    } else if j < 68 {
        spec_p1(expanded(block, j - 16) ^ expanded(block, j - 9) ^ rotl32(expanded(block, j - 3), 15))
            ^ rotl32(expanded(block, j - 13), 7) ^ expanded(block, j - 6)
    } else if j < 132 {
        expanded(block, j - 68) ^ expanded(block, j - 64)
    } else {
        0
    }
}

/// One round on the eight working variables.
pub open spec fn round(s: Seq<u32>, j: int, block: Seq<u8>) -> Seq<u32> {
    let ss1 = rotl32(
        rotl32(s[0], 12).wrapping_add(s[4]).wrapping_add(rotl32(spec_tj(j), (j % 32) as u32)),
        7,
    );
    let ss2 = ss1 ^ rotl32(s[0], 12);
    let tt1 = spec_ffj(j, s[0], s[1], s[2]).wrapping_add(s[3]).wrapping_add(ss2).wrapping_add(
        expanded(block, j + 68),
    );
    let tt2 = spec_ggj(j, s[4], s[5], s[6]).wrapping_add(s[7]).wrapping_add(ss1).wrapping_add(
        expanded(block, j),
    );
    seq![tt1, s[0], rotl32(s[1], 9), s[2], spec_p0(tt2), s[4], rotl32(s[5], 19), s[6]]
}

/// The working variables after the first `t` rounds on a block.
pub open spec fn rounds(block: Seq<u8>, start: Seq<u32>, t: int) -> Seq<u32>
    decreases t,
{
    if t <= 0 {
        start
    } else {
        round(rounds(block, start, t - 1), t - 1, block)
    }
}

/// The hash value after a block: the result of the 64 rounds is mixed into
/// the hash value before it by exclusive or.
pub open spec fn compress(hash: Seq<u32>, block: Seq<u8>) -> Seq<u32> {
    let s = rounds(block, hash, 64);
    Seq::new(8, |i: int| hash[i] ^ s[i])
}

/// The hash value after the first `n` blocks of `data`.
pub open spec fn hash_after(data: Seq<u8>, n: int) -> Seq<u32>
    decreases n,
{
    if n <= 0 {
        IV@
    } else {
        compress(hash_after(data, n - 1), data.subrange(64 * (n - 1), 64 * n))
    }
}

/// The SM3 digest of a message.
pub open spec fn sm3(input: Seq<u8>) -> Seq<u8> {
    let padded = spec_padding().spec_pad(input);
    bytes_of_words32(hash_after(padded, padded.len() as int / 64), Endian::Big)
}

/// The constant of round `j`.
pub fn tj(j: usize) -> (r: u32)
    ensures
        r == spec_tj(j as int),
{
    if j < 16 {
        0x79cc4519
    } else {
        0x7a879d8a
    }
}

/// The first boolean function of round `j`.
pub fn ffj(j: usize, x: u32, y: u32, z: u32) -> (r: u32)
    ensures
        r == spec_ffj(j as int, x, y, z),
{
    if j < 16 {
        x ^ y ^ z
    } else {
        (x & y) | (x & z) | (y & z)
    }
}

/// The second boolean function of round `j`.
pub fn ggj(j: usize, x: u32, y: u32, z: u32) -> (r: u32)
    ensures
        r == spec_ggj(j as int, x, y, z),
{
    if j < 16 {
        x ^ y ^ z
    } else {
        (x & y) | (!x & z)
    }
}

/// The permutation of the compression.
pub fn p0(x: u32) -> (r: u32)
    ensures
        r == spec_p0(x),
{
    x ^ rotate_left32(x, 9) ^ rotate_left32(x, 17)
}

/// The permutation of the message expansion.
pub fn p1(x: u32) -> (r: u32)
    ensures
        r == spec_p1(x),
{
    x ^ rotate_left32(x, 15) ^ rotate_left32(x, 23)
}

/// The hash function SM3.
#[derive(Debug)]
pub struct Sm3;

impl Default for Sm3 {
    fn default() -> (r: Sm3) {
        Sm3
    }
}

/// Expands a block of 64 bytes into its 132 words.
fn expand(chunk: &[u8]) -> (w: Vec<u32>)
    requires
        chunk@.len() == 64,
    ensures
        w@.len() == 132,
        forall|j: int| 0 <= j < 132 ==> w@[j] == expanded(chunk@, j),
{
    let mut w: Vec<u32> = Vec::with_capacity(132);
    let mut i: usize = 0;
    while i < 16
        invariant
            i <= 16,
            chunk@.len() == 64,
            w@.len() == i,
            forall|j: int| 0 <= j < i ==> w@[j] == expanded(chunk@, j),
        decreases 16 - i,
    {
        w.push(read_word32(chunk, i * 4, Endian::Big));
        i += 1;
    }
    while i < 68
        invariant
            16 <= i <= 68,
            w@.len() == i,
            forall|j: int| 0 <= j < i ==> w@[j] == expanded(chunk@, j),
        decreases 68 - i,
    {
        let word = p1(w[i - 16] ^ w[i - 9] ^ rotate_left32(w[i - 3], 15)) ^ rotate_left32(
            w[i - 13],
            7,
        ) ^ w[i - 6];
        w.push(word);
        i += 1;
    }
    while i < 132
        invariant
            68 <= i <= 132,
            w@.len() == i,
            forall|j: int| 0 <= j < i ==> w@[j] == expanded(chunk@, j),
        decreases 132 - i,
    {
        let word = w[i - 68] ^ w[i - 64];
        w.push(word);
        i += 1;
    }
    w
}

impl Operation for Sm3 {
    open spec fn spec_run(&self, input: Seq<u8>) -> Result<Seq<u8>, Error> {
        Ok(sm3(input))
    }

    fn run(&self, input: &[u8]) -> (r: Result<Bytes, Error>) {
        proof {
            lemma_bit_padding_whole_blocks(spec_padding(), input@);
        }
        let padded_data = BitPadding::new(BlockSize::Bytes64, Endian::Big).pad(input);
        let mut a0 = IV[0];
        let mut b0 = IV[1];
        let mut c0 = IV[2];
        let mut d0 = IV[3];
        let mut e0 = IV[4];
        let mut f0 = IV[5];
        let mut g0 = IV[6];
        let mut h0 = IV[7];
        let length = padded_data.len();
        let mut start: usize = 0;
        let ghost mut n: int = 0;
        assert(seq![a0, b0, c0, d0, e0, f0, g0, h0] =~= IV@);
        while start < length
            invariant
                start <= length,
                length == padded_data@.len(),
                length % 64 == 0,
                start == 64 * n,
                seq![a0, b0, c0, d0, e0, f0, g0, h0] == hash_after(padded_data@, n),
            decreases length - start,
        {
            let chunk = vstd::slice::slice_subrange(padded_data.as_slice(), start, start + 64);
            let ghost hash = seq![a0, b0, c0, d0, e0, f0, g0, h0];
            let mut a = a0;
            let mut b = b0;
            let mut c = c0;
            let mut d = d0;
            let mut e = e0;
            let mut f = f0;
            let mut g = g0;
            let mut h = h0;
            let w = expand(chunk);
            let mut j: usize = 0;
            while j < 64
                invariant
                    j <= 64,
                    w@.len() == 132,
                    forall|k: int| 0 <= k < 132 ==> w@[k] == expanded(chunk@, k),
                    seq![a, b, c, d, e, f, g, h] == rounds(chunk@, hash, j as int),
                decreases 64 - j,
            {
                let ghost before = seq![a, b, c, d, e, f, g, h];
                let ss1 = rotate_left32(
                    rotate_left32(a, 12).wrapping_add(e).wrapping_add(
                        rotate_left32(tj(j), (j % 32) as u32),
                    ),
                    7,
                );
                let ss2 = ss1 ^ rotate_left32(a, 12);
                let tt1 = ffj(j, a, b, c).wrapping_add(d).wrapping_add(ss2).wrapping_add(
                    w[j + 68],
                );
                let tt2 = ggj(j, e, f, g).wrapping_add(h).wrapping_add(ss1).wrapping_add(w[j]);
                d = c;
                c = rotate_left32(b, 9);
                b = a;
                a = tt1;
                h = g;
                g = rotate_left32(f, 19);
                f = e;
                e = p0(tt2);
                j += 1;
                assert(seq![a, b, c, d, e, f, g, h] =~= round(before, j - 1, chunk@));
            }
            a0 ^= a;
            b0 ^= b;
            c0 ^= c;
            d0 ^= d;
            e0 ^= e;
            f0 ^= f;
            g0 ^= g;
            h0 ^= h;
            start += 64;
            proof {
                n = n + 1;
                assert(seq![a0, b0, c0, d0, e0, f0, g0, h0] =~= compress(hash, chunk@));
            }
        }
        let state = [a0, b0, c0, d0, e0, f0, g0, h0];
        assert(state@ =~= seq![a0, b0, c0, d0, e0, f0, g0, h0]);
        Ok(Bytes::new(write_words32(state.as_slice(), Endian::Big)))
    }
}

impl Hashing for Sm3 {
    open spec fn spec_block_size(&self) -> BlockSize {
        BlockSize::Bytes64
    }

    open spec fn spec_digest(&self, input: Seq<u8>) -> Seq<u8> {
        sm3(input)
    }

    fn block_size(&self) -> (r: BlockSize) {
        BlockSize::Bytes64
    }

    proof fn lemma_run_is_digest(&self, input: Seq<u8>) {
    }
}

} // verus!
