//! MD5.
use crate::bytes::Bytes;
use crate::enums::{BlockSize, Endian};
use crate::operation::{Hashing, Operation};
use crate::padding::{lemma_bit_padding_whole_blocks, BitPadding, Padding};
use crate::types::Error;
use crate::word::{bytes_of_words32, read_word32, rotate_left32, rotl32, word32, write_words32};
use vstd::prelude::*;

verus! {

/// The initial hash value.
pub const INIT: [u32; 4] = [0x67452301, 0xefcdab89, 0x98badcfe, 0x10325476];

/// By how many places each round rotates.
pub const S: [u32; 64] = [
    7, 12, 17, 22, 7, 12, 17, 22, 7, 12, 17, 22, 7, 12, 17, 22, 5, 9, 14, 20, 5, 9, 14, 20, 5, 9,
    14, 20, 5, 9, 14, 20, 4, 11, 16, 23, 4, 11, 16, 23, 4, 11, 16, 23, 4, 11, 16, 23, 6, 10, 15,
    21, 6, 10, 15, 21, 6, 10, 15, 21, 6, 10, 15, 21,
];

/// The constants of the rounds: the first 32 bits of the absolute sines of
/// the numbers 1 to 64.
pub const K: [u32; 64] = [
    0xd76aa478, 0xe8c7b756, 0x242070db, 0xc1bdceee, 0xf57c0faf, 0x4787c62a, 0xa8304613, 0xfd469501,
    0x698098d8, 0x8b44f7af, 0xffff5bb1, 0x895cd7be, 0x6b901122, 0xfd987193, 0xa679438e, 0x49b40821,
    0xf61e2562, 0xc040b340, 0x265e5a51, 0xe9b6c7aa, 0xd62f105d, 0x02441453, 0xd8a1e681, 0xe7d3fbc8,
    0x21e1cde6, 0xc33707d6, 0xf4d50d87, 0x455a14ed, 0xa9e3e905, 0xfcefa3f8, 0x676f02d9, 0x8d2a4c8a,
    0xfffa3942, 0x8771f681, 0x6d9d6122, 0xfde5380c, 0xa4beea44, 0x4bdecfa9, 0xf6bb4b60, 0xbebfbc70,
    0x289b7ec6, 0xeaa127fa, 0xd4ef3085, 0x04881d05, 0xd9d4d039, 0xe6db99e5, 0x1fa27cf8, 0xc4ac5665,
    0xf4292244, 0x432aff97, 0xab9423a7, 0xfc93a039, 0x655b59c3, 0x8f0ccc92, 0xffeff47d, 0x85845dd1,
    0x6fa87e4f, 0xfe2ce6e0, 0xa3014314, 0x4e0811a1, 0xf7537e82, 0xbd3af235, 0x2ad7d2bb, 0xeb86d391,
];

/// The padding of the hash function: bit padding for blocks of 64 bytes with
/// the length in little-endian order.
pub open spec fn spec_padding() -> BitPadding {
    BitPadding { block_size: BlockSize::Bytes64, endian: Endian::Little }
}

/// Which message word round `i` takes.
pub open spec fn message_index(i: int) -> int {
    if i < 16 {
        i
    } else if i < 32 {
        (5 * i + 1) % 16
    } else if i < 48 {
        (3 * i + 5) % 16
    } else {
        (7 * i) % 16
    }
}

/// The mixing function of round `i` on three of the working variables.
pub open spec fn mix(i: int, b: u32, c: u32, d: u32) -> u32 {
    if i < 16 {
        (b & c) | (!b & d)
    } else if i < 32 {
        (d & b) | (!d & c)
    } else if i < 48 {
        b ^ c ^ d
    } else {
        c ^ (b | !d)
    }
}

/// One round on the four working variables.
pub open spec fn round(s: Seq<u32>, i: int, block: Seq<u8>) -> Seq<u32> {
    let f = mix(i, s[1], s[2], s[3]).wrapping_add(s[0]).wrapping_add(K[i]).wrapping_add(
        word32(block, 4 * message_index(i), Endian::Little),
    );
    seq![s[3], s[1].wrapping_add(rotl32(f, S[i])), s[1], s[2]]
}

/// The working variables after the first `t` rounds on a block.
pub open spec fn rounds(block: Seq<u8>, start: Seq<u32>, t: int) -> Seq<u32>
    decreases t,
{
    if t <= 0 {
        start
    } else {
        round(rounds(block, start, t - 1), t - 1, block)
    }
}

/// The hash value after a block.
pub open spec fn compress(hash: Seq<u32>, block: Seq<u8>) -> Seq<u32> {
    let s = rounds(block, hash, 64);
    Seq::new(4, |i: int| hash[i].wrapping_add(s[i]))
}

/// The hash value after the first `n` blocks of `data`.
pub open spec fn hash_after(data: Seq<u8>, n: int) -> Seq<u32>
    decreases n,
{
    if n <= 0 {
        INIT@
    } else {
        compress(hash_after(data, n - 1), data.subrange(64 * (n - 1), 64 * n))
    }
}

/// The MD5 digest of a message.
pub open spec fn md5(input: Seq<u8>) -> Seq<u8> {
    let padded = spec_padding().spec_pad(input);
    bytes_of_words32(hash_after(padded, padded.len() as int / 64), Endian::Little)
}

/// The hash function MD5.
#[derive(Debug)]
pub struct MD5;

impl Default for MD5 {
    fn default() -> (r: MD5) {
        MD5
    }
}

impl Operation for MD5 {
    open spec fn spec_run(&self, input: Seq<u8>) -> Result<Seq<u8>, Error> {
        Ok(md5(input))
    }

    fn run(&self, input: &[u8]) -> (r: Result<Bytes, Error>) {
        proof {
            lemma_bit_padding_whole_blocks(spec_padding(), input@);
        }
        let padded_data = BitPadding::new(BlockSize::Bytes64, Endian::Little).pad(input);
        let mut a0 = INIT[0];
        let mut b0 = INIT[1];
        let mut c0 = INIT[2];
        let mut d0 = INIT[3];
        let length = padded_data.len();
        let mut start: usize = 0;
        let ghost mut n: int = 0;
        assert(seq![a0, b0, c0, d0] =~= INIT@);
        while start < length
            invariant
                start <= length,
                length == padded_data@.len(),
                length % 64 == 0,
                start == 64 * n,
                seq![a0, b0, c0, d0] == hash_after(padded_data@, n),
            decreases length - start,
        {
            let chunk = vstd::slice::slice_subrange(padded_data.as_slice(), start, start + 64);
            let ghost hash = seq![a0, b0, c0, d0];
            let mut a = a0;
            let mut b = b0;
            let mut c = c0;
            let mut d = d0;
            let mut i: usize = 0;
            while i < 64
                invariant
                    i <= 64,
                    chunk@.len() == 64,
                    seq![a, b, c, d] == rounds(chunk@, hash, i as int),
                decreases 64 - i,
            {
                let mut f: u32;
                let g: usize;
                if i < 16 {
                    f = (b & c) | (!b & d);
                    g = i;
                } else if i < 32 {
                    f = (d & b) | (!d & c);
                    g = (5 * i + 1) % 16;
                } else if i < 48 {
                    f = b ^ c ^ d;
                    g = (3 * i + 5) % 16;
                } else {
                    f = c ^ (b | !d);
                    g = (7 * i) % 16;
                }
                let ghost before = seq![a, b, c, d];
                f = f.wrapping_add(a).wrapping_add(K[i]).wrapping_add(
                    read_word32(chunk, 4 * g, Endian::Little),
                );
                let shift = S[i];
                assert(shift < 32);
                a = d;
                d = c;
                c = b;
                b = b.wrapping_add(rotate_left32(f, shift));
                i += 1;
                assert(seq![a, b, c, d] =~= round(before, i - 1, chunk@));
            }
            a0 = a0.wrapping_add(a);
            b0 = b0.wrapping_add(b);
            c0 = c0.wrapping_add(c);
            d0 = d0.wrapping_add(d);
            start += 64;
            proof {
                n = n + 1;
                assert(seq![a0, b0, c0, d0] =~= compress(hash, chunk@));
            }
        }
        let state = [a0, b0, c0, d0];
        assert(state@ =~= seq![a0, b0, c0, d0]);
        Ok(Bytes::new(write_words32(state.as_slice(), Endian::Little)))
    }
}

impl Hashing for MD5 {
    open spec fn spec_block_size(&self) -> BlockSize {
        BlockSize::Bytes64
    }

    open spec fn spec_digest(&self, input: Seq<u8>) -> Seq<u8> {
        md5(input)
    }

    fn block_size(&self) -> (r: BlockSize) {
        BlockSize::Bytes64
    }

    proof fn lemma_run_is_digest(&self, input: Seq<u8>) {
    }
}

} // verus!
