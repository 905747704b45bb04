//! SHA-1, with a free number of rounds.
use crate::bytes::Bytes;
use crate::enums::{BlockSize, Endian};
use crate::operation::{Hashing, Operation};
use crate::padding::{lemma_bit_padding_whole_blocks, BitPadding, Padding};
use crate::types::Error;
use crate::word::{bytes_of_words32, read_word32, rotate_left32, rotl32, word32, write_words32};
use vstd::prelude::*;

verus! {

/// The initial hash value.
pub const INIT: [u32; 5] = [0x67452301, 0xEFCDAB89, 0x98BADCFE, 0x10325476, 0xC3D2E1F0];

/// The padding of the hash function: bit padding for blocks of 64 bytes with
/// the length in big-endian order.
pub open spec fn spec_padding() -> BitPadding {
    BitPadding { block_size: BlockSize::Bytes64, endian: Endian::Big }
}

/// Word `t` of the message schedule of a block.
pub open spec fn schedule(block: Seq<u8>, t: int) -> u32
    decreases t,
{
    if t < 16 {
        word32(block, 4 * t, Endian::Big)
    } else {
        rotl32(
            schedule(block, t - 3) ^ schedule(block, t - 8) ^ schedule(block, t - 14) ^ schedule(
                block,
                t - 16,
            ),
            1,
        )
    }
}

/// The new first working variable in round `t`. The rounds beyond the
/// eightieth only mix three of the variables.
pub open spec fn mixed(s: Seq<u32>, t: int, w: u32) -> u32 {
    if t < 20 {
        rotl32(s[0], 5).wrapping_add((s[1] & s[2]) | (!s[1] & s[3])).wrapping_add(
            s[4],
        ).wrapping_add(0x5A827999).wrapping_add(w)
    } else if t < 40 {
        rotl32(s[0], 5).wrapping_add(s[1] ^ s[2] ^ s[3]).wrapping_add(s[4]).wrapping_add(
            0x6ED9EBA1,
        ).wrapping_add(w)
    } else if t < 60 {
        rotl32(s[0], 5).wrapping_add((s[1] & s[2]) | (s[1] & s[3]) | (s[2] & s[3])).wrapping_add(
            s[4],
        ).wrapping_add(0x8F1BBCDC).wrapping_add(w)
    } else if t < 80 {
        rotl32(s[0], 5).wrapping_add(s[1] ^ s[2] ^ s[3]).wrapping_add(s[4]).wrapping_add(
            0xCA62C1D6,
        ).wrapping_add(w)
    } else {
        s[1] ^ s[2] ^ s[3]
    }
}

/// One round on the five working variables.
pub open spec fn round(s: Seq<u32>, t: int, w: u32) -> Seq<u32> {
    seq![mixed(s, t, w), s[0], rotl32(s[1], 30), s[2], s[3]]
}

/// The working variables after the first `t` rounds on a block.
pub open spec fn rounds(block: Seq<u8>, start: Seq<u32>, t: int) -> Seq<u32>
    decreases t,
{
    if t <= 0 {
        start
    } else {
        round(rounds(block, start, t - 1), t - 1, schedule(block, t - 1))
    }
}

/// The hash value after a block and `count` rounds on it.
pub open spec fn compress(hash: Seq<u32>, block: Seq<u8>, count: int) -> Seq<u32> {
    let s = rounds(block, hash, count);
    Seq::new(5, |i: int| hash[i].wrapping_add(s[i]))
}

/// The hash value after the first `n` blocks of `data`.
pub open spec fn hash_after(data: Seq<u8>, n: int, count: int) -> Seq<u32>
    decreases n,
{
    if n <= 0 {
        INIT@
    } else {
        compress(hash_after(data, n - 1, count), data.subrange(64 * (n - 1), 64 * n), count)
    }
}

/// The digest of a message under SHA-1 with `count` rounds per block. The
/// standard has 80.
pub open spec fn sha1(input: Seq<u8>, count: int) -> Seq<u8> {
    let padded = spec_padding().spec_pad(input);
    bytes_of_words32(hash_after(padded, padded.len() as int / 64, count), Endian::Big)
}

/// The hash function SHA-1.
#[derive(Debug)]
pub struct SHA1 {
    pub rounds: usize,
}

impl Default for SHA1 {
    fn default() -> (r: SHA1)
        ensures
            r.rounds == 80,
    {
        SHA1 { rounds: 80 }
    }
}

impl SHA1 {
    /// SHA-1 with the given number of rounds per block; zero stands for the
    /// standard 80.
    pub fn new(rounds: usize) -> (r: SHA1)
        ensures
            r.rounds == (if rounds == 0 {
                80
            } else {
                rounds
            }),
    {
        if rounds == 0 {
            return SHA1 { rounds: 80 };
        }
        SHA1 { rounds }
    }
}

impl Operation for SHA1 {
    open spec fn spec_run(&self, input: Seq<u8>) -> Result<Seq<u8>, Error> {
        Ok(sha1(input, self.rounds as int))
    }

    fn run(&self, input: &[u8]) -> (r: Result<Bytes, Error>) {
        proof {
            lemma_bit_padding_whole_blocks(spec_padding(), input@);
        }
        let padded_data = BitPadding::new(BlockSize::Bytes64, Endian::Big).pad(input);
        let mut a0 = INIT[0];
        let mut b0 = INIT[1];
        let mut c0 = INIT[2];
        let mut d0 = INIT[3];
        let mut e0 = INIT[4];
        let length = padded_data.len();
        let mut start: usize = 0;
        let ghost mut n: int = 0;
        assert(seq![a0, b0, c0, d0, e0] =~= INIT@);
        while start < length
            invariant
                start <= length,
                length == padded_data@.len(),
                length % 64 == 0,
                start == 64 * n,
                seq![a0, b0, c0, d0, e0] == hash_after(padded_data@, n, self.rounds as int),
            decreases length - start,
        {
            let chunk = vstd::slice::slice_subrange(padded_data.as_slice(), start, start + 64);
            let ghost hash = seq![a0, b0, c0, d0, e0];
            let mut a = a0;
            let mut b = b0;
            let mut c = c0;
            let mut d = d0;
            let mut e = e0;
            let mut words: Vec<u32> = Vec::new();
            let mut i: usize = 0;
            while i < self.rounds
                invariant
                    i <= self.rounds,
                    chunk@.len() == 64,
                    words@.len() == i,
                    forall|j: int| 0 <= j < i ==> words@[j] == schedule(chunk@, j),
                    seq![a, b, c, d, e] == rounds(chunk@, hash, i as int),
                decreases self.rounds - i,
            {
                let word = if i < 16 {
                    read_word32(chunk, i * 4, Endian::Big)
                } else {
                    rotate_left32(words[i - 3] ^ words[i - 8] ^ words[i - 14] ^ words[i - 16], 1)
                };
                words.push(word);
                let ghost before = seq![a, b, c, d, e];
                let temp = if i < 20 {
                    rotate_left32(a, 5).wrapping_add((b & c) | (!b & d)).wrapping_add(
                        e,
                    ).wrapping_add(0x5A827999).wrapping_add(word)
                } else if i < 40 {
                    rotate_left32(a, 5).wrapping_add(b ^ c ^ d).wrapping_add(e).wrapping_add(
                        0x6ED9EBA1,
                    ).wrapping_add(word)
                } else if i < 60 {
                    rotate_left32(a, 5).wrapping_add((b & c) | (b & d) | (c & d)).wrapping_add(
                        e,
                    ).wrapping_add(0x8F1BBCDC).wrapping_add(word)
                } else if i < 80 {
                    rotate_left32(a, 5).wrapping_add(b ^ c ^ d).wrapping_add(e).wrapping_add(
                        0xCA62C1D6,
                    ).wrapping_add(word)
                } else {
                    b ^ c ^ d
                };
                e = d;
                d = c;
                c = rotate_left32(b, 30);
                b = a;
                a = temp;
                i += 1;
                assert(seq![a, b, c, d, e] =~= round(before, i - 1, word));
            }
            a0 = a0.wrapping_add(a);
            b0 = b0.wrapping_add(b);
            c0 = c0.wrapping_add(c);
            d0 = d0.wrapping_add(d);
            e0 = e0.wrapping_add(e);
            start += 64;
            proof {
                n = n + 1;
                assert(seq![a0, b0, c0, d0, e0] =~= compress(hash, chunk@, self.rounds as int));
            }
        }
        let state = [a0, b0, c0, d0, e0];
        assert(state@ =~= seq![a0, b0, c0, d0, e0]);
        Ok(Bytes::new(write_words32(state.as_slice(), Endian::Big)))
    }
}

impl Hashing for SHA1 {
    open spec fn spec_block_size(&self) -> BlockSize {
        BlockSize::Bytes64
    }

    open spec fn spec_digest(&self, input: Seq<u8>) -> Seq<u8> {
        sha1(input, self.rounds as int)
    }

    fn block_size(&self) -> (r: BlockSize) {
        BlockSize::Bytes64
    }

    proof fn lemma_run_is_digest(&self, input: Seq<u8>) {
    }
}

} // verus!
