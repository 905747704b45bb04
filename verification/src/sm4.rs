//! The block cipher SM4: 32 rounds of an unbalanced Feistel network on
//! blocks of sixteen bytes.
use crate::bytes::Bytes;
use crate::enums::{BlockSize, Endian};
use crate::mode::{computes_bytes, total_bytes};
use crate::vector::resize;
use crate::word::{
    bytes_of_words32, lemma_bytes_of_words32_len, read_word32, rotate_left32, rotl32, word32,
    write_words32,
};
use std::ops::Deref;
use vstd::prelude::*;
use vstd::slice::slice_to_vec;

mod sm4_decrypt;
mod sm4_encrypt;

pub use sm4_decrypt::{lemma_sm4_stream_round_trip, Sm4Decrypt};
pub use sm4_encrypt::Sm4Encrypt;

verus! {

/// The block size of the cipher.
pub const BLOCK_SIZE: BlockSize = BlockSize::Bytes16;

/// The substitution box.
pub const S_BOX: [u8; 256] = [
    0xd6, 0x90, 0xe9, 0xfe, 0xcc, 0xe1, 0x3d, 0xb7, 0x16, 0xb6, 0x14, 0xc2, 0x28, 0xfb, 0x2c, 0x05,
    0x2b, 0x67, 0x9a, 0x76, 0x2a, 0xbe, 0x04, 0xc3, 0xaa, 0x44, 0x13, 0x26, 0x49, 0x86, 0x06, 0x99,
    0x9c, 0x42, 0x50, 0xf4, 0x91, 0xef, 0x98, 0x7a, 0x33, 0x54, 0x0b, 0x43, 0xed, 0xcf, 0xac, 0x62,
    0xe4, 0xb3, 0x1c, 0xa9, 0xc9, 0x08, 0xe8, 0x95, 0x80, 0xdf, 0x94, 0xfa, 0x75, 0x8f, 0x3f, 0xa6,
    0x47, 0x07, 0xa7, 0xfc, 0xf3, 0x73, 0x17, 0xba, 0x83, 0x59, 0x3c, 0x19, 0xe6, 0x85, 0x4f, 0xa8,
    0x68, 0x6b, 0x81, 0xb2, 0x71, 0x64, 0xda, 0x8b, 0xf8, 0xeb, 0x0f, 0x4b, 0x70, 0x56, 0x9d, 0x35,
    0x1e, 0x24, 0x0e, 0x5e, 0x63, 0x58, 0xd1, 0xa2, 0x25, 0x22, 0x7c, 0x3b, 0x01, 0x21, 0x78, 0x87,
    0xd4, 0x00, 0x46, 0x57, 0x9f, 0xd3, 0x27, 0x52, 0x4c, 0x36, 0x02, 0xe7, 0xa0, 0xc4, 0xc8, 0x9e,
    0xea, 0xbf, 0x8a, 0xd2, 0x40, 0xc7, 0x38, 0xb5, 0xa3, 0xf7, 0xf2, 0xce, 0xf9, 0x61, 0x15, 0xa1,
    0xe0, 0xae, 0x5d, 0xa4, 0x9b, 0x34, 0x1a, 0x55, 0xad, 0x93, 0x32, 0x30, 0xf5, 0x8c, 0xb1, 0xe3,
    0x1d, 0xf6, 0xe2, 0x2e, 0x82, 0x66, 0xca, 0x60, 0xc0, 0x29, 0x23, 0xab, 0x0d, 0x53, 0x4e, 0x6f,
    0xd5, 0xdb, 0x37, 0x45, 0xde, 0xfd, 0x8e, 0x2f, 0x03, 0xff, 0x6a, 0x72, 0x6d, 0x6c, 0x5b, 0x51,
    0x8d, 0x1b, 0xaf, 0x92, 0xbb, 0xdd, 0xbc, 0x7f, 0x11, 0xd9, 0x5c, 0x41, 0x1f, 0x10, 0x5a, 0xd8,
    0x0a, 0xc1, 0x31, 0x88, 0xa5, 0xcd, 0x7b, 0xbd, 0x2d, 0x74, 0xd0, 0x12, 0xb8, 0xe5, 0xb4, 0xb0,
    0x89, 0x69, 0x97, 0x4a, 0x0c, 0x96, 0x77, 0x7e, 0x65, 0xb9, 0xf1, 0x09, 0xc5, 0x6e, 0xc6, 0x84,
    0x18, 0xf0, 0x7d, 0xec, 0x3a, 0xdc, 0x4d, 0x20, 0x79, 0xee, 0x5f, 0x3e, 0xd7, 0xcb, 0x39, 0x48,
];

/// The system parameter that is mixed into the key.
pub const FK: [u32; 4] = [0xa3b1bac6, 0x56aa3350, 0x677d9197, 0xb27022dc];

/// The constants of the key schedule: byte `j` of constant `i` is
/// `7 * (4 * i + j)` modulo 256.
pub const CK: [u32; 32] = [
    0x00070e15, 0x1c232a31, 0x383f464d, 0x545b6269,
    0x70777e85, 0x8c939aa1, 0xa8afb6bd, 0xc4cbd2d9,
    0xe0e7eef5, 0xfc030a11, 0x181f262d, 0x343b4249,
    0x50575e65, 0x6c737a81, 0x888f969d, 0xa4abb2b9,
    0xc0c7ced5, 0xdce3eaf1, 0xf8ff060d, 0x141b2229,
    0x30373e45, 0x4c535a61, 0x686f767d, 0x848b9299,
    0xa0a7aeb5, 0xbcc3cad1, 0xd8dfe6ed, 0xf4fb0209,
    0x10171e25, 0x2c333a41, 0x484f565d, 0x646b7279,
];

/// The four bytes of a word, each replaced by its entry in the box.
pub open spec fn tau(x: u32) -> u32 {
    (S_BOX[x as int / 0x100_0000] as int * 0x100_0000 + S_BOX[(x as int / 0x1_0000) % 256] as int
        * 0x1_0000 + S_BOX[(x as int / 0x100) % 256] as int * 0x100 + S_BOX[x as int
        % 256] as int) as u32
}

/// The linear mixing of the key schedule.
pub open spec fn key_mix(b: u32) -> u32 {
    b ^ rotl32(b, 13) ^ rotl32(b, 23)
}

/// The linear mixing of a round.
pub open spec fn round_mix(b: u32) -> u32 {
    b ^ rotl32(b, 2) ^ rotl32(b, 10) ^ rotl32(b, 18) ^ rotl32(b, 24)
}

/// Word `i` of the key schedule. The first four are the key mixed with the
/// system parameter; a key shorter than sixteen bytes counts as filled up
/// with zero bytes, a longer one as cut.
pub open spec fn key_word(key: Seq<u8>, i: int) -> u32
    decreases i,
{
    if i < 4 {
        word32(resize(key, 16, 0u8), 4 * i, Endian::Big) ^ FK[i]
    } else {
        key_word(key, i - 4) ^ key_mix(
            tau(
                key_word(key, i - 3) ^ key_word(key, i - 2) ^ key_word(key, i - 1) ^ CK[i - 4],
            ),
        )
    }
}

/// The 32 round keys of a key.
pub open spec fn spec_key_schedule(key: Seq<u8>) -> Seq<u32> {
    Seq::new(32, |i: int| key_word(key, i + 4))
}

/// Word `i` of the state of a block under round keys. The first four are
/// the block; a block shorter than sixteen bytes counts as filled up with
/// zero bytes, a longer one as cut.
pub open spec fn state_word(round_keys: Seq<u32>, block: Seq<u8>, i: int) -> u32
    decreases i,
{
    if i < 4 {
        word32(resize(block, 16, 0u8), 4 * i, Endian::Big)
    } else {
        state_word(round_keys, block, i - 4) ^ round_mix(
            tau(
                state_word(round_keys, block, i - 3) ^ state_word(round_keys, block, i - 2)
                    ^ state_word(round_keys, block, i - 1) ^ round_keys[i - 4],
            ),
        )
    }
}

/// The transform of one block under a sequence of round keys: one round per
/// key, and the last four words of the state in reverse order. With the
/// keys in reverse order it is the inverse transform.
pub open spec fn sm4_block(round_keys: Seq<u32>, block: Seq<u8>) -> Seq<u8> {
    let n = round_keys.len() as int;
    bytes_of_words32(
        seq![
            state_word(round_keys, block, n + 3),
            state_word(round_keys, block, n + 2),
            state_word(round_keys, block, n + 1),
            state_word(round_keys, block, n),
        ],
        Endian::Big,
    )
}

/// The block transform under a sequence of round keys, as a function.
pub open spec fn sm4_transform(round_keys: Seq<u32>) -> spec_fn(Seq<u8>) -> Seq<u8> {
    |block: Seq<u8>| sm4_block(round_keys, block)
}

/// The transform gives sixteen bytes.
pub proof fn lemma_block_len(round_keys: Seq<u32>, block: Seq<u8>)
    ensures
        sm4_block(round_keys, block).len() == 16,
{
    let n = round_keys.len() as int;
    lemma_bytes_of_words32_len(
        seq![
            state_word(round_keys, block, n + 3),
            state_word(round_keys, block, n + 2),
            state_word(round_keys, block, n + 1),
            state_word(round_keys, block, n),
        ],
        Endian::Big,
    );
}

/// Replaces the four bytes of a word by their entries in the box.
pub fn substitute(x: u32) -> (r: u32)
    ensures
        r == tau(x),
{
    let b0 = S_BOX[(x / 0x100_0000) as usize] as u32;
    let b1 = S_BOX[((x / 0x1_0000) % 256) as usize] as u32;
    let b2 = S_BOX[((x / 0x100) % 256) as usize] as u32;
    let b3 = S_BOX[(x % 256) as usize] as u32;
    b0 * 0x100_0000 + b1 * 0x1_0000 + b2 * 0x100 + b3
}

/// Reads a block of sixteen bytes as four words.
fn block_words(block: &[u8]) -> (words: Vec<u32>)
    ensures
        words@.len() == 4,
        forall|i: int|
            0 <= i < 4 ==> words@[i] == word32(resize(block@, 16, 0u8), 4 * i, Endian::Big),
{
    let mut sixteen = slice_to_vec(block);
    sixteen.resize(16, 0);
    assert(sixteen@ =~= resize(block@, 16, 0u8));
    let mut words: Vec<u32> = Vec::with_capacity(4);
    let mut i: usize = 0;
    while i < 4
        invariant
            i <= 4,
            sixteen@.len() == 16,
            words@.len() == i,
            forall|j: int| 0 <= j < i ==> words@[j] == word32(sixteen@, 4 * j, Endian::Big),
        decreases 4 - i,
    {
        words.push(read_word32(sixteen.as_slice(), 4 * i, Endian::Big));
        i += 1;
    }
    words
}

/// Derives the 32 round keys of a key.
pub fn key_schedule(key: &Bytes) -> (round_keys: Vec<u32>)
    ensures
        round_keys@ == spec_key_schedule(key@),
{
    let mut k = block_words(key.deref());
    let mut i: usize = 0;
    while i < 4
        invariant
            i <= 4,
            k@.len() == 4,
            forall|j: int| 0 <= j < i ==> k@[j] == key_word(key@, j),
            forall|j: int|
                i <= j < 4 ==> k@[j] == word32(resize(key@, 16, 0u8), 4 * j, Endian::Big),
        decreases 4 - i,
    {
        let mixed = k[i] ^ FK[i];
        k.set(i, mixed);
        i += 1;
    }
    let mut round_keys: Vec<u32> = Vec::with_capacity(32);
    let mut r: usize = 0;
    while r < 32
        invariant
            r <= 32,
            k@.len() == r + 4,
            round_keys@.len() == r,
            forall|j: int| 0 <= j < r + 4 ==> k@[j] == key_word(key@, j),
            forall|j: int| 0 <= j < r ==> round_keys@[j] == key_word(key@, j + 4),
        decreases 32 - r,
    {
        let b = substitute(k[r + 1] ^ k[r + 2] ^ k[r + 3] ^ CK[r]);
        let next = k[r] ^ (b ^ rotate_left32(b, 13) ^ rotate_left32(b, 23));
        k.push(next);
        round_keys.push(next);
        r += 1;
    }
    assert(round_keys@ =~= spec_key_schedule(key@));
    round_keys
}

/// Transforms one block under the round keys, taken in order.
pub fn crypt_block(round_keys: &[u32], block: &[u8]) -> (r: Bytes)
    ensures
        r@ == sm4_block(round_keys@, block@),
        r@.len() == 16,
{
    let mut x = block_words(block);
    let n = round_keys.len();
    let mut i: usize = 0;
    while i < n
        invariant
            i <= n,
            n == round_keys@.len(),
            x@.len() == i + 4,
            forall|j: int| 0 <= j < i + 4 ==> x@[j] == state_word(round_keys@, block@, j),
        decreases n - i,
    {
        let m = x.len();
        let b = substitute(x[m - 3] ^ x[m - 2] ^ x[m - 1] ^ round_keys[i]);
        let next = x[m - 4] ^ (b ^ rotate_left32(b, 2) ^ rotate_left32(b, 10) ^ rotate_left32(b, 18)
            ^ rotate_left32(b, 24));
        x.push(next);
        i += 1;
    }
    let m = x.len();
    let out = [x[m - 1], x[m - 2], x[m - 3], x[m - 4]];
    assert(out@ =~= seq![
        state_word(round_keys@, block@, n + 3),
        state_word(round_keys@, block@, n + 2),
        state_word(round_keys@, block@, n + 1),
        state_word(round_keys@, block@, n as int),
    ]);
    Bytes::new(write_words32(out.as_slice(), Endian::Big))
}

/// The block transform under the round keys, as a closure for a mode of
/// operation.
pub fn block_crypt<'a>(round_keys: &'a [u32]) -> (f: impl Fn(&[u8]) -> Bytes + 'a)
    ensures
        total_bytes(f),
        computes_bytes(f, sm4_transform(round_keys@)),
{
    move |block: &[u8]| -> (out: Bytes)
        ensures
            out@ == sm4_block(round_keys@, block@),
        { crypt_block(round_keys, block) }
}

/// The round keys in reverse order.
pub fn reversed(round_keys: Vec<u32>) -> (r: Vec<u32>)
    ensures
        r@ == round_keys@.reverse(),
{
    let mut out: Vec<u32> = Vec::with_capacity(round_keys.len());
    let mut i: usize = round_keys.len();
    while i > 0
        invariant
            i <= round_keys.len(),
            out@.len() == round_keys.len() - i,
            forall|j: int| 0 <= j < out@.len() ==> out@[j] == round_keys@[round_keys.len() - 1 - j],
        decreases i,
    {
        i -= 1;
        out.push(round_keys[i]);
    }
    assert(out@ =~= round_keys@.reverse());
    out
}

} // verus!
