//! The block cipher XXTEA (corrected block TEA).
use crate::enums::Endian;
use crate::vector::resize;
use crate::word::{read_word32, word32};
use vstd::prelude::*;
use vstd::slice::slice_to_vec;

mod xxtea_decrypt;
mod xxtea_encrypt;

pub use xxtea_decrypt::{
    dec_pass, dec_round, dec_rounds, decrypt_words, xxtea_decrypted, XxteaDecrypt,
};
pub use xxtea_encrypt::{
    enc_pass, enc_round, enc_rounds, encrypt_words, prepared, xxtea_encrypted, XxteaEncrypt,
};

verus! {

/// The constant that the running sum grows by in every round.
pub const DELTA: u32 = 0x9E3779B9;

/// The mixing function: what is added to a word, from the words before and
/// after it, the running sum and a word of the key.
pub open spec fn spec_mx(z: u32, y: u32, sum: u32, key: Seq<u32>, p: usize, e: usize) -> u32 {
    (((z >> 5) ^ (y << 2)).wrapping_add((y >> 3) ^ (z << 4))) ^ ((sum ^ y).wrapping_add(
        key[((p & 3) ^ e) as int] ^ z,
    ))
}

/// The number of rounds for a block of `n` words.
pub open spec fn round_count(n: nat) -> int {
    6 + 52int / (n as int)
}

/// `input` filled up with zero bytes to a whole number of words.
pub open spec fn padded4(input: Seq<u8>) -> Seq<u8> {
    input + Seq::new(((4 - input.len() % 4) % 4) as nat, |i: int| 0u8)
}

/// The words of a byte string, four bytes each, least significant byte
/// first.
pub open spec fn words_le(bytes: Seq<u8>) -> Seq<u32> {
    Seq::new(bytes.len() / 4, |i: int| word32(bytes, 4 * i, Endian::Little))
}

/// The four words of a key: its first sixteen bytes, a shorter key filled
/// up with zero bytes.
pub open spec fn key_words(key: Seq<u8>) -> Seq<u32> {
    words_le(resize(key, 16, 0u8))
}

/// The word of the key that position `p` takes lies among the first four,
/// as long as the round's offset does.
pub proof fn lemma_key_index(p: usize, e: usize)
    requires
        e < 4,
    ensures
        ((p & 3) ^ e) < 4,
{
    assert(((p & 3) ^ e) < 4) by (bit_vector)
        requires
            e < 4,
    ;
}

/// The mixing function. The key has to hold the word that the position and
/// the offset pick.
pub fn xxtea_mx(z: u32, y: u32, sum: u32, key: &[u32], p: usize, e: usize) -> (r: u32)
    requires
        ((p & 3) ^ e) < key@.len(),
    ensures
        r == spec_mx(z, y, sum, key@, p, e),
{
    (((z >> 5) ^ (y << 2)).wrapping_add((y >> 3) ^ (z << 4))) ^ ((sum ^ y).wrapping_add(
        key[(p & 3) ^ e] ^ z,
    ))
}

/// Which word of the key a round starts from.
pub fn key_offset(sum: u32) -> (e: usize)
    ensures
        e == ((sum as usize) >> 2) & 3,
        e < 4,
{
    let wide = sum as usize;
    assert(((wide >> 2) & 3) < 4) by (bit_vector);
    (wide >> 2) & 3
}

/// Reads a byte string of whole words.
pub fn to_words(bytes: &[u8]) -> (words: Vec<u32>)
    requires
        bytes@.len() % 4 == 0,
    ensures
        words@ == words_le(bytes@),
{
    let count = bytes.len() / 4;
    let mut words: Vec<u32> = Vec::with_capacity(count);
    let mut i: usize = 0;
    while i < count
        invariant
            i <= count,
            count == bytes@.len() / 4,
            bytes@.len() % 4 == 0,
            bytes@.len() <= usize::MAX,
            words@.len() == i,
            forall|j: int| 0 <= j < i ==> words@[j] == word32(bytes@, 4 * j, Endian::Little),
        decreases count - i,
    {
        words.push(read_word32(bytes, 4 * i, Endian::Little));
        i += 1;
    }
    assert(words@ =~= words_le(bytes@));
    words
}

/// Fills a byte string up with zero bytes to a whole number of words.
pub fn pad_to_words(input: &[u8]) -> (r: Vec<u8>)
    ensures
        r@ == padded4(input@),
        r@.len() % 4 == 0,
{
    let mut padded = slice_to_vec(input);
    let length = input.len();
    let padding_length = (4 - length % 4) % 4;
    let mut i: usize = 0;
    while i < padding_length
        invariant
            i <= padding_length,
            padded@ == input@ + Seq::new(i as nat, |k: int| 0u8),
        decreases padding_length - i,
    {
        padded.push(0);
        i += 1;
        assert(padded@ =~= input@ + Seq::new(i as nat, |k: int| 0u8));
    }
    padded
}

/// The four words of a key.
pub fn read_key(key: &[u8]) -> (words: Vec<u32>)
    ensures
        words@ == key_words(key@),
        words@.len() == 4,
{
    let mut key_bytes = slice_to_vec(key);
    key_bytes.resize(16, 0);
    assert(key_bytes@ =~= resize(key@, 16, 0u8));
    to_words(key_bytes.as_slice())
}

} // verus!
