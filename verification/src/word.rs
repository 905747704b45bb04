//! Machine words: reading them from bytes, writing them to bytes, rotating
//! them.
use crate::bytes::{
    field_bytes, field_value, lemma_be_value_bound, most_significant_first, pow256, read_number,
    write_number,
};
use crate::enums::Endian;
use vstd::prelude::*;
use vstd::slice::slice_subrange;

verus! {

/// `x` rotated left by `n` places, for `n` below 32.
pub open spec fn rotl32(x: u32, n: u32) -> u32 {
    if n == 0 {
        x
    } else {
        (x << n) | (x >> ((32 - n) as u32))
    }
}

/// `x` rotated right by `n` places, for `n` below 32.
pub open spec fn rotr32(x: u32, n: u32) -> u32 {
    if n == 0 {
        x
    } else {
        (x >> n) | (x << ((32 - n) as u32))
    }
}

/// `x` rotated right by `n` places, for `n` below 64.
pub open spec fn rotr64(x: u64, n: u32) -> u64 {
    if n == 0 {
        x
    } else {
        (x >> n) | (x << ((64 - n) as u32))
    }
}

/// The 32-bit word that stands at byte `at` of `data`.
pub open spec fn word32(data: Seq<u8>, at: int, endian: Endian) -> u32 {
    field_value(data.subrange(at, at + 4), endian) as u32
}

/// The 64-bit word that stands at byte `at` of `data`.
pub open spec fn word64(data: Seq<u8>, at: int, endian: Endian) -> u64 {
    field_value(data.subrange(at, at + 8), endian) as u64
}

/// The bytes of a sequence of 32-bit words, four per word.
pub open spec fn bytes_of_words32(words: Seq<u32>, endian: Endian) -> Seq<u8>
    decreases words.len(),
{
    if words.len() == 0 {
        Seq::empty()
    } else {
        bytes_of_words32(words.drop_last(), endian) + field_bytes(words.last() as nat, 4, endian)
    }
}

/// The bytes of a sequence of 64-bit words, eight per word.
pub open spec fn bytes_of_words64(words: Seq<u64>, endian: Endian) -> Seq<u8>
    decreases words.len(),
{
    if words.len() == 0 {
        Seq::empty()
    } else {
        bytes_of_words64(words.drop_last(), endian) + field_bytes(words.last() as nat, 8, endian)
    }
}

/// Words take four bytes each.
pub proof fn lemma_bytes_of_words32_len(words: Seq<u32>, endian: Endian)
    ensures
        bytes_of_words32(words, endian).len() == 4 * words.len(),
    decreases words.len(),
{
    if words.len() > 0 {
        lemma_bytes_of_words32_len(words.drop_last(), endian);
    }
}

/// Rotates a word left by `n` places.
pub fn rotate_left32(x: u32, n: u32) -> (r: u32)
    requires
        n < 32,
    ensures
        r == rotl32(x, n),
{
    if n == 0 {
        x
    } else {
        (x << n) | (x >> (32 - n))
    }
}

/// Rotates a word right by `n` places.
pub fn rotate_right32(x: u32, n: u32) -> (r: u32)
    requires
        n < 32,
    ensures
        r == rotr32(x, n),
{
    if n == 0 {
        x
    } else {
        (x >> n) | (x << (32 - n))
    }
}

/// Rotates a word right by `n` places.
pub fn rotate_right64(x: u64, n: u32) -> (r: u64)
    requires
        n < 64,
    ensures
        r == rotr64(x, n),
{
    if n == 0 {
        x
    } else {
        (x >> n) | (x << (64 - n))
    }
}

/// Reads the 32-bit word at byte `at` of `data`.
pub fn read_word32(data: &[u8], at: usize, endian: Endian) -> (word: u32)
    requires
        at + 4 <= data@.len(),
    ensures
        word == word32(data@, at as int, endian),
{
    let len = data.len();
    let field = slice_subrange(data, at, at + 4);
    proof {
        lemma_be_value_bound(most_significant_first(field@, endian));
        reveal_with_fuel(pow256, 5);
    }
    read_number(field, endian) as u32
}

/// Reads the 64-bit word at byte `at` of `data`.
pub fn read_word64(data: &[u8], at: usize, endian: Endian) -> (word: u64)
    requires
        at + 8 <= data@.len(),
    ensures
        word == word64(data@, at as int, endian),
{
    let len = data.len();
    let field = slice_subrange(data, at, at + 8);
    proof {
        lemma_be_value_bound(most_significant_first(field@, endian));
        reveal_with_fuel(pow256, 9);
    }
    read_number(field, endian) as u64
}

/// Writes 32-bit words as bytes, four per word.
pub fn write_words32(words: &[u32], endian: Endian) -> (r: Vec<u8>)
    ensures
        r@ == bytes_of_words32(words@, endian),
        r@.len() == 4 * words@.len(),
{
    let mut out: Vec<u8> = Vec::new();
    let mut i: usize = 0;
    while i < words.len()
        invariant
            i <= words.len(),
            out@ == bytes_of_words32(words@.take(i as int), endian),
            out@.len() == 4 * i,
        decreases words.len() - i,
    {
        let field = write_number(words[i] as u128, 4, endian);
        let ghost before = out@;
        out.extend_from_slice(field.as_slice());
        proof {
            assert(words@.take(i + 1).drop_last() =~= words@.take(i as int));
            assert(out@ =~= before + field@);
        }
        i += 1;
    }
    assert(words@.take(i as int) =~= words@);
    out
}

/// Writes 64-bit words as bytes, eight per word.
pub fn write_words64(words: &[u64], endian: Endian) -> (r: Vec<u8>)
    ensures
        r@ == bytes_of_words64(words@, endian),
        r@.len() == 8 * words@.len(),
{
    let mut out: Vec<u8> = Vec::new();
    let mut i: usize = 0;
    while i < words.len()
        invariant
            i <= words.len(),
            out@ == bytes_of_words64(words@.take(i as int), endian),
            out@.len() == 8 * i,
        decreases words.len() - i,
    {
        let field = write_number(words[i] as u128, 8, endian);
        let ghost before = out@;
        out.extend_from_slice(field.as_slice());
        proof {
            assert(words@.take(i + 1).drop_last() =~= words@.take(i as int));
            assert(out@ =~= before + field@);
        }
        i += 1;
    }
    assert(words@.take(i as int) =~= words@);
    out
}

} // verus!
