//! The Data Encryption Standard: a Feistel network of sixteen rounds on
//! blocks of 64 bits, and its threefold composition.
use crate::bits::{
    bits_value, bytes_to_bits, lemma_bits_value_bound, lemma_xor_bits_cancel, word_modulus,
    xor_bits, Bits,
};
use crate::bytes::Bytes;
use crate::enums::{Bit, BlockSize};
use crate::mode::{computes_bits, total_bits};
use crate::vector::{permute, resize};
use std::ops::Deref;
use vstd::prelude::*;
use vstd::slice::{slice_subrange, slice_to_vec};

mod des_decrypt;
mod des_encrypt;
mod triple_des_decrypt;
mod triple_des_encrypt;

pub use des_decrypt::{lemma_des_round_trip, DesDecrypt};
pub use des_encrypt::DesEncrypt;
pub use triple_des_decrypt::{lemma_triple_des_round_trip, TripleDesDecrypt};
pub use triple_des_encrypt::TripleDesEncrypt;


verus! {

/// The block size of the cipher.
pub const BLOCK_SIZE: BlockSize = BlockSize::Bytes8;

/// The initial permutation.
pub const IP: [usize; 64] = [
    57, 49, 41, 33, 25, 17, 9, 1, 59, 51, 43, 35, 27, 19, 11, 3, 61, 53, 45, 37, 29, 21, 13, 5,
    63, 55, 47, 39, 31, 23, 15, 7, 56, 48, 40, 32, 24, 16, 8, 0, 58, 50, 42, 34, 26, 18, 10, 2,
    60, 52, 44, 36, 28, 20, 12, 4, 62, 54, 46, 38, 30, 22, 14, 6,
];

/// The final permutation, the inverse of the initial one.
pub const FP: [usize; 64] = [
    39, 7, 47, 15, 55, 23, 63, 31, 38, 6, 46, 14, 54, 22, 62, 30, 37, 5, 45, 13, 53, 21, 61,
    29, 36, 4, 44, 12, 52, 20, 60, 28, 35, 3, 43, 11, 51, 19, 59, 27, 34, 2, 42, 10, 50, 18,
    58, 26, 33, 1, 41, 9, 49, 17, 57, 25, 32, 0, 40, 8, 48, 16, 56, 24,
];

/// The expansion of a half block from 32 to 48 bits.
pub const E: [usize; 48] = [
    31, 0, 1, 2, 3, 4, 3, 4, 5, 6, 7, 8, 7, 8, 9, 10, 11, 12, 11, 12, 13, 14, 15, 16, 15, 16,
    17, 18, 19, 20, 19, 20, 21, 22, 23, 24, 23, 24, 25, 26, 27, 28, 27, 28, 29, 30, 31, 0,
];

/// The permutation that ends the round function.
pub const P: [usize; 32] = [
    15, 6, 19, 20, 28, 11, 27, 16, 0, 14, 22, 25, 4, 17, 30, 9, 1, 7, 23, 13, 31, 26, 2, 8, 18,
    12, 29, 5, 21, 10, 3, 24,
];

/// The permuted choice of every round: which bits of the key make up the
/// round key. Each row folds the selection of the 56 effective key bits, the
/// rotations up to that round and the compression to 48 bits into one table.
pub const KEY_PC: [[usize; 48]; 16] = [
    [
        9, 50, 33, 59, 48, 16, 32, 56, 1, 8, 18, 41, 2, 34, 25, 24, 43, 57, 58, 0, 35, 26, 17,
        40, 21, 27, 38, 53, 36, 3, 46, 29, 4, 52, 22, 28, 60, 20, 37, 62, 14, 19, 44, 13, 12,
        61, 54, 30,
    ],
    [
        1, 42, 25, 51, 40, 8, 24, 48, 58, 0, 10, 33, 59, 26, 17, 16, 35, 49, 50, 57, 56, 18, 9,
        32, 13, 19, 30, 45, 28, 62, 38, 21, 27, 44, 14, 20, 52, 12, 29, 54, 6, 11, 36, 5, 4,
        53, 46, 22,
    ],
    [
        50, 26, 9, 35, 24, 57, 8, 32, 42, 49, 59, 17, 43, 10, 1, 0, 48, 33, 34, 41, 40, 2, 58,
        16, 60, 3, 14, 29, 12, 46, 22, 5, 11, 28, 61, 4, 36, 27, 13, 38, 53, 62, 20, 52, 19,
        37, 30, 6,
    ],
    [
        34, 10, 58, 48, 8, 41, 57, 16, 26, 33, 43, 1, 56, 59, 50, 49, 32, 17, 18, 25, 24, 51,
        42, 0, 44, 54, 61, 13, 27, 30, 6, 52, 62, 12, 45, 19, 20, 11, 60, 22, 37, 46, 4, 36, 3,
        21, 14, 53,
    ],
    [
        18, 59, 42, 32, 57, 25, 41, 0, 10, 17, 56, 50, 40, 43, 34, 33, 16, 1, 2, 9, 8, 35, 26,
        49, 28, 38, 45, 60, 11, 14, 53, 36, 46, 27, 29, 3, 4, 62, 44, 6, 21, 30, 19, 20, 54, 5,
        61, 37,
    ],
    [
        2, 43, 26, 16, 41, 9, 25, 49, 59, 1, 40, 34, 24, 56, 18, 17, 0, 50, 51, 58, 57, 48, 10,
        33, 12, 22, 29, 44, 62, 61, 37, 20, 30, 11, 13, 54, 19, 46, 28, 53, 5, 14, 3, 4, 38,
        52, 45, 21,
    ],
    [
        51, 56, 10, 0, 25, 58, 9, 33, 43, 50, 24, 18, 8, 40, 2, 1, 49, 34, 35, 42, 41, 32, 59,
        17, 27, 6, 13, 28, 46, 45, 21, 4, 14, 62, 60, 38, 3, 30, 12, 37, 52, 61, 54, 19, 22,
        36, 29, 5,
    ],
    [
        35, 40, 59, 49, 9, 42, 58, 17, 56, 34, 8, 2, 57, 24, 51, 50, 33, 18, 48, 26, 25, 16,
        43, 1, 11, 53, 60, 12, 30, 29, 5, 19, 61, 46, 44, 22, 54, 14, 27, 21, 36, 45, 38, 3, 6,
        20, 13, 52,
    ],
    [
        56, 32, 51, 41, 1, 34, 50, 9, 48, 26, 0, 59, 49, 16, 43, 42, 25, 10, 40, 18, 17, 8, 35,
        58, 3, 45, 52, 4, 22, 21, 60, 11, 53, 38, 36, 14, 46, 6, 19, 13, 28, 37, 30, 62, 61,
        12, 5, 44,
    ],
    [
        40, 16, 35, 25, 50, 18, 34, 58, 32, 10, 49, 43, 33, 0, 56, 26, 9, 59, 24, 2, 1, 57, 48,
        42, 54, 29, 36, 19, 6, 5, 44, 62, 37, 22, 20, 61, 30, 53, 3, 60, 12, 21, 14, 46, 45,
        27, 52, 28,
    ],
    [
        24, 0, 48, 9, 34, 2, 18, 42, 16, 59, 33, 56, 17, 49, 40, 10, 58, 43, 8, 51, 50, 41, 32,
        26, 38, 13, 20, 3, 53, 52, 28, 46, 21, 6, 4, 45, 14, 37, 54, 44, 27, 5, 61, 30, 29, 11,
        36, 12,
    ],
    [
        8, 49, 32, 58, 18, 51, 2, 26, 0, 43, 17, 40, 1, 33, 24, 59, 42, 56, 57, 35, 34, 25, 16,
        10, 22, 60, 4, 54, 37, 36, 12, 30, 5, 53, 19, 29, 61, 21, 38, 28, 11, 52, 45, 14, 13,
        62, 20, 27,
    ],
    [
        57, 33, 16, 42, 2, 35, 51, 10, 49, 56, 1, 24, 50, 17, 8, 43, 26, 40, 41, 48, 18, 9, 0,
        59, 6, 44, 19, 38, 21, 20, 27, 14, 52, 37, 3, 13, 45, 5, 22, 12, 62, 36, 29, 61, 60,
        46, 4, 11,
    ],
    [
        41, 17, 0, 26, 51, 48, 35, 59, 33, 40, 50, 8, 34, 1, 57, 56, 10, 24, 25, 32, 2, 58, 49,
        43, 53, 28, 3, 22, 5, 4, 11, 61, 36, 21, 54, 60, 29, 52, 6, 27, 46, 20, 13, 45, 44, 30,
        19, 62,
    ],
    [
        25, 1, 49, 10, 35, 32, 48, 43, 17, 24, 34, 57, 18, 50, 41, 40, 59, 8, 9, 16, 51, 42,
        33, 56, 37, 12, 54, 6, 52, 19, 62, 45, 20, 5, 38, 44, 13, 36, 53, 11, 30, 4, 60, 29,
        28, 14, 3, 46,
    ],
    [
        17, 58, 41, 2, 56, 24, 40, 35, 9, 16, 26, 49, 10, 42, 33, 32, 51, 0, 1, 8, 43, 34, 25,
        48, 29, 4, 46, 61, 44, 11, 54, 37, 12, 60, 30, 36, 5, 28, 45, 3, 22, 27, 52, 21, 20, 6,
        62, 38,
    ],
];

/// The eight substitution boxes: for each the 64 rows of four bits, by the
/// number that the six input bits spell.
pub const S_BOXES: [[[Bit; 4]; 64]; 8] = [
    [
        [Bit::One, Bit::One, Bit::One, Bit::Zero], [Bit::Zero, Bit::Zero, Bit::Zero, Bit::Zero], [Bit::Zero, Bit::One, Bit::Zero, Bit::Zero], [Bit::One, Bit::One, Bit::One, Bit::One],
        [Bit::One, Bit::One, Bit::Zero, Bit::One], [Bit::Zero, Bit::One, Bit::One, Bit::One], [Bit::Zero, Bit::Zero, Bit::Zero, Bit::One], [Bit::Zero, Bit::One, Bit::Zero, Bit::Zero],
        [Bit::Zero, Bit::Zero, Bit::One, Bit::Zero], [Bit::One, Bit::One, Bit::One, Bit::Zero], [Bit::One, Bit::One, Bit::One, Bit::One], [Bit::Zero, Bit::Zero, Bit::One, Bit::Zero],
        [Bit::One, Bit::Zero, Bit::One, Bit::One], [Bit::One, Bit::One, Bit::Zero, Bit::One], [Bit::One, Bit::Zero, Bit::Zero, Bit::Zero], [Bit::Zero, Bit::Zero, Bit::Zero, Bit::One],
        [Bit::Zero, Bit::Zero, Bit::One, Bit::One], [Bit::One, Bit::Zero, Bit::One, Bit::Zero], [Bit::One, Bit::Zero, Bit::One, Bit::Zero], [Bit::Zero, Bit::One, Bit::One, Bit::Zero],
        [Bit::Zero, Bit::One, Bit::One, Bit::Zero], [Bit::One, Bit::One, Bit::Zero, Bit::Zero], [Bit::One, Bit::One, Bit::Zero, Bit::Zero], [Bit::One, Bit::Zero, Bit::One, Bit::One],
        [Bit::Zero, Bit::One, Bit::Zero, Bit::One], [Bit::One, Bit::Zero, Bit::Zero, Bit::One], [Bit::One, Bit::Zero, Bit::Zero, Bit::One], [Bit::Zero, Bit::One, Bit::Zero, Bit::One],
        [Bit::Zero, Bit::Zero, Bit::Zero, Bit::Zero], [Bit::Zero, Bit::Zero, Bit::One, Bit::One], [Bit::Zero, Bit::One, Bit::One, Bit::One], [Bit::One, Bit::Zero, Bit::Zero, Bit::Zero],
        [Bit::Zero, Bit::One, Bit::Zero, Bit::Zero], [Bit::One, Bit::One, Bit::One, Bit::One], [Bit::Zero, Bit::Zero, Bit::Zero, Bit::One], [Bit::One, Bit::One, Bit::Zero, Bit::Zero],
        [Bit::One, Bit::One, Bit::One, Bit::Zero], [Bit::One, Bit::Zero, Bit::Zero, Bit::Zero], [Bit::One, Bit::Zero, Bit::Zero, Bit::Zero], [Bit::Zero, Bit::Zero, Bit::One, Bit::Zero],
        [Bit::One, Bit::One, Bit::Zero, Bit::One], [Bit::Zero, Bit::One, Bit::Zero, Bit::Zero], [Bit::Zero, Bit::One, Bit::One, Bit::Zero], [Bit::One, Bit::Zero, Bit::Zero, Bit::One],
        [Bit::Zero, Bit::Zero, Bit::One, Bit::Zero], [Bit::Zero, Bit::Zero, Bit::Zero, Bit::One], [Bit::One, Bit::Zero, Bit::One, Bit::One], [Bit::Zero, Bit::One, Bit::One, Bit::One],
        [Bit::One, Bit::One, Bit::One, Bit::One], [Bit::Zero, Bit::One, Bit::Zero, Bit::One], [Bit::One, Bit::One, Bit::Zero, Bit::Zero], [Bit::One, Bit::Zero, Bit::One, Bit::One],
        [Bit::One, Bit::Zero, Bit::Zero, Bit::One], [Bit::Zero, Bit::Zero, Bit::One, Bit::One], [Bit::Zero, Bit::One, Bit::One, Bit::One], [Bit::One, Bit::One, Bit::One, Bit::Zero],
        [Bit::Zero, Bit::Zero, Bit::One, Bit::One], [Bit::One, Bit::Zero, Bit::One, Bit::Zero], [Bit::One, Bit::Zero, Bit::One, Bit::Zero], [Bit::Zero, Bit::Zero, Bit::Zero, Bit::Zero],
        [Bit::Zero, Bit::One, Bit::Zero, Bit::One], [Bit::Zero, Bit::One, Bit::One, Bit::Zero], [Bit::Zero, Bit::Zero, Bit::Zero, Bit::Zero], [Bit::One, Bit::One, Bit::Zero, Bit::One],
    ],
    [
        [Bit::One, Bit::One, Bit::One, Bit::One], [Bit::Zero, Bit::Zero, Bit::One, Bit::One], [Bit::Zero, Bit::Zero, Bit::Zero, Bit::One], [Bit::One, Bit::One, Bit::Zero, Bit::One],
        [Bit::One, Bit::Zero, Bit::Zero, Bit::Zero], [Bit::Zero, Bit::One, Bit::Zero, Bit::Zero], [Bit::One, Bit::One, Bit::One, Bit::Zero], [Bit::Zero, Bit::One, Bit::One, Bit::One],
        [Bit::Zero, Bit::One, Bit::One, Bit::Zero], [Bit::One, Bit::One, Bit::One, Bit::One], [Bit::One, Bit::Zero, Bit::One, Bit::One], [Bit::Zero, Bit::Zero, Bit::One, Bit::Zero],
        [Bit::Zero, Bit::Zero, Bit::One, Bit::One], [Bit::One, Bit::Zero, Bit::Zero, Bit::Zero], [Bit::Zero, Bit::One, Bit::Zero, Bit::Zero], [Bit::One, Bit::One, Bit::One, Bit::Zero],
        [Bit::One, Bit::Zero, Bit::Zero, Bit::One], [Bit::One, Bit::One, Bit::Zero, Bit::Zero], [Bit::Zero, Bit::One, Bit::One, Bit::One], [Bit::Zero, Bit::Zero, Bit::Zero, Bit::Zero],
        [Bit::Zero, Bit::Zero, Bit::One, Bit::Zero], [Bit::Zero, Bit::Zero, Bit::Zero, Bit::One], [Bit::One, Bit::One, Bit::Zero, Bit::One], [Bit::One, Bit::Zero, Bit::One, Bit::Zero],
        [Bit::One, Bit::One, Bit::Zero, Bit::Zero], [Bit::Zero, Bit::One, Bit::One, Bit::Zero], [Bit::Zero, Bit::Zero, Bit::Zero, Bit::Zero], [Bit::One, Bit::Zero, Bit::Zero, Bit::One],
        [Bit::Zero, Bit::One, Bit::Zero, Bit::One], [Bit::One, Bit::Zero, Bit::One, Bit::One], [Bit::One, Bit::Zero, Bit::One, Bit::Zero], [Bit::Zero, Bit::One, Bit::Zero, Bit::One],
        [Bit::Zero, Bit::Zero, Bit::Zero, Bit::Zero], [Bit::One, Bit::One, Bit::Zero, Bit::One], [Bit::One, Bit::One, Bit::One, Bit::Zero], [Bit::One, Bit::Zero, Bit::Zero, Bit::Zero],
        [Bit::Zero, Bit::One, Bit::One, Bit::One], [Bit::One, Bit::Zero, Bit::One, Bit::Zero], [Bit::One, Bit::Zero, Bit::One, Bit::One], [Bit::Zero, Bit::Zero, Bit::Zero, Bit::One],
        [Bit::One, Bit::Zero, Bit::One, Bit::Zero], [Bit::Zero, Bit::Zero, Bit::One, Bit::One], [Bit::Zero, Bit::One, Bit::Zero, Bit::Zero], [Bit::One, Bit::One, Bit::One, Bit::One],
        [Bit::One, Bit::One, Bit::Zero, Bit::One], [Bit::Zero, Bit::One, Bit::Zero, Bit::Zero], [Bit::Zero, Bit::Zero, Bit::Zero, Bit::One], [Bit::Zero, Bit::Zero, Bit::One, Bit::Zero],
        [Bit::Zero, Bit::One, Bit::Zero, Bit::One], [Bit::One, Bit::Zero, Bit::One, Bit::One], [Bit::One, Bit::Zero, Bit::Zero, Bit::Zero], [Bit::Zero, Bit::One, Bit::One, Bit::Zero],
        [Bit::One, Bit::One, Bit::Zero, Bit::Zero], [Bit::Zero, Bit::One, Bit::One, Bit::One], [Bit::Zero, Bit::One, Bit::One, Bit::Zero], [Bit::One, Bit::One, Bit::Zero, Bit::Zero],
        [Bit::One, Bit::Zero, Bit::Zero, Bit::One], [Bit::Zero, Bit::Zero, Bit::Zero, Bit::Zero], [Bit::Zero, Bit::Zero, Bit::One, Bit::One], [Bit::Zero, Bit::One, Bit::Zero, Bit::One],
        [Bit::Zero, Bit::Zero, Bit::One, Bit::Zero], [Bit::One, Bit::One, Bit::One, Bit::Zero], [Bit::One, Bit::One, Bit::One, Bit::One], [Bit::One, Bit::Zero, Bit::Zero, Bit::One],
    ],
    [
        [Bit::One, Bit::Zero, Bit::One, Bit::Zero], [Bit::One, Bit::One, Bit::Zero, Bit::One], [Bit::Zero, Bit::Zero, Bit::Zero, Bit::Zero], [Bit::Zero, Bit::One, Bit::One, Bit::One],
        [Bit::One, Bit::Zero, Bit::Zero, Bit::One], [Bit::Zero, Bit::Zero, Bit::Zero, Bit::Zero], [Bit::One, Bit::One, Bit::One, Bit::Zero], [Bit::One, Bit::Zero, Bit::Zero, Bit::One],
        [Bit::Zero, Bit::One, Bit::One, Bit::Zero], [Bit::Zero, Bit::Zero, Bit::One, Bit::One], [Bit::Zero, Bit::Zero, Bit::One, Bit::One], [Bit::Zero, Bit::One, Bit::Zero, Bit::Zero],
        [Bit::One, Bit::One, Bit::One, Bit::One], [Bit::Zero, Bit::One, Bit::One, Bit::Zero], [Bit::Zero, Bit::One, Bit::Zero, Bit::One], [Bit::One, Bit::Zero, Bit::One, Bit::Zero],
        [Bit::Zero, Bit::Zero, Bit::Zero, Bit::One], [Bit::Zero, Bit::Zero, Bit::One, Bit::Zero], [Bit::One, Bit::One, Bit::Zero, Bit::One], [Bit::One, Bit::Zero, Bit::Zero, Bit::Zero],
        [Bit::One, Bit::One, Bit::Zero, Bit::Zero], [Bit::Zero, Bit::One, Bit::Zero, Bit::One], [Bit::Zero, Bit::One, Bit::One, Bit::One], [Bit::One, Bit::One, Bit::One, Bit::Zero],
        [Bit::One, Bit::Zero, Bit::One, Bit::One], [Bit::One, Bit::One, Bit::Zero, Bit::Zero], [Bit::Zero, Bit::One, Bit::Zero, Bit::Zero], [Bit::One, Bit::Zero, Bit::One, Bit::One],
        [Bit::Zero, Bit::Zero, Bit::One, Bit::Zero], [Bit::One, Bit::One, Bit::One, Bit::One], [Bit::One, Bit::Zero, Bit::Zero, Bit::Zero], [Bit::Zero, Bit::Zero, Bit::Zero, Bit::One],
        [Bit::One, Bit::One, Bit::Zero, Bit::One], [Bit::Zero, Bit::Zero, Bit::Zero, Bit::One], [Bit::Zero, Bit::One, Bit::One, Bit::Zero], [Bit::One, Bit::Zero, Bit::One, Bit::Zero],
        [Bit::Zero, Bit::One, Bit::Zero, Bit::Zero], [Bit::One, Bit::One, Bit::Zero, Bit::One], [Bit::One, Bit::Zero, Bit::Zero, Bit::One], [Bit::Zero, Bit::Zero, Bit::Zero, Bit::Zero],
        [Bit::One, Bit::Zero, Bit::Zero, Bit::Zero], [Bit::Zero, Bit::One, Bit::One, Bit::Zero], [Bit::One, Bit::One, Bit::One, Bit::One], [Bit::One, Bit::Zero, Bit::Zero, Bit::One],
        [Bit::Zero, Bit::Zero, Bit::One, Bit::One], [Bit::One, Bit::Zero, Bit::Zero, Bit::Zero], [Bit::Zero, Bit::Zero, Bit::Zero, Bit::Zero], [Bit::Zero, Bit::One, Bit::One, Bit::One],
        [Bit::One, Bit::Zero, Bit::One, Bit::One], [Bit::Zero, Bit::One, Bit::Zero, Bit::Zero], [Bit::Zero, Bit::Zero, Bit::Zero, Bit::One], [Bit::One, Bit::One, Bit::One, Bit::One],
        [Bit::Zero, Bit::Zero, Bit::One, Bit::Zero], [Bit::One, Bit::One, Bit::One, Bit::Zero], [Bit::One, Bit::One, Bit::Zero, Bit::Zero], [Bit::Zero, Bit::Zero, Bit::One, Bit::One],
        [Bit::Zero, Bit::One, Bit::Zero, Bit::One], [Bit::One, Bit::Zero, Bit::One, Bit::One], [Bit::One, Bit::Zero, Bit::One, Bit::Zero], [Bit::Zero, Bit::One, Bit::Zero, Bit::One],
        [Bit::One, Bit::One, Bit::One, Bit::Zero], [Bit::Zero, Bit::Zero, Bit::One, Bit::Zero], [Bit::Zero, Bit::One, Bit::One, Bit::One], [Bit::One, Bit::One, Bit::Zero, Bit::Zero],
    ],
    [
        [Bit::Zero, Bit::One, Bit::One, Bit::One], [Bit::One, Bit::One, Bit::Zero, Bit::One], [Bit::One, Bit::One, Bit::Zero, Bit::One], [Bit::One, Bit::Zero, Bit::Zero, Bit::Zero],
        [Bit::One, Bit::One, Bit::One, Bit::Zero], [Bit::One, Bit::Zero, Bit::One, Bit::One], [Bit::Zero, Bit::Zero, Bit::One, Bit::One], [Bit::Zero, Bit::One, Bit::Zero, Bit::One],
        [Bit::Zero, Bit::Zero, Bit::Zero, Bit::Zero], [Bit::Zero, Bit::One, Bit::One, Bit::Zero], [Bit::Zero, Bit::One, Bit::One, Bit::Zero], [Bit::One, Bit::One, Bit::One, Bit::One],
        [Bit::One, Bit::Zero, Bit::Zero, Bit::One], [Bit::Zero, Bit::Zero, Bit::Zero, Bit::Zero], [Bit::One, Bit::Zero, Bit::One, Bit::Zero], [Bit::Zero, Bit::Zero, Bit::One, Bit::One],
        [Bit::Zero, Bit::Zero, Bit::Zero, Bit::One], [Bit::Zero, Bit::One, Bit::Zero, Bit::Zero], [Bit::Zero, Bit::Zero, Bit::One, Bit::Zero], [Bit::Zero, Bit::One, Bit::One, Bit::One],
        [Bit::One, Bit::Zero, Bit::Zero, Bit::Zero], [Bit::Zero, Bit::Zero, Bit::One, Bit::Zero], [Bit::Zero, Bit::One, Bit::Zero, Bit::One], [Bit::One, Bit::One, Bit::Zero, Bit::Zero],
        [Bit::One, Bit::Zero, Bit::One, Bit::One], [Bit::Zero, Bit::Zero, Bit::Zero, Bit::One], [Bit::One, Bit::One, Bit::Zero, Bit::Zero], [Bit::One, Bit::Zero, Bit::One, Bit::Zero],
        [Bit::Zero, Bit::One, Bit::Zero, Bit::Zero], [Bit::One, Bit::One, Bit::One, Bit::Zero], [Bit::One, Bit::One, Bit::One, Bit::One], [Bit::One, Bit::Zero, Bit::Zero, Bit::One],
        [Bit::One, Bit::Zero, Bit::One, Bit::Zero], [Bit::Zero, Bit::Zero, Bit::One, Bit::One], [Bit::Zero, Bit::One, Bit::One, Bit::Zero], [Bit::One, Bit::One, Bit::One, Bit::One],
        [Bit::One, Bit::Zero, Bit::Zero, Bit::One], [Bit::Zero, Bit::Zero, Bit::Zero, Bit::Zero], [Bit::Zero, Bit::Zero, Bit::Zero, Bit::Zero], [Bit::Zero, Bit::One, Bit::One, Bit::Zero],
        [Bit::One, Bit::One, Bit::Zero, Bit::Zero], [Bit::One, Bit::Zero, Bit::One, Bit::Zero], [Bit::One, Bit::Zero, Bit::One, Bit::One], [Bit::Zero, Bit::Zero, Bit::Zero, Bit::One],
        [Bit::Zero, Bit::One, Bit::One, Bit::One], [Bit::One, Bit::One, Bit::Zero, Bit::One], [Bit::One, Bit::One, Bit::Zero, Bit::One], [Bit::One, Bit::Zero, Bit::Zero, Bit::Zero],
        [Bit::One, Bit::One, Bit::One, Bit::One], [Bit::One, Bit::Zero, Bit::Zero, Bit::One], [Bit::Zero, Bit::Zero, Bit::Zero, Bit::One], [Bit::Zero, Bit::One, Bit::Zero, Bit::Zero],
        [Bit::Zero, Bit::Zero, Bit::One, Bit::One], [Bit::Zero, Bit::One, Bit::Zero, Bit::One], [Bit::One, Bit::One, Bit::One, Bit::Zero], [Bit::One, Bit::Zero, Bit::One, Bit::One],
        [Bit::Zero, Bit::One, Bit::Zero, Bit::One], [Bit::One, Bit::One, Bit::Zero, Bit::Zero], [Bit::Zero, Bit::Zero, Bit::One, Bit::Zero], [Bit::Zero, Bit::One, Bit::One, Bit::One],
        [Bit::One, Bit::Zero, Bit::Zero, Bit::Zero], [Bit::Zero, Bit::Zero, Bit::One, Bit::Zero], [Bit::Zero, Bit::One, Bit::Zero, Bit::Zero], [Bit::One, Bit::One, Bit::One, Bit::Zero],
    ],
    [
        [Bit::Zero, Bit::Zero, Bit::One, Bit::Zero], [Bit::One, Bit::One, Bit::One, Bit::Zero], [Bit::One, Bit::One, Bit::Zero, Bit::Zero], [Bit::One, Bit::Zero, Bit::One, Bit::One],
        [Bit::Zero, Bit::One, Bit::Zero, Bit::Zero], [Bit::Zero, Bit::Zero, Bit::One, Bit::Zero], [Bit::Zero, Bit::Zero, Bit::Zero, Bit::One], [Bit::One, Bit::One, Bit::Zero, Bit::Zero],
        [Bit::Zero, Bit::One, Bit::One, Bit::One], [Bit::Zero, Bit::One, Bit::Zero, Bit::Zero], [Bit::One, Bit::Zero, Bit::One, Bit::Zero], [Bit::Zero, Bit::One, Bit::One, Bit::One],
        [Bit::One, Bit::Zero, Bit::One, Bit::One], [Bit::One, Bit::One, Bit::Zero, Bit::One], [Bit::Zero, Bit::One, Bit::One, Bit::Zero], [Bit::Zero, Bit::Zero, Bit::Zero, Bit::One],
        [Bit::One, Bit::Zero, Bit::Zero, Bit::Zero], [Bit::Zero, Bit::One, Bit::Zero, Bit::One], [Bit::Zero, Bit::One, Bit::Zero, Bit::One], [Bit::Zero, Bit::Zero, Bit::Zero, Bit::Zero],
        [Bit::Zero, Bit::Zero, Bit::One, Bit::One], [Bit::One, Bit::One, Bit::One, Bit::One], [Bit::One, Bit::One, Bit::One, Bit::One], [Bit::One, Bit::Zero, Bit::One, Bit::Zero],
        [Bit::One, Bit::One, Bit::Zero, Bit::One], [Bit::Zero, Bit::Zero, Bit::One, Bit::One], [Bit::Zero, Bit::Zero, Bit::Zero, Bit::Zero], [Bit::One, Bit::Zero, Bit::Zero, Bit::One],
        [Bit::One, Bit::One, Bit::One, Bit::Zero], [Bit::One, Bit::Zero, Bit::Zero, Bit::Zero], [Bit::One, Bit::Zero, Bit::Zero, Bit::One], [Bit::Zero, Bit::One, Bit::One, Bit::Zero],
        [Bit::Zero, Bit::One, Bit::Zero, Bit::Zero], [Bit::One, Bit::Zero, Bit::One, Bit::One], [Bit::Zero, Bit::Zero, Bit::One, Bit::Zero], [Bit::One, Bit::Zero, Bit::Zero, Bit::Zero],
        [Bit::Zero, Bit::Zero, Bit::Zero, Bit::One], [Bit::One, Bit::One, Bit::Zero, Bit::Zero], [Bit::One, Bit::Zero, Bit::One, Bit::One], [Bit::Zero, Bit::One, Bit::One, Bit::One],
        [Bit::One, Bit::Zero, Bit::One, Bit::Zero], [Bit::Zero, Bit::Zero, Bit::Zero, Bit::One], [Bit::One, Bit::One, Bit::Zero, Bit::One], [Bit::One, Bit::One, Bit::One, Bit::Zero],
        [Bit::Zero, Bit::One, Bit::One, Bit::One], [Bit::Zero, Bit::Zero, Bit::One, Bit::Zero], [Bit::One, Bit::Zero, Bit::Zero, Bit::Zero], [Bit::One, Bit::One, Bit::Zero, Bit::One],
        [Bit::One, Bit::One, Bit::One, Bit::One], [Bit::Zero, Bit::One, Bit::One, Bit::Zero], [Bit::One, Bit::Zero, Bit::Zero, Bit::One], [Bit::One, Bit::One, Bit::One, Bit::One],
        [Bit::One, Bit::One, Bit::Zero, Bit::Zero], [Bit::Zero, Bit::Zero, Bit::Zero, Bit::Zero], [Bit::Zero, Bit::One, Bit::Zero, Bit::One], [Bit::One, Bit::Zero, Bit::Zero, Bit::One],
        [Bit::Zero, Bit::One, Bit::One, Bit::Zero], [Bit::One, Bit::Zero, Bit::One, Bit::Zero], [Bit::Zero, Bit::Zero, Bit::One, Bit::One], [Bit::Zero, Bit::One, Bit::Zero, Bit::Zero],
        [Bit::Zero, Bit::Zero, Bit::Zero, Bit::Zero], [Bit::Zero, Bit::One, Bit::Zero, Bit::One], [Bit::One, Bit::One, Bit::One, Bit::Zero], [Bit::Zero, Bit::Zero, Bit::One, Bit::One],
    ],
    [
        [Bit::One, Bit::One, Bit::Zero, Bit::Zero], [Bit::One, Bit::Zero, Bit::One, Bit::Zero], [Bit::Zero, Bit::Zero, Bit::Zero, Bit::One], [Bit::One, Bit::One, Bit::One, Bit::One],
        [Bit::One, Bit::Zero, Bit::One, Bit::Zero], [Bit::Zero, Bit::One, Bit::Zero, Bit::Zero], [Bit::One, Bit::One, Bit::One, Bit::One], [Bit::Zero, Bit::Zero, Bit::One, Bit::Zero],
        [Bit::One, Bit::Zero, Bit::Zero, Bit::One], [Bit::Zero, Bit::One, Bit::One, Bit::One], [Bit::Zero, Bit::Zero, Bit::One, Bit::Zero], [Bit::One, Bit::One, Bit::Zero, Bit::Zero],
        [Bit::Zero, Bit::One, Bit::One, Bit::Zero], [Bit::One, Bit::Zero, Bit::Zero, Bit::One], [Bit::One, Bit::Zero, Bit::Zero, Bit::Zero], [Bit::Zero, Bit::One, Bit::Zero, Bit::One],
        [Bit::Zero, Bit::Zero, Bit::Zero, Bit::Zero], [Bit::Zero, Bit::One, Bit::One, Bit::Zero], [Bit::One, Bit::One, Bit::Zero, Bit::One], [Bit::Zero, Bit::Zero, Bit::Zero, Bit::One],
        [Bit::Zero, Bit::Zero, Bit::One, Bit::One], [Bit::One, Bit::One, Bit::Zero, Bit::One], [Bit::Zero, Bit::One, Bit::Zero, Bit::Zero], [Bit::One, Bit::One, Bit::One, Bit::Zero],
        [Bit::One, Bit::One, Bit::One, Bit::Zero], [Bit::Zero, Bit::Zero, Bit::Zero, Bit::Zero], [Bit::Zero, Bit::One, Bit::One, Bit::One], [Bit::One, Bit::Zero, Bit::One, Bit::One],
        [Bit::Zero, Bit::One, Bit::Zero, Bit::One], [Bit::Zero, Bit::Zero, Bit::One, Bit::One], [Bit::One, Bit::Zero, Bit::One, Bit::One], [Bit::One, Bit::Zero, Bit::Zero, Bit::Zero],
        [Bit::One, Bit::Zero, Bit::Zero, Bit::One], [Bit::Zero, Bit::One, Bit::Zero, Bit::Zero], [Bit::One, Bit::One, Bit::One, Bit::Zero], [Bit::Zero, Bit::Zero, Bit::One, Bit::One],
        [Bit::One, Bit::One, Bit::One, Bit::One], [Bit::Zero, Bit::Zero, Bit::One, Bit::Zero], [Bit::Zero, Bit::One, Bit::Zero, Bit::One], [Bit::One, Bit::One, Bit::Zero, Bit::Zero],
        [Bit::Zero, Bit::Zero, Bit::One, Bit::Zero], [Bit::One, Bit::Zero, Bit::Zero, Bit::One], [Bit::One, Bit::Zero, Bit::Zero, Bit::Zero], [Bit::Zero, Bit::One, Bit::Zero, Bit::One],
        [Bit::One, Bit::One, Bit::Zero, Bit::Zero], [Bit::One, Bit::One, Bit::One, Bit::One], [Bit::Zero, Bit::Zero, Bit::One, Bit::One], [Bit::One, Bit::Zero, Bit::One, Bit::Zero],
        [Bit::Zero, Bit::One, Bit::One, Bit::One], [Bit::One, Bit::Zero, Bit::One, Bit::One], [Bit::Zero, Bit::Zero, Bit::Zero, Bit::Zero], [Bit::One, Bit::One, Bit::One, Bit::Zero],
        [Bit::Zero, Bit::One, Bit::Zero, Bit::Zero], [Bit::Zero, Bit::Zero, Bit::Zero, Bit::One], [Bit::One, Bit::Zero, Bit::One, Bit::Zero], [Bit::Zero, Bit::One, Bit::One, Bit::One],
        [Bit::Zero, Bit::Zero, Bit::Zero, Bit::One], [Bit::Zero, Bit::One, Bit::One, Bit::Zero], [Bit::One, Bit::One, Bit::Zero, Bit::One], [Bit::Zero, Bit::Zero, Bit::Zero, Bit::Zero],
        [Bit::One, Bit::Zero, Bit::One, Bit::One], [Bit::One, Bit::Zero, Bit::Zero, Bit::Zero], [Bit::Zero, Bit::One, Bit::One, Bit::Zero], [Bit::One, Bit::One, Bit::Zero, Bit::One],
    ],
    [
        [Bit::Zero, Bit::One, Bit::Zero, Bit::Zero], [Bit::One, Bit::One, Bit::Zero, Bit::One], [Bit::One, Bit::Zero, Bit::One, Bit::One], [Bit::Zero, Bit::Zero, Bit::Zero, Bit::Zero],
        [Bit::Zero, Bit::Zero, Bit::One, Bit::Zero], [Bit::One, Bit::Zero, Bit::One, Bit::One], [Bit::One, Bit::One, Bit::One, Bit::Zero], [Bit::Zero, Bit::One, Bit::One, Bit::One],
        [Bit::One, Bit::One, Bit::One, Bit::One], [Bit::Zero, Bit::One, Bit::Zero, Bit::Zero], [Bit::Zero, Bit::Zero, Bit::Zero, Bit::Zero], [Bit::One, Bit::Zero, Bit::Zero, Bit::One],
        [Bit::One, Bit::Zero, Bit::Zero, Bit::Zero], [Bit::Zero, Bit::Zero, Bit::Zero, Bit::One], [Bit::One, Bit::One, Bit::Zero, Bit::One], [Bit::One, Bit::Zero, Bit::One, Bit::Zero],
        [Bit::Zero, Bit::Zero, Bit::One, Bit::One], [Bit::One, Bit::One, Bit::One, Bit::Zero], [Bit::One, Bit::One, Bit::Zero, Bit::Zero], [Bit::Zero, Bit::Zero, Bit::One, Bit::One],
        [Bit::One, Bit::Zero, Bit::Zero, Bit::One], [Bit::Zero, Bit::One, Bit::Zero, Bit::One], [Bit::Zero, Bit::One, Bit::One, Bit::One], [Bit::One, Bit::One, Bit::Zero, Bit::Zero],
        [Bit::Zero, Bit::One, Bit::Zero, Bit::One], [Bit::Zero, Bit::Zero, Bit::One, Bit::Zero], [Bit::One, Bit::Zero, Bit::One, Bit::Zero], [Bit::One, Bit::One, Bit::One, Bit::One],
        [Bit::Zero, Bit::One, Bit::One, Bit::Zero], [Bit::One, Bit::Zero, Bit::Zero, Bit::Zero], [Bit::Zero, Bit::Zero, Bit::Zero, Bit::One], [Bit::Zero, Bit::One, Bit::One, Bit::Zero],
        [Bit::Zero, Bit::Zero, Bit::Zero, Bit::One], [Bit::Zero, Bit::One, Bit::One, Bit::Zero], [Bit::Zero, Bit::One, Bit::Zero, Bit::Zero], [Bit::One, Bit::Zero, Bit::One, Bit::One],
        [Bit::One, Bit::Zero, Bit::One, Bit::One], [Bit::One, Bit::One, Bit::Zero, Bit::One], [Bit::One, Bit::One, Bit::Zero, Bit::One], [Bit::One, Bit::Zero, Bit::Zero, Bit::Zero],
        [Bit::One, Bit::One, Bit::Zero, Bit::Zero], [Bit::Zero, Bit::Zero, Bit::Zero, Bit::One], [Bit::Zero, Bit::Zero, Bit::One, Bit::One], [Bit::Zero, Bit::One, Bit::Zero, Bit::Zero],
        [Bit::Zero, Bit::One, Bit::One, Bit::One], [Bit::One, Bit::Zero, Bit::One, Bit::Zero], [Bit::One, Bit::One, Bit::One, Bit::Zero], [Bit::Zero, Bit::One, Bit::One, Bit::One],
        [Bit::One, Bit::Zero, Bit::One, Bit::Zero], [Bit::One, Bit::Zero, Bit::Zero, Bit::One], [Bit::One, Bit::One, Bit::One, Bit::One], [Bit::Zero, Bit::One, Bit::Zero, Bit::One],
        [Bit::Zero, Bit::One, Bit::One, Bit::Zero], [Bit::Zero, Bit::Zero, Bit::Zero, Bit::Zero], [Bit::One, Bit::Zero, Bit::Zero, Bit::Zero], [Bit::One, Bit::One, Bit::One, Bit::One],
        [Bit::Zero, Bit::Zero, Bit::Zero, Bit::Zero], [Bit::One, Bit::One, Bit::One, Bit::Zero], [Bit::Zero, Bit::One, Bit::Zero, Bit::One], [Bit::Zero, Bit::Zero, Bit::One, Bit::Zero],
        [Bit::One, Bit::Zero, Bit::Zero, Bit::One], [Bit::Zero, Bit::Zero, Bit::One, Bit::One], [Bit::Zero, Bit::Zero, Bit::One, Bit::Zero], [Bit::One, Bit::One, Bit::Zero, Bit::Zero],
    ],
    [
        [Bit::One, Bit::One, Bit::Zero, Bit::One], [Bit::Zero, Bit::Zero, Bit::Zero, Bit::One], [Bit::Zero, Bit::Zero, Bit::One, Bit::Zero], [Bit::One, Bit::One, Bit::One, Bit::One],
        [Bit::One, Bit::Zero, Bit::Zero, Bit::Zero], [Bit::One, Bit::One, Bit::Zero, Bit::One], [Bit::Zero, Bit::One, Bit::Zero, Bit::Zero], [Bit::One, Bit::Zero, Bit::Zero, Bit::Zero],
        [Bit::Zero, Bit::One, Bit::One, Bit::Zero], [Bit::One, Bit::Zero, Bit::One, Bit::Zero], [Bit::One, Bit::One, Bit::One, Bit::One], [Bit::Zero, Bit::Zero, Bit::One, Bit::One],
        [Bit::One, Bit::Zero, Bit::One, Bit::One], [Bit::Zero, Bit::One, Bit::One, Bit::One], [Bit::Zero, Bit::Zero, Bit::Zero, Bit::One], [Bit::Zero, Bit::One, Bit::Zero, Bit::Zero],
        [Bit::One, Bit::Zero, Bit::One, Bit::Zero], [Bit::One, Bit::One, Bit::Zero, Bit::Zero], [Bit::One, Bit::Zero, Bit::Zero, Bit::One], [Bit::Zero, Bit::One, Bit::Zero, Bit::One],
        [Bit::Zero, Bit::Zero, Bit::One, Bit::One], [Bit::Zero, Bit::One, Bit::One, Bit::Zero], [Bit::One, Bit::One, Bit::One, Bit::Zero], [Bit::One, Bit::Zero, Bit::One, Bit::One],
        [Bit::Zero, Bit::One, Bit::Zero, Bit::One], [Bit::Zero, Bit::Zero, Bit::Zero, Bit::Zero], [Bit::Zero, Bit::Zero, Bit::Zero, Bit::Zero], [Bit::One, Bit::One, Bit::One, Bit::Zero],
        [Bit::One, Bit::One, Bit::Zero, Bit::Zero], [Bit::One, Bit::Zero, Bit::Zero, Bit::One], [Bit::Zero, Bit::One, Bit::One, Bit::One], [Bit::Zero, Bit::Zero, Bit::One, Bit::Zero],
        [Bit::Zero, Bit::One, Bit::One, Bit::One], [Bit::Zero, Bit::Zero, Bit::One, Bit::Zero], [Bit::One, Bit::Zero, Bit::One, Bit::One], [Bit::Zero, Bit::Zero, Bit::Zero, Bit::One],
        [Bit::Zero, Bit::One, Bit::Zero, Bit::Zero], [Bit::One, Bit::One, Bit::One, Bit::Zero], [Bit::Zero, Bit::Zero, Bit::Zero, Bit::One], [Bit::Zero, Bit::One, Bit::One, Bit::One],
        [Bit::One, Bit::Zero, Bit::Zero, Bit::One], [Bit::Zero, Bit::One, Bit::Zero, Bit::Zero], [Bit::One, Bit::One, Bit::Zero, Bit::Zero], [Bit::One, Bit::Zero, Bit::One, Bit::Zero],
        [Bit::One, Bit::One, Bit::One, Bit::Zero], [Bit::One, Bit::Zero, Bit::Zero, Bit::Zero], [Bit::Zero, Bit::Zero, Bit::One, Bit::Zero], [Bit::One, Bit::One, Bit::Zero, Bit::One],
        [Bit::Zero, Bit::Zero, Bit::Zero, Bit::Zero], [Bit::One, Bit::One, Bit::One, Bit::One], [Bit::Zero, Bit::One, Bit::One, Bit::Zero], [Bit::One, Bit::One, Bit::Zero, Bit::Zero],
        [Bit::One, Bit::Zero, Bit::One, Bit::Zero], [Bit::One, Bit::Zero, Bit::Zero, Bit::One], [Bit::One, Bit::One, Bit::Zero, Bit::One], [Bit::Zero, Bit::Zero, Bit::Zero, Bit::Zero],
        [Bit::One, Bit::One, Bit::One, Bit::One], [Bit::Zero, Bit::Zero, Bit::One, Bit::One], [Bit::Zero, Bit::Zero, Bit::One, Bit::One], [Bit::Zero, Bit::One, Bit::Zero, Bit::One],
        [Bit::Zero, Bit::One, Bit::Zero, Bit::One], [Bit::Zero, Bit::One, Bit::One, Bit::Zero], [Bit::One, Bit::Zero, Bit::Zero, Bit::Zero], [Bit::One, Bit::Zero, Bit::One, Bit::One],
    ],
];

/// The bit vectors of a key schedule as plain sequences.
pub open spec fn keys_view(keys: Seq<Bits>) -> Seq<Seq<Bit>> {
    Seq::new(keys.len(), |i: int| keys[i]@)
}

/// Whether every round key has at most the 48 bits that a round takes.
pub open spec fn keys_fit(keys: Seq<Seq<Bit>>) -> bool {
    forall|i: int| 0 <= i < keys.len() ==> (#[trigger] keys[i]).len() <= 48
}

/// The sixteen round keys of a key: each is a selection of bits of the key. A
/// key shorter than eight bytes counts as filled up with zero bits, and
/// what a key has beyond eight bytes is not read.
pub open spec fn spec_key_schedule(key: Seq<u8>) -> Seq<Seq<Bit>> {
    Seq::new(16, |i: int| permute(bytes_to_bits(key), KEY_PC[i]@, Bit::Zero))
}

/// The length of the next group of bits that goes into a substitution box.
pub open spec fn group_len(len: nat) -> nat {
    if len < 6 {
        len
    } else {
        6
    }
}

/// Substitution: every group of six bits is replaced by the four bits that
/// stand in its box at the row the group spells. The first group goes
/// through the box `first`, the next through the box after it.
pub open spec fn spec_s_boxes(input: Seq<Bit>, first: int) -> Seq<Bit>
    decreases input.len(),
{
    if input.len() == 0 {
        Seq::empty()
    } else {
        let n = group_len(input.len()) as int;
        S_BOXES[first][bits_value(input.take(n)) as int]@ + spec_s_boxes(input.skip(n), first + 1)
    }
}

/// The round function: expand the half block, mix in the round key,
/// substitute, permute.
#[verifier::opaque]
pub open spec fn round_function(right: Seq<Bit>, sub_key: Seq<Bit>) -> Seq<Bit> {
    permute(spec_s_boxes(xor_bits(permute(right, E@, Bit::Zero), sub_key), 0), P@, Bit::Zero)
}

/// The two half blocks after the rounds from `from` on: each round makes the
/// right half the new left one, and the old left half mixed with the round
/// function of the right half the new right one.
pub open spec fn feistel(left: Seq<Bit>, right: Seq<Bit>, keys: Seq<Seq<Bit>>, from: int) -> (
    Seq<Bit>,
    Seq<Bit>,
)
    decreases keys.len() - from,
{
    if from < 0 || from >= keys.len() {
        (left, right)
    } else {
        feistel(right, xor_bits(round_function(right, keys[from]), left), keys, from + 1)
    }
}

/// The Feistel network between the two permutations: the block is split
/// into halves, goes through one round per key, and the halves are joined
/// the other way round.
pub open spec fn network(keys: Seq<Seq<Bit>>, block: Seq<Bit>) -> Seq<Bit> {
    let halves = feistel(block.subrange(0, 32), block.subrange(32, 64), keys, 0);
    halves.1 + halves.0
}

/// The transform of one block under a sequence of round keys: the initial
/// permutation, one round per key, the two halves swapped, the final
/// permutation. With the keys in reverse order it is the inverse transform.
pub open spec fn des_block(keys: Seq<Seq<Bit>>, block: Seq<Bit>) -> Seq<Bit> {
    permute(network(keys, permute(block, IP@, Bit::Zero)), FP@, Bit::Zero)
}

/// The block transform under a sequence of round keys, as a function.
pub open spec fn des_transform(keys: Seq<Seq<Bit>>) -> spec_fn(Seq<Bit>) -> Seq<Bit> {
    |block: Seq<Bit>| des_block(keys, block)
}

/// Derives the sixteen round keys of a key.
pub fn key_schedule(key: &Bytes) -> (sub_keys: Vec<Bits>)
    ensures
        keys_view(sub_keys@) == spec_key_schedule(key@),
        keys_fit(keys_view(sub_keys@)),
        sub_keys@.len() == 16,
{
    let key_bits: Bits = key.to_bits();
    let mut sub_keys: Vec<Bits> = Vec::with_capacity(16);
    let mut i: usize = 0;
    while i < 16
        invariant
            i <= 16,
            key_bits@ == bytes_to_bits(key@),
            sub_keys@.len() == i,
            forall|j: int| 0 <= j < i ==> (#[trigger] sub_keys@[j])@ == spec_key_schedule(key@)[j],
        decreases 16 - i,
    {
        let pc: &[usize; 48] = &KEY_PC[i];
        sub_keys.push(key_bits.permutation(pc.as_slice()));
        i += 1;
    }
    assert(keys_view(sub_keys@) =~= spec_key_schedule(key@));
    sub_keys
}

/// Substitutes up to 48 bits, six at a time, by the eight boxes.
pub fn s_boxes(input: &Bits) -> (r: Bits)
    requires
        input@.len() <= 48,
    ensures
        r@ == spec_s_boxes(input@, 0),
        r@.len() == 4 * ((input@.len() + 5) / 6),
{
    let bits: &[Bit] = input.deref();
    let mut result: Vec<Bit> = Vec::new();
    let mut start: usize = 0;
    let mut box_index: usize = 0;
    assert(bits@.skip(0) =~= bits@);
    while start < bits.len()
        invariant
            start <= bits.len(),
            bits@.len() <= 48,
            start == 6 * box_index || start == bits@.len(),
            start < bits@.len() ==> box_index < 8,
            result@.len() == 4 * ((start + 5) / 6),
            result@ + spec_s_boxes(bits@.skip(start as int), box_index as int) == spec_s_boxes(
                bits@,
                0,
            ),
        decreases bits.len() - start,
    {
        let end = if bits.len() - start < 6 {
            bits.len()
        } else {
            start + 6
        };
        let chunk = Bits::new(slice_to_vec(slice_subrange(bits, start, end)));
        proof {
            lemma_bits_value_bound(chunk@);
            vstd::arithmetic::power2::lemma2_to64();
            if chunk@.len() < 6 {
                vstd::arithmetic::power2::lemma_pow2_strictly_increases(chunk@.len(), 6);
            }
            vstd::arithmetic::div_mod::lemma_small_mod(bits_value(chunk@), word_modulus());
            assert(bits@.skip(start as int).take(end - start) =~= chunk@);
            assert(bits@.skip(start as int).skip(end - start) =~= bits@.skip(end as int));
        }
        let s_box: &[[Bit; 4]; 64] = &S_BOXES[box_index];
        let substituted_bits = chunk.substitution(s_box.as_slice());
        let ghost before = result@;
        result.extend_from_slice(substituted_bits.deref());
        proof {
            let rest = spec_s_boxes(bits@.skip(end as int), box_index + 1);
            assert(result@ =~= before + substituted_bits@);
            assert(before + substituted_bits@ + rest =~= before + (substituted_bits@ + rest));
        }
        start = end;
        box_index += 1;
    }
    assert(result@ + spec_s_boxes(bits@.skip(start as int), box_index as int) =~= result@);
    Bits::new(result)
}

/// Transforms one block under the round keys `sub_keys`, taken in order.
pub fn crypt_block(sub_keys: &[Bits], block: &[Bit]) -> (r: Bits)
    requires
        keys_fit(keys_view(sub_keys@)),
    ensures
        r@ == des_block(keys_view(sub_keys@), block@),
        r@.len() == 64,
{
    let ghost keys = keys_view(sub_keys@);
    let permuted_block = Bits::new(slice_to_vec(block)).permutation(IP.as_slice());
    let halves: &[Bit] = permuted_block.deref();
    let mut left = Bits::new(slice_to_vec(slice_subrange(halves, 0, 32)));
    let mut right = Bits::new(slice_to_vec(slice_subrange(halves, 32, 64)));
    let mut round: usize = 0;
    while round < sub_keys.len()
        invariant
            round <= sub_keys.len(),
            keys == keys_view(sub_keys@),
            keys_fit(keys),
            left@.len() == 32,
            right@.len() == 32,
            feistel(left@, right@, keys, round as int) == feistel(
                permuted_block@.subrange(0, 32),
                permuted_block@.subrange(32, 64),
                keys,
                0,
            ),
        decreases sub_keys.len() - round,
    {
        let sub_key = &sub_keys[round];
        proof {
            reveal(round_function);
            assert(keys[round as int] == sub_key@);
        }
        let expanded_right = right.permutation(E.as_slice());
        let xor_result = expanded_right.xor(sub_key);
        let substituted_result = s_boxes(&xor_result);
        let permuted_result = substituted_result.permutation(P.as_slice());
        let new_right = permuted_result.xor(&left);
        left = right;
        right = new_right;
        round += 1;
    }
    let mut final_bits: Vec<Bit> = slice_to_vec(right.deref());
    final_bits.extend_from_slice(left.deref());
    assert(final_bits@ =~= right@ + left@);
    Bits::new(final_bits).permutation(FP.as_slice())
}

/// The block transform under the round keys `sub_keys`, as a closure for a
/// mode of operation.
pub fn block_crypt<'a>(sub_keys: &'a [Bits]) -> (f: impl Fn(&[Bit]) -> Bits + 'a)
    requires
        keys_fit(keys_view(sub_keys@)),
    ensures
        total_bits(f),
        computes_bits(f, des_transform(keys_view(sub_keys@))),
{
    move |block: &[Bit]| -> (out: Bits)
        requires
            keys_fit(keys_view(sub_keys@)),
        ensures
            out@ == des_block(keys_view(sub_keys@), block@),
        { crypt_block(sub_keys, block) }
}

/// The three single keys of a triple key. A key of exactly sixteen bytes
/// gives two keys, the first of which is also the third; any other key is
/// brought to 24 bytes, by zero bytes at its end or by cutting its end, and
/// gives three.
pub open spec fn triple_keys(key: Seq<u8>) -> (Seq<u8>, Seq<u8>, Seq<u8>) {
    if key.len() == 16 {
        (key.subrange(0, 8), key.subrange(8, 16), key.subrange(0, 8))
    } else {
        let full = resize(key, 24, 0u8);
        (full.subrange(0, 8), full.subrange(8, 16), full.subrange(16, 24))
    }
}

/// Three block transforms in a row.
pub open spec fn triple_block(
    first: Seq<Seq<Bit>>,
    second: Seq<Seq<Bit>>,
    third: Seq<Seq<Bit>>,
    block: Seq<Bit>,
) -> Seq<Bit> {
    des_block(third, des_block(second, des_block(first, block)))
}

/// Three block transforms in a row, as a function.
pub open spec fn triple_transform(
    first: Seq<Seq<Bit>>,
    second: Seq<Seq<Bit>>,
    third: Seq<Seq<Bit>>,
) -> spec_fn(Seq<Bit>) -> Seq<Bit> {
    |block: Seq<Bit>| triple_block(first, second, third, block)
}

/// Triple encryption of a block: encrypt with the first key, decrypt with
/// the second, encrypt with the third.
pub open spec fn triple_encrypt_transform(key: Seq<u8>) -> spec_fn(Seq<Bit>) -> Seq<Bit> {
    let keys = triple_keys(key);
    triple_transform(
        spec_key_schedule(keys.0),
        spec_key_schedule(keys.1).reverse(),
        spec_key_schedule(keys.2),
    )
}

/// Triple decryption of a block: decrypt with the third key, encrypt with
/// the second, decrypt with the first.
pub open spec fn triple_decrypt_transform(key: Seq<u8>) -> spec_fn(Seq<Bit>) -> Seq<Bit> {
    let keys = triple_keys(key);
    triple_transform(
        spec_key_schedule(keys.2).reverse(),
        spec_key_schedule(keys.1),
        spec_key_schedule(keys.0).reverse(),
    )
}

/// Splits a triple key into its three single keys.
pub fn split_key(key: &Bytes) -> (keys: (Bytes, Bytes, Bytes))
    ensures
        (keys.0@, keys.1@, keys.2@) == triple_keys(key@),
{
    let bytes: &[u8] = key.deref();
    if bytes.len() == 16 {
        (
            Bytes::from_slice(slice_subrange(bytes, 0, 8)),
            Bytes::from_slice(slice_subrange(bytes, 8, 16)),
            Bytes::from_slice(slice_subrange(bytes, 0, 8)),
        )
    } else {
        let mut full = slice_to_vec(bytes);
        full.resize(24, 0);
        assert(full@ =~= resize(key@, 24, 0u8));
        (
            Bytes::from_slice(slice_subrange(full.as_slice(), 0, 8)),
            Bytes::from_slice(slice_subrange(full.as_slice(), 8, 16)),
            Bytes::from_slice(slice_subrange(full.as_slice(), 16, 24)),
        )
    }
}

/// Sends one block through three key schedules in a row.
pub fn crypt_block3(first: &[Bits], second: &[Bits], third: &[Bits], block: &[Bit]) -> (r: Bits)
    requires
        keys_fit(keys_view(first@)),
        keys_fit(keys_view(second@)),
        keys_fit(keys_view(third@)),
    ensures
        r@ == triple_block(keys_view(first@), keys_view(second@), keys_view(third@), block@),
{
    let one = crypt_block(first, block);
    let two = crypt_block(second, one.deref());
    crypt_block(third, two.deref())
}

/// Three block transforms in a row, as a closure for a mode of operation.
pub fn triple_block_crypt<'a>(first: &'a [Bits], second: &'a [Bits], third: &'a [Bits]) -> (f:
    impl Fn(&[Bit]) -> Bits + 'a)
    requires
        keys_fit(keys_view(first@)),
        keys_fit(keys_view(second@)),
        keys_fit(keys_view(third@)),
    ensures
        total_bits(f),
        computes_bits(
            f,
            triple_transform(keys_view(first@), keys_view(second@), keys_view(third@)),
        ),
{
    move |block: &[Bit]| -> (out: Bits)
        requires
            keys_fit(keys_view(first@)),
            keys_fit(keys_view(second@)),
            keys_fit(keys_view(third@)),
        ensures
            out@ == triple_block(
                keys_view(first@),
                keys_view(second@),
                keys_view(third@),
                block@,
            ),
        { crypt_block3(first, second, third, block) }
}

/// The round keys in reverse order.
pub fn reversed(sub_keys: Vec<Bits>) -> (r: Vec<Bits>)
    ensures
        keys_view(r@) == keys_view(sub_keys@).reverse(),
        keys_fit(keys_view(sub_keys@)) ==> keys_fit(keys_view(r@)),
        r@.len() == sub_keys@.len(),
{
    let mut out: Vec<Bits> = Vec::with_capacity(sub_keys.len());
    let mut i: usize = sub_keys.len();
    while i > 0
        invariant
            i <= sub_keys.len(),
            out@.len() == sub_keys.len() - i,
            forall|j: int|
                0 <= j < out@.len() ==> (#[trigger] out@[j])@ == sub_keys@[sub_keys.len() - 1 - j]@,
        decreases i,
    {
        i -= 1;
        out.push(sub_keys[i].clone());
    }
    assert(keys_view(out@) =~= keys_view(sub_keys@).reverse());
    assert(keys_fit(keys_view(sub_keys@)) ==> keys_fit(keys_view(out@))) by {
        if keys_fit(keys_view(sub_keys@)) {
            assert forall|j: int| 0 <= j < keys_view(out@).len() implies (#[trigger] keys_view(
                out@,
            )[j]).len() <= 48 by {
                assert(keys_view(out@)[j] == keys_view(sub_keys@)[sub_keys@.len() - 1 - j]);
            }
        }
    }
    out
}

/// The initial and the final permutation undo each other.
pub proof fn lemma_permutations_inverse()
    ensures
        forall|i: int| 0 <= i < 64 ==> 0 <= #[trigger] IP[i] < 64 && FP[IP[i] as int] == i,
        forall|i: int| 0 <= i < 64 ==> 0 <= #[trigger] FP[i] < 64 && IP[FP[i] as int] == i,
{
}

/// On a block of 64 bits, the final permutation after the initial one, and
/// the initial one after the final one, change nothing.
pub proof fn lemma_permuted_back(block: Seq<Bit>)
    requires
        block.len() == 64,
    ensures
        permute(permute(block, IP@, Bit::Zero), FP@, Bit::Zero) == block,
        permute(permute(block, FP@, Bit::Zero), IP@, Bit::Zero) == block,
{
    lemma_permutations_inverse();
    let there = permute(block, IP@, Bit::Zero);
    assert forall|i: int| 0 <= i < 64 implies permute(there, FP@, Bit::Zero)[i] == block[i] by {
        assert(IP[FP[i] as int] == i);
    }
    assert(permute(there, FP@, Bit::Zero) =~= block);
    let back = permute(block, FP@, Bit::Zero);
    assert forall|i: int| 0 <= i < 64 implies permute(back, IP@, Bit::Zero)[i] == block[i] by {
        assert(FP[IP[i] as int] == i);
    }
    assert(permute(back, IP@, Bit::Zero) =~= block);
}

/// The round function gives 32 bits.
pub proof fn lemma_round_len(right: Seq<Bit>, sub_key: Seq<Bit>)
    ensures
        round_function(right, sub_key).len() == 32,
{
    reveal(round_function);
}

/// The rounds from `from + 1` on are the rounds from `from` on of the keys
/// without the first.
pub proof fn lemma_feistel_shift(left: Seq<Bit>, right: Seq<Bit>, keys: Seq<Seq<Bit>>, from: int)
    requires
        keys.len() >= 1,
        from >= 0,
    ensures
        feistel(left, right, keys, from + 1) == feistel(left, right, keys.skip(1), from),
    decreases keys.len() - from,
{
    if from + 1 < keys.len() {
        assert(keys.skip(1)[from] == keys[from + 1]);
        lemma_feistel_shift(
            right,
            xor_bits(round_function(right, keys[from + 1]), left),
            keys,
            from + 1,
        );
    }
}

/// One more key at the end is one more round at the end.
pub proof fn lemma_feistel_last(
    left: Seq<Bit>,
    right: Seq<Bit>,
    keys: Seq<Seq<Bit>>,
    last: Seq<Bit>,
    from: int,
)
    requires
        0 <= from <= keys.len(),
    ensures
        feistel(left, right, keys.push(last), from) == ({
            let halves = feistel(left, right, keys, from);
            (halves.1, xor_bits(round_function(halves.1, last), halves.0))
        }),
    decreases keys.len() - from,
{
    let longer = keys.push(last);
    if from < keys.len() {
        assert(longer[from] == keys[from]);
        lemma_feistel_last(
            right,
            xor_bits(round_function(right, keys[from]), left),
            keys,
            last,
            from + 1,
        );
    } else {
        assert(longer[from] == last);
        assert(feistel(right, xor_bits(round_function(right, last), left), longer, from + 1) == (
            right,
            xor_bits(round_function(right, last), left),
        ));
    }
}

/// The rounds under the keys in reverse order, started from the swapped
/// halves, give back the swapped halves that the rounds started from.
pub proof fn lemma_feistel_inverse(left: Seq<Bit>, right: Seq<Bit>, keys: Seq<Seq<Bit>>)
    requires
        left.len() == 32,
        right.len() == 32,
    ensures
        ({
            let halves = feistel(left, right, keys, 0);
            &&& halves.0.len() == 32
            &&& halves.1.len() == 32
            &&& feistel(halves.1, halves.0, keys.reverse(), 0) == (right, left)
        }),
    decreases keys.len(),
{
    if keys.len() > 0 {
        let rest = keys.skip(1);
        let mask = round_function(right, keys[0]);
        let next = xor_bits(mask, left);
        lemma_round_len(right, keys[0]);
        lemma_xor_bits_cancel(mask, left);
        lemma_feistel_shift(right, next, keys, 0);
        let halves = feistel(right, next, rest, 0);
        assert(feistel(left, right, keys, 0) == halves);
        lemma_feistel_inverse(right, next, rest);
        assert(keys.reverse() =~= rest.reverse().push(keys[0]));
        lemma_feistel_last(halves.1, halves.0, rest.reverse(), keys[0], 0);
    }
}

/// The network under the keys in reverse order undoes the network under
/// the keys, on every block of 64 bits.
pub proof fn lemma_network_inverse(keys: Seq<Seq<Bit>>, block: Seq<Bit>)
    requires
        block.len() == 64,
    ensures
        network(keys.reverse(), network(keys, block)) == block,
        network(keys, block).len() == 64,
{
    let left = block.subrange(0, 32);
    let right = block.subrange(32, 64);
    let halves = feistel(left, right, keys, 0);
    lemma_feistel_inverse(left, right, keys);
    let joined = halves.1 + halves.0;
    assert(joined.subrange(0, 32) =~= halves.1);
    assert(joined.subrange(32, 64) =~= halves.0);
    assert(left + right =~= block);
}

/// The transform under the keys in reverse order undoes the transform
/// under the keys, on every block of 64 bits.
pub proof fn lemma_des_inverse(keys: Seq<Seq<Bit>>, block: Seq<Bit>)
    requires
        block.len() == 64,
    ensures
        des_block(keys.reverse(), des_block(keys, block)) == block,
        des_block(keys, block).len() == 64,
{
    let permuted = permute(block, IP@, Bit::Zero);
    assert(permuted.len() == 64);
    let crossed = network(keys, permuted);
    lemma_network_inverse(keys, permuted);
    lemma_permuted_back(crossed);
    lemma_permuted_back(block);
}

/// Triple decryption undoes triple encryption, on every block of 64 bits.
pub proof fn lemma_triple_inverse(key: Seq<u8>, block: Seq<Bit>)
    requires
        block.len() == 64,
    ensures
        triple_decrypt_transform(key)(triple_encrypt_transform(key)(block)) == block,
        triple_encrypt_transform(key)(block).len() == 64,
{
    let keys = triple_keys(key);
    let one = spec_key_schedule(keys.0);
    let two = spec_key_schedule(keys.1);
    let three = spec_key_schedule(keys.2);
    let a = des_block(one, block);
    lemma_des_inverse(one, block);
    let b = des_block(two.reverse(), a);
    lemma_des_inverse(two.reverse(), a);
    assert(two.reverse().reverse() =~= two);
    let c = des_block(three, b);
    lemma_des_inverse(three, b);
}

/// The functions that the DES operations hand to a mode keep blocks of 64
/// bits at their length, and the one for decryption undoes the one for
/// encryption.
pub proof fn lemma_des_transforms(keys: Seq<Seq<Bit>>)
    ensures
        crate::mode::keeps_len_bits(des_transform(keys), 64),
        crate::mode::undoes_bits(des_transform(keys.reverse()), des_transform(keys), 64),
{
    assert forall|block: Seq<Bit>| block.len() == 64 implies (#[trigger] des_transform(keys)(
        block,
    )).len() == 64 && des_transform(keys.reverse())(des_transform(keys)(block)) == block by {
        lemma_des_inverse(keys, block);
    }
}

/// The same for the triple-DES operations.
pub proof fn lemma_triple_transforms(key: Seq<u8>)
    ensures
        crate::mode::keeps_len_bits(triple_encrypt_transform(key), 64),
        crate::mode::undoes_bits(triple_decrypt_transform(key), triple_encrypt_transform(key), 64),
{
    assert forall|block: Seq<Bit>| block.len() == 64 implies (#[trigger] triple_encrypt_transform(
        key,
    )(block)).len() == 64 && triple_decrypt_transform(key)(triple_encrypt_transform(key)(block))
        == block by {
        lemma_triple_inverse(key, block);
    }
}

} // verus!
