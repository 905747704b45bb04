//! A toolkit of cryptographic primitives with machine-checked contracts.
//!
//! The core of the crate is the block-cipher stack: bit and byte containers,
//! padding schemes, modes of operation and the DES / triple-DES Feistel
//! engine. Around it stand encodings, stream ciphers, hash functions and the
//! `Recipe` pipeline that chains such stages.
use vstd::prelude::*;

pub mod aes;
pub mod base64;
pub mod bits;
pub mod bytes;
pub mod des;
pub mod enums;
pub mod hex;
pub mod hmac;
pub mod md5;
pub mod mode;
pub mod operation;
pub mod padding;
pub mod rc4;
pub mod recipe;
pub mod rot;
pub mod rot13;
pub mod sha1;
pub mod sha2;
pub mod sha256;
pub mod sm3;
pub mod sm4;
pub mod tea;
pub mod types;
pub mod vector;
pub mod word;

verus! {

/// Adds two numbers. The sum has to fit in 64 bits.
pub fn add(left: u64, right: u64) -> (sum: u64)
    requires
        left + right <= u64::MAX,
    ensures
        sum == left + right,
{
    left + right
}

} // verus!
