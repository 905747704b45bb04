//! Modes of operation: how a transform of one block is carried across a
//! whole message.
//!
//! Every mode offers a bit path and a byte path. The block transform is a
//! closure; a contract speaks of it through every mathematical function that
//! the closure's own contract makes it compute (`computes_bits`,
//! `computes_bytes`).
use crate::bits::Bits;
use crate::bytes::Bytes;
use crate::enums::{Bit, BlockSize};
use crate::types::{outcome, Error};
use crate::vector::resize;
use std::ops::Deref;
use vstd::prelude::*;
use vstd::slice::slice_to_vec;

mod cbc;
mod cfb;
mod ctr;
mod ecb;
mod gcm;
mod ofb;

pub use cbc::{
    cbc_bits_decrypt, cbc_bits_encrypt, cbc_bytes_decrypt, cbc_bytes_encrypt,
    lemma_cbc_bits_round_trip, lemma_cbc_bytes_round_trip, Cbc,
};
pub use cfb::{
    cfb_bits_decrypt, cfb_bits_encrypt, cfb_bytes_decrypt, cfb_bytes_encrypt,
    lemma_cfb_bits_round_trip, lemma_cfb_bytes_round_trip, Cfb,
};
pub use ctr::{ctr_bits, ctr_bytes, lemma_ctr_bits_round_trip, lemma_ctr_bytes_round_trip, Ctr};
pub use ecb::{
    bits_crypt, bytes_crypt, ecb_bits, ecb_bytes, lemma_ecb_bits_round_trip,
    lemma_ecb_bytes_round_trip, Ecb,
};
pub use gcm::{
    auth_blocks, block_word, block_words, gcm_counter, gcm_crypt, gcm_decrypt, gcm_encrypt,
    gcm_hash_key, gcm_tag, gf_mul, gf_mul_from, ghash, ghash_u128, gmul_u128, goes_through,
    lemma_gcm_refuses_changed_tag, lemma_gcm_releases_only_authentic, lemma_gcm_round_trip,
    lemma_lifted_keeps_len, length_block, lifted, through_bits, word_bytes, Gcm,
};
pub use ofb::{lemma_ofb_bits_round_trip, lemma_ofb_bytes_round_trip, ofb_bits, ofb_bytes, Ofb};

verus! {

/// The length of the first block of a message of `len` bytes.
pub open spec fn block_len(len: nat, bs: nat) -> nat {
    if len < bs {
        len
    } else {
        bs
    }
}

/// The first block of a message: `bs` bytes, or all of it if it is shorter.
pub open spec fn head(input: Seq<u8>, bs: nat) -> Seq<u8> {
    input.take(block_len(input.len(), bs) as int)
}

/// The message without its first block.
pub open spec fn tail(input: Seq<u8>, bs: nat) -> Seq<u8> {
    input.skip(block_len(input.len(), bs) as int)
}

/// The closure `f` computes the function `t` on bit blocks: whatever it
/// returns for a block is `t` of that block.
pub open spec fn computes_bits<F: Fn(&[Bit]) -> Bits>(
    f: F,
    t: spec_fn(Seq<Bit>) -> Seq<Bit>,
) -> bool {
    forall|block: &[Bit], out: Bits| #[trigger] call_ensures(f, (block,), out) ==> out@ == t(block@)
}

/// The closure `f` computes the function `t` on byte blocks.
pub open spec fn computes_bytes<F: Fn(&[u8]) -> Bytes>(
    f: F,
    t: spec_fn(Seq<u8>) -> Seq<u8>,
) -> bool {
    forall|block: &[u8], out: Bytes| #[trigger] call_ensures(f, (block,), out) ==> out@ == t(block@)
}

/// The closure `f` may be called on every bit block.
pub open spec fn total_bits<F: Fn(&[Bit]) -> Bits>(f: F) -> bool {
    forall|block: &[Bit]| #[trigger] call_requires(f, (block,))
}

/// The closure `f` may be called on every byte block.
pub open spec fn total_bytes<F: Fn(&[u8]) -> Bytes>(f: F) -> bool {
    forall|block: &[u8]| #[trigger] call_requires(f, (block,))
}

/// The function `t` maps every block of `n` bits to a block of `n` bits.
pub open spec fn keeps_len_bits(t: spec_fn(Seq<Bit>) -> Seq<Bit>, n: nat) -> bool {
    forall|block: Seq<Bit>| block.len() == n ==> (#[trigger] t(block)).len() == n
}

/// The function `t` maps every block of `n` bytes to a block of `n` bytes.
pub open spec fn keeps_len_bytes(t: spec_fn(Seq<u8>) -> Seq<u8>, n: nat) -> bool {
    forall|block: Seq<u8>| block.len() == n ==> (#[trigger] t(block)).len() == n
}

/// On blocks of `n` bits, `back` undoes `t`.
pub open spec fn undoes_bits(
    back: spec_fn(Seq<Bit>) -> Seq<Bit>,
    t: spec_fn(Seq<Bit>) -> Seq<Bit>,
    n: nat,
) -> bool {
    forall|block: Seq<Bit>| block.len() == n ==> back(#[trigger] t(block)) == block
}

/// On blocks of `n` bytes, `back` undoes `t`.
pub open spec fn undoes_bytes(
    back: spec_fn(Seq<u8>) -> Seq<u8>,
    t: spec_fn(Seq<u8>) -> Seq<u8>,
    n: nat,
) -> bool {
    forall|block: Seq<u8>| block.len() == n ==> back(#[trigger] t(block)) == block
}

/// A mode of operation.
pub trait Mode {
    /// The ciphertext of `input` when the block transform on bits is `t`.
    spec fn spec_bits_encrypt(
        &self,
        input: Seq<u8>,
        block_size: BlockSize,
        t: spec_fn(Seq<Bit>) -> Seq<Bit>,
    ) -> Result<Seq<u8>, Error>;

    /// The plaintext of `input` when the block transform on bits is `t`.
    spec fn spec_bits_decrypt(
        &self,
        input: Seq<u8>,
        block_size: BlockSize,
        t: spec_fn(Seq<Bit>) -> Seq<Bit>,
    ) -> Result<Seq<u8>, Error>;

    /// The ciphertext of `input` when the block transform on bytes is `t`.
    spec fn spec_bytes_encrypt(
        &self,
        input: Seq<u8>,
        block_size: BlockSize,
        t: spec_fn(Seq<u8>) -> Seq<u8>,
    ) -> Result<Seq<u8>, Error>;

    /// The plaintext of `input` when the block transform on bytes is `t`.
    spec fn spec_bytes_decrypt(
        &self,
        input: Seq<u8>,
        block_size: BlockSize,
        t: spec_fn(Seq<u8>) -> Seq<u8>,
    ) -> Result<Seq<u8>, Error>;

    /// Whether decryption runs the block transform backwards. Modes that
    /// only use the transform to make a key stream answer `false`: they
    /// take the forward transform in both directions.
    spec fn spec_inverts_on_decrypt(&self) -> bool;

    /// Tells whether decryption has to be handed the inverse block
    /// transform.
    fn inverts_on_decrypt(&self) -> (b: bool)
        ensures
            b == self.spec_inverts_on_decrypt(),
    ;

    /// Decryption undoes encryption on the bit path, for a message of whole
    /// blocks and a transform that keeps the block length. A mode that
    /// inverts blocks needs the transform `backward`, which undoes
    /// `forward`; any other mode decrypts with `forward` itself.
    proof fn lemma_bits_round_trip(
        &self,
        input: Seq<u8>,
        block_size: BlockSize,
        forward: spec_fn(Seq<Bit>) -> Seq<Bit>,
        backward: spec_fn(Seq<Bit>) -> Seq<Bit>,
    )
        requires
            input.len() % block_size.spec_size() == 0,
            keeps_len_bits(forward, 8 * block_size.spec_size()),
            self.spec_inverts_on_decrypt() ==> undoes_bits(
                backward,
                forward,
                8 * block_size.spec_size(),
            ),
            self.spec_bits_encrypt(input, block_size, forward) is Ok,
        ensures
            self.spec_bits_decrypt(
                self.spec_bits_encrypt(input, block_size, forward)->Ok_0,
                block_size,
                if self.spec_inverts_on_decrypt() {
                    backward
                } else {
                    forward
                },
            ) == Ok::<Seq<u8>, Error>(input),
    ;

    /// Decryption undoes encryption on the byte path, under the same
    /// conditions.
    proof fn lemma_bytes_round_trip(
        &self,
        input: Seq<u8>,
        block_size: BlockSize,
        forward: spec_fn(Seq<u8>) -> Seq<u8>,
        backward: spec_fn(Seq<u8>) -> Seq<u8>,
    )
        requires
            input.len() % block_size.spec_size() == 0,
            keeps_len_bytes(forward, block_size.spec_size()),
            self.spec_inverts_on_decrypt() ==> undoes_bytes(
                backward,
                forward,
                block_size.spec_size(),
            ),
            self.spec_bytes_encrypt(input, block_size, forward) is Ok,
        ensures
            self.spec_bytes_decrypt(
                self.spec_bytes_encrypt(input, block_size, forward)->Ok_0,
                block_size,
                if self.spec_inverts_on_decrypt() {
                    backward
                } else {
                    forward
                },
            ) == Ok::<Seq<u8>, Error>(input),
    ;

    /// Decrypts `input` block by block, on bits.
    fn bits_decrypt<F: Fn(&[Bit]) -> Bits>(
        &self,
        input: &[u8],
        block_size: BlockSize,
        block_decrypt: F,
    ) -> (r: Result<Bytes, Error>)
        requires
            total_bits(block_decrypt),
        ensures
            forall|t: spec_fn(Seq<Bit>) -> Seq<Bit>|
                computes_bits(block_decrypt, t) ==> outcome(r) == #[trigger] self.spec_bits_decrypt(
                    input@,
                    block_size,
                    t,
                ),
    ;

    /// Encrypts `input` block by block, on bits.
    fn bits_encrypt<F: Fn(&[Bit]) -> Bits>(
        &self,
        input: &[u8],
        block_size: BlockSize,
        block_encrypt: F,
    ) -> (r: Result<Bytes, Error>)
        requires
            total_bits(block_encrypt),
        ensures
            forall|t: spec_fn(Seq<Bit>) -> Seq<Bit>|
                computes_bits(block_encrypt, t) ==> outcome(r) == #[trigger] self.spec_bits_encrypt(
                    input@,
                    block_size,
                    t,
                ),
    ;

    /// Decrypts `input` block by block, on bytes.
    fn bytes_decrypt<F: Fn(&[u8]) -> Bytes>(
        &self,
        input: &[u8],
        block_size: BlockSize,
        block_decrypt: F,
    ) -> (r: Result<Bytes, Error>)
        requires
            total_bytes(block_decrypt),
        ensures
            forall|t: spec_fn(Seq<u8>) -> Seq<u8>|
                computes_bytes(block_decrypt, t) ==> outcome(r)
                    == #[trigger] self.spec_bytes_decrypt(input@, block_size, t),
    ;

    /// Encrypts `input` block by block, on bytes.
    fn bytes_encrypt<F: Fn(&[u8]) -> Bytes>(
        &self,
        input: &[u8],
        block_size: BlockSize,
        block_encrypt: F,
    ) -> (r: Result<Bytes, Error>)
        requires
            total_bytes(block_encrypt),
        ensures
            forall|t: spec_fn(Seq<u8>) -> Seq<u8>|
                computes_bytes(block_encrypt, t) ==> outcome(r)
                    == #[trigger] self.spec_bytes_encrypt(input@, block_size, t),
    ;
}

/// The feedback register that a mode starts with: the initialization vector
/// brought to the length of one block, by zero bytes at its end or by
/// cutting its end.
pub fn register(iv: &Bytes, bs: usize) -> (r: Bytes)
    ensures
        r@ == resize(iv@, bs as nat, 0u8),
{
    let mut bytes = slice_to_vec(iv.deref());
    bytes.resize(bs, 0);
    assert(bytes@ =~= resize(iv@, bs as nat, 0u8));
    Bytes::new(bytes)
}

/// The index where the block that starts at `start` ends.
pub fn block_end(len: usize, start: usize, bs: usize) -> (end: usize)
    requires
        start < len,
        bs > 0,
    ensures
        end == start + block_len((len - start) as nat, bs as nat),
        start < end <= len,
{
    if len - start < bs {
        len
    } else {
        start + bs
    }
}

/// The block that starts at `start` is the head of what is left of the
/// message there, and what follows it is the tail.
pub proof fn lemma_next_block(input: Seq<u8>, bs: nat, start: int, end: int)
    requires
        0 <= start < input.len(),
        bs > 0,
        end == start + block_len((input.len() - start) as nat, bs),
    ensures
        head(input.skip(start), bs) == input.subrange(start, end),
        tail(input.skip(start), bs) == input.skip(end),
        input.skip(start).len() > 0,
{
    assert(head(input.skip(start), bs) =~= input.subrange(start, end));
    assert(tail(input.skip(start), bs) =~= input.skip(end));
}

/// A message of whole blocks that is not empty splits into a first block of
/// full length and a rest of whole blocks.
pub proof fn lemma_whole_blocks(input: Seq<u8>, bs: nat)
    requires
        bs > 0,
        input.len() > 0,
        input.len() % bs == 0,
    ensures
        head(input, bs).len() == bs,
        tail(input, bs).len() == input.len() - bs,
        tail(input, bs).len() % bs == 0,
        head(input, bs) + tail(input, bs) == input,
{
    if input.len() < bs {
        vstd::arithmetic::div_mod::lemma_small_mod(input.len(), bs);
    }
    vstd::arithmetic::div_mod::lemma_mod_sub_multiples_vanish(input.len() as int, bs as int);
    if input.len() - bs < bs {
        vstd::arithmetic::div_mod::lemma_small_mod((input.len() - bs) as nat, bs);
    } else {
        vstd::arithmetic::div_mod::lemma_mod_bound(input.len() - bs, bs as int);
    }
    assert(head(input, bs) + tail(input, bs) =~= input);
}

/// A block of full length in front of a rest is the head of the whole, and
/// the rest is its tail.
pub proof fn lemma_block_in_front(block: Seq<u8>, rest: Seq<u8>, bs: nat)
    requires
        bs > 0,
        block.len() == bs,
    ensures
        head(block + rest, bs) == block,
        tail(block + rest, bs) == rest,
        (block + rest).len() > 0,
{
    assert(head(block + rest, bs) =~= block);
    assert(tail(block + rest, bs) =~= rest);
}

} // verus!
