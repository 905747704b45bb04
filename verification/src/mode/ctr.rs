use crate::bits::{
    bits_to_bytes, bytes_to_bits, incremented_bits, lemma_bit_block, lemma_bytes_bits_round_trip,
    lemma_xor_bits_involution, xor_bits, Bits,
};
use crate::bytes::{incremented, lemma_xor_bytes_involution, xor_bytes, Bytes};
use crate::enums::{Bit, BlockSize};
use crate::mode::{
    block_end, computes_bits, computes_bytes, head, keeps_len_bits, keeps_len_bytes,
    lemma_block_in_front, lemma_next_block, lemma_whole_blocks, register, tail, total_bits,
    total_bytes, Mode,
};
use crate::types::Error;
use crate::vector::resize;
use std::ops::Deref;
use vstd::prelude::*;
use vstd::slice::slice_subrange;

verus! {

/// Counter mode on bits: the transform of the counter is mixed into each
/// block, and the counter's last 32 bits count up by one per block.
/// Encryption and decryption are the same.
pub open spec fn ctr_bits(
    t: spec_fn(Seq<Bit>) -> Seq<Bit>,
    register: Seq<Bit>,
    input: Seq<u8>,
    bs: nat,
) -> Seq<u8>
    decreases input.len(),
{
    if input.len() == 0 || bs == 0 {
        Seq::empty()
    } else {
        let mask = t(register);
        bits_to_bytes(xor_bits(bytes_to_bits(head(input, bs)), mask)) + ctr_bits(
            t,
            incremented_bits(register, 32),
            tail(input, bs),
            bs,
        )
    }
}

/// Counter mode on bytes: the counter's last four bytes count up by one per
/// block.
pub open spec fn ctr_bytes(
    t: spec_fn(Seq<u8>) -> Seq<u8>,
    register: Seq<u8>,
    input: Seq<u8>,
    bs: nat,
) -> Seq<u8>
    decreases input.len(),
{
    if input.len() == 0 || bs == 0 {
        Seq::empty()
    } else {
        let mask = t(register);
        xor_bytes(head(input, bs), mask) + ctr_bytes(
            t,
            incremented(register, 4),
            tail(input, bs),
            bs,
        )
    }
}

/// Counter mode. No block depends on another, so both directions can work
/// on all blocks at once.
#[derive(Debug)]
pub struct Ctr {
    pub iv: Bytes,
}

impl Clone for Ctr {
    fn clone(&self) -> (r: Ctr)
        ensures
            r.iv@ == self.iv@,
    {
        Ctr { iv: self.iv.clone() }
    }
}

impl Ctr {
    /// The mode with the given initialization vector. A vector shorter than
    /// a block is filled up with zero bytes at its end, a longer one is cut.
    pub fn new(iv: &[u8]) -> (r: Ctr)
        ensures
            r.iv@ == iv@,
    {
        Ctr { iv: Bytes::from_slice(iv) }
    }

    /// Encrypts or decrypts `input` on bits.
    pub fn bits_crypt<F: Fn(&[Bit]) -> Bits>(
        &self,
        input: &[u8],
        block_size: BlockSize,
        block_crypt: F,
    ) -> (r: Bytes)
        requires
            total_bits(block_crypt),
        ensures
            forall|t: spec_fn(Seq<Bit>) -> Seq<Bit>|
                computes_bits(block_crypt, t) ==> r@ == #[trigger] ctr_bits(
                    t,
                    bytes_to_bits(resize(self.iv@, block_size.spec_size(), 0u8)),
                    input@,
                    block_size.spec_size(),
                ),
    {
        let bs: usize = block_size.size();
        let mut vector = register(&self.iv, bs).to_bits();
        let ghost first = vector@;
        let mut output: Vec<u8> = Vec::with_capacity(input.len());
        let mut start: usize = 0;
        assert(input@.skip(0) =~= input@);
        while start < input.len()
            invariant
                start <= input.len(),
                bs == block_size.spec_size(),
                total_bits(block_crypt),
                forall|t: spec_fn(Seq<Bit>) -> Seq<Bit>|
                    computes_bits(block_crypt, t) ==> output@ + #[trigger] ctr_bits(
                        t,
                        vector@,
                        input@.skip(start as int),
                        bs as nat,
                    ) == ctr_bits(t, first, input@, bs as nat),
            decreases input.len() - start,
        {
            let end = block_end(input.len(), start, bs);
            let chunk = slice_subrange(input, start, end);
            let ghost before = output@;
            let ghost old_vector = vector@;
            let block: Bits = Bits::from(chunk);
            let block_key = block_crypt(vector.deref());
            let piece = block.xor(&block_key).to_bytes();
            vector.increment_low32();
            output.extend_from_slice(piece.deref());
            proof {
                lemma_next_block(input@, bs as nat, start as int, end as int);
                assert(output@ =~= before + piece@);
                assert forall|t: spec_fn(Seq<Bit>) -> Seq<Bit>|
                    computes_bits(block_crypt, t) implies output@ + #[trigger] ctr_bits(
                    t,
                    vector@,
                    input@.skip(end as int),
                    bs as nat,
                ) == ctr_bits(t, first, input@, bs as nat) by {
                    let rest = ctr_bits(t, vector@, input@.skip(end as int), bs as nat);
                    assert(ctr_bits(t, old_vector, input@.skip(start as int), bs as nat)
                        == piece@ + rest);
                    assert(before + piece@ + rest =~= before + (piece@ + rest));
                }
            }
            start = end;
        }
        proof {
            assert forall|t: spec_fn(Seq<Bit>) -> Seq<Bit>|
                computes_bits(block_crypt, t) implies output@ == #[trigger] ctr_bits(
                t,
                first,
                input@,
                bs as nat,
            ) by {
                let rest = ctr_bits(t, vector@, input@.skip(start as int), bs as nat);
                assert(output@ + rest =~= output@);
            }
        }
        Bytes::new(output)
    }

    /// Encrypts or decrypts `input` on bytes.
    pub fn bytes_crypt<F: Fn(&[u8]) -> Bytes>(
        &self,
        input: &[u8],
        block_size: BlockSize,
        block_crypt: F,
    ) -> (r: Bytes)
        requires
            total_bytes(block_crypt),
        ensures
            forall|t: spec_fn(Seq<u8>) -> Seq<u8>|
                computes_bytes(block_crypt, t) ==> r@ == #[trigger] ctr_bytes(
                    t,
                    resize(self.iv@, block_size.spec_size(), 0u8),
                    input@,
                    block_size.spec_size(),
                ),
    {
        let bs: usize = block_size.size();
        let mut vector = register(&self.iv, bs);
        let ghost first = vector@;
        let mut output: Vec<u8> = Vec::with_capacity(input.len());
        let mut start: usize = 0;
        assert(input@.skip(0) =~= input@);
        while start < input.len()
            invariant
                start <= input.len(),
                bs == block_size.spec_size(),
                total_bytes(block_crypt),
                forall|t: spec_fn(Seq<u8>) -> Seq<u8>|
                    computes_bytes(block_crypt, t) ==> output@ + #[trigger] ctr_bytes(
                        t,
                        vector@,
                        input@.skip(start as int),
                        bs as nat,
                    ) == ctr_bytes(t, first, input@, bs as nat),
            decreases input.len() - start,
        {
            let end = block_end(input.len(), start, bs);
            let chunk = slice_subrange(input, start, end);
            let ghost before = output@;
            let ghost old_vector = vector@;
            let block = Bytes::from_slice(chunk);
            let block_key = block_crypt(vector.deref());
            let piece = block.xor(&block_key);
            vector.increment_low32();
            output.extend_from_slice(piece.deref());
            proof {
                lemma_next_block(input@, bs as nat, start as int, end as int);
                assert(output@ =~= before + piece@);
                assert forall|t: spec_fn(Seq<u8>) -> Seq<u8>|
                    computes_bytes(block_crypt, t) implies output@ + #[trigger] ctr_bytes(
                    t,
                    vector@,
                    input@.skip(end as int),
                    bs as nat,
                ) == ctr_bytes(t, first, input@, bs as nat) by {
                    let rest = ctr_bytes(t, vector@, input@.skip(end as int), bs as nat);
                    assert(ctr_bytes(t, old_vector, input@.skip(start as int), bs as nat)
                        == piece@ + rest);
                    assert(before + piece@ + rest =~= before + (piece@ + rest));
                }
            }
            start = end;
        }
        proof {
            assert forall|t: spec_fn(Seq<u8>) -> Seq<u8>|
                computes_bytes(block_crypt, t) implies output@ == #[trigger] ctr_bytes(
                t,
                first,
                input@,
                bs as nat,
            ) by {
                let rest = ctr_bytes(t, vector@, input@.skip(start as int), bs as nat);
                assert(output@ + rest =~= output@);
            }
        }
        Bytes::new(output)
    }
}

impl Mode for Ctr {
    open spec fn spec_bits_encrypt(
        &self,
        input: Seq<u8>,
        block_size: BlockSize,
        t: spec_fn(Seq<Bit>) -> Seq<Bit>,
    ) -> Result<Seq<u8>, Error> {
        Ok(ctr_bits(t, bytes_to_bits(resize(self.iv@, block_size.spec_size(), 0u8)), input, block_size.spec_size()))
    }

    open spec fn spec_bits_decrypt(
        &self,
        input: Seq<u8>,
        block_size: BlockSize,
        t: spec_fn(Seq<Bit>) -> Seq<Bit>,
    ) -> Result<Seq<u8>, Error> {
        Ok(ctr_bits(t, bytes_to_bits(resize(self.iv@, block_size.spec_size(), 0u8)), input, block_size.spec_size()))
    }

    open spec fn spec_bytes_encrypt(
        &self,
        input: Seq<u8>,
        block_size: BlockSize,
        t: spec_fn(Seq<u8>) -> Seq<u8>,
    ) -> Result<Seq<u8>, Error> {
        Ok(ctr_bytes(t, resize(self.iv@, block_size.spec_size(), 0u8), input, block_size.spec_size()))
    }

    open spec fn spec_bytes_decrypt(
        &self,
        input: Seq<u8>,
        block_size: BlockSize,
        t: spec_fn(Seq<u8>) -> Seq<u8>,
    ) -> Result<Seq<u8>, Error> {
        Ok(ctr_bytes(t, resize(self.iv@, block_size.spec_size(), 0u8), input, block_size.spec_size()))
    }

    open spec fn spec_inverts_on_decrypt(&self) -> bool {
        false
    }

    proof fn lemma_bits_round_trip(
        &self,
        input: Seq<u8>,
        block_size: BlockSize,
        forward: spec_fn(Seq<Bit>) -> Seq<Bit>,
        backward: spec_fn(Seq<Bit>) -> Seq<Bit>,
    ) {
        let bs = block_size.spec_size();
        let register = bytes_to_bits(resize(self.iv@, bs, 0u8));
        lemma_bytes_bits_round_trip(resize(self.iv@, bs, 0u8));
        lemma_ctr_bits_round_trip(forward, register, input, bs);
    }

    proof fn lemma_bytes_round_trip(
        &self,
        input: Seq<u8>,
        block_size: BlockSize,
        forward: spec_fn(Seq<u8>) -> Seq<u8>,
        backward: spec_fn(Seq<u8>) -> Seq<u8>,
    ) {
        let bs = block_size.spec_size();
        let register = resize(self.iv@, bs, 0u8);
        lemma_ctr_bytes_round_trip(forward, register, input, bs);
    }

    fn inverts_on_decrypt(&self) -> (b: bool) {
        false
    }

    fn bits_decrypt<F: Fn(&[Bit]) -> Bits>(
        &self,
        input: &[u8],
        block_size: BlockSize,
        block_encrypt: F,
    ) -> (r: Result<Bytes, Error>)
        ensures
            r is Ok,
    {
        Ok(self.bits_crypt(input, block_size, block_encrypt))
    }

    fn bits_encrypt<F: Fn(&[Bit]) -> Bits>(
        &self,
        input: &[u8],
        block_size: BlockSize,
        block_encrypt: F,
    ) -> (r: Result<Bytes, Error>)
        ensures
            r is Ok,
    {
        Ok(self.bits_crypt(input, block_size, block_encrypt))
    }

    fn bytes_decrypt<F: Fn(&[u8]) -> Bytes>(
        &self,
        input: &[u8],
        block_size: BlockSize,
        block_encrypt: F,
    ) -> (r: Result<Bytes, Error>)
        ensures
            r is Ok,
    {
        Ok(self.bytes_crypt(input, block_size, block_encrypt))
    }

    fn bytes_encrypt<F: Fn(&[u8]) -> Bytes>(
        &self,
        input: &[u8],
        block_size: BlockSize,
        block_encrypt: F,
    ) -> (r: Result<Bytes, Error>)
        ensures
            r is Ok,
    {
        Ok(self.bytes_crypt(input, block_size, block_encrypt))
    }
}

/// On whole blocks, running the mode twice from the same counter gives the
/// message back.
pub proof fn lemma_ctr_bytes_round_trip(
    t: spec_fn(Seq<u8>) -> Seq<u8>,
    register: Seq<u8>,
    input: Seq<u8>,
    bs: nat,
)
    requires
        bs > 0,
        input.len() % bs == 0,
        register.len() == bs,
        keeps_len_bytes(t, bs),
    ensures
        ctr_bytes(t, register, ctr_bytes(t, register, input, bs), bs) == input,
        ctr_bytes(t, register, input, bs).len() == input.len(),
    decreases input.len(),
{
    if input.len() > 0 {
        lemma_whole_blocks(input, bs);
        let first = head(input, bs);
        let rest = tail(input, bs);
        let mask = t(register);
        lemma_xor_bytes_involution(first, mask);
        let cipher = xor_bytes(first, mask);
        let next = incremented(register, 4);
        let more = ctr_bytes(t, next, rest, bs);
        lemma_ctr_bytes_round_trip(t, next, rest, bs);
        lemma_block_in_front(cipher, more, bs);
        assert(ctr_bytes(t, register, cipher + more, bs) == first + rest);
    }
}

/// The same on the bit path.
pub proof fn lemma_ctr_bits_round_trip(
    t: spec_fn(Seq<Bit>) -> Seq<Bit>,
    register: Seq<Bit>,
    input: Seq<u8>,
    bs: nat,
)
    requires
        bs > 0,
        input.len() % bs == 0,
        register.len() == 8 * bs,
        keeps_len_bits(t, 8 * bs),
    ensures
        ctr_bits(t, register, ctr_bits(t, register, input, bs), bs) == input,
        ctr_bits(t, register, input, bs).len() == input.len(),
    decreases input.len(),
{
    if input.len() > 0 {
        lemma_whole_blocks(input, bs);
        let first = head(input, bs);
        let rest = tail(input, bs);
        let block = bytes_to_bits(first);
        lemma_bytes_bits_round_trip(first);
        let mask = t(register);
        assert(mask.len() == 8 * bs);
        lemma_xor_bits_involution(block, mask);
        let cipher = xor_bits(block, mask);
        lemma_bit_block(cipher, bs);
        let packed = bits_to_bytes(cipher);
        let next = incremented_bits(register, 32);
        let more = ctr_bits(t, next, rest, bs);
        assert(ctr_bits(t, register, input, bs) == packed + more);
        lemma_ctr_bits_round_trip(t, next, rest, bs);
        lemma_block_in_front(packed, more, bs);
        assert(bits_to_bytes(xor_bits(cipher, mask)) == first);
        assert(ctr_bits(t, register, packed + more, bs) == first + rest);
    }
}

} // verus!
