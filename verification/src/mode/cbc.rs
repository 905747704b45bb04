use crate::bits::{
    bits_to_bytes, bytes_to_bits, lemma_bit_block, lemma_bytes_bits_round_trip,
    lemma_xor_bits_involution, xor_bits, Bits,
};
use crate::bytes::{lemma_xor_bytes_involution, xor_bytes, Bytes};
use crate::enums::{Bit, BlockSize};
use crate::mode::{
    block_end, computes_bits, computes_bytes, head, keeps_len_bits, keeps_len_bytes,
    lemma_block_in_front, lemma_next_block, lemma_whole_blocks, register, tail, total_bits,
    total_bytes, undoes_bits, undoes_bytes, Mode,
};
use crate::types::Error;
use crate::vector::resize;
use std::ops::Deref;
use vstd::prelude::*;
use vstd::slice::slice_subrange;

verus! {

/// Cipher block chaining, encryption on bits: each block is mixed with the
/// ciphertext block before it, then transformed.
pub open spec fn cbc_bits_encrypt(
    t: spec_fn(Seq<Bit>) -> Seq<Bit>,
    register: Seq<Bit>,
    input: Seq<u8>,
    bs: nat,
) -> Seq<u8>
    decreases input.len(),
{
    if input.len() == 0 || bs == 0 {
        Seq::empty()
    } else {
        let cipher = t(xor_bits(bytes_to_bits(head(input, bs)), register));
        bits_to_bytes(cipher) + cbc_bits_encrypt(t, cipher, tail(input, bs), bs)
    }
}

/// Cipher block chaining, decryption on bits: each block is transformed,
/// then mixed with the ciphertext block before it.
pub open spec fn cbc_bits_decrypt(
    t: spec_fn(Seq<Bit>) -> Seq<Bit>,
    register: Seq<Bit>,
    input: Seq<u8>,
    bs: nat,
) -> Seq<u8>
    decreases input.len(),
{
    if input.len() == 0 || bs == 0 {
        Seq::empty()
    } else {
        let block = bytes_to_bits(head(input, bs));
        bits_to_bytes(xor_bits(t(block), register)) + cbc_bits_decrypt(
            t,
            block,
            tail(input, bs),
            bs,
        )
    }
}

/// Cipher block chaining, encryption on bytes.
pub open spec fn cbc_bytes_encrypt(
    t: spec_fn(Seq<u8>) -> Seq<u8>,
    register: Seq<u8>,
    input: Seq<u8>,
    bs: nat,
) -> Seq<u8>
    decreases input.len(),
{
    if input.len() == 0 || bs == 0 {
        Seq::empty()
    } else {
        let cipher = t(xor_bytes(head(input, bs), register));
        cipher + cbc_bytes_encrypt(t, cipher, tail(input, bs), bs)
    }
}

/// Cipher block chaining, decryption on bytes.
pub open spec fn cbc_bytes_decrypt(
    t: spec_fn(Seq<u8>) -> Seq<u8>,
    register: Seq<u8>,
    input: Seq<u8>,
    bs: nat,
) -> Seq<u8>
    decreases input.len(),
{
    if input.len() == 0 || bs == 0 {
        Seq::empty()
    } else {
        xor_bytes(t(head(input, bs)), register) + cbc_bytes_decrypt(
            t,
            head(input, bs),
            tail(input, bs),
            bs,
        )
    }
}

/// Cipher block chaining. Encryption is sequential; decryption depends on
/// the ciphertext alone, so its blocks can be worked on at once.
#[derive(Debug)]
pub struct Cbc {
    pub iv: Bytes,
}

impl Clone for Cbc {
    fn clone(&self) -> (r: Cbc)
        ensures
            r.iv@ == self.iv@,
    {
        Cbc { iv: self.iv.clone() }
    }
}

impl Cbc {
    /// The mode with the given initialization vector. A vector shorter than
    /// a block is filled up with zero bytes at its end, a longer one is cut.
    pub fn new(iv: &[u8]) -> (r: Cbc)
        ensures
            r.iv@ == iv@,
    {
        Cbc { iv: Bytes::from_slice(iv) }
    }
}

impl Mode for Cbc {
    open spec fn spec_bits_encrypt(
        &self,
        input: Seq<u8>,
        block_size: BlockSize,
        t: spec_fn(Seq<Bit>) -> Seq<Bit>,
    ) -> Result<Seq<u8>, Error> {
        Ok(cbc_bits_encrypt(t, bytes_to_bits(resize(self.iv@, block_size.spec_size(), 0u8)), input, block_size.spec_size()))
    }

    open spec fn spec_bits_decrypt(
        &self,
        input: Seq<u8>,
        block_size: BlockSize,
        t: spec_fn(Seq<Bit>) -> Seq<Bit>,
    ) -> Result<Seq<u8>, Error> {
        Ok(cbc_bits_decrypt(t, bytes_to_bits(resize(self.iv@, block_size.spec_size(), 0u8)), input, block_size.spec_size()))
    }

    open spec fn spec_bytes_encrypt(
        &self,
        input: Seq<u8>,
        block_size: BlockSize,
        t: spec_fn(Seq<u8>) -> Seq<u8>,
    ) -> Result<Seq<u8>, Error> {
        Ok(cbc_bytes_encrypt(t, resize(self.iv@, block_size.spec_size(), 0u8), input, block_size.spec_size()))
    }

    open spec fn spec_bytes_decrypt(
        &self,
        input: Seq<u8>,
        block_size: BlockSize,
        t: spec_fn(Seq<u8>) -> Seq<u8>,
    ) -> Result<Seq<u8>, Error> {
        Ok(cbc_bytes_decrypt(t, resize(self.iv@, block_size.spec_size(), 0u8), input, block_size.spec_size()))
    }

    open spec fn spec_inverts_on_decrypt(&self) -> bool {
        true
    }

    proof fn lemma_bits_round_trip(
        &self,
        input: Seq<u8>,
        block_size: BlockSize,
        forward: spec_fn(Seq<Bit>) -> Seq<Bit>,
        backward: spec_fn(Seq<Bit>) -> Seq<Bit>,
    ) {
        let bs = block_size.spec_size();
        let register = bytes_to_bits(resize(self.iv@, bs, 0u8));
        lemma_bytes_bits_round_trip(resize(self.iv@, bs, 0u8));
        lemma_cbc_bits_round_trip(forward, backward, register, input, bs);
    }

    proof fn lemma_bytes_round_trip(
        &self,
        input: Seq<u8>,
        block_size: BlockSize,
        forward: spec_fn(Seq<u8>) -> Seq<u8>,
        backward: spec_fn(Seq<u8>) -> Seq<u8>,
    ) {
        let bs = block_size.spec_size();
        let register = resize(self.iv@, bs, 0u8);
        lemma_cbc_bytes_round_trip(forward, backward, register, input, bs);
    }

    fn inverts_on_decrypt(&self) -> (b: bool) {
        true
    }

    fn bits_decrypt<F: Fn(&[Bit]) -> Bits>(
        &self,
        input: &[u8],
        block_size: BlockSize,
        block_decrypt: F,
    ) -> (r: Result<Bytes, Error>)
        ensures
            r is Ok,
    {
        let bs: usize = block_size.size();
        let mut vector = register(&self.iv, bs).to_bits();
        let ghost first = vector@;
        let mut output: Vec<u8> = Vec::with_capacity(input.len());
        let mut start: usize = 0;
        assert(input@.skip(0) =~= input@);
        while start < input.len()
            invariant
                start <= input.len(),
                bs == block_size.spec_size(),
                total_bits(block_decrypt),
                forall|t: spec_fn(Seq<Bit>) -> Seq<Bit>|
                    computes_bits(block_decrypt, t) ==> output@ + #[trigger] cbc_bits_decrypt(
                        t,
                        vector@,
                        input@.skip(start as int),
                        bs as nat,
                    ) == cbc_bits_decrypt(t, first, input@, bs as nat),
            decreases input.len() - start,
        {
            let end = block_end(input.len(), start, bs);
            let chunk = slice_subrange(input, start, end);
            let ghost before = output@;
            let ghost old_vector = vector@;
            let block: Bits = Bits::from(chunk);
            let decrypted_block = block_decrypt(block.deref());
            let piece = decrypted_block.xor(&vector).to_bytes();
            vector = block;
            output.extend_from_slice(piece.deref());
            proof {
                lemma_next_block(input@, bs as nat, start as int, end as int);
                assert(output@ =~= before + piece@);
                assert forall|t: spec_fn(Seq<Bit>) -> Seq<Bit>|
                    computes_bits(block_decrypt, t) implies output@ + #[trigger] cbc_bits_decrypt(
                    t,
                    vector@,
                    input@.skip(end as int),
                    bs as nat,
                ) == cbc_bits_decrypt(t, first, input@, bs as nat) by {
                    let rest = cbc_bits_decrypt(t, vector@, input@.skip(end as int), bs as nat);
                    assert(cbc_bits_decrypt(t, old_vector, input@.skip(start as int), bs as nat)
                        == piece@ + rest);
                    assert(before + piece@ + rest =~= before + (piece@ + rest));
                }
            }
            start = end;
        }
        proof {
            assert forall|t: spec_fn(Seq<Bit>) -> Seq<Bit>|
                computes_bits(block_decrypt, t) implies output@ == #[trigger] cbc_bits_decrypt(
                t,
                first,
                input@,
                bs as nat,
            ) by {
                let rest = cbc_bits_decrypt(t, vector@, input@.skip(start as int), bs as nat);
                assert(output@ + rest =~= output@);
            }
        }
        Ok(Bytes::new(output))
    }

    fn bits_encrypt<F: Fn(&[Bit]) -> Bits>(
        &self,
        input: &[u8],
        block_size: BlockSize,
        block_encrypt: F,
    ) -> (r: Result<Bytes, Error>)
        ensures
            r is Ok,
    {
        let bs: usize = block_size.size();
        let mut vector = register(&self.iv, bs).to_bits();
        let ghost first = vector@;
        let mut output: Vec<u8> = Vec::with_capacity(input.len());
        let mut start: usize = 0;
        assert(input@.skip(0) =~= input@);
        while start < input.len()
            invariant
                start <= input.len(),
                bs == block_size.spec_size(),
                total_bits(block_encrypt),
                forall|t: spec_fn(Seq<Bit>) -> Seq<Bit>|
                    computes_bits(block_encrypt, t) ==> output@ + #[trigger] cbc_bits_encrypt(
                        t,
                        vector@,
                        input@.skip(start as int),
                        bs as nat,
                    ) == cbc_bits_encrypt(t, first, input@, bs as nat),
            decreases input.len() - start,
        {
            let end = block_end(input.len(), start, bs);
            let chunk = slice_subrange(input, start, end);
            let ghost before = output@;
            let ghost old_vector = vector@;
            let block: Bits = Bits::from(chunk);
            let mixed = block.xor(&vector);
            vector = block_encrypt(mixed.deref());
            let piece = vector.to_bytes();
            output.extend_from_slice(piece.deref());
            proof {
                lemma_next_block(input@, bs as nat, start as int, end as int);
                assert(output@ =~= before + piece@);
                assert forall|t: spec_fn(Seq<Bit>) -> Seq<Bit>|
                    computes_bits(block_encrypt, t) implies output@ + #[trigger] cbc_bits_encrypt(
                    t,
                    vector@,
                    input@.skip(end as int),
                    bs as nat,
                ) == cbc_bits_encrypt(t, first, input@, bs as nat) by {
                    let rest = cbc_bits_encrypt(t, vector@, input@.skip(end as int), bs as nat);
                    assert(cbc_bits_encrypt(t, old_vector, input@.skip(start as int), bs as nat)
                        == piece@ + rest);
                    assert(before + piece@ + rest =~= before + (piece@ + rest));
                }
            }
            start = end;
        }
        proof {
            assert forall|t: spec_fn(Seq<Bit>) -> Seq<Bit>|
                computes_bits(block_encrypt, t) implies output@ == #[trigger] cbc_bits_encrypt(
                t,
                first,
                input@,
                bs as nat,
            ) by {
                let rest = cbc_bits_encrypt(t, vector@, input@.skip(start as int), bs as nat);
                assert(output@ + rest =~= output@);
            }
        }
        Ok(Bytes::new(output))
    }

    fn bytes_decrypt<F: Fn(&[u8]) -> Bytes>(
        &self,
        input: &[u8],
        block_size: BlockSize,
        block_decrypt: F,
    ) -> (r: Result<Bytes, Error>)
        ensures
            r is Ok,
    {
        let bs: usize = block_size.size();
        let mut vector = register(&self.iv, bs);
        let ghost first = vector@;
        let mut output: Vec<u8> = Vec::with_capacity(input.len());
        let mut start: usize = 0;
        assert(input@.skip(0) =~= input@);
        while start < input.len()
            invariant
                start <= input.len(),
                bs == block_size.spec_size(),
                total_bytes(block_decrypt),
                forall|t: spec_fn(Seq<u8>) -> Seq<u8>|
                    computes_bytes(block_decrypt, t) ==> output@ + #[trigger] cbc_bytes_decrypt(
                        t,
                        vector@,
                        input@.skip(start as int),
                        bs as nat,
                    ) == cbc_bytes_decrypt(t, first, input@, bs as nat),
            decreases input.len() - start,
        {
            let end = block_end(input.len(), start, bs);
            let chunk = slice_subrange(input, start, end);
            let ghost before = output@;
            let ghost old_vector = vector@;
            let decrypted_block = block_decrypt(chunk);
            let piece = decrypted_block.xor(&vector);
            vector = Bytes::from_slice(chunk);
            output.extend_from_slice(piece.deref());
            proof {
                lemma_next_block(input@, bs as nat, start as int, end as int);
                assert(output@ =~= before + piece@);
                assert forall|t: spec_fn(Seq<u8>) -> Seq<u8>|
                    computes_bytes(block_decrypt, t) implies output@ + #[trigger] cbc_bytes_decrypt(
                    t,
                    vector@,
                    input@.skip(end as int),
                    bs as nat,
                ) == cbc_bytes_decrypt(t, first, input@, bs as nat) by {
                    let rest = cbc_bytes_decrypt(t, vector@, input@.skip(end as int), bs as nat);
                    assert(cbc_bytes_decrypt(t, old_vector, input@.skip(start as int), bs as nat)
                        == piece@ + rest);
                    assert(before + piece@ + rest =~= before + (piece@ + rest));
                }
            }
            start = end;
        }
        proof {
            assert forall|t: spec_fn(Seq<u8>) -> Seq<u8>|
                computes_bytes(block_decrypt, t) implies output@ == #[trigger] cbc_bytes_decrypt(
                t,
                first,
                input@,
                bs as nat,
            ) by {
                let rest = cbc_bytes_decrypt(t, vector@, input@.skip(start as int), bs as nat);
                assert(output@ + rest =~= output@);
            }
        }
        Ok(Bytes::new(output))
    }

    fn bytes_encrypt<F: Fn(&[u8]) -> Bytes>(
        &self,
        input: &[u8],
        block_size: BlockSize,
        block_encrypt: F,
    ) -> (r: Result<Bytes, Error>)
        ensures
            r is Ok,
    {
        let bs: usize = block_size.size();
        let mut vector = register(&self.iv, bs);
        let ghost first = vector@;
        let mut output: Vec<u8> = Vec::with_capacity(input.len());
        let mut start: usize = 0;
        assert(input@.skip(0) =~= input@);
        while start < input.len()
            invariant
                start <= input.len(),
                bs == block_size.spec_size(),
                total_bytes(block_encrypt),
                forall|t: spec_fn(Seq<u8>) -> Seq<u8>|
                    computes_bytes(block_encrypt, t) ==> output@ + #[trigger] cbc_bytes_encrypt(
                        t,
                        vector@,
                        input@.skip(start as int),
                        bs as nat,
                    ) == cbc_bytes_encrypt(t, first, input@, bs as nat),
            decreases input.len() - start,
        {
            let end = block_end(input.len(), start, bs);
            let chunk = slice_subrange(input, start, end);
            let ghost before = output@;
            let ghost old_vector = vector@;
            let block = Bytes::from_slice(chunk);
            let mixed = block.xor(&vector);
            vector = block_encrypt(mixed.deref());
            let piece = vector.clone();
            output.extend_from_slice(piece.deref());
            proof {
                lemma_next_block(input@, bs as nat, start as int, end as int);
                assert(output@ =~= before + piece@);
                assert forall|t: spec_fn(Seq<u8>) -> Seq<u8>|
                    computes_bytes(block_encrypt, t) implies output@ + #[trigger] cbc_bytes_encrypt(
                    t,
                    vector@,
                    input@.skip(end as int),
                    bs as nat,
                ) == cbc_bytes_encrypt(t, first, input@, bs as nat) by {
                    let rest = cbc_bytes_encrypt(t, vector@, input@.skip(end as int), bs as nat);
                    assert(cbc_bytes_encrypt(t, old_vector, input@.skip(start as int), bs as nat)
                        == piece@ + rest);
                    assert(before + piece@ + rest =~= before + (piece@ + rest));
                }
            }
            start = end;
        }
        proof {
            assert forall|t: spec_fn(Seq<u8>) -> Seq<u8>|
                computes_bytes(block_encrypt, t) implies output@ == #[trigger] cbc_bytes_encrypt(
                t,
                first,
                input@,
                bs as nat,
            ) by {
                let rest = cbc_bytes_encrypt(t, vector@, input@.skip(start as int), bs as nat);
                assert(output@ + rest =~= output@);
            }
        }
        Ok(Bytes::new(output))
    }
}

/// On whole blocks, decrypting with the inverse transform what was
/// encrypted from the same register gives the message back.
pub proof fn lemma_cbc_bytes_round_trip(
    t: spec_fn(Seq<u8>) -> Seq<u8>,
    back: spec_fn(Seq<u8>) -> Seq<u8>,
    register: Seq<u8>,
    input: Seq<u8>,
    bs: nat,
)
    requires
        bs > 0,
        input.len() % bs == 0,
        register.len() == bs,
        keeps_len_bytes(t, bs),
        undoes_bytes(back, t, bs),
    ensures
        cbc_bytes_decrypt(back, register, cbc_bytes_encrypt(t, register, input, bs), bs) == input,
        cbc_bytes_encrypt(t, register, input, bs).len() == input.len(),
    decreases input.len(),
{
    if input.len() > 0 {
        lemma_whole_blocks(input, bs);
        let first = head(input, bs);
        let rest = tail(input, bs);
        let mixed = xor_bytes(first, register);
        lemma_xor_bytes_involution(first, register);
        let cipher = t(mixed);
        let more = cbc_bytes_encrypt(t, cipher, rest, bs);
        lemma_cbc_bytes_round_trip(t, back, cipher, rest, bs);
        lemma_block_in_front(cipher, more, bs);
        assert(cbc_bytes_decrypt(back, register, cipher + more, bs) == first + rest);
    }
}

/// The same on the bit path.
pub proof fn lemma_cbc_bits_round_trip(
    t: spec_fn(Seq<Bit>) -> Seq<Bit>,
    back: spec_fn(Seq<Bit>) -> Seq<Bit>,
    register: Seq<Bit>,
    input: Seq<u8>,
    bs: nat,
)
    requires
        bs > 0,
        input.len() % bs == 0,
        register.len() == 8 * bs,
        keeps_len_bits(t, 8 * bs),
        undoes_bits(back, t, 8 * bs),
    ensures
        cbc_bits_decrypt(back, register, cbc_bits_encrypt(t, register, input, bs), bs) == input,
        cbc_bits_encrypt(t, register, input, bs).len() == input.len(),
    decreases input.len(),
{
    if input.len() > 0 {
        lemma_whole_blocks(input, bs);
        let first = head(input, bs);
        let rest = tail(input, bs);
        let block = bytes_to_bits(first);
        lemma_bytes_bits_round_trip(first);
        let mixed = xor_bits(block, register);
        lemma_xor_bits_involution(block, register);
        let cipher = t(mixed);
        assert(cipher.len() == 8 * bs);
        lemma_bit_block(cipher, bs);
        let packed = bits_to_bytes(cipher);
        let more = cbc_bits_encrypt(t, cipher, rest, bs);
        assert(cbc_bits_encrypt(t, register, input, bs) == packed + more);
        lemma_cbc_bits_round_trip(t, back, cipher, rest, bs);
        lemma_block_in_front(packed, more, bs);
        assert(back(cipher) == mixed);
        assert(bits_to_bytes(xor_bits(back(cipher), register)) == first);
        assert(cbc_bits_decrypt(back, register, packed + more, bs) == first + rest);
    }
}

} // verus!
