use crate::bits::{
    bits_to_bytes, bytes_to_bits, lemma_bit_block, lemma_bytes_bits_round_trip,
    lemma_xor_bits_involution, xor_bits, Bits,
};
use crate::bytes::{lemma_xor_bytes_involution, xor_bytes, Bytes};
use crate::enums::{Bit, BlockSize};
use crate::mode::{
    block_end, computes_bits, computes_bytes, head, keeps_len_bits, keeps_len_bytes,
    lemma_block_in_front, lemma_next_block, lemma_whole_blocks, register, tail, total_bits,
    total_bytes, Mode,
};
use crate::types::Error;
use crate::vector::resize;
use std::ops::Deref;
use vstd::prelude::*;
use vstd::slice::slice_subrange;

verus! {

/// Cipher feedback, encryption on bits: each block is mixed with the
/// transform of the ciphertext block before it.
pub open spec fn cfb_bits_encrypt(
    t: spec_fn(Seq<Bit>) -> Seq<Bit>,
    register: Seq<Bit>,
    input: Seq<u8>,
    bs: nat,
) -> Seq<u8>
    decreases input.len(),
{
    if input.len() == 0 || bs == 0 {
        Seq::empty()
    } else {
        let cipher = xor_bits(bytes_to_bits(head(input, bs)), t(register));
        bits_to_bytes(cipher) + cfb_bits_encrypt(t, cipher, tail(input, bs), bs)
    }
}

/// Cipher feedback, decryption on bits. The transform is the same forward
/// transform that encryption uses.
pub open spec fn cfb_bits_decrypt(
    t: spec_fn(Seq<Bit>) -> Seq<Bit>,
    register: Seq<Bit>,
    input: Seq<u8>,
    bs: nat,
) -> Seq<u8>
    decreases input.len(),
{
    if input.len() == 0 || bs == 0 {
        Seq::empty()
    } else {
        let block = bytes_to_bits(head(input, bs));
        bits_to_bytes(xor_bits(block, t(register))) + cfb_bits_decrypt(
            t,
            block,
            tail(input, bs),
            bs,
        )
    }
}

/// Cipher feedback, encryption on bytes.
pub open spec fn cfb_bytes_encrypt(
    t: spec_fn(Seq<u8>) -> Seq<u8>,
    register: Seq<u8>,
    input: Seq<u8>,
    bs: nat,
) -> Seq<u8>
    decreases input.len(),
{
    if input.len() == 0 || bs == 0 {
        Seq::empty()
    } else {
        let cipher = xor_bytes(head(input, bs), t(register));
        cipher + cfb_bytes_encrypt(t, cipher, tail(input, bs), bs)
    }
}

/// Cipher feedback, decryption on bytes.
pub open spec fn cfb_bytes_decrypt(
    t: spec_fn(Seq<u8>) -> Seq<u8>,
    register: Seq<u8>,
    input: Seq<u8>,
    bs: nat,
) -> Seq<u8>
    decreases input.len(),
{
    if input.len() == 0 || bs == 0 {
        Seq::empty()
    } else {
        xor_bytes(head(input, bs), t(register)) + cfb_bytes_decrypt(
            t,
            head(input, bs),
            tail(input, bs),
            bs,
        )
    }
}

/// Cipher feedback. Encryption is sequential; decryption depends on the
/// ciphertext alone, so its blocks can be worked on at once. The block
/// transform only makes the key stream: both directions take the forward
/// transform.
#[derive(Debug)]
pub struct Cfb {
    pub iv: Bytes,
}

impl Clone for Cfb {
    fn clone(&self) -> (r: Cfb)
        ensures
            r.iv@ == self.iv@,
    {
        Cfb { iv: self.iv.clone() }
    }
}

impl Cfb {
    /// The mode with the given initialization vector. A vector shorter than
    /// a block is filled up with zero bytes at its end, a longer one is cut.
    pub fn new(iv: &[u8]) -> (r: Cfb)
        ensures
            r.iv@ == iv@,
    {
        Cfb { iv: Bytes::from_slice(iv) }
    }
}

impl Mode for Cfb {
    open spec fn spec_bits_encrypt(
        &self,
        input: Seq<u8>,
        block_size: BlockSize,
        t: spec_fn(Seq<Bit>) -> Seq<Bit>,
    ) -> Result<Seq<u8>, Error> {
        Ok(cfb_bits_encrypt(t, bytes_to_bits(resize(self.iv@, block_size.spec_size(), 0u8)), input, block_size.spec_size()))
    }

    open spec fn spec_bits_decrypt(
        &self,
        input: Seq<u8>,
        block_size: BlockSize,
        t: spec_fn(Seq<Bit>) -> Seq<Bit>,
    ) -> Result<Seq<u8>, Error> {
        Ok(cfb_bits_decrypt(t, bytes_to_bits(resize(self.iv@, block_size.spec_size(), 0u8)), input, block_size.spec_size()))
    }

    open spec fn spec_bytes_encrypt(
        &self,
        input: Seq<u8>,
        block_size: BlockSize,
        t: spec_fn(Seq<u8>) -> Seq<u8>,
    ) -> Result<Seq<u8>, Error> {
        Ok(cfb_bytes_encrypt(t, resize(self.iv@, block_size.spec_size(), 0u8), input, block_size.spec_size()))
    }

    open spec fn spec_bytes_decrypt(
        &self,
        input: Seq<u8>,
        block_size: BlockSize,
        t: spec_fn(Seq<u8>) -> Seq<u8>,
    ) -> Result<Seq<u8>, Error> {
        Ok(cfb_bytes_decrypt(t, resize(self.iv@, block_size.spec_size(), 0u8), input, block_size.spec_size()))
    }

    open spec fn spec_inverts_on_decrypt(&self) -> bool {
        false
    }

    proof fn lemma_bits_round_trip(
        &self,
        input: Seq<u8>,
        block_size: BlockSize,
        forward: spec_fn(Seq<Bit>) -> Seq<Bit>,
        backward: spec_fn(Seq<Bit>) -> Seq<Bit>,
    ) {
        let bs = block_size.spec_size();
        let register = bytes_to_bits(resize(self.iv@, bs, 0u8));
        lemma_bytes_bits_round_trip(resize(self.iv@, bs, 0u8));
        lemma_cfb_bits_round_trip(forward, register, input, bs);
    }

    proof fn lemma_bytes_round_trip(
        &self,
        input: Seq<u8>,
        block_size: BlockSize,
        forward: spec_fn(Seq<u8>) -> Seq<u8>,
        backward: spec_fn(Seq<u8>) -> Seq<u8>,
    ) {
        let bs = block_size.spec_size();
        let register = resize(self.iv@, bs, 0u8);
        lemma_cfb_bytes_round_trip(forward, register, input, bs);
    }

    fn inverts_on_decrypt(&self) -> (b: bool) {
        false
    }

    fn bits_decrypt<F: Fn(&[Bit]) -> Bits>(
        &self,
        input: &[u8],
        block_size: BlockSize,
        block_encrypt: F,
    ) -> (r: Result<Bytes, Error>)
        ensures
            r is Ok,
    {
        let bs: usize = block_size.size();
        let mut vector = register(&self.iv, bs).to_bits();
        let ghost first = vector@;
        let mut output: Vec<u8> = Vec::with_capacity(input.len());
        let mut start: usize = 0;
        assert(input@.skip(0) =~= input@);
        while start < input.len()
            invariant
                start <= input.len(),
                bs == block_size.spec_size(),
                total_bits(block_encrypt),
                forall|t: spec_fn(Seq<Bit>) -> Seq<Bit>|
                    computes_bits(block_encrypt, t) ==> output@ + #[trigger] cfb_bits_decrypt(
                        t,
                        vector@,
                        input@.skip(start as int),
                        bs as nat,
                    ) == cfb_bits_decrypt(t, first, input@, bs as nat),
            decreases input.len() - start,
        {
            let end = block_end(input.len(), start, bs);
            let chunk = slice_subrange(input, start, end);
            let ghost before = output@;
            let ghost old_vector = vector@;
            let block: Bits = Bits::from(chunk);
            let mask = block_encrypt(vector.deref());
            let piece = block.xor(&mask).to_bytes();
            vector = block;
            output.extend_from_slice(piece.deref());
            proof {
                lemma_next_block(input@, bs as nat, start as int, end as int);
                assert(output@ =~= before + piece@);
                assert forall|t: spec_fn(Seq<Bit>) -> Seq<Bit>|
                    computes_bits(block_encrypt, t) implies output@ + #[trigger] cfb_bits_decrypt(
                    t,
                    vector@,
                    input@.skip(end as int),
                    bs as nat,
                ) == cfb_bits_decrypt(t, first, input@, bs as nat) by {
                    let rest = cfb_bits_decrypt(t, vector@, input@.skip(end as int), bs as nat);
                    assert(cfb_bits_decrypt(t, old_vector, input@.skip(start as int), bs as nat)
                        == piece@ + rest);
                    assert(before + piece@ + rest =~= before + (piece@ + rest));
                }
            }
            start = end;
        }
        proof {
            assert forall|t: spec_fn(Seq<Bit>) -> Seq<Bit>|
                computes_bits(block_encrypt, t) implies output@ == #[trigger] cfb_bits_decrypt(
                t,
                first,
                input@,
                bs as nat,
            ) by {
                let rest = cfb_bits_decrypt(t, vector@, input@.skip(start as int), bs as nat);
                assert(output@ + rest =~= output@);
            }
        }
        Ok(Bytes::new(output))
    }

    fn bits_encrypt<F: Fn(&[Bit]) -> Bits>(
        &self,
        input: &[u8],
        block_size: BlockSize,
        block_encrypt: F,
    ) -> (r: Result<Bytes, Error>)
        ensures
            r is Ok,
    {
        let bs: usize = block_size.size();
        let mut vector = register(&self.iv, bs).to_bits();
        let ghost first = vector@;
        let mut output: Vec<u8> = Vec::with_capacity(input.len());
        let mut start: usize = 0;
        assert(input@.skip(0) =~= input@);
        while start < input.len()
            invariant
                start <= input.len(),
                bs == block_size.spec_size(),
                total_bits(block_encrypt),
                forall|t: spec_fn(Seq<Bit>) -> Seq<Bit>|
                    computes_bits(block_encrypt, t) ==> output@ + #[trigger] cfb_bits_encrypt(
                        t,
                        vector@,
                        input@.skip(start as int),
                        bs as nat,
                    ) == cfb_bits_encrypt(t, first, input@, bs as nat),
            decreases input.len() - start,
        {
            let end = block_end(input.len(), start, bs);
            let chunk = slice_subrange(input, start, end);
            let ghost before = output@;
            let ghost old_vector = vector@;
            let block: Bits = Bits::from(chunk);
            let mask = block_encrypt(vector.deref());
            vector = block.xor(&mask);
            let piece = vector.to_bytes();
            output.extend_from_slice(piece.deref());
            proof {
                lemma_next_block(input@, bs as nat, start as int, end as int);
                assert(output@ =~= before + piece@);
                assert forall|t: spec_fn(Seq<Bit>) -> Seq<Bit>|
                    computes_bits(block_encrypt, t) implies output@ + #[trigger] cfb_bits_encrypt(
                    t,
                    vector@,
                    input@.skip(end as int),
                    bs as nat,
                ) == cfb_bits_encrypt(t, first, input@, bs as nat) by {
                    let rest = cfb_bits_encrypt(t, vector@, input@.skip(end as int), bs as nat);
                    assert(cfb_bits_encrypt(t, old_vector, input@.skip(start as int), bs as nat)
                        == piece@ + rest);
                    assert(before + piece@ + rest =~= before + (piece@ + rest));
                }
            }
            start = end;
        }
        proof {
            assert forall|t: spec_fn(Seq<Bit>) -> Seq<Bit>|
                computes_bits(block_encrypt, t) implies output@ == #[trigger] cfb_bits_encrypt(
                t,
                first,
                input@,
                bs as nat,
            ) by {
                let rest = cfb_bits_encrypt(t, vector@, input@.skip(start as int), bs as nat);
                assert(output@ + rest =~= output@);
            }
        }
        Ok(Bytes::new(output))
    }

    fn bytes_decrypt<F: Fn(&[u8]) -> Bytes>(
        &self,
        input: &[u8],
        block_size: BlockSize,
        block_encrypt: F,
    ) -> (r: Result<Bytes, Error>)
        ensures
            r is Ok,
    {
        let bs: usize = block_size.size();
        let mut vector = register(&self.iv, bs);
        let ghost first = vector@;
        let mut output: Vec<u8> = Vec::with_capacity(input.len());
        let mut start: usize = 0;
        assert(input@.skip(0) =~= input@);
        while start < input.len()
            invariant
                start <= input.len(),
                bs == block_size.spec_size(),
                total_bytes(block_encrypt),
                forall|t: spec_fn(Seq<u8>) -> Seq<u8>|
                    computes_bytes(block_encrypt, t) ==> output@ + #[trigger] cfb_bytes_decrypt(
                        t,
                        vector@,
                        input@.skip(start as int),
                        bs as nat,
                    ) == cfb_bytes_decrypt(t, first, input@, bs as nat),
            decreases input.len() - start,
        {
            let end = block_end(input.len(), start, bs);
            let chunk = slice_subrange(input, start, end);
            let ghost before = output@;
            let ghost old_vector = vector@;
            let block = Bytes::from_slice(chunk);
            let mask = block_encrypt(vector.deref());
            let piece = block.xor(&mask);
            vector = block;
            output.extend_from_slice(piece.deref());
            proof {
                lemma_next_block(input@, bs as nat, start as int, end as int);
                assert(output@ =~= before + piece@);
                assert forall|t: spec_fn(Seq<u8>) -> Seq<u8>|
                    computes_bytes(block_encrypt, t) implies output@ + #[trigger] cfb_bytes_decrypt(
                    t,
                    vector@,
                    input@.skip(end as int),
                    bs as nat,
                ) == cfb_bytes_decrypt(t, first, input@, bs as nat) by {
                    let rest = cfb_bytes_decrypt(t, vector@, input@.skip(end as int), bs as nat);
                    assert(cfb_bytes_decrypt(t, old_vector, input@.skip(start as int), bs as nat)
                        == piece@ + rest);
                    assert(before + piece@ + rest =~= before + (piece@ + rest));
                }
            }
            start = end;
        }
        proof {
            assert forall|t: spec_fn(Seq<u8>) -> Seq<u8>|
                computes_bytes(block_encrypt, t) implies output@ == #[trigger] cfb_bytes_decrypt(
                t,
                first,
                input@,
                bs as nat,
            ) by {
                let rest = cfb_bytes_decrypt(t, vector@, input@.skip(start as int), bs as nat);
                assert(output@ + rest =~= output@);
            }
        }
        Ok(Bytes::new(output))
    }

    fn bytes_encrypt<F: Fn(&[u8]) -> Bytes>(
        &self,
        input: &[u8],
        block_size: BlockSize,
        block_encrypt: F,
    ) -> (r: Result<Bytes, Error>)
        ensures
            r is Ok,
    {
        let bs: usize = block_size.size();
        let mut vector = register(&self.iv, bs);
        let ghost first = vector@;
        let mut output: Vec<u8> = Vec::with_capacity(input.len());
        let mut start: usize = 0;
        assert(input@.skip(0) =~= input@);
        while start < input.len()
            invariant
                start <= input.len(),
                bs == block_size.spec_size(),
                total_bytes(block_encrypt),
                forall|t: spec_fn(Seq<u8>) -> Seq<u8>|
                    computes_bytes(block_encrypt, t) ==> output@ + #[trigger] cfb_bytes_encrypt(
                        t,
                        vector@,
                        input@.skip(start as int),
                        bs as nat,
                    ) == cfb_bytes_encrypt(t, first, input@, bs as nat),
            decreases input.len() - start,
        {
            let end = block_end(input.len(), start, bs);
            let chunk = slice_subrange(input, start, end);
            let ghost before = output@;
            let ghost old_vector = vector@;
            let block = Bytes::from_slice(chunk);
            let mask = block_encrypt(vector.deref());
            vector = block.xor(&mask);
            let piece = vector.clone();
            output.extend_from_slice(piece.deref());
            proof {
                lemma_next_block(input@, bs as nat, start as int, end as int);
                assert(output@ =~= before + piece@);
                assert forall|t: spec_fn(Seq<u8>) -> Seq<u8>|
                    computes_bytes(block_encrypt, t) implies output@ + #[trigger] cfb_bytes_encrypt(
                    t,
                    vector@,
                    input@.skip(end as int),
                    bs as nat,
                ) == cfb_bytes_encrypt(t, first, input@, bs as nat) by {
                    let rest = cfb_bytes_encrypt(t, vector@, input@.skip(end as int), bs as nat);
                    assert(cfb_bytes_encrypt(t, old_vector, input@.skip(start as int), bs as nat)
                        == piece@ + rest);
                    assert(before + piece@ + rest =~= before + (piece@ + rest));
                }
            }
            start = end;
        }
        proof {
            assert forall|t: spec_fn(Seq<u8>) -> Seq<u8>|
                computes_bytes(block_encrypt, t) implies output@ == #[trigger] cfb_bytes_encrypt(
                t,
                first,
                input@,
                bs as nat,
            ) by {
                let rest = cfb_bytes_encrypt(t, vector@, input@.skip(start as int), bs as nat);
                assert(output@ + rest =~= output@);
            }
        }
        Ok(Bytes::new(output))
    }
}

/// On whole blocks, decrypting what was encrypted from the same register,
/// with the same forward transform, gives the message back.
pub proof fn lemma_cfb_bytes_round_trip(
    t: spec_fn(Seq<u8>) -> Seq<u8>,
    register: Seq<u8>,
    input: Seq<u8>,
    bs: nat,
)
    requires
        bs > 0,
        input.len() % bs == 0,
        register.len() == bs,
        keeps_len_bytes(t, bs),
    ensures
        cfb_bytes_decrypt(t, register, cfb_bytes_encrypt(t, register, input, bs), bs) == input,
        cfb_bytes_encrypt(t, register, input, bs).len() == input.len(),
    decreases input.len(),
{
    if input.len() > 0 {
        lemma_whole_blocks(input, bs);
        let first = head(input, bs);
        let rest = tail(input, bs);
        let mask = t(register);
        lemma_xor_bytes_involution(first, mask);
        let cipher = xor_bytes(first, mask);
        let more = cfb_bytes_encrypt(t, cipher, rest, bs);
        lemma_cfb_bytes_round_trip(t, cipher, rest, bs);
        lemma_block_in_front(cipher, more, bs);
        assert(cfb_bytes_decrypt(t, register, cipher + more, bs) == first + rest);
    }
}

/// The same on the bit path.
pub proof fn lemma_cfb_bits_round_trip(
    t: spec_fn(Seq<Bit>) -> Seq<Bit>,
    register: Seq<Bit>,
    input: Seq<u8>,
    bs: nat,
)
    requires
        bs > 0,
        input.len() % bs == 0,
        register.len() == 8 * bs,
        keeps_len_bits(t, 8 * bs),
    ensures
        cfb_bits_decrypt(t, register, cfb_bits_encrypt(t, register, input, bs), bs) == input,
        cfb_bits_encrypt(t, register, input, bs).len() == input.len(),
    decreases input.len(),
{
    if input.len() > 0 {
        lemma_whole_blocks(input, bs);
        let first = head(input, bs);
        let rest = tail(input, bs);
        let block = bytes_to_bits(first);
        lemma_bytes_bits_round_trip(first);
        let mask = t(register);
        assert(mask.len() == 8 * bs);
        lemma_xor_bits_involution(block, mask);
        let cipher = xor_bits(block, mask);
        lemma_bit_block(cipher, bs);
        let packed = bits_to_bytes(cipher);
        let more = cfb_bits_encrypt(t, cipher, rest, bs);
        assert(cfb_bits_encrypt(t, register, input, bs) == packed + more);
        lemma_cfb_bits_round_trip(t, cipher, rest, bs);
        lemma_block_in_front(packed, more, bs);
        assert(bits_to_bytes(xor_bits(cipher, mask)) == first);
        assert(cfb_bits_decrypt(t, register, packed + more, bs) == first + rest);
    }
}

} // verus!
