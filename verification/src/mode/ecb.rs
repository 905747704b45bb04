use crate::bits::{bits_to_bytes, bytes_to_bits, lemma_bit_block, lemma_bytes_bits_round_trip, Bits};
use crate::bytes::Bytes;
use crate::enums::{Bit, BlockSize};
use crate::mode::{
    block_end, computes_bits, computes_bytes, head, keeps_len_bits, keeps_len_bytes,
    lemma_block_in_front, lemma_next_block, lemma_whole_blocks, tail, total_bits, total_bytes,
    undoes_bits, undoes_bytes, Mode,
};
use crate::types::Error;
use std::ops::Deref;
use vstd::prelude::*;
use vstd::slice::slice_subrange;

verus! {

/// Electronic codebook on bytes: every block goes through `t` by itself.
pub open spec fn ecb_bytes(t: spec_fn(Seq<u8>) -> Seq<u8>, input: Seq<u8>, bs: nat) -> Seq<u8>
    decreases input.len(),
{
    if input.len() == 0 || bs == 0 {
        Seq::empty()
    } else {
        t(head(input, bs)) + ecb_bytes(t, tail(input, bs), bs)
    }
}

/// Electronic codebook on bits: every block is unpacked into bits, goes
/// through `t` by itself, and is packed again.
pub open spec fn ecb_bits(t: spec_fn(Seq<Bit>) -> Seq<Bit>, input: Seq<u8>, bs: nat) -> Seq<u8>
    decreases input.len(),
{
    if input.len() == 0 || bs == 0 {
        Seq::empty()
    } else {
        bits_to_bytes(t(bytes_to_bits(head(input, bs)))) + ecb_bits(t, tail(input, bs), bs)
    }
}

/// Electronic codebook mode. Blocks do not depend on each other, so both
/// directions can work on all blocks at once.
#[derive(Clone, Copy, Debug)]
pub struct Ecb;

/// Runs every block of `input` through `block_crypt`, on bits.
pub fn bits_crypt<F: Fn(&[Bit]) -> Bits>(
    input: &[u8],
    block_size: BlockSize,
    block_crypt: F,
) -> (r: Bytes)
    requires
        total_bits(block_crypt),
    ensures
        forall|t: spec_fn(Seq<Bit>) -> Seq<Bit>|
            computes_bits(block_crypt, t) ==> r@ == #[trigger] ecb_bits(
                t,
                input@,
                block_size.spec_size(),
            ),
{
    let bs = block_size.size();
    let mut output: Vec<u8> = Vec::with_capacity(input.len());
    let mut start: usize = 0;
    assert(input@.skip(0) =~= input@);
    while start < input.len()
        invariant
            start <= input.len(),
            bs == block_size.spec_size(),
            total_bits(block_crypt),
            forall|t: spec_fn(Seq<Bit>) -> Seq<Bit>|
                computes_bits(block_crypt, t) ==> output@ + #[trigger] ecb_bits(
                    t,
                    input@.skip(start as int),
                    bs as nat,
                ) == ecb_bits(t, input@, bs as nat),
        decreases input.len() - start,
    {
        let end = block_end(input.len(), start, bs);
        let chunk = slice_subrange(input, start, end);
        let block: Bits = Bits::from(chunk);
        let crypted = block_crypt(block.deref());
        let bytes = crypted.to_bytes();
        let ghost before = output@;
        output.extend_from_slice(bytes.deref());
        proof {
            lemma_next_block(input@, bs as nat, start as int, end as int);
            assert(output@ =~= before + bytes@);
            assert forall|t: spec_fn(Seq<Bit>) -> Seq<Bit>|
                computes_bits(block_crypt, t) implies output@ + #[trigger] ecb_bits(
                t,
                input@.skip(end as int),
                bs as nat,
            ) == ecb_bits(t, input@, bs as nat) by {
                let rest = ecb_bits(t, input@.skip(end as int), bs as nat);
                assert(ecb_bits(t, input@.skip(start as int), bs as nat) == bytes@ + rest);
                assert(before + bytes@ + rest =~= before + (bytes@ + rest));
            }
        }
        start = end;
    }
    proof {
        assert forall|t: spec_fn(Seq<Bit>) -> Seq<Bit>|
            computes_bits(block_crypt, t) implies output@ == #[trigger] ecb_bits(
            t,
            input@,
            bs as nat,
        ) by {
            let rest = ecb_bits(t, input@.skip(start as int), bs as nat);
            assert(output@ + rest =~= output@);
        }
    }
    Bytes::new(output)
}

/// Runs every block of `input` through `block_crypt`, on bytes.
pub fn bytes_crypt<F: Fn(&[u8]) -> Bytes>(
    input: &[u8],
    block_size: BlockSize,
    block_crypt: F,
) -> (r: Bytes)
    requires
        total_bytes(block_crypt),
    ensures
        forall|t: spec_fn(Seq<u8>) -> Seq<u8>|
            computes_bytes(block_crypt, t) ==> r@ == #[trigger] ecb_bytes(
                t,
                input@,
                block_size.spec_size(),
            ),
{
    let bs = block_size.size();
    let mut output: Vec<u8> = Vec::with_capacity(input.len());
    let mut start: usize = 0;
    assert(input@.skip(0) =~= input@);
    while start < input.len()
        invariant
            start <= input.len(),
            bs == block_size.spec_size(),
            total_bytes(block_crypt),
            forall|t: spec_fn(Seq<u8>) -> Seq<u8>|
                computes_bytes(block_crypt, t) ==> output@ + #[trigger] ecb_bytes(
                    t,
                    input@.skip(start as int),
                    bs as nat,
                ) == ecb_bytes(t, input@, bs as nat),
        decreases input.len() - start,
    {
        let end = block_end(input.len(), start, bs);
        let chunk = slice_subrange(input, start, end);
        let crypted = block_crypt(chunk);
        let ghost before = output@;
        output.extend_from_slice(crypted.deref());
        proof {
            lemma_next_block(input@, bs as nat, start as int, end as int);
            assert(output@ =~= before + crypted@);
            assert forall|t: spec_fn(Seq<u8>) -> Seq<u8>|
                computes_bytes(block_crypt, t) implies output@ + #[trigger] ecb_bytes(
                t,
                input@.skip(end as int),
                bs as nat,
            ) == ecb_bytes(t, input@, bs as nat) by {
                let rest = ecb_bytes(t, input@.skip(end as int), bs as nat);
                assert(ecb_bytes(t, input@.skip(start as int), bs as nat) == crypted@ + rest);
                assert(before + crypted@ + rest =~= before + (crypted@ + rest));
            }
        }
        start = end;
    }
    proof {
        assert forall|t: spec_fn(Seq<u8>) -> Seq<u8>|
            computes_bytes(block_crypt, t) implies output@ == #[trigger] ecb_bytes(
            t,
            input@,
            bs as nat,
        ) by {
            let rest = ecb_bytes(t, input@.skip(start as int), bs as nat);
            assert(output@ + rest =~= output@);
        }
    }
    Bytes::new(output)
}

impl Mode for Ecb {
    open spec fn spec_bits_encrypt(
        &self,
        input: Seq<u8>,
        block_size: BlockSize,
        t: spec_fn(Seq<Bit>) -> Seq<Bit>,
    ) -> Result<Seq<u8>, Error> {
        Ok(ecb_bits(t, input, block_size.spec_size()))
    }

    open spec fn spec_bits_decrypt(
        &self,
        input: Seq<u8>,
        block_size: BlockSize,
        t: spec_fn(Seq<Bit>) -> Seq<Bit>,
    ) -> Result<Seq<u8>, Error> {
        Ok(ecb_bits(t, input, block_size.spec_size()))
    }

    open spec fn spec_bytes_encrypt(
        &self,
        input: Seq<u8>,
        block_size: BlockSize,
        t: spec_fn(Seq<u8>) -> Seq<u8>,
    ) -> Result<Seq<u8>, Error> {
        Ok(ecb_bytes(t, input, block_size.spec_size()))
    }

    open spec fn spec_bytes_decrypt(
        &self,
        input: Seq<u8>,
        block_size: BlockSize,
        t: spec_fn(Seq<u8>) -> Seq<u8>,
    ) -> Result<Seq<u8>, Error> {
        Ok(ecb_bytes(t, input, block_size.spec_size()))
    }

    open spec fn spec_inverts_on_decrypt(&self) -> bool {
        true
    }

    proof fn lemma_bits_round_trip(
        &self,
        input: Seq<u8>,
        block_size: BlockSize,
        forward: spec_fn(Seq<Bit>) -> Seq<Bit>,
        backward: spec_fn(Seq<Bit>) -> Seq<Bit>,
    ) {
        lemma_ecb_bits_round_trip(forward, backward, input, block_size.spec_size());
    }

    proof fn lemma_bytes_round_trip(
        &self,
        input: Seq<u8>,
        block_size: BlockSize,
        forward: spec_fn(Seq<u8>) -> Seq<u8>,
        backward: spec_fn(Seq<u8>) -> Seq<u8>,
    ) {
        lemma_ecb_bytes_round_trip(forward, backward, input, block_size.spec_size());
    }

    fn inverts_on_decrypt(&self) -> (b: bool) {
        true
    }

    fn bits_decrypt<F: Fn(&[Bit]) -> Bits>(
        &self,
        input: &[u8],
        block_size: BlockSize,
        block_decrypt: F,
    ) -> (r: Result<Bytes, Error>)
        ensures
            r is Ok,
    {
        Ok(bits_crypt(input, block_size, block_decrypt))
    }

    fn bits_encrypt<F: Fn(&[Bit]) -> Bits>(
        &self,
        input: &[u8],
        block_size: BlockSize,
        block_encrypt: F,
    ) -> (r: Result<Bytes, Error>)
        ensures
            r is Ok,
    {
        Ok(bits_crypt(input, block_size, block_encrypt))
    }

    fn bytes_decrypt<F: Fn(&[u8]) -> Bytes>(
        &self,
        input: &[u8],
        block_size: BlockSize,
        block_decrypt: F,
    ) -> (r: Result<Bytes, Error>)
        ensures
            r is Ok,
    {
        Ok(bytes_crypt(input, block_size, block_decrypt))
    }

    fn bytes_encrypt<F: Fn(&[u8]) -> Bytes>(
        &self,
        input: &[u8],
        block_size: BlockSize,
        block_encrypt: F,
    ) -> (r: Result<Bytes, Error>)
        ensures
            r is Ok,
    {
        Ok(bytes_crypt(input, block_size, block_encrypt))
    }
}

/// On whole blocks, running the inverse transform over what the transform
/// made gives the message back.
pub proof fn lemma_ecb_bytes_round_trip(
    t: spec_fn(Seq<u8>) -> Seq<u8>,
    back: spec_fn(Seq<u8>) -> Seq<u8>,
    input: Seq<u8>,
    bs: nat,
)
    requires
        bs > 0,
        input.len() % bs == 0,
        keeps_len_bytes(t, bs),
        undoes_bytes(back, t, bs),
    ensures
        ecb_bytes(back, ecb_bytes(t, input, bs), bs) == input,
        ecb_bytes(t, input, bs).len() == input.len(),
    decreases input.len(),
{
    if input.len() > 0 {
        lemma_whole_blocks(input, bs);
        let first = head(input, bs);
        let rest = tail(input, bs);
        let made = t(first);
        let more = ecb_bytes(t, rest, bs);
        lemma_ecb_bytes_round_trip(t, back, rest, bs);
        lemma_block_in_front(made, more, bs);
        assert(ecb_bytes(back, made + more, bs) == first + rest);
    }
}

/// The same on the bit path.
pub proof fn lemma_ecb_bits_round_trip(
    t: spec_fn(Seq<Bit>) -> Seq<Bit>,
    back: spec_fn(Seq<Bit>) -> Seq<Bit>,
    input: Seq<u8>,
    bs: nat,
)
    requires
        bs > 0,
        input.len() % bs == 0,
        keeps_len_bits(t, 8 * bs),
        undoes_bits(back, t, 8 * bs),
    ensures
        ecb_bits(back, ecb_bits(t, input, bs), bs) == input,
        ecb_bits(t, input, bs).len() == input.len(),
    decreases input.len(),
{
    if input.len() > 0 {
        lemma_whole_blocks(input, bs);
        let first = head(input, bs);
        let rest = tail(input, bs);
        let made = t(bytes_to_bits(first));
        let more = ecb_bits(t, rest, bs);
        lemma_bytes_bits_round_trip(first);
        lemma_bit_block(made, bs);
        lemma_ecb_bits_round_trip(t, back, rest, bs);
        lemma_block_in_front(bits_to_bytes(made), more, bs);
        assert(ecb_bits(back, bits_to_bytes(made) + more, bs) == first + rest);
    }
}

} // verus!
