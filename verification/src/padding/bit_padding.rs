use crate::enums::{BlockSize, Endian};
use crate::bytes::{
    field_bytes, field_value, lemma_field_round_trip, pow256, read_number, write_number,
};
use crate::padding::Padding;
use vstd::arithmetic::div_mod::{lemma_add_mod_noop, lemma_small_mod};
use vstd::prelude::*;
use vstd::slice::{slice_subrange, slice_to_vec};

verus! {

/// The number of zero bytes between the marker byte and the length field,
/// for a message of `len` bytes and blocks of `bs` bytes: as many as bring
/// the length to `bs - bs / 8` modulo `bs`.
pub open spec fn zeros_needed(len: nat, bs: nat) -> nat {
    let target = bs * 7 / 8;
    let reached = (len + 1) % bs;
    if reached <= target {
        (target - reached) as nat
    } else {
        (bs + target - reached) as nat
    }
}

/// Merkle-Damgard padding: the marker byte `0x80`, zero bytes, and the
/// message's length in bits as an integer of one eighth of the block size,
/// reduced modulo the field's range.
#[derive(Debug)]
pub struct BitPadding {
    pub block_size: BlockSize,
    pub endian: Endian,
}

impl BitPadding {
    pub fn new(block_size: BlockSize, endian: Endian) -> (r: BitPadding)
        ensures
            r.block_size == block_size,
            r.endian == endian,
    {
        BitPadding { block_size, endian }
    }

    /// The number of bytes of the length field.
    pub open spec fn field_len(&self) -> nat {
        self.block_size.spec_size() / 8
    }

    /// The message length in bytes that the field at the end of `data` states.
    pub open spec fn stated_len(&self, data: Seq<u8>) -> nat {
        field_value(
            data.subrange(data.len() - self.field_len(), data.len() as int),
            self.endian,
        ) / 8
    }
}

impl Padding for BitPadding {
    open spec fn spec_pad(&self, data: Seq<u8>) -> Seq<u8> {
        data + seq![0x80u8] + Seq::new(
            zeros_needed(data.len(), self.block_size.spec_size()),
            |i: int| 0u8,
        ) + field_bytes(8 * data.len(), self.field_len(), self.endian)
    }

    open spec fn unpaddable(&self, data: Seq<u8>) -> bool {
        data.len() >= self.field_len()
    }

    open spec fn spec_unpad(&self, data: Seq<u8>) -> Seq<u8> {
        if self.stated_len(data) >= data.len() {
            data
        } else {
            data.take(self.stated_len(data) as int)
        }
    }

    open spec fn spec_build(block_size: BlockSize) -> BitPadding {
        BitPadding { block_size, endian: Endian::Big }
    }

    fn pad(&self, data: &[u8]) -> (r: Vec<u8>) {
        let mut padded_data = slice_to_vec(data);
        let block_size: usize = self.block_size.size();
        let length = data.len();
        padded_data.push(0x80);
        let target = block_size * 7 / 8;
        let reached = (length % block_size + 1) % block_size;
        proof {
            lemma_add_mod_noop(length as int, 1, block_size as int);
            lemma_small_mod(1, block_size as nat);
        }
        let zeros = if reached <= target {
            target - reached
        } else {
            block_size + target - reached
        };
        let mut i: usize = 0;
        while i < zeros
            invariant
                i <= zeros,
                padded_data@ == data@ + seq![0x80u8] + Seq::new(i as nat, |k: int| 0u8),
            decreases zeros - i,
        {
            padded_data.push(0);
            i += 1;
            assert(padded_data@ =~= data@ + seq![0x80u8] + Seq::new(i as nat, |k: int| 0u8));
        }
        let field_len = block_size / 8;
        let bits: u128 = length as u128 * 8;
        let field = write_number(bits, field_len, self.endian);
        padded_data.extend_from_slice(field.as_slice());
        assert(padded_data@ =~= self.spec_pad(data@));
        padded_data
    }

    fn can_unpad(&self, data: &[u8]) -> (b: bool) {
        data.len() >= self.block_size.size() / 8
    }

    fn unpad(&self, data: &[u8]) -> (r: Vec<u8>) {
        let length = data.len();
        let field_len = self.block_size.size() / 8;
        let field = slice_subrange(data, length - field_len, length);
        let bits = read_number(field, self.endian);
        let stated_length: u128 = bits / 8;
        if stated_length >= length as u128 {
            slice_to_vec(data)
        } else {
            let kept = slice_subrange(data, 0, stated_length as usize);
            slice_to_vec(kept)
        }
    }

    fn build(block_size: BlockSize) -> (r: BitPadding) {
        BitPadding::new(block_size, Endian::Big)
    }

    proof fn lemma_padded_is_unpaddable(&self, data: Seq<u8>) {
    }
}

/// The padded message is a whole number of blocks.
pub proof fn lemma_bit_padding_whole_blocks(padding: BitPadding, data: Seq<u8>)
    ensures
        padding.spec_pad(data).len() % padding.block_size.spec_size() == 0,
        padding.spec_pad(data).len() == data.len() + 1 + zeros_needed(
            data.len(),
            padding.block_size.spec_size(),
        ) + padding.field_len(),
{
    let bs = padding.block_size.spec_size() as int;
    let len = data.len() as int;
    let zeros = zeros_needed(data.len(), bs as nat) as int;
    let total = len + 1 + zeros + padding.field_len();
    let reached = (len + 1) % bs;
    let q = (len + 1) / bs;
    vstd::arithmetic::div_mod::lemma_fundamental_div_mod(len + 1, bs);
    assert(bs * 7 / 8 + padding.field_len() == bs);
    if reached <= bs * 7 / 8 {
        assert(total == bs * (q + 1)) by (nonlinear_arith)
            requires
                total == len + 1 - reached + bs,
                len + 1 == bs * q + reached,
        ;
        vstd::arithmetic::div_mod::lemma_mod_multiples_basic(q + 1, bs);
        assert(bs * (q + 1) == (q + 1) * bs) by (nonlinear_arith);
    } else {
        assert(total == bs * (q + 2)) by (nonlinear_arith)
            requires
                total == len + 1 - reached + 2 * bs,
                len + 1 == bs * q + reached,
        ;
        vstd::arithmetic::div_mod::lemma_mod_multiples_basic(q + 2, bs);
        assert(bs * (q + 2) == (q + 2) * bs) by (nonlinear_arith);
    }
}

/// Removing the padding gives back exactly the message that was padded, as
/// long as its length in bits fits in the length field.
pub proof fn lemma_bit_padding_round_trip(padding: BitPadding, data: Seq<u8>)
    requires
        8 * data.len() < pow256(padding.field_len()),
    ensures
        padding.unpaddable(padding.spec_pad(data)),
        padding.spec_unpad(padding.spec_pad(data)) == data,
{
    let padded = padding.spec_pad(data);
    let n = padding.field_len();
    let field = field_bytes(8 * data.len(), n, padding.endian);
    lemma_field_round_trip(8 * data.len(), n, padding.endian);
    assert(padded.subrange(padded.len() - n, padded.len() as int) =~= field);
    vstd::arithmetic::div_mod::lemma_small_mod(8 * data.len(), pow256(n));
    assert(padding.stated_len(padded) == data.len());
    assert(padded.take(data.len() as int) =~= data);
}

} // verus!
