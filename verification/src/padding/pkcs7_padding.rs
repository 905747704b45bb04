use crate::enums::BlockSize;
use crate::padding::Padding;
use vstd::prelude::*;
use vstd::slice::{slice_subrange, slice_to_vec};

verus! {

/// PKCS#7: between one byte and a whole block is appended, and every
/// appended byte holds the number of appended bytes.
#[derive(Debug)]
pub struct Pkcs7Padding {
    pub block_size: BlockSize,
}

impl Pkcs7Padding {
    pub fn new(block_size: BlockSize) -> (r: Pkcs7Padding)
        ensures
            r.block_size == block_size,
    {
        Pkcs7Padding { block_size }
    }

    /// The number of bytes that `pad` appends to a message of `len` bytes.
    pub open spec fn pad_len(&self, len: nat) -> nat {
        (self.block_size.spec_size() - len % self.block_size.spec_size()) as nat
    }
}

impl Padding for Pkcs7Padding {
    open spec fn spec_pad(&self, data: Seq<u8>) -> Seq<u8> {
        let n = self.pad_len(data.len());
        data + Seq::new(n, |i: int| n as u8)
    }

    open spec fn unpaddable(&self, data: Seq<u8>) -> bool {
        data.len() > 0 && data.last() as nat <= data.len()
    }

    open spec fn spec_unpad(&self, data: Seq<u8>) -> Seq<u8> {
        data.take(data.len() - data.last() as int)
    }

    open spec fn spec_build(block_size: BlockSize) -> Pkcs7Padding {
        Pkcs7Padding { block_size }
    }

    fn pad(&self, data: &[u8]) -> (r: Vec<u8>) {
        let mut padded_data = slice_to_vec(data);
        let block_size: usize = self.block_size.size();
        let pad_len = block_size - (data.len() % block_size);
        let mut i: usize = 0;
        while i < pad_len
            invariant
                i <= pad_len,
                pad_len == self.pad_len(data@.len()),
                pad_len <= 128,
                padded_data@ == data@ + Seq::new(i as nat, |k: int| pad_len as u8),
            decreases pad_len - i,
        {
            padded_data.push(pad_len as u8);
            i += 1;
            assert(padded_data@ =~= data@ + Seq::new(i as nat, |k: int| pad_len as u8));
        }
        padded_data
    }

    fn can_unpad(&self, data: &[u8]) -> (b: bool) {
        let length = data.len();
        length > 0 && data[length - 1] as usize <= length
    }

    fn unpad(&self, data: &[u8]) -> (r: Vec<u8>) {
        let length = data.len();
        let pad_len = data[length - 1] as usize;
        let unpadded_data = slice_subrange(data, 0, length - pad_len);
        slice_to_vec(unpadded_data)
    }

    fn build(block_size: BlockSize) -> (r: Pkcs7Padding) {
        Pkcs7Padding { block_size }
    }

    proof fn lemma_padded_is_unpaddable(&self, data: Seq<u8>) {
    }
}

/// Removing PKCS#7 padding gives back exactly the message that was padded,
/// whatever its length.
pub proof fn lemma_pkcs7_round_trip(padding: Pkcs7Padding, data: Seq<u8>)
    ensures
        padding.unpaddable(padding.spec_pad(data)),
        padding.spec_unpad(padding.spec_pad(data)) == data,
        padding.spec_pad(data).len() % padding.block_size.spec_size() == 0,
        padding.spec_pad(data).len() > data.len(),
{
    let n = padding.pad_len(data.len());
    let padded = padding.spec_pad(data);
    let bs = padding.block_size.spec_size();
    assert(padded.last() == n as u8);
    assert(padded.take(padded.len() - n) =~= data);
    vstd::arithmetic::div_mod::lemma_fundamental_div_mod(data.len() as int, bs as int);
    let q = data.len() as int / bs as int;
    assert(padded.len() == bs * (q + 1)) by (nonlinear_arith)
        requires
            padded.len() == data.len() + bs - data.len() % bs,
            data.len() == bs * q + data.len() % bs,
    ;
    vstd::arithmetic::div_mod::lemma_mod_multiples_basic(q + 1, bs as int);
    assert(bs * (q + 1) == (q + 1) * bs) by (nonlinear_arith);
}

/// A message whose length is a multiple of the block size gets one whole
/// block of padding.
pub proof fn lemma_pkcs7_full_block(padding: Pkcs7Padding, data: Seq<u8>)
    requires
        data.len() % padding.block_size.spec_size() == 0,
    ensures
        padding.spec_pad(data) == data + Seq::new(
            padding.block_size.spec_size(),
            |i: int| padding.block_size.spec_size() as u8,
        ),
{
}

} // verus!
