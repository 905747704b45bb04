use crate::enums::BlockSize;
use crate::padding::Padding;
use vstd::prelude::*;
use vstd::slice::{slice_subrange, slice_to_vec};

verus! {

/// `data` without the zero bytes at its end.
pub open spec fn strip_zeros(data: Seq<u8>) -> Seq<u8>
    decreases data.len(),
{
    if data.len() > 0 && data.last() == 0 {
        strip_zeros(data.drop_last())
    } else {
        data
    }
}

/// Zero padding: between one byte and a whole block of zero bytes is
/// appended. Removing it strips every zero byte from the end, so a message
/// that itself ends in zero bytes does not come back whole.
#[derive(Debug)]
pub struct ZeroPadding {
    pub block_size: BlockSize,
}

impl ZeroPadding {
    pub fn new(block_size: BlockSize) -> (r: ZeroPadding)
        ensures
            r.block_size == block_size,
    {
        ZeroPadding { block_size }
    }

    /// The number of bytes that `pad` appends to a message of `len` bytes.
    pub open spec fn pad_len(&self, len: nat) -> nat {
        (self.block_size.spec_size() - len % self.block_size.spec_size()) as nat
    }
}

impl Padding for ZeroPadding {
    open spec fn spec_pad(&self, data: Seq<u8>) -> Seq<u8> {
        data + Seq::new(self.pad_len(data.len()), |i: int| 0u8)
    }

    open spec fn unpaddable(&self, data: Seq<u8>) -> bool {
        true
    }

    open spec fn spec_unpad(&self, data: Seq<u8>) -> Seq<u8> {
        strip_zeros(data)
    }

    open spec fn spec_build(block_size: BlockSize) -> ZeroPadding {
        ZeroPadding { block_size }
    }

    fn pad(&self, data: &[u8]) -> (r: Vec<u8>) {
        let mut padded_data = slice_to_vec(data);
        let block_size: usize = self.block_size.size();
        let pad_len = block_size - (data.len() % block_size);
        let mut i: usize = 0;
        while i < pad_len
            invariant
                i <= pad_len,
                pad_len == self.pad_len(data@.len()),
                padded_data@ == data@ + Seq::new(i as nat, |k: int| 0u8),
            decreases pad_len - i,
        {
            padded_data.push(0);
            i += 1;
            assert(padded_data@ =~= data@ + Seq::new(i as nat, |k: int| 0u8));
        }
        padded_data
    }

    fn can_unpad(&self, data: &[u8]) -> (b: bool) {
        true
    }

    fn unpad(&self, data: &[u8]) -> (r: Vec<u8>) {
        let mut end = data.len();
        assert(data@.take(end as int) =~= data@);
        while end > 0 && data[end - 1] == 0
            invariant
                end <= data@.len(),
                strip_zeros(data@) == strip_zeros(data@.take(end as int)),
            decreases end,
        {
            assert(data@.take(end as int).drop_last() =~= data@.take(end - 1));
            end -= 1;
        }
        let kept = slice_subrange(data, 0, end);
        assert(kept@ =~= data@.take(end as int));
        slice_to_vec(kept)
    }

    fn build(block_size: BlockSize) -> (r: ZeroPadding) {
        ZeroPadding { block_size }
    }

    proof fn lemma_padded_is_unpaddable(&self, data: Seq<u8>) {
    }
}

} // verus!
