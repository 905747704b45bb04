use crate::enums::BlockSize;
use crate::padding::Padding;
use vstd::prelude::*;
use vstd::slice::slice_to_vec;

verus! {

/// The scheme that leaves data as it is.
#[derive(Debug)]
pub struct NoPadding {
    pub block_size: BlockSize,
}

impl NoPadding {
    pub fn new(block_size: BlockSize) -> (r: NoPadding)
        ensures
            r.block_size == block_size,
    {
        NoPadding { block_size }
    }
}

impl Padding for NoPadding {
    open spec fn spec_pad(&self, data: Seq<u8>) -> Seq<u8> {
        data
    }

    open spec fn unpaddable(&self, data: Seq<u8>) -> bool {
        true
    }

    open spec fn spec_unpad(&self, data: Seq<u8>) -> Seq<u8> {
        data
    }

    open spec fn spec_build(block_size: BlockSize) -> NoPadding {
        NoPadding { block_size }
    }

    fn pad(&self, data: &[u8]) -> (r: Vec<u8>) {
        slice_to_vec(data)
    }

    fn can_unpad(&self, data: &[u8]) -> (b: bool) {
        true
    }

    fn unpad(&self, data: &[u8]) -> (r: Vec<u8>) {
        slice_to_vec(data)
    }

    fn build(block_size: BlockSize) -> (r: NoPadding) {
        NoPadding { block_size }
    }

    proof fn lemma_padded_is_unpaddable(&self, data: Seq<u8>) {
    }
}

} // verus!
