use vstd::prelude::*;

verus! {

/// The block lengths the ciphers, paddings and hash functions work with.
#[derive(Clone, Copy, Debug, PartialEq, Eq, Structural)]
pub enum BlockSize {
    Bytes8,
    Bytes16,
    Bytes32,
    Bytes64,
    Bytes128,
}

impl BlockSize {
    /// The number of bytes in one block.
    pub open spec fn spec_size(self) -> nat {
        match self {
            BlockSize::Bytes8 => 8,
            BlockSize::Bytes16 => 16,
            BlockSize::Bytes32 => 32,
            BlockSize::Bytes64 => 64,
            BlockSize::Bytes128 => 128,
        }
    }

    /// The number of bytes in one block.
    pub fn size(self) -> (n: usize)
        ensures
            n == self.spec_size(),
    {
        match self {
            BlockSize::Bytes8 => 8,
            BlockSize::Bytes16 => 16,
            BlockSize::Bytes32 => 32,
            BlockSize::Bytes64 => 64,
            BlockSize::Bytes128 => 128,
        }
    }
}

impl From<BlockSize> for usize {
    fn from(value: BlockSize) -> (n: usize) {
        value.size()
    }
}

impl vstd::std_specs::convert::FromSpecImpl<BlockSize> for usize {
    open spec fn obeys_from_spec() -> bool {
        true
    }

    open spec fn from_spec(value: BlockSize) -> usize {
        value.spec_size() as usize
    }
}

} // verus!
