use crate::enums::BlockSize;
use crate::operation::Operation;
use vstd::prelude::*;

verus! {

/// A hash function: an operation that never fails, with the block size that
/// its compression works on.
pub trait Hashing: Operation + Default {
    /// The block size of the hash function.
    spec fn spec_block_size(&self) -> BlockSize;

    /// The digest of `input`.
    spec fn spec_digest(&self, input: Seq<u8>) -> Seq<u8>;

    /// The block size of the hash function.
    fn block_size(&self) -> (r: BlockSize)
        ensures
            r == self.spec_block_size(),
    ;

    /// Hashing never fails, and `run` returns the digest.
    proof fn lemma_run_is_digest(&self, input: Seq<u8>)
        ensures
            self.spec_run(input) == Ok::<Seq<u8>, crate::types::Error>(self.spec_digest(input)),
    ;
}

} // verus!
