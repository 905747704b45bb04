//! The unit of a pipeline: a transform from bytes to bytes.
use crate::bytes::Bytes;
use crate::types::{outcome, Error};
use vstd::prelude::*;

mod hashing;

pub use hashing::Hashing;

verus! {

/// A transform from bytes to bytes that may fail. An operation keeps no
/// state between runs: the same input gives the same result.
pub trait Operation {
    /// What `run` returns for `input`.
    spec fn spec_run(&self, input: Seq<u8>) -> Result<Seq<u8>, Error>;

    /// Transforms `input`.
    fn run(&self, input: &[u8]) -> (r: Result<Bytes, Error>)
        ensures
            outcome(r) == self.spec_run(input@),
    ;
}

} // verus!
