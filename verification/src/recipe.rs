//! Pipelines of operations.
use crate::bytes::Bytes;
use crate::operation::Operation;
use crate::types::{outcome, Error};
use std::ops::Deref;
use vstd::prelude::*;
use vstd::slice::slice_to_vec;

verus! {

/// What the operations from position `from` on make of `data`: each takes
/// what the one before it returned, and the first error ends the run and is
/// the result.
pub open spec fn bake_from(ops: Seq<Box<dyn Operation>>, data: Seq<u8>, from: int) -> Result<
    Seq<u8>,
    Error,
>
    decreases ops.len() - from,
{
    if from < 0 || from >= ops.len() {
        Ok(data)
    } else {
        match ops[from].spec_run(data) {
            Ok(next) => bake_from(ops, next, from + 1),
            Err(e) => Err(e),
        }
    }
}

/// An ordered list of operations, run one after the other.
pub struct Recipe {
    pub op_list: Vec<Box<dyn Operation>>,
}

impl Recipe {
    pub fn new(op_list: Vec<Box<dyn Operation>>) -> (r: Recipe)
        ensures
            r.op_list@ == op_list@,
    {
        Recipe { op_list }
    }

    /// Runs the operations in order on `input`. The first operation that
    /// fails ends the run, and its error is returned as it is.
    pub fn bake(&self, input: &[u8]) -> (r: Result<Bytes, Error>)
        ensures
            outcome(r) == bake_from(self.op_list@, input@, 0),
    {
        let mut data: Vec<u8> = slice_to_vec(input);
        let mut i: usize = 0;
        while i < self.op_list.len()
            invariant
                i <= self.op_list.len(),
                bake_from(self.op_list@, data@, i as int) == bake_from(self.op_list@, input@, 0),
            decreases self.op_list.len() - i,
        {
            match self.op_list[i].run(data.as_slice()) {
                Ok(result) => {
                    data = slice_to_vec(result.deref());
                },
                Err(e) => {
                    return Err(e);
                },
            }
            i += 1;
        }
        Ok(Bytes::new(data))
    }
}

/// A recipe without operations returns its input.
pub proof fn lemma_bake_empty(ops: Seq<Box<dyn Operation>>, data: Seq<u8>)
    requires
        ops.len() == 0,
    ensures
        bake_from(ops, data, 0) == Ok::<Seq<u8>, Error>(data),
{
}

/// If the operation at position `from` fails, the rest of the recipe is not
/// run, and the result is that operation's error.
pub proof fn lemma_bake_stops_at_error(ops: Seq<Box<dyn Operation>>, data: Seq<u8>, from: int)
    requires
        0 <= from < ops.len(),
        ops[from].spec_run(data) is Err,
    ensures
        bake_from(ops, data, from) == Err::<Seq<u8>, Error>(ops[from].spec_run(data)->Err_0),
{
}

} // verus!
