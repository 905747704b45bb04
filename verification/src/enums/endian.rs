use vstd::prelude::*;

verus! {

/// Byte order of a fixed-width integer field.
#[derive(Clone, Copy, Debug, PartialEq, Eq, Structural)]
pub enum Endian {
    Big,
    Little,
}

} // verus!
