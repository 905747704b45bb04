use std::ops::BitXor;
use vstd::prelude::*;

verus! {

/// A single binary digit.
#[derive(Clone, Copy, Debug, PartialEq, Eq, Structural)]
pub enum Bit {
    Zero,
    One,
}

impl Bit {
    /// The digit as a number, 0 or 1.
    pub open spec fn value(self) -> nat {
        match self {
            Bit::Zero => 0,
            Bit::One => 1,
        }
    }

    /// Exclusive or of two digits: `One` exactly when they differ.
    pub open spec fn spec_xor(self, rhs: Bit) -> Bit {
        if self == rhs {
            Bit::Zero
        } else {
            Bit::One
        }
    }
}

impl Default for Bit {
    fn default() -> (r: Bit)
        ensures
            r == Bit::Zero,
    {
        Bit::Zero
    }
}

impl BitXor for Bit {
    type Output = Bit;

    fn bitxor(self, rhs: Bit) -> (r: Bit) {
        match (self, rhs) {
            (Bit::Zero, Bit::Zero) => Bit::Zero,
            (Bit::Zero, Bit::One) => Bit::One,
            (Bit::One, Bit::Zero) => Bit::One,
            (Bit::One, Bit::One) => Bit::Zero,
        }
    }
}

impl vstd::std_specs::ops::BitXorSpecImpl for Bit {
    open spec fn obeys_bitxor_spec() -> bool {
        true
    }

    open spec fn bitxor_req(self, rhs: Bit) -> bool {
        true
    }

    open spec fn bitxor_spec(self, rhs: Bit) -> Bit {
        self.spec_xor(rhs)
    }
}

/// Exclusive or is its own inverse.
pub proof fn lemma_bit_xor_involution(a: Bit, b: Bit)
    ensures
        a.spec_xor(b).spec_xor(b) == a,
        a.spec_xor(b) == b.spec_xor(a),
{
}

} // verus!
