use vstd::prelude::*;

verus! {

/// Letter case of hexadecimal digits.
#[derive(Clone, Copy, Debug, PartialEq, Eq, Structural)]
pub enum Case {
    Lower,
    Upper,
}

impl Default for Case {
    fn default() -> (r: Case)
        ensures
            r == Case::Lower,
    {
        Case::Lower
    }
}

} // verus!
