//! Mathematical models of the operations that bit vectors and byte vectors
//! have in common.
use vstd::prelude::*;

verus! {

/// Selects elements by an index list: position `i` of the result holds
/// `s[indices[i]]`, or `zero` where that index is out of range.
pub open spec fn permute<T>(s: Seq<T>, indices: Seq<usize>, zero: T) -> Seq<T> {
    Seq::new(
        indices.len(),
        |i: int|
            if indices[i] < s.len() {
                s[indices[i] as int]
            } else {
                zero
            },
    )
}

/// Right-justifies `s` in `len` places: a longer `s` loses elements at the
/// front, a shorter one is filled up at the front with `fill`.
pub open spec fn align<T>(s: Seq<T>, len: nat, fill: T) -> Seq<T> {
    Seq::new(
        len,
        |i: int|
            if i + s.len() >= len {
                s[i + s.len() - len]
            } else {
                fill
            },
    )
}

/// Fills or cuts `s` at the end so that it has `len` elements.
pub open spec fn resize<T>(s: Seq<T>, len: nat, fill: T) -> Seq<T> {
    Seq::new(
        len,
        |i: int|
            if i < s.len() {
                s[i]
            } else {
                fill
            },
    )
}

/// The larger of two lengths.
pub open spec fn max_len(a: nat, b: nat) -> nat {
    if a >= b {
        a
    } else {
        b
    }
}

/// Aligning to the sequence's own length changes nothing.
pub proof fn lemma_align_same_len<T>(s: Seq<T>, fill: T)
    ensures
        align(s, s.len(), fill) == s,
{
    assert(align(s, s.len(), fill) =~= s);
}

/// Selecting by an empty index list gives an empty sequence.
pub proof fn lemma_permute_empty<T>(s: Seq<T>, zero: T)
    ensures
        permute(s, Seq::<usize>::empty(), zero) == Seq::<T>::empty(),
{
    assert(permute(s, Seq::<usize>::empty(), zero) =~= Seq::<T>::empty());
}

} // verus!
