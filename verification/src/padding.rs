//! Padding schemes: how a message of any length becomes a whole number of
//! blocks, and back.
use crate::enums::BlockSize;
use crate::types::Error;
use vstd::prelude::*;

mod bit_padding;
mod no_padding;
mod pkcs7_padding;
mod pkcs_padding;
mod zero_padding;

pub use bit_padding::{
    lemma_bit_padding_round_trip, lemma_bit_padding_whole_blocks, zeros_needed, BitPadding,
};
pub use no_padding::NoPadding;
pub use pkcs7_padding::{lemma_pkcs7_full_block, lemma_pkcs7_round_trip, Pkcs7Padding};
pub use pkcs_padding::PKCSPadding;
pub use zero_padding::{strip_zeros, ZeroPadding};

verus! {

/// A padding scheme for one block size.
pub trait Padding: Sized {
    /// The padded form of `data`.
    spec fn spec_pad(&self, data: Seq<u8>) -> Seq<u8>;

    /// Whether `data` ends in something that `unpad` can read as padding.
    spec fn unpaddable(&self, data: Seq<u8>) -> bool;

    /// `data` without its padding.
    spec fn spec_unpad(&self, data: Seq<u8>) -> Seq<u8>;

    /// The scheme that `build` makes for a block size.
    spec fn spec_build(block_size: BlockSize) -> Self;

    /// Pads `data`.
    fn pad(&self, data: &[u8]) -> (r: Vec<u8>)
        ensures
            r@ == self.spec_pad(data@),
    ;

    /// Tells whether `unpad` accepts `data`.
    fn can_unpad(&self, data: &[u8]) -> (b: bool)
        ensures
            b == self.unpaddable(data@),
    ;

    /// Removes the padding from `data`.
    fn unpad(&self, data: &[u8]) -> (r: Vec<u8>)
        requires
            self.unpaddable(data@),
        ensures
            r@ == self.spec_unpad(data@),
    ;

    /// The scheme for a block size, with its default settings.
    fn build(block_size: BlockSize) -> (r: Self)
        ensures
            r == Self::spec_build(block_size),
    ;

    /// What `pad` returns, `unpad` accepts.
    proof fn lemma_padded_is_unpaddable(&self, data: Seq<u8>)
        ensures
            self.unpaddable(self.spec_pad(data)),
    ;
}

/// The outcome of removing the padding from what a mode has decrypted: the
/// mode's error if it failed, `InvalidPadding` if the plaintext does not end
/// in a padding, the message otherwise.
pub open spec fn unpadded<P: Padding>(padding: P, decrypted: Result<Seq<u8>, Error>) -> Result<
    Seq<u8>,
    Error,
> {
    match decrypted {
        Ok(plain) => if padding.unpaddable(plain) {
            Ok(padding.spec_unpad(plain))
        } else {
            Err(Error::InvalidPadding)
        },
        Err(e) => Err(e),
    }
}

} // verus!
