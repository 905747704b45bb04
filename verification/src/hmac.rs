//! HMAC over any hash function.
use crate::bytes::Bytes;
use crate::operation::{Hashing, Operation};
use crate::types::Error;
use crate::vector::resize;
use std::ops::Deref;
use vstd::prelude::*;
use vstd::slice::slice_to_vec;

verus! {

/// Every byte of `s` mixed with `pad`.
pub open spec fn masked(s: Seq<u8>, pad: u8) -> Seq<u8> {
    Seq::new(s.len(), |i: int| s[i] ^ pad)
}

/// The key brought to the block size of the hash function: a longer key is
/// hashed first, and the key is filled up with zero bytes at its end (a
/// digest longer than a block is cut).
pub open spec fn sized_key<H: Hashing>(hash: H, key: Seq<u8>) -> Seq<u8> {
    let block_size = hash.spec_block_size().spec_size();
    resize(
        if key.len() > block_size {
            hash.spec_digest(key)
        } else {
            key
        },
        block_size,
        0u8,
    )
}

/// The keyed hash of a message: the hash of the outer pad and the hash of
/// the inner pad and the message.
pub open spec fn hmac<H: Hashing>(hash: H, key: Seq<u8>, input: Seq<u8>) -> Seq<u8> {
    let sized = sized_key(hash, key);
    hash.spec_digest(masked(sized, 0x5c) + hash.spec_digest(masked(sized, 0x36) + input))
}

/// The keyed-hash message authentication code over the hash function `H`.
#[derive(Debug)]
pub struct Hmac<H: Hashing> {
    pub key: Bytes,
    pub hash_function: H,
}

/// Mixes every byte of `bytes` with `pad`.
fn mask(bytes: &[u8], pad: u8) -> (r: Vec<u8>)
    ensures
        r@ == masked(bytes@, pad),
{
    let mut out: Vec<u8> = Vec::with_capacity(bytes.len());
    let mut i: usize = 0;
    while i < bytes.len()
        invariant
            i <= bytes.len(),
            out@.len() == i,
            forall|j: int| 0 <= j < i ==> out@[j] == bytes@[j] ^ pad,
        decreases bytes.len() - i,
    {
        out.push(bytes[i] ^ pad);
        i += 1;
    }
    assert(out@ =~= masked(bytes@, pad));
    out
}

impl<H: Hashing> Hmac<H> {
    /// The code under a key, with the hash function in its default
    /// settings.
    pub fn new(key: &[u8]) -> (r: Self)
        ensures
            r.key@ == key@,
    {
        Self { key: Bytes::from_slice(key), hash_function: H::default() }
    }
}

impl<H: Hashing> Operation for Hmac<H> {
    open spec fn spec_run(&self, input: Seq<u8>) -> Result<Seq<u8>, Error> {
        Ok(hmac(self.hash_function, self.key@, input))
    }

    fn run(&self, input: &[u8]) -> (r: Result<Bytes, Error>) {
        let key_len = self.key.len();
        let block_size: usize = self.hash_function.block_size().size();
        let mut sized_key = if key_len > block_size {
            proof {
                self.hash_function.lemma_run_is_digest(self.key@);
            }
            match self.hash_function.run(self.key.deref()) {
                Ok(digest) => slice_to_vec(digest.deref()),
                Err(e) => {
                    return Err(e);
                },
            }
        } else {
            slice_to_vec(self.key.deref())
        };
        let ghost unsized_key = sized_key@;
        sized_key.resize(block_size, 0);
        assert(sized_key@ =~= resize(unsized_key, block_size as nat, 0u8));
        let mut opad = mask(sized_key.as_slice(), 0x5c);
        let mut ipad = mask(sized_key.as_slice(), 0x36);
        ipad.extend_from_slice(input);
        assert(ipad@ =~= masked(sized_key@, 0x36) + input@);
        proof {
            self.hash_function.lemma_run_is_digest(ipad@);
        }
        let ipad_hash = match self.hash_function.run(ipad.as_slice()) {
            Ok(digest) => digest,
            Err(e) => {
                return Err(e);
            },
        };
        opad.extend_from_slice(ipad_hash.deref());
        assert(opad@ =~= masked(sized_key@, 0x5c) + ipad_hash@);
        proof {
            self.hash_function.lemma_run_is_digest(opad@);
        }
        self.hash_function.run(opad.as_slice())
    }
}

} // verus!
