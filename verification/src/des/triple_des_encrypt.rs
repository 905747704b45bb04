use crate::bytes::Bytes;
use crate::des::{
    key_schedule, reversed, split_key, triple_block_crypt, triple_encrypt_transform, BLOCK_SIZE,
};
use crate::mode::Mode;
use crate::operation::Operation;
use crate::padding::Padding;
use crate::types::Error;
use vstd::prelude::*;

verus! {

/// Triple-DES encryption: every block is encrypted with the first key,
/// decrypted with the second and encrypted with the third.
#[derive(Debug)]
pub struct TripleDesEncrypt<M: Mode, P: Padding> {
    pub key: Bytes,
    pub mode: M,
    pub padding: P,
}

impl<M: Mode, P: Padding> TripleDesEncrypt<M, P> {
    /// The operation for a key and a mode, with the padding scheme `P` for
    /// blocks of eight bytes.
    pub fn new(key: &[u8], mode: M) -> (r: Self)
        ensures
            r.key@ == key@,
            r.mode == mode,
            r.padding == P::spec_build(BLOCK_SIZE),
    {
        Self { key: Bytes::from_slice(key), mode, padding: P::build(BLOCK_SIZE) }
    }
}

impl<M: Mode, P: Padding> Operation for TripleDesEncrypt<M, P> {
    open spec fn spec_run(&self, input: Seq<u8>) -> Result<Seq<u8>, Error> {
        self.mode.spec_bits_encrypt(
            self.padding.spec_pad(input),
            BLOCK_SIZE,
            triple_encrypt_transform(self.key@),
        )
    }

    fn run(&self, input: &[u8]) -> (r: Result<Bytes, Error>) {
        let (key1, key2, key3) = split_key(&self.key);
        let sub_keys1 = key_schedule(&key1);
        let sub_keys2 = reversed(key_schedule(&key2));
        let sub_keys3 = key_schedule(&key3);
        let crypt = triple_block_crypt(
            sub_keys1.as_slice(),
            sub_keys2.as_slice(),
            sub_keys3.as_slice(),
        );
        let padded_data = self.padding.pad(input);
        self.mode.bits_encrypt(padded_data.as_slice(), BLOCK_SIZE, crypt)
    }
}

} // verus!
