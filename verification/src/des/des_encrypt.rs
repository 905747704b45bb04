use crate::bytes::Bytes;
use crate::des::{block_crypt, des_transform, key_schedule, spec_key_schedule, BLOCK_SIZE};
use crate::mode::Mode;
use crate::operation::Operation;
use crate::padding::Padding;
use crate::types::Error;
use vstd::prelude::*;

verus! {

/// DES encryption: pad the message, then carry the block transform across
/// it by the mode.
#[derive(Debug)]
pub struct DesEncrypt<M: Mode, P: Padding> {
    pub key: Bytes,
    pub mode: M,
    pub padding: P,
}

impl<M: Mode, P: Padding> DesEncrypt<M, P> {
    /// The operation for a key and a mode, with the padding scheme `P` for
    /// blocks of eight bytes.
    pub fn new(key: &[u8], mode: M) -> (r: Self)
        ensures
            r.key@ == key@,
            r.mode == mode,
            r.padding == P::spec_build(BLOCK_SIZE),
    {
        Self { key: Bytes::from_slice(key), mode, padding: P::build(BLOCK_SIZE) }
    }
}

impl<M: Mode, P: Padding> Operation for DesEncrypt<M, P> {
    open spec fn spec_run(&self, input: Seq<u8>) -> Result<Seq<u8>, Error> {
        self.mode.spec_bits_encrypt(
            self.padding.spec_pad(input),
            BLOCK_SIZE,
            des_transform(spec_key_schedule(self.key@)),
        )
    }

    fn run(&self, input: &[u8]) -> (r: Result<Bytes, Error>) {
        let sub_keys = key_schedule(&self.key);
        let block_encrypt = block_crypt(sub_keys.as_slice());
        let padded_data = self.padding.pad(input);
        self.mode.bits_encrypt(padded_data.as_slice(), BLOCK_SIZE, block_encrypt)
    }
}

} // verus!
