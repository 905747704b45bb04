use crate::bytes::Bytes;
use crate::mode::Mode;
use crate::operation::Operation;
use crate::padding::Padding;
use crate::sm4::{block_crypt, key_schedule, sm4_transform, spec_key_schedule, BLOCK_SIZE};
use crate::types::Error;
use vstd::prelude::*;

verus! {

/// SM4 encryption: pad the message, then carry the block transform across
/// it by the mode.
#[derive(Debug)]
pub struct Sm4Encrypt<M: Mode, P: Padding> {
    pub key: Bytes,
    pub mode: M,
    pub padding: P,
}

impl<M: Mode, P: Padding> Sm4Encrypt<M, P> {
    /// The operation for a key and a mode, with the padding scheme `P` for
    /// blocks of sixteen bytes.
    pub fn new(key: &[u8], mode: M) -> (r: Self)
        ensures
            r.key@ == key@,
            r.mode == mode,
            r.padding == P::spec_build(BLOCK_SIZE),
    {
        Self { key: Bytes::from_slice(key), mode, padding: P::build(BLOCK_SIZE) }
    }
}

impl<M: Mode, P: Padding> Operation for Sm4Encrypt<M, P> {
    open spec fn spec_run(&self, input: Seq<u8>) -> Result<Seq<u8>, Error> {
        self.mode.spec_bytes_encrypt(
            self.padding.spec_pad(input),
            BLOCK_SIZE,
            sm4_transform(spec_key_schedule(self.key@)),
        )
    }

    fn run(&self, input: &[u8]) -> (r: Result<Bytes, Error>) {
        let round_keys = key_schedule(&self.key);
        let encrypt_func = block_crypt(round_keys.as_slice());
        let padded_data = self.padding.pad(input);
        self.mode.bytes_encrypt(padded_data.as_slice(), BLOCK_SIZE, encrypt_func)
    }
}

} // verus!
