use crate::bytes::Bytes;
use crate::des::{
    block_crypt, des_transform, key_schedule, lemma_des_transforms, reversed, spec_key_schedule,
    DesEncrypt, BLOCK_SIZE,
};
use crate::mode::Mode;
use crate::operation::Operation;
use crate::padding::{unpadded, Padding};
use crate::types::Error;
use std::ops::Deref;
use vstd::prelude::*;

verus! {

/// DES decryption: carry the block transform across the message by the
/// mode, then remove the padding. Modes that decrypt by inverting blocks get
/// the round keys in reverse order; modes that only need a key stream get
/// them in forward order.
#[derive(Debug)]
pub struct DesDecrypt<M: Mode, P: Padding> {
    pub key: Bytes,
    pub mode: M,
    pub padding: P,
}

impl<M: Mode, P: Padding> DesDecrypt<M, P> {
    /// The operation for a key and a mode, with the padding scheme `P` for
    /// blocks of eight bytes.
    pub fn new(key: &[u8], mode: M) -> (r: Self)
        ensures
            r.key@ == key@,
            r.mode == mode,
            r.padding == P::spec_build(BLOCK_SIZE),
    {
        Self { key: Bytes::from_slice(key), mode, padding: P::build(BLOCK_SIZE) }
    }
}

impl<M: Mode, P: Padding> DesDecrypt<M, P> {
    /// The block transform that decryption hands to the mode.
    pub open spec fn transform(&self) -> spec_fn(Seq<crate::enums::Bit>) -> Seq<crate::enums::Bit> {
        if self.mode.spec_inverts_on_decrypt() {
            des_transform(spec_key_schedule(self.key@).reverse())
        } else {
            des_transform(spec_key_schedule(self.key@))
        }
    }
}

impl<M: Mode, P: Padding> Operation for DesDecrypt<M, P> {
    open spec fn spec_run(&self, input: Seq<u8>) -> Result<Seq<u8>, Error> {
        unpadded(self.padding, self.mode.spec_bits_decrypt(input, BLOCK_SIZE, self.transform()))
    }

    fn run(&self, input: &[u8]) -> (r: Result<Bytes, Error>) {
        let forward = key_schedule(&self.key);
        let sub_keys = if self.mode.inverts_on_decrypt() {
            reversed(forward)
        } else {
            forward
        };
        let block_decrypt = block_crypt(sub_keys.as_slice());
        match self.mode.bits_decrypt(input, BLOCK_SIZE, block_decrypt) {
            Ok(result) => {
                if self.padding.can_unpad(result.deref()) {
                    Ok(Bytes::new(self.padding.unpad(result.deref())))
                } else {
                    Err(Error::InvalidPadding)
                }
            },
            Err(e) => Err(e),
        }
    }
}

/// DES decryption undoes encryption under the same key, mode and padding:
/// what comes back is the padded message with its padding removed. This
/// holds for every message whose padded form is a whole number of blocks
/// and that the mode accepts.
pub proof fn lemma_des_round_trip<M: Mode, P: Padding>(
    encrypt: DesEncrypt<M, P>,
    decrypt: DesDecrypt<M, P>,
    message: Seq<u8>,
)
    requires
        encrypt.key@ == decrypt.key@,
        encrypt.mode == decrypt.mode,
        encrypt.padding == decrypt.padding,
        encrypt.padding.spec_pad(message).len() % 8 == 0,
        encrypt.spec_run(message) is Ok,
    ensures
        decrypt.spec_run(encrypt.spec_run(message)->Ok_0) == Ok::<Seq<u8>, Error>(
            encrypt.padding.spec_unpad(encrypt.padding.spec_pad(message)),
        ),
{
    let padded = encrypt.padding.spec_pad(message);
    lemma_des_transforms(spec_key_schedule(decrypt.key@));
    encrypt.mode.lemma_bits_round_trip(
        padded,
        BLOCK_SIZE,
        des_transform(spec_key_schedule(decrypt.key@)),
        des_transform(spec_key_schedule(decrypt.key@).reverse()),
    );
    encrypt.padding.lemma_padded_is_unpaddable(message);
}

} // verus!
