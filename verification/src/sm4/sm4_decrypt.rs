use crate::bytes::Bytes;
use crate::mode::{keeps_len_bytes, Mode};
use crate::operation::Operation;
use crate::padding::{unpadded, Padding};
use crate::sm4::{
    lemma_block_len, Sm4Encrypt,block_crypt, key_schedule, reversed, sm4_transform, spec_key_schedule, BLOCK_SIZE};
use crate::types::Error;
use std::ops::Deref;
use vstd::prelude::*;

verus! {

/// SM4 decryption: carry the block transform across the message by the
/// mode, then remove the padding. Modes that decrypt by inverting blocks get
/// the round keys in reverse order; modes that only need a key stream get
/// them in forward order.
#[derive(Debug)]
pub struct Sm4Decrypt<M: Mode, P: Padding> {
    pub key: Bytes,
    pub mode: M,
    pub padding: P,
}

impl<M: Mode, P: Padding> Sm4Decrypt<M, P> {
    /// The operation for a key and a mode, with the padding scheme `P` for
    /// blocks of sixteen bytes.
    pub fn new(key: &[u8], mode: M) -> (r: Self)
        ensures
            r.key@ == key@,
            r.mode == mode,
            r.padding == P::spec_build(BLOCK_SIZE),
    {
        Self { key: Bytes::from_slice(key), mode, padding: P::build(BLOCK_SIZE) }
    }
}

impl<M: Mode, P: Padding> Sm4Decrypt<M, P> {
    /// The block transform that decryption hands to the mode.
    pub open spec fn transform(&self) -> spec_fn(Seq<u8>) -> Seq<u8> {
        if self.mode.spec_inverts_on_decrypt() {
            sm4_transform(spec_key_schedule(self.key@).reverse())
        } else {
            sm4_transform(spec_key_schedule(self.key@))
        }
    }
}

impl<M: Mode, P: Padding> Operation for Sm4Decrypt<M, P> {
    open spec fn spec_run(&self, input: Seq<u8>) -> Result<Seq<u8>, Error> {
        unpadded(self.padding, self.mode.spec_bytes_decrypt(input, BLOCK_SIZE, self.transform()))
    }

    fn run(&self, input: &[u8]) -> (r: Result<Bytes, Error>) {
        let forward = key_schedule(&self.key);
        let round_keys = if self.mode.inverts_on_decrypt() {
            reversed(forward)
        } else {
            forward
        };
        let decrypt_func = block_crypt(round_keys.as_slice());
        match self.mode.bytes_decrypt(input, BLOCK_SIZE, decrypt_func) {
            Ok(result) => {
                if self.padding.can_unpad(result.deref()) {
                    Ok(Bytes::new(self.padding.unpad(result.deref())))
                } else {
                    Err(Error::InvalidPadding)
                }
            },
            Err(e) => Err(e),
        }
    }
}

/// Under a mode that only uses the block transform to make a key stream
/// (which includes Galois/counter mode), SM4 decryption undoes encryption
/// under the same key, mode and padding: what comes back is the padded
/// message with its padding removed. This holds for every message whose
/// padded form is a whole number of blocks and that the mode accepts.
pub proof fn lemma_sm4_stream_round_trip<M: Mode, P: Padding>(
    encrypt: Sm4Encrypt<M, P>,
    decrypt: Sm4Decrypt<M, P>,
    message: Seq<u8>,
)
    requires
        encrypt.key@ == decrypt.key@,
        encrypt.mode == decrypt.mode,
        encrypt.padding == decrypt.padding,
        !encrypt.mode.spec_inverts_on_decrypt(),
        encrypt.padding.spec_pad(message).len() % 16 == 0,
        encrypt.spec_run(message) is Ok,
    ensures
        decrypt.spec_run(encrypt.spec_run(message)->Ok_0) == Ok::<Seq<u8>, Error>(
            encrypt.padding.spec_unpad(encrypt.padding.spec_pad(message)),
        ),
{
    let padded = encrypt.padding.spec_pad(message);
    let forward = sm4_transform(spec_key_schedule(decrypt.key@));
    assert forall|block: Seq<u8>| block.len() == 16 implies (#[trigger] forward(block)).len()
        == 16 by {
        lemma_block_len(spec_key_schedule(decrypt.key@), block);
    }
    encrypt.mode.lemma_bytes_round_trip(padded, BLOCK_SIZE, forward, forward);
    encrypt.padding.lemma_padded_is_unpaddable(message);
}

} // verus!
