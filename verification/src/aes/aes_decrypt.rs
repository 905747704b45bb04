use crate::aes::{
    AesEncrypt,
    block_decrypt, block_encrypt, decrypt_transform, encrypt_transform, key_schedule,
    spec_key_schedule, BLOCK_SIZE,
};
use crate::bytes::Bytes;
use crate::mode::{keeps_len_bytes, Mode};
use crate::operation::Operation;
use crate::padding::{unpadded, Padding};
use crate::types::Error;
use std::ops::Deref;
use vstd::prelude::*;

verus! {

/// AES decryption: carry the block transform across the message by the
/// mode, then remove the padding. Modes that decrypt by inverting blocks get
/// the block decryption; modes that only need a key stream get the block
/// encryption.
#[derive(Debug)]
pub struct AesDecrypt<M: Mode, P: Padding> {
    pub key: Bytes,
    pub mode: M,
    pub padding: P,
}

impl<M: Mode, P: Padding> AesDecrypt<M, P> {
    /// The operation for a key and a mode, with the padding scheme `P` for
    /// blocks of sixteen bytes. The key is brought to 16, 24 or 32 bytes.
    pub fn new(key: &[u8], mode: M) -> (r: Self)
        ensures
            r.key@ == key@,
            r.mode == mode,
            r.padding == P::spec_build(BLOCK_SIZE),
    {
        Self { key: Bytes::from_slice(key), mode, padding: P::build(BLOCK_SIZE) }
    }
}

impl<M: Mode, P: Padding> AesDecrypt<M, P> {
    /// The block transform that decryption hands to the mode.
    pub open spec fn transform(&self) -> spec_fn(Seq<u8>) -> Seq<u8> {
        if self.mode.spec_inverts_on_decrypt() {
            decrypt_transform(spec_key_schedule(self.key@))
        } else {
            encrypt_transform(spec_key_schedule(self.key@))
        }
    }
}

impl<M: Mode, P: Padding> Operation for AesDecrypt<M, P> {
    open spec fn spec_run(&self, input: Seq<u8>) -> Result<Seq<u8>, Error> {
        unpadded(self.padding, self.mode.spec_bytes_decrypt(input, BLOCK_SIZE, self.transform()))
    }

    fn run(&self, input: &[u8]) -> (r: Result<Bytes, Error>) {
        let round_keys = key_schedule(&self.key);
        let decrypted = if self.mode.inverts_on_decrypt() {
            self.mode.bytes_decrypt(input, BLOCK_SIZE, block_decrypt(round_keys.as_slice()))
        } else {
            self.mode.bytes_decrypt(input, BLOCK_SIZE, block_encrypt(round_keys.as_slice()))
        };
        match decrypted {
            Ok(result) => {
                if self.padding.can_unpad(result.deref()) {
                    Ok(Bytes::new(self.padding.unpad(result.deref())))
                } else {
                    Err(Error::InvalidPadding)
                }
            },
            Err(e) => Err(e),
        }
    }
}

/// Under a mode that only uses the block encryption to make a key stream
/// (which includes Galois/counter mode), AES decryption undoes encryption
/// under the same key, mode and padding: what comes back is the padded
/// message with its padding removed. This holds for every message whose
/// padded form is a whole number of blocks and that the mode accepts.
pub proof fn lemma_aes_stream_round_trip<M: Mode, P: Padding>(
    encrypt: AesEncrypt<M, P>,
    decrypt: AesDecrypt<M, P>,
    message: Seq<u8>,
)
    requires
        encrypt.key@ == decrypt.key@,
        encrypt.mode == decrypt.mode,
        encrypt.padding == decrypt.padding,
        !encrypt.mode.spec_inverts_on_decrypt(),
        encrypt.padding.spec_pad(message).len() % 16 == 0,
        encrypt.spec_run(message) is Ok,
    ensures
        decrypt.spec_run(encrypt.spec_run(message)->Ok_0) == Ok::<Seq<u8>, Error>(
            encrypt.padding.spec_unpad(encrypt.padding.spec_pad(message)),
        ),
{
    let padded = encrypt.padding.spec_pad(message);
    let forward = encrypt_transform(spec_key_schedule(decrypt.key@));
    assert(keeps_len_bytes(forward, 16));
    encrypt.mode.lemma_bytes_round_trip(padded, BLOCK_SIZE, forward, forward);
    encrypt.padding.lemma_padded_is_unpaddable(message);
}

} // verus!
