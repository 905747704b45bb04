use crate::bytes::Bytes;
use crate::des::{
    key_schedule, lemma_triple_transforms, reversed, split_key, triple_block_crypt,
    triple_decrypt_transform, triple_encrypt_transform, TripleDesEncrypt, BLOCK_SIZE,
};
use crate::mode::Mode;
use crate::operation::Operation;
use crate::padding::{unpadded, Padding};
use crate::types::Error;
use std::ops::Deref;
use vstd::prelude::*;

verus! {

/// Triple-DES decryption. Modes that decrypt by inverting blocks get the
/// inverse composition: decrypt with the third key, encrypt with the second,
/// decrypt with the first. Modes that only need a key stream get the same
/// forward composition that encryption uses.
#[derive(Debug)]
pub struct TripleDesDecrypt<M: Mode, P: Padding> {
    pub key: Bytes,
    pub mode: M,
    pub padding: P,
}

impl<M: Mode, P: Padding> TripleDesDecrypt<M, P> {
    /// The operation for a key and a mode, with the padding scheme `P` for
    /// blocks of eight bytes.
    pub fn new(key: &[u8], mode: M) -> (r: Self)
        ensures
            r.key@ == key@,
            r.mode == mode,
            r.padding == P::spec_build(BLOCK_SIZE),
    {
        Self { key: Bytes::from_slice(key), mode, padding: P::build(BLOCK_SIZE) }
    }
}

impl<M: Mode, P: Padding> TripleDesDecrypt<M, P> {
    /// The block transform that decryption hands to the mode.
    pub open spec fn transform(&self) -> spec_fn(Seq<crate::enums::Bit>) -> Seq<crate::enums::Bit> {
        if self.mode.spec_inverts_on_decrypt() {
            triple_decrypt_transform(self.key@)
        } else {
            triple_encrypt_transform(self.key@)
        }
    }
}

impl<M: Mode, P: Padding> Operation for TripleDesDecrypt<M, P> {
    open spec fn spec_run(&self, input: Seq<u8>) -> Result<Seq<u8>, Error> {
        unpadded(self.padding, self.mode.spec_bits_decrypt(input, BLOCK_SIZE, self.transform()))
    }

    fn run(&self, input: &[u8]) -> (r: Result<Bytes, Error>) {
        let (key1, key2, key3) = split_key(&self.key);
        let inverse = self.mode.inverts_on_decrypt();
        let (first, second, third) = if inverse {
            (reversed(key_schedule(&key3)), key_schedule(&key2), reversed(key_schedule(&key1)))
        } else {
            (key_schedule(&key1), reversed(key_schedule(&key2)), key_schedule(&key3))
        };
        let crypt = triple_block_crypt(first.as_slice(), second.as_slice(), third.as_slice());
        match self.mode.bits_decrypt(input, BLOCK_SIZE, crypt) {
            Ok(result) => {
                if self.padding.can_unpad(result.deref()) {
                    Ok(Bytes::new(self.padding.unpad(result.deref())))
                } else {
                    Err(Error::InvalidPadding)
                }
            },
            Err(e) => Err(e),
        }
    }
}

/// Triple-DES decryption undoes encryption under the same key, mode and padding:
/// what comes back is the padded message with its padding removed. This
/// holds for every message whose padded form is a whole number of blocks
/// and that the mode accepts.
pub proof fn lemma_triple_des_round_trip<M: Mode, P: Padding>(
    encrypt: TripleDesEncrypt<M, P>,
    decrypt: TripleDesDecrypt<M, P>,
    message: Seq<u8>,
)
    requires
        encrypt.key@ == decrypt.key@,
        encrypt.mode == decrypt.mode,
        encrypt.padding == decrypt.padding,
        encrypt.padding.spec_pad(message).len() % 8 == 0,
        encrypt.spec_run(message) is Ok,
    ensures
        decrypt.spec_run(encrypt.spec_run(message)->Ok_0) == Ok::<Seq<u8>, Error>(
            encrypt.padding.spec_unpad(encrypt.padding.spec_pad(message)),
        ),
{
    let padded = encrypt.padding.spec_pad(message);
    lemma_triple_transforms(decrypt.key@);
    encrypt.mode.lemma_bits_round_trip(
        padded,
        BLOCK_SIZE,
        triple_encrypt_transform(decrypt.key@),
        triple_decrypt_transform(decrypt.key@),
    );
    encrypt.padding.lemma_padded_is_unpaddable(message);
}

} // verus!
