use crate::bits::{bits_to_bytes, bytes_to_bits, Bits};
use crate::bytes::{
    be_value, field_bytes, incremented, most_significant_first, read_number, write_number, Bytes,
};
use crate::enums::{Bit, BlockSize, Endian};
use crate::bits::{lemma_bits_bytes_round_trip, lemma_bytes_bits_round_trip};
use crate::mode::{
    block_end, computes_bits, computes_bytes, ctr_bytes, keeps_len_bits, keeps_len_bytes,
    lemma_ctr_bytes_round_trip, lemma_next_block, total_bits, total_bytes, Mode,
};
use crate::types::{outcome, Error};
use crate::vector::resize;
use std::ops::Deref;
use vstd::prelude::*;
use vstd::slice::{slice_subrange, slice_to_vec};

verus! {

/// The reduction constant of the field: `0xe1` in the top byte.
pub const REDUCTION: u128 = 0xe100_0000_0000_0000_0000_0000_0000_0000;

/// Two to the power 64.
pub const TWO_64: u128 = 0x1_0000_0000_0000_0000;

/// The state of a multiplication in GF(2^128) after the bits of `a` above
/// bit `i` are done: `z` is the sum so far, `v` the current multiple of the
/// other factor. The result is `z` when no bit is left.
pub open spec fn gf_mul_from(a: u128, v: u128, z: u128, i: u32) -> u128
    decreases i,
{
    if i == 0 {
        z
    } else {
        let k = (i - 1) as u32;
        let z_next = if (a >> k) & 1 != 0 {
            z ^ v
        } else {
            z
        };
        let v_next = if v & 1 != 0 {
            (v >> 1) ^ REDUCTION
        } else {
            v >> 1
        };
        gf_mul_from(a, v_next, z_next, k)
    }
}

/// The product of `a` and `b` in GF(2^128).
pub open spec fn gf_mul(a: u128, b: u128) -> u128 {
    gf_mul_from(a, b, 0, 128)
}

/// The hash of a sequence of blocks under the key `key`: the blocks are
/// folded from the left by `y = (y ^ block) * key`.
pub open spec fn ghash(key: u128, blocks: Seq<u128>) -> u128
    decreases blocks.len(),
{
    if blocks.len() == 0 {
        0
    } else {
        gf_mul(ghash(key, blocks.drop_last()) ^ blocks.last(), key)
    }
}

/// The first sixteen bytes of `s` as a number, most significant byte first.
/// A shorter `s` is filled up with zero bytes at its end.
pub open spec fn block_word(s: Seq<u8>) -> u128 {
    be_value(resize(s, 16, 0u8)) as u128
}

/// The number of 16-byte blocks that hold `len` bytes.
pub open spec fn block_count(len: nat) -> nat {
    (len + 15) / 16
}

/// The 16-byte blocks of `s` as numbers, the last one filled up with zero
/// bytes.
pub open spec fn block_words(s: Seq<u8>) -> Seq<u128> {
    Seq::new(block_count(s.len()), |i: int| block_word(s.skip(16 * i)))
}

/// The sixteen bytes of a number, most significant first.
pub open spec fn word_bytes(word: u128) -> Seq<u8> {
    field_bytes(word as nat, 16, Endian::Big)
}

/// The hash key: the transform of the all-zero block.
pub open spec fn gcm_hash_key(t: spec_fn(Seq<u8>) -> Seq<u8>) -> u128 {
    block_word(t(Seq::new(16, |i: int| 0u8)))
}

/// The counter block before the first message block. A vector of 96 bits is
/// used as it is, with the number one in the last four bytes; any other
/// vector is hashed together with its length in bits.
pub open spec fn gcm_counter(key: u128, iv: Seq<u8>) -> u128 {
    if iv.len() == 12 {
        block_word(iv + seq![0u8, 0u8, 0u8, 1u8])
    } else {
        ghash(key, block_words(iv).push((8 * iv.len()) as u128))
    }
}

/// The block that closes the authenticated data: the lengths in bits of the
/// additional data and of the ciphertext, 64 bits each.
pub open spec fn length_block(aad_len: nat, text_len: nat) -> u128 {
    (((8 * aad_len) % (TWO_64 as nat)) * TWO_64 + (8 * text_len) % (TWO_64 as nat)) as u128
}

/// The blocks that the tag authenticates.
pub open spec fn auth_blocks(aad: Seq<u8>, ciphertext: Seq<u8>) -> Seq<u128> {
    block_words(aad) + block_words(ciphertext) + seq![length_block(aad.len(), ciphertext.len())]
}

/// The message part of GCM: counter mode that starts one after the counter
/// block. Encryption and decryption are the same.
pub open spec fn gcm_crypt(t: spec_fn(Seq<u8>) -> Seq<u8>, iv: Seq<u8>, data: Seq<u8>) -> Seq<u8> {
    let counter = gcm_counter(gcm_hash_key(t), iv);
    ctr_bytes(t, incremented(word_bytes(counter), 4), data, 16)
}

/// The authentication tag of a ciphertext.
pub open spec fn gcm_tag(
    t: spec_fn(Seq<u8>) -> Seq<u8>,
    iv: Seq<u8>,
    aad: Seq<u8>,
    ciphertext: Seq<u8>,
) -> u128 {
    let key = gcm_hash_key(t);
    let counter = gcm_counter(key, iv);
    ghash(key, auth_blocks(aad, ciphertext)) ^ block_word(t(word_bytes(counter)))
}

/// The ciphertext of `input`, followed by its sixteen-byte tag.
pub open spec fn gcm_encrypt(
    t: spec_fn(Seq<u8>) -> Seq<u8>,
    iv: Seq<u8>,
    aad: Seq<u8>,
    input: Seq<u8>,
) -> Seq<u8> {
    let ciphertext = gcm_crypt(t, iv, input);
    ciphertext + word_bytes(gcm_tag(t, iv, aad, ciphertext))
}

/// The plaintext of `input`, which ends in a sixteen-byte tag. The tag is
/// checked against the ciphertext before anything is decrypted.
pub open spec fn gcm_decrypt(
    t: spec_fn(Seq<u8>) -> Seq<u8>,
    iv: Seq<u8>,
    aad: Seq<u8>,
    input: Seq<u8>,
) -> Result<Seq<u8>, Error> {
    if input.len() < 16 {
        Err(Error::MissingTag)
    } else {
        let ciphertext = input.take(input.len() - 16);
        let tag = input.skip(input.len() - 16);
        if word_bytes(gcm_tag(t, iv, aad, ciphertext)) == tag {
            Ok(gcm_crypt(t, iv, ciphertext))
        } else {
            Err(Error::AuthenticationFailed)
        }
    }
}

/// A byte block sent through a function on bit blocks: unpack, transform,
/// pack.
pub open spec fn through_bits(t: spec_fn(Seq<Bit>) -> Seq<Bit>, block: Seq<u8>) -> Seq<u8> {
    bits_to_bytes(t(bytes_to_bits(block)))
}

/// The function on byte blocks that a function on bit blocks gives.
pub open spec fn lifted(t: spec_fn(Seq<Bit>) -> Seq<Bit>) -> spec_fn(Seq<u8>) -> Seq<u8> {
    |block: Seq<u8>| through_bits(t, block)
}

/// Whether `out` is what `block` becomes on its way through the closure `f`,
/// whatever function `f` computes.
pub open spec fn goes_through<F: Fn(&[Bit]) -> Bits>(f: F, block: Seq<u8>, out: Seq<u8>) -> bool {
    forall|t: spec_fn(Seq<Bit>) -> Seq<Bit>|
        computes_bits(f, t) ==> out == #[trigger] through_bits(t, block)
}

/// Galois/counter mode: counter mode for the message and a tag over the
/// additional data and the ciphertext. It works on 16-byte blocks only.
#[derive(Debug)]
pub struct Gcm {
    pub iv: Bytes,
    pub additional_data: Option<Bytes>,
}

impl Clone for Gcm {
    fn clone(&self) -> (r: Gcm)
        ensures
            r.iv@ == self.iv@,
            r.spec_aad() == self.spec_aad(),
    {
        Gcm {
            iv: self.iv.clone(),
            additional_data: match &self.additional_data {
                Some(aad) => Some(aad.clone()),
                None => None,
            },
        }
    }
}

/// Folds the blocks `messages` into their hash under `key`.
pub fn ghash_u128(key: u128, messages: &[u128]) -> (y: u128)
    ensures
        y == ghash(key, messages@),
{
    let mut y = 0u128;
    let mut i: usize = 0;
    while i < messages.len()
        invariant
            i <= messages.len(),
            y == ghash(key, messages@.take(i as int)),
        decreases messages.len() - i,
    {
        assert(messages@.take(i + 1).drop_last() =~= messages@.take(i as int));
        let yi = gmul_u128(y ^ messages[i], key);
        y = yi;
        i += 1;
    }
    assert(messages@.take(i as int) =~= messages@);
    y
}

/// Multiplies in GF(2^128), bit by bit from the top bit of `a`.
pub fn gmul_u128(a: u128, b: u128) -> (z: u128)
    ensures
        z == gf_mul(a, b),
{
    let mut v = b;
    let mut z = 0u128;
    let mut i: u32 = 128;
    while i > 0
        invariant
            i <= 128,
            gf_mul_from(a, v, z, i) == gf_mul(a, b),
        decreases i,
    {
        let k: u32 = i - 1;
        let xi = (a >> k) & 1;
        if xi != 0 {
            z ^= v;
        }
        let lsb_v = v & 1;
        v >>= 1;
        if lsb_v != 0 {
            v ^= REDUCTION;
        }
        i = k;
    }
    z
}

/// Sends a byte block through a transform on bit blocks.
fn via_bits<F: Fn(&[Bit]) -> Bits>(block_crypt: &F, block: &[u8]) -> (out: Bytes)
    requires
        total_bits(*block_crypt),
    ensures
        goes_through(*block_crypt, block@, out@),
{
    let bits: Bits = Bits::from(block);
    block_crypt(bits.deref()).to_bytes()
}

/// The first sixteen bytes of `data` as a number.
fn first_word(data: &[u8]) -> (word: u128)
    ensures
        word == block_word(data@),
{
    let mut block = slice_to_vec(data);
    block.resize(16, 0);
    assert(block@ =~= resize(data@, 16, 0u8));
    assert(most_significant_first(block@, Endian::Big) =~= block@);
    read_number(block.as_slice(), Endian::Big)
}

/// Appends the 16-byte blocks of `data` to `words`.
fn push_words(words: &mut Vec<u128>, data: &[u8])
    ensures
        final(words)@ == old(words)@ + block_words(data@),
{
    let mut start: usize = 0;
    let ghost all = block_words(data@);
    let ghost count: int = 0;
    assert(words@ =~= old(words)@ + all.take(0));
    while start < data.len()
        invariant
            start <= data.len(),
            all == block_words(data@),
            start == 16 * count || start == data.len(),
            0 <= count <= all.len(),
            start == data.len() ==> count == all.len(),
            words@ == old(words)@ + all.take(count),
        decreases data.len() - start,
    {
        let end = block_end(data.len(), start, 16);
        let chunk = slice_subrange(data, start, end);
        let word = first_word(chunk);
        proof {
            assert(resize(chunk@, 16, 0u8) =~= resize(data@.skip(16 * count), 16, 0u8));
            assert(word == all[count]);
        }
        let ghost before = words@;
        words.push(word);
        proof {
            assert(words@ =~= old(words)@ + all.take(count + 1));
            count = count + 1;
        }
        start = end;
    }
    assert(all.take(count) =~= all);
}

/// The counter block for a vector, given the hash key.
fn initial_counter(key: u128, iv: &[u8]) -> (counter: u128)
    ensures
        counter == gcm_counter(key, iv@),
{
    if iv.len() == 12 {
        let mut block = slice_to_vec(iv);
        block.push(0x00);
        block.push(0x00);
        block.push(0x00);
        block.push(0x01);
        assert(block@ =~= iv@ + seq![0u8, 0u8, 0u8, 1u8]);
        first_word(block.as_slice())
    } else {
        let mut iv_blocks: Vec<u128> = Vec::new();
        push_words(&mut iv_blocks, iv);
        iv_blocks.push(iv.len() as u128 * 8);
        assert(iv_blocks@ =~= block_words(iv@).push((8 * iv@.len()) as u128));
        ghash_u128(key, iv_blocks.as_slice())
    }
}

/// The hash key that the block transform gives.
fn hash_key<F: Fn(&[u8]) -> Bytes>(block_encrypt: &F) -> (key: u128)
    requires
        total_bytes(*block_encrypt),
    ensures
        forall|t: spec_fn(Seq<u8>) -> Seq<u8>|
            computes_bytes(*block_encrypt, t) ==> key == #[trigger] gcm_hash_key(t),
{
    let zero_block: Vec<u8> = vec![0u8; 16];
    assert(zero_block@ =~= Seq::new(16, |i: int| 0u8));
    let h = block_encrypt(zero_block.as_slice());
    first_word(h.deref())
}

/// Counter mode from the block after `counter` on.
fn keystream_crypt<F: Fn(&[u8]) -> Bytes>(block_encrypt: &F, counter: u128, input: &[u8]) -> (r:
    Vec<u8>)
    requires
        total_bytes(*block_encrypt),
    ensures
        forall|t: spec_fn(Seq<u8>) -> Seq<u8>|
            computes_bytes(*block_encrypt, t) ==> r@ == #[trigger] ctr_bytes(
                t,
                incremented(word_bytes(counter), 4),
                input@,
                16,
            ),
{
    let mut vector = Bytes::new(write_number(counter, 16, Endian::Big));
    vector.increment_low32();
    let ghost first = vector@;
    let mut output: Vec<u8> = Vec::with_capacity(input.len());
    let mut start: usize = 0;
    assert(input@.skip(0) =~= input@);
    while start < input.len()
        invariant
            start <= input.len(),
            total_bytes(*block_encrypt),
            forall|t: spec_fn(Seq<u8>) -> Seq<u8>|
                computes_bytes(*block_encrypt, t) ==> output@ + #[trigger] ctr_bytes(
                    t,
                    vector@,
                    input@.skip(start as int),
                    16,
                ) == ctr_bytes(t, first, input@, 16),
        decreases input.len() - start,
    {
        let end = block_end(input.len(), start, 16);
        let chunk = slice_subrange(input, start, end);
        let ghost before = output@;
        let ghost old_vector = vector@;
        let block = Bytes::from_slice(chunk);
        let block_key = block_encrypt(vector.deref());
        let piece = block.xor(&block_key);
        vector.increment_low32();
        output.extend_from_slice(piece.deref());
        proof {
            lemma_next_block(input@, 16, start as int, end as int);
            assert(output@ =~= before + piece@);
            assert forall|t: spec_fn(Seq<u8>) -> Seq<u8>|
                computes_bytes(*block_encrypt, t) implies output@ + #[trigger] ctr_bytes(
                t,
                vector@,
                input@.skip(end as int),
                16,
            ) == ctr_bytes(t, first, input@, 16) by {
                let rest = ctr_bytes(t, vector@, input@.skip(end as int), 16);
                assert(ctr_bytes(t, old_vector, input@.skip(start as int), 16) == piece@ + rest);
                assert(before + piece@ + rest =~= before + (piece@ + rest));
            }
        }
        start = end;
    }
    proof {
        assert forall|t: spec_fn(Seq<u8>) -> Seq<u8>|
            computes_bytes(*block_encrypt, t) implies output@ == #[trigger] ctr_bytes(
            t,
            first,
            input@,
            16,
        ) by {
            let rest = ctr_bytes(t, vector@, input@.skip(start as int), 16);
            assert(output@ + rest =~= output@);
        }
    }
    output
}

/// The tag of a ciphertext, given the hash key and the counter block.
fn tag_word<F: Fn(&[u8]) -> Bytes>(
    block_encrypt: &F,
    key: u128,
    counter: u128,
    aad: &[u8],
    ciphertext: &[u8],
) -> (tag: u128)
    requires
        total_bytes(*block_encrypt),
    ensures
        forall|t: spec_fn(Seq<u8>) -> Seq<u8>|
            computes_bytes(*block_encrypt, t) ==> tag == ghash(key, auth_blocks(aad@, ciphertext@))
                ^ block_word(#[trigger] t(word_bytes(counter))),
{
    let mut blocks: Vec<u128> = Vec::new();
    push_words(&mut blocks, aad);
    push_words(&mut blocks, ciphertext);
    let aad_bits: u128 = (aad.len() as u128 * 8) % TWO_64;
    let ciphertext_bits: u128 = (ciphertext.len() as u128 * 8) % TWO_64;
    blocks.push(aad_bits * TWO_64 + ciphertext_bits);
    assert(blocks@ =~= auth_blocks(aad@, ciphertext@));
    let tag_u128 = ghash_u128(key, blocks.as_slice());
    let counter_block = write_number(counter, 16, Endian::Big);
    let e_k0 = block_encrypt(counter_block.as_slice());
    let e_k0_u128 = first_word(e_k0.deref());
    tag_u128 ^ e_k0_u128
}

/// Whether two byte strings are the same.
fn same_bytes(a: &[u8], b: &[u8]) -> (same: bool)
    ensures
        same == (a@ == b@),
{
    if a.len() != b.len() {
        return false;
    }
    let mut i: usize = 0;
    while i < a.len()
        invariant
            i <= a.len(),
            a@.len() == b@.len(),
            forall|j: int| 0 <= j < i ==> a@[j] == b@[j],
        decreases a.len() - i,
    {
        if a[i] != b[i] {
            return false;
        }
        i += 1;
    }
    assert(a@ =~= b@);
    true
}

/// Encrypts `input` and appends the tag.
fn seal<F: Fn(&[u8]) -> Bytes>(block_encrypt: &F, iv: &[u8], aad: &[u8], input: &[u8]) -> (r:
    Vec<u8>)
    requires
        total_bytes(*block_encrypt),
    ensures
        forall|t: spec_fn(Seq<u8>) -> Seq<u8>|
            computes_bytes(*block_encrypt, t) ==> r@ == #[trigger] gcm_encrypt(
                t,
                iv@,
                aad@,
                input@,
            ),
{
    let key = hash_key(block_encrypt);
    let counter = initial_counter(key, iv);
    let mut output = keystream_crypt(block_encrypt, counter, input);
    let ghost ciphertext = output@;
    let tag = tag_word(block_encrypt, key, counter, aad, output.as_slice());
    let tag_bytes = write_number(tag, 16, Endian::Big);
    output.extend_from_slice(tag_bytes.as_slice());
    proof {
        assert(output@ =~= ciphertext + word_bytes(tag));
        assert forall|t: spec_fn(Seq<u8>) -> Seq<u8>|
            computes_bytes(*block_encrypt, t) implies output@ == #[trigger] gcm_encrypt(
            t,
            iv@,
            aad@,
            input@,
        ) by {
            assert(key == gcm_hash_key(t));
            assert(ciphertext == gcm_crypt(t, iv@, input@));
            assert(tag == gcm_tag(t, iv@, aad@, ciphertext));
        }
    }
    output
}

/// Checks the tag at the end of `input` and decrypts what stands before it.
fn open<F: Fn(&[u8]) -> Bytes>(block_encrypt: &F, iv: &[u8], aad: &[u8], input: &[u8]) -> (r:
    Result<Vec<u8>, Error>)
    requires
        total_bytes(*block_encrypt),
    ensures
        forall|t: spec_fn(Seq<u8>) -> Seq<u8>|
            computes_bytes(*block_encrypt, t) ==> (match r {
                Ok(bytes) => Ok(bytes@),
                Err(e) => Err(e),
            }) == #[trigger] gcm_decrypt(t, iv@, aad@, input@),
        input@.len() < 16 ==> r == Err::<Vec<u8>, Error>(Error::MissingTag),
{
    if input.len() < 16 {
        return Err(Error::MissingTag);
    }
    let ciphertext = slice_subrange(input, 0, input.len() - 16);
    let received_tag = slice_subrange(input, input.len() - 16, input.len());
    let key = hash_key(block_encrypt);
    let counter = initial_counter(key, iv);
    let tag = tag_word(block_encrypt, key, counter, aad, ciphertext);
    let computed_tag_bytes = write_number(tag, 16, Endian::Big);
    proof {
        assert(ciphertext@ =~= input@.take(input@.len() - 16));
        assert(received_tag@ =~= input@.skip(input@.len() - 16));
    }
    if !same_bytes(computed_tag_bytes.as_slice(), received_tag) {
        proof {
            assert forall|t: spec_fn(Seq<u8>) -> Seq<u8>|
                computes_bytes(*block_encrypt, t) implies Err::<Seq<u8>, Error>(
                Error::AuthenticationFailed,
            ) == #[trigger] gcm_decrypt(t, iv@, aad@, input@) by {
                assert(key == gcm_hash_key(t));
                assert(tag == gcm_tag(t, iv@, aad@, ciphertext@));
            }
        }
        return Err(Error::AuthenticationFailed);
    }
    let output = keystream_crypt(block_encrypt, counter, ciphertext);
    proof {
        assert forall|t: spec_fn(Seq<u8>) -> Seq<u8>|
            computes_bytes(*block_encrypt, t) implies Ok::<Seq<u8>, Error>(output@)
            == #[trigger] gcm_decrypt(t, iv@, aad@, input@) by {
            assert(key == gcm_hash_key(t));
            assert(tag == gcm_tag(t, iv@, aad@, ciphertext@));
            assert(output@ == gcm_crypt(t, iv@, ciphertext@));
        }
    }
    Ok(output)
}

impl Gcm {
    /// The mode with the given initialization vector and additional
    /// authenticated data.
    pub fn new(iv: &[u8], additional_data: Option<&[u8]>) -> (r: Gcm)
        ensures
            r.iv@ == iv@,
            r.spec_aad() == match additional_data {
                Some(aad) => aad@,
                None => Seq::<u8>::empty(),
            },
            r.additional_data is Some == additional_data is Some,
    {
        Gcm {
            iv: Bytes::from_slice(iv),
            additional_data: match additional_data {
                Some(aad) => Some(Bytes::from_slice(aad)),
                None => None,
            },
        }
    }

    /// The additional authenticated data; none counts as empty.
    pub open spec fn spec_aad(&self) -> Seq<u8> {
        match self.additional_data {
            Some(aad) => aad@,
            None => Seq::empty(),
        }
    }

    /// The additional authenticated data; none counts as empty.
    fn aad(&self) -> (r: Vec<u8>)
        ensures
            r@ == self.spec_aad(),
    {
        match &self.additional_data {
            Some(aad) => slice_to_vec(aad.deref()),
            None => Vec::new(),
        }
    }
}

impl Mode for Gcm {
    open spec fn spec_bits_encrypt(
        &self,
        input: Seq<u8>,
        block_size: BlockSize,
        t: spec_fn(Seq<Bit>) -> Seq<Bit>,
    ) -> Result<Seq<u8>, Error> {
        self.spec_bytes_encrypt(input, block_size, lifted(t))
    }

    open spec fn spec_bits_decrypt(
        &self,
        input: Seq<u8>,
        block_size: BlockSize,
        t: spec_fn(Seq<Bit>) -> Seq<Bit>,
    ) -> Result<Seq<u8>, Error> {
        self.spec_bytes_decrypt(input, block_size, lifted(t))
    }

    open spec fn spec_bytes_encrypt(
        &self,
        input: Seq<u8>,
        block_size: BlockSize,
        t: spec_fn(Seq<u8>) -> Seq<u8>,
    ) -> Result<Seq<u8>, Error> {
        if block_size == BlockSize::Bytes16 {
            Ok(gcm_encrypt(t, self.iv@, self.spec_aad(), input))
        } else {
            Err(Error::UnsupportedBlockSize)
        }
    }

    open spec fn spec_bytes_decrypt(
        &self,
        input: Seq<u8>,
        block_size: BlockSize,
        t: spec_fn(Seq<u8>) -> Seq<u8>,
    ) -> Result<Seq<u8>, Error> {
        if block_size == BlockSize::Bytes16 {
            gcm_decrypt(t, self.iv@, self.spec_aad(), input)
        } else {
            Err(Error::UnsupportedBlockSize)
        }
    }

    open spec fn spec_inverts_on_decrypt(&self) -> bool {
        false
    }

    fn inverts_on_decrypt(&self) -> (b: bool) {
        false
    }

    proof fn lemma_bits_round_trip(
        &self,
        input: Seq<u8>,
        block_size: BlockSize,
        forward: spec_fn(Seq<Bit>) -> Seq<Bit>,
        backward: spec_fn(Seq<Bit>) -> Seq<Bit>,
    ) {
        lemma_lifted_keeps_len(forward);
        lemma_gcm_round_trip(lifted(forward), self.iv@, self.spec_aad(), input);
    }

    proof fn lemma_bytes_round_trip(
        &self,
        input: Seq<u8>,
        block_size: BlockSize,
        forward: spec_fn(Seq<u8>) -> Seq<u8>,
        backward: spec_fn(Seq<u8>) -> Seq<u8>,
    ) {
        lemma_gcm_round_trip(forward, self.iv@, self.spec_aad(), input);
    }

    fn bits_decrypt<F: Fn(&[Bit]) -> Bits>(
        &self,
        input: &[u8],
        block_size: BlockSize,
        block_encrypt: F,
    ) -> (r: Result<Bytes, Error>)
        ensures
            block_size != BlockSize::Bytes16 ==> r == Err::<Bytes, Error>(
                Error::UnsupportedBlockSize,
            ),
    {
        let on_bits = &block_encrypt;
        let ghost total = total_bits(block_encrypt);
        let ghost agrees = |block: Seq<u8>, out: Seq<u8>| goes_through(block_encrypt, block, out);
        let on_bytes = |block: &[u8]| -> (out: Bytes)
            requires
                total,
            ensures
                agrees(block@, out@),
            { via_bits(on_bits, block) };
        let r = self.bytes_decrypt(input, block_size, on_bytes);
        proof {
            assert forall|t: spec_fn(Seq<Bit>) -> Seq<Bit>|
                computes_bits(block_encrypt, t) implies outcome(r)
                == #[trigger] self.spec_bits_decrypt(input@, block_size, t) by {
                assert forall|block: &[u8], out: Bytes| #[trigger]
                    call_ensures(on_bytes, (block,), out) implies out@ == lifted(t)(block@) by {
                    assert(agrees(block@, out@));
                }
                assert(computes_bytes(on_bytes, lifted(t)));
            }
        }
        r
    }

    fn bits_encrypt<F: Fn(&[Bit]) -> Bits>(
        &self,
        input: &[u8],
        block_size: BlockSize,
        block_encrypt: F,
    ) -> (r: Result<Bytes, Error>)
        ensures
            block_size != BlockSize::Bytes16 ==> r == Err::<Bytes, Error>(
                Error::UnsupportedBlockSize,
            ),
            block_size == BlockSize::Bytes16 ==> r is Ok,
    {
        let on_bits = &block_encrypt;
        let ghost total = total_bits(block_encrypt);
        let ghost agrees = |block: Seq<u8>, out: Seq<u8>| goes_through(block_encrypt, block, out);
        let on_bytes = |block: &[u8]| -> (out: Bytes)
            requires
                total,
            ensures
                agrees(block@, out@),
            { via_bits(on_bits, block) };
        let r = self.bytes_encrypt(input, block_size, on_bytes);
        proof {
            assert forall|t: spec_fn(Seq<Bit>) -> Seq<Bit>|
                computes_bits(block_encrypt, t) implies outcome(r)
                == #[trigger] self.spec_bits_encrypt(input@, block_size, t) by {
                assert forall|block: &[u8], out: Bytes| #[trigger]
                    call_ensures(on_bytes, (block,), out) implies out@ == lifted(t)(block@) by {
                    assert(agrees(block@, out@));
                }
                assert(computes_bytes(on_bytes, lifted(t)));
            }
        }
        r
    }

    fn bytes_decrypt<F: Fn(&[u8]) -> Bytes>(
        &self,
        input: &[u8],
        block_size: BlockSize,
        block_encrypt: F,
    ) -> (r: Result<Bytes, Error>)
        ensures
            block_size != BlockSize::Bytes16 ==> r == Err::<Bytes, Error>(
                Error::UnsupportedBlockSize,
            ),
            block_size == BlockSize::Bytes16 && input@.len() < 16 ==> r == Err::<Bytes, Error>(
                Error::MissingTag,
            ),
    {
        match block_size {
            BlockSize::Bytes16 => {},
            _ => {
                return Err(Error::UnsupportedBlockSize);
            },
        }
        let aad = self.aad();
        match open(&block_encrypt, self.iv.deref(), aad.as_slice(), input) {
            Ok(plain) => Ok(Bytes::new(plain)),
            Err(e) => Err(e),
        }
    }

    fn bytes_encrypt<F: Fn(&[u8]) -> Bytes>(
        &self,
        input: &[u8],
        block_size: BlockSize,
        block_encrypt: F,
    ) -> (r: Result<Bytes, Error>)
        ensures
            block_size != BlockSize::Bytes16 ==> r == Err::<Bytes, Error>(
                Error::UnsupportedBlockSize,
            ),
            block_size == BlockSize::Bytes16 ==> r is Ok,
    {
        match block_size {
            BlockSize::Bytes16 => {},
            _ => {
                return Err(Error::UnsupportedBlockSize);
            },
        }
        let aad = self.aad();
        Ok(Bytes::new(seal(&block_encrypt, self.iv.deref(), aad.as_slice(), input)))
    }
}

/// A function that keeps blocks of 128 bits at their length gives, on byte
/// blocks, a function that keeps blocks of sixteen bytes at their length.
pub proof fn lemma_lifted_keeps_len(t: spec_fn(Seq<Bit>) -> Seq<Bit>)
    requires
        keeps_len_bits(t, 128),
    ensures
        keeps_len_bytes(lifted(t), 16),
{
    assert forall|block: Seq<u8>| block.len() == 16 implies (#[trigger] lifted(t)(block)).len()
        == 16 by {
        lemma_bytes_bits_round_trip(block);
        lemma_bits_bytes_round_trip(t(bytes_to_bits(block)));
    }
}

/// Decrypting what was encrypted under the same vector and additional data
/// gives the message back, for a message of whole blocks and a transform
/// that keeps blocks of sixteen bytes at their length.
pub proof fn lemma_gcm_round_trip(
    t: spec_fn(Seq<u8>) -> Seq<u8>,
    iv: Seq<u8>,
    aad: Seq<u8>,
    message: Seq<u8>,
)
    requires
        message.len() % 16 == 0,
        keeps_len_bytes(t, 16),
    ensures
        gcm_decrypt(t, iv, aad, gcm_encrypt(t, iv, aad, message)) == Ok::<Seq<u8>, Error>(message),
        gcm_encrypt(t, iv, aad, message).len() == message.len() + 16,
{
    let counter = gcm_counter(gcm_hash_key(t), iv);
    let start = incremented(word_bytes(counter), 4);
    let ciphertext = gcm_crypt(t, iv, message);
    let tag = word_bytes(gcm_tag(t, iv, aad, ciphertext));
    let sealed = gcm_encrypt(t, iv, aad, message);
    lemma_ctr_bytes_round_trip(t, start, message, 16);
    assert(sealed.take(sealed.len() - 16) =~= ciphertext);
    assert(sealed.skip(sealed.len() - 16) =~= tag);
}

/// A sealed message whose tag was changed in any way is refused: the
/// outcome is an authentication failure, never a plaintext.
pub proof fn lemma_gcm_refuses_changed_tag(
    t: spec_fn(Seq<u8>) -> Seq<u8>,
    iv: Seq<u8>,
    aad: Seq<u8>,
    message: Seq<u8>,
    tag: Seq<u8>,
)
    requires
        tag.len() == 16,
        tag != word_bytes(gcm_tag(t, iv, aad, gcm_crypt(t, iv, message))),
    ensures
        gcm_decrypt(t, iv, aad, gcm_crypt(t, iv, message) + tag) == Err::<Seq<u8>, Error>(
            Error::AuthenticationFailed,
        ),
{
    let ciphertext = gcm_crypt(t, iv, message);
    let input = ciphertext + tag;
    assert(input.take(input.len() - 16) =~= ciphertext);
    assert(input.skip(input.len() - 16) =~= tag);
}

/// A ciphertext is only ever decrypted under the tag that belongs to it:
/// whenever decryption returns a plaintext, the last sixteen bytes of the
/// input are the tag of the bytes before them. A changed ciphertext under
/// the old tag is therefore refused unless both have the same tag.
pub proof fn lemma_gcm_releases_only_authentic(
    t: spec_fn(Seq<u8>) -> Seq<u8>,
    iv: Seq<u8>,
    aad: Seq<u8>,
    input: Seq<u8>,
)
    ensures
        gcm_decrypt(t, iv, aad, input) is Ok ==> input.len() >= 16 && input.skip(input.len() - 16)
            == word_bytes(gcm_tag(t, iv, aad, input.take(input.len() - 16))),
        !(gcm_decrypt(t, iv, aad, input) is Ok) ==> gcm_decrypt(t, iv, aad, input) == Err::<
            Seq<u8>,
            Error,
        >(Error::MissingTag) || gcm_decrypt(t, iv, aad, input) == Err::<Seq<u8>, Error>(
            Error::AuthenticationFailed,
        ),
{
}

} // verus!
