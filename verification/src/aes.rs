//! The Advanced Encryption Standard: a substitution-permutation network on
//! blocks of sixteen bytes, with keys of 16, 24 or 32 bytes.
use crate::bytes::Bytes;
use crate::enums::BlockSize;
use crate::mode::{computes_bytes, total_bytes};
use crate::vector::resize;
use std::ops::Deref;
use vstd::prelude::*;
use vstd::slice::slice_to_vec;

mod aes_decrypt;
mod aes_encrypt;

pub use aes_decrypt::{lemma_aes_stream_round_trip, AesDecrypt};
pub use aes_encrypt::AesEncrypt;

verus! {

/// The block size of the cipher.
pub const BLOCK_SIZE: BlockSize = BlockSize::Bytes16;

/// The substitution box.
pub const S_BOX: [u8; 256] = [
    0x63, 0x7c, 0x77, 0x7b, 0xf2, 0x6b, 0x6f, 0xc5, 0x30, 0x01, 0x67, 0x2b, 0xfe, 0xd7, 0xab, 0x76,
    0xca, 0x82, 0xc9, 0x7d, 0xfa, 0x59, 0x47, 0xf0, 0xad, 0xd4, 0xa2, 0xaf, 0x9c, 0xa4, 0x72, 0xc0,
    0xb7, 0xfd, 0x93, 0x26, 0x36, 0x3f, 0xf7, 0xcc, 0x34, 0xa5, 0xe5, 0xf1, 0x71, 0xd8, 0x31, 0x15,
    0x04, 0xc7, 0x23, 0xc3, 0x18, 0x96, 0x05, 0x9a, 0x07, 0x12, 0x80, 0xe2, 0xeb, 0x27, 0xb2, 0x75,
    0x09, 0x83, 0x2c, 0x1a, 0x1b, 0x6e, 0x5a, 0xa0, 0x52, 0x3b, 0xd6, 0xb3, 0x29, 0xe3, 0x2f, 0x84,
    0x53, 0xd1, 0x00, 0xed, 0x20, 0xfc, 0xb1, 0x5b, 0x6a, 0xcb, 0xbe, 0x39, 0x4a, 0x4c, 0x58, 0xcf,
    0xd0, 0xef, 0xaa, 0xfb, 0x43, 0x4d, 0x33, 0x85, 0x45, 0xf9, 0x02, 0x7f, 0x50, 0x3c, 0x9f, 0xa8,
    0x51, 0xa3, 0x40, 0x8f, 0x92, 0x9d, 0x38, 0xf5, 0xbc, 0xb6, 0xda, 0x21, 0x10, 0xff, 0xf3, 0xd2,
    0xcd, 0x0c, 0x13, 0xec, 0x5f, 0x97, 0x44, 0x17, 0xc4, 0xa7, 0x7e, 0x3d, 0x64, 0x5d, 0x19, 0x73,
    0x60, 0x81, 0x4f, 0xdc, 0x22, 0x2a, 0x90, 0x88, 0x46, 0xee, 0xb8, 0x14, 0xde, 0x5e, 0x0b, 0xdb,
    0xe0, 0x32, 0x3a, 0x0a, 0x49, 0x06, 0x24, 0x5c, 0xc2, 0xd3, 0xac, 0x62, 0x91, 0x95, 0xe4, 0x79,
    0xe7, 0xc8, 0x37, 0x6d, 0x8d, 0xd5, 0x4e, 0xa9, 0x6c, 0x56, 0xf4, 0xea, 0x65, 0x7a, 0xae, 0x08,
    0xba, 0x78, 0x25, 0x2e, 0x1c, 0xa6, 0xb4, 0xc6, 0xe8, 0xdd, 0x74, 0x1f, 0x4b, 0xbd, 0x8b, 0x8a,
    0x70, 0x3e, 0xb5, 0x66, 0x48, 0x03, 0xf6, 0x0e, 0x61, 0x35, 0x57, 0xb9, 0x86, 0xc1, 0x1d, 0x9e,
    0xe1, 0xf8, 0x98, 0x11, 0x69, 0xd9, 0x8e, 0x94, 0x9b, 0x1e, 0x87, 0xe9, 0xce, 0x55, 0x28, 0xdf,
    0x8c, 0xa1, 0x89, 0x0d, 0xbf, 0xe6, 0x42, 0x68, 0x41, 0x99, 0x2d, 0x0f, 0xb0, 0x54, 0xbb, 0x16,
];

/// The inverse substitution box.
pub const INV_S_BOX: [u8; 256] = [
    0x52, 0x09, 0x6a, 0xd5, 0x30, 0x36, 0xa5, 0x38, 0xbf, 0x40, 0xa3, 0x9e, 0x81, 0xf3, 0xd7, 0xfb,
    0x7c, 0xe3, 0x39, 0x82, 0x9b, 0x2f, 0xff, 0x87, 0x34, 0x8e, 0x43, 0x44, 0xc4, 0xde, 0xe9, 0xcb,
    0x54, 0x7b, 0x94, 0x32, 0xa6, 0xc2, 0x23, 0x3d, 0xee, 0x4c, 0x95, 0x0b, 0x42, 0xfa, 0xc3, 0x4e,
    0x08, 0x2e, 0xa1, 0x66, 0x28, 0xd9, 0x24, 0xb2, 0x76, 0x5b, 0xa2, 0x49, 0x6d, 0x8b, 0xd1, 0x25,
    0x72, 0xf8, 0xf6, 0x64, 0x86, 0x68, 0x98, 0x16, 0xd4, 0xa4, 0x5c, 0xcc, 0x5d, 0x65, 0xb6, 0x92,
    0x6c, 0x70, 0x48, 0x50, 0xfd, 0xed, 0xb9, 0xda, 0x5e, 0x15, 0x46, 0x57, 0xa7, 0x8d, 0x9d, 0x84,
    0x90, 0xd8, 0xab, 0x00, 0x8c, 0xbc, 0xd3, 0x0a, 0xf7, 0xe4, 0x58, 0x05, 0xb8, 0xb3, 0x45, 0x06,
    0xd0, 0x2c, 0x1e, 0x8f, 0xca, 0x3f, 0x0f, 0x02, 0xc1, 0xaf, 0xbd, 0x03, 0x01, 0x13, 0x8a, 0x6b,
    0x3a, 0x91, 0x11, 0x41, 0x4f, 0x67, 0xdc, 0xea, 0x97, 0xf2, 0xcf, 0xce, 0xf0, 0xb4, 0xe6, 0x73,
    0x96, 0xac, 0x74, 0x22, 0xe7, 0xad, 0x35, 0x85, 0xe2, 0xf9, 0x37, 0xe8, 0x1c, 0x75, 0xdf, 0x6e,
    0x47, 0xf1, 0x1a, 0x71, 0x1d, 0x29, 0xc5, 0x89, 0x6f, 0xb7, 0x62, 0x0e, 0xaa, 0x18, 0xbe, 0x1b,
    0xfc, 0x56, 0x3e, 0x4b, 0xc6, 0xd2, 0x79, 0x20, 0x9a, 0xdb, 0xc0, 0xfe, 0x78, 0xcd, 0x5a, 0xf4,
    0x1f, 0xdd, 0xa8, 0x33, 0x88, 0x07, 0xc7, 0x31, 0xb1, 0x12, 0x10, 0x59, 0x27, 0x80, 0xec, 0x5f,
    0x60, 0x51, 0x7f, 0xa9, 0x19, 0xb5, 0x4a, 0x0d, 0x2d, 0xe5, 0x7a, 0x9f, 0x93, 0xc9, 0x9c, 0xef,
    0xa0, 0xe0, 0x3b, 0x4d, 0xae, 0x2a, 0xf5, 0xb0, 0xc8, 0xeb, 0xbb, 0x3c, 0x83, 0x53, 0x99, 0x61,
    0x17, 0x2b, 0x04, 0x7e, 0xba, 0x77, 0xd6, 0x26, 0xe1, 0x69, 0x14, 0x63, 0x55, 0x21, 0x0c, 0x7d,
];

/// A byte times two in the field GF(2^8).
pub open spec fn xtime(a: u8) -> u8 {
    if a >= 128 {
        (((a - 128) * 2) as u8) ^ 0x1b
    } else {
        (a * 2) as u8
    }
}

/// A byte times three in the field.
pub open spec fn mul3(a: u8) -> u8 {
    xtime(a) ^ a
}

/// A byte times nine in the field.
pub open spec fn mul9(a: u8) -> u8 {
    xtime(xtime(xtime(a))) ^ a
}

/// A byte times eleven in the field.
pub open spec fn mul11(a: u8) -> u8 {
    xtime(xtime(xtime(a))) ^ xtime(a) ^ a
}

/// A byte times thirteen in the field.
pub open spec fn mul13(a: u8) -> u8 {
    xtime(xtime(xtime(a))) ^ xtime(xtime(a)) ^ a
}

/// A byte times fourteen in the field.
pub open spec fn mul14(a: u8) -> u8 {
    xtime(xtime(xtime(a))) ^ xtime(xtime(a)) ^ xtime(a)
}

/// The length that a key is brought to: 16, 24 or 32 bytes, whichever is
/// the first that holds it; a longer key is cut to 32 bytes.
pub open spec fn key_len(len: nat) -> nat {
    if len <= 16 {
        16
    } else if len <= 24 {
        24
    } else {
        32
    }
}

/// The key at its working length, filled up with zero bytes at its end or
/// cut.
pub open spec fn sized_key(key: Seq<u8>) -> Seq<u8> {
    resize(key, key_len(key.len()), 0u8)
}

/// The round constant number `n`, counted from one.
pub open spec fn rcon(n: int) -> u8
    decreases n,
{
    if n <= 1 {
        1
    } else {
        xtime(rcon(n - 1))
    }
}

/// Word `i` of the expanded key of a key at its working length.
pub open spec fn expanded_word(key: Seq<u8>, i: int) -> Seq<u8>
    decreases i,
{
    let nk = key.len() as int / 4;
    if nk <= 0 || i < 0 {
        seq![0u8, 0u8, 0u8, 0u8]
    } else if i < nk {
        key.subrange(4 * i, 4 * i + 4)
    } else {
        let before = expanded_word(key, i - 1);
        let t = if i % nk == 0 {
            seq![
                S_BOX[before[1] as int] ^ rcon(i / nk),
                S_BOX[before[2] as int],
                S_BOX[before[3] as int],
                S_BOX[before[0] as int],
            ]
        } else if nk > 6 && i % nk == 4 {
            seq![
                S_BOX[before[0] as int],
                S_BOX[before[1] as int],
                S_BOX[before[2] as int],
                S_BOX[before[3] as int],
            ]
        } else {
            before
        };
        let back = expanded_word(key, i - nk);
        seq![back[0] ^ t[0], back[1] ^ t[1], back[2] ^ t[2], back[3] ^ t[3]]
    }
}

/// The round keys of a key, sixteen bytes per round, one round more than
/// the cipher has.
pub open spec fn spec_key_schedule(key: Seq<u8>) -> Seq<u8> {
    let sized = sized_key(key);
    Seq::new(4 * sized.len() + 112, |j: int| expanded_word(sized, j / 4)[j % 4])
}

/// The state with round key number `r` mixed in.
pub open spec fn add_round_key(s: Seq<u8>, round_keys: Seq<u8>, r: int) -> Seq<u8> {
    Seq::new(16, |i: int| s[i] ^ round_keys[16 * r + i])
}

/// Every byte of the state replaced by its entry in the box.
pub open spec fn sub_bytes(s: Seq<u8>) -> Seq<u8> {
    Seq::new(16, |i: int| S_BOX[s[i] as int])
}

/// Every byte of the state replaced by its entry in the inverse box.
pub open spec fn inv_sub_bytes(s: Seq<u8>) -> Seq<u8> {
    Seq::new(16, |i: int| INV_S_BOX[s[i] as int])
}

/// Row `r` of the state moved `r` places to the left. The state is held
/// column by column.
pub open spec fn shift_rows(s: Seq<u8>) -> Seq<u8> {
    Seq::new(16, |i: int| s[(i + 4 * (i % 4)) % 16])
}

/// Row `r` of the state moved `r` places to the right.
pub open spec fn inv_shift_rows(s: Seq<u8>) -> Seq<u8> {
    Seq::new(16, |i: int| s[(i + 16 - 4 * (i % 4)) % 16])
}

/// Every column of the state multiplied by the matrix of the cipher.
pub open spec fn mix_columns(s: Seq<u8>) -> Seq<u8> {
    Seq::new(
        16,
        |i: int|
            {
                let c = 4 * (i / 4);
                let r = i % 4;
                xtime(s[c + r]) ^ mul3(s[c + (r + 1) % 4]) ^ s[c + (r + 2) % 4] ^ s[c + (r + 3)
                    % 4]
            },
    )
}

/// Every column of the state multiplied by the inverse matrix.
pub open spec fn inv_mix_columns(s: Seq<u8>) -> Seq<u8> {
    Seq::new(
        16,
        |i: int|
            {
                let c = 4 * (i / 4);
                let r = i % 4;
                mul14(s[c + r]) ^ mul11(s[c + (r + 1) % 4]) ^ mul13(s[c + (r + 2) % 4]) ^ mul9(
                    s[c + (r + 3) % 4],
                )
            },
    )
}

/// The number of rounds that a sequence of round keys is for.
pub open spec fn round_count(round_keys: Seq<u8>) -> int {
    round_keys.len() as int / 16 - 1
}

/// The state after round `r` of the encryption of a block; round zero only
/// mixes in the first round key. A block shorter than sixteen bytes counts
/// as filled up with zero bytes, a longer one as cut.
pub open spec fn enc_state(round_keys: Seq<u8>, block: Seq<u8>, r: int) -> Seq<u8>
    decreases r,
{
    if r <= 0 {
        add_round_key(resize(block, 16, 0u8), round_keys, 0)
    } else {
        add_round_key(
            mix_columns(shift_rows(sub_bytes(enc_state(round_keys, block, r - 1)))),
            round_keys,
            r,
        )
    }
}

/// The encryption of one block: all rounds but the last mix the columns.
pub open spec fn aes_encrypt_block(round_keys: Seq<u8>, block: Seq<u8>) -> Seq<u8> {
    let nr = round_count(round_keys);
    add_round_key(shift_rows(sub_bytes(enc_state(round_keys, block, nr - 1))), round_keys, nr)
}

/// The state after `k` inverse rounds of the decryption of a block; zero
/// rounds only mix in the last round key.
pub open spec fn dec_state(round_keys: Seq<u8>, block: Seq<u8>, k: int) -> Seq<u8>
    decreases k,
{
    if k <= 0 {
        add_round_key(resize(block, 16, 0u8), round_keys, round_count(round_keys))
    } else {
        inv_mix_columns(
            add_round_key(
                inv_sub_bytes(inv_shift_rows(dec_state(round_keys, block, k - 1))),
                round_keys,
                round_count(round_keys) - k,
            ),
        )
    }
}

/// The decryption of one block.
pub open spec fn aes_decrypt_block(round_keys: Seq<u8>, block: Seq<u8>) -> Seq<u8> {
    let nr = round_count(round_keys);
    add_round_key(inv_sub_bytes(inv_shift_rows(dec_state(round_keys, block, nr - 1))), round_keys, 0)
}

/// The encryption of a block under round keys, as a function.
pub open spec fn encrypt_transform(round_keys: Seq<u8>) -> spec_fn(Seq<u8>) -> Seq<u8> {
    |block: Seq<u8>| aes_encrypt_block(round_keys, block)
}

/// The decryption of a block under round keys, as a function.
pub open spec fn decrypt_transform(round_keys: Seq<u8>) -> spec_fn(Seq<u8>) -> Seq<u8> {
    |block: Seq<u8>| aes_decrypt_block(round_keys, block)
}

/// Whether a sequence of round keys is whole: sixteen bytes per round, for
/// at least one round.
pub open spec fn keys_whole(round_keys: Seq<u8>) -> bool {
    round_keys.len() % 16 == 0 && round_keys.len() >= 32
}

/// Multiplies a byte by two in the field.
pub fn times2(a: u8) -> (r: u8)
    ensures
        r == xtime(a),
{
    if a >= 128 {
        ((a - 128) * 2) ^ 0x1b
    } else {
        a * 2
    }
}

/// What is mixed into the word `nk` places back to make word `i` of the
/// expanded key, from the word before it.
pub open spec fn key_mask(before: Seq<u8>, nk: int, phase: int, round: int) -> Seq<u8> {
    if phase == 0 {
        seq![
            S_BOX[before[1] as int] ^ rcon(round),
            S_BOX[before[2] as int],
            S_BOX[before[3] as int],
            S_BOX[before[0] as int],
        ]
    } else if nk > 6 && phase == 4 {
        seq![
            S_BOX[before[0] as int],
            S_BOX[before[1] as int],
            S_BOX[before[2] as int],
            S_BOX[before[3] as int],
        ]
    } else {
        before
    }
}

/// Word `i` of the expanded key, for `i` written as `round * nk + phase`.
pub proof fn lemma_expanded_word(key: Seq<u8>, nk: int, round: int, phase: int)
    requires
        nk == key.len() as int / 4,
        nk > 0,
        round >= 1,
        0 <= phase < nk,
    ensures
        expanded_word(key, round * nk + phase) == ({
            let i = round * nk + phase;
            let t = key_mask(expanded_word(key, i - 1), nk, phase, round);
            let back = expanded_word(key, i - nk);
            seq![back[0] ^ t[0], back[1] ^ t[1], back[2] ^ t[2], back[3] ^ t[3]]
        }),
{
    let i = round * nk + phase;
    assert(i >= nk) by (nonlinear_arith)
        requires
            i == round * nk + phase,
            round >= 1,
            phase >= 0,
            nk > 0,
    ;
    vstd::arithmetic::div_mod::lemma_fundamental_div_mod_converse(i, nk, round, phase);
}

/// The word that the key expansion appends.
fn next_word(before: [u8; 4], back: [u8; 4], nk: usize, phase: usize, constant: u8) -> (r: [u8; 4])
    ensures
        r@ == ({
            let t = key_mask(before@, nk as int, phase as int, 0);
            let first = if phase == 0 {
                S_BOX[before@[1] as int] ^ constant
            } else {
                t[0]
            };
            seq![back@[0] ^ first, back@[1] ^ t[1], back@[2] ^ t[2], back@[3] ^ t[3]]
        }),
{
    let mut t0 = before[0];
    let mut t1 = before[1];
    let mut t2 = before[2];
    let mut t3 = before[3];
    if phase == 0 {
        let first = S_BOX[t1 as usize] ^ constant;
        t1 = S_BOX[t2 as usize];
        t2 = S_BOX[t3 as usize];
        t3 = S_BOX[t0 as usize];
        t0 = first;
    } else if nk > 6 && phase == 4 {
        t0 = S_BOX[t0 as usize];
        t1 = S_BOX[t1 as usize];
        t2 = S_BOX[t2 as usize];
        t3 = S_BOX[t3 as usize];
    }
    let r = [back[0] ^ t0, back[1] ^ t1, back[2] ^ t2, back[3] ^ t3];
    assert(r@ =~= seq![back@[0] ^ t0, back@[1] ^ t1, back@[2] ^ t2, back@[3] ^ t3]);
    r
}

/// Derives the round keys of a key.
pub fn key_schedule(key: &Bytes) -> (round_keys: Vec<u8>)
    ensures
        round_keys@ == spec_key_schedule(key@),
        keys_whole(round_keys@),
{
    let length = key.len();
    let size: usize = if length <= 16 {
        16
    } else if length <= 24 {
        24
    } else {
        32
    };
    let mut w = slice_to_vec(key.deref());
    w.resize(size, 0);
    let ghost sized = sized_key(key@);
    assert(w@ =~= sized);
    let nk = size / 4;
    let total = 4 * (nk + 7);
    let mut words: Vec<[u8; 4]> = Vec::with_capacity(total);
    let mut i: usize = 0;
    while i < nk
        invariant
            i <= nk,
            nk == 4 || nk == 6 || nk == 8,
            w@ == sized,
            sized.len() == 4 * nk,
            words@.len() == i,
            forall|j: int| 0 <= j < i ==> (#[trigger] words@[j])@ == expanded_word(sized, j),
        decreases nk - i,
    {
        let word = [w[4 * i], w[4 * i + 1], w[4 * i + 2], w[4 * i + 3]];
        assert(word@ =~= sized.subrange(4 * i, 4 * i + 4));
        words.push(word);
        i += 1;
    }
    let mut round: usize = 1;
    let mut phase: usize = 0;
    let mut constant: u8 = 1;
    while i < total
        invariant
            nk == 4 || nk == 6 || nk == 8,
            sized.len() == 4 * nk,
            total == 4 * (nk + 7),
            nk <= i <= total,
            i == round * nk + phase,
            round >= 1,
            phase < nk,
            words@.len() == i,
            constant == rcon(
                if phase == 0 {
                    round as int
                } else {
                    round + 1
                },
            ),
            forall|j: int| 0 <= j < i ==> (#[trigger] words@[j])@ == expanded_word(sized, j),
        decreases total - i,
    {
        let before = words[i - 1];
        let back = words[i - nk];
        let word = next_word(before, back, nk, phase, constant);
        proof {
            lemma_expanded_word(sized, nk as int, round as int, phase as int);
            assert(word@ =~= expanded_word(sized, i as int));
        }
        words.push(word);
        if phase == 0 {
            constant = times2(constant);
        }
        phase += 1;
        if phase == nk {
            phase = 0;
            round += 1;
        }
        i += 1;
        assert(i == round * nk + phase) by (nonlinear_arith)
            requires
                (phase == 0 && i == (round - 1) * nk + nk) || (phase > 0 && i == round * nk
                    + phase),
        ;
    }
    let mut out: Vec<u8> = Vec::with_capacity(4 * total);
    let mut k: usize = 0;
    while k < total
        invariant
            k <= total,
            total == 4 * (nk + 7),
            nk == 4 || nk == 6 || nk == 8,
            words@.len() == total,
            out@.len() == 4 * k,
            forall|j: int| 0 <= j < total ==> (#[trigger] words@[j])@ == expanded_word(sized, j),
            forall|j: int| 0 <= j < 4 * k ==> out@[j] == expanded_word(sized, j / 4)[j % 4],
        decreases total - k,
    {
        let word = words[k];
        let ghost before = out@;
        out.push(word[0]);
        out.push(word[1]);
        out.push(word[2]);
        out.push(word[3]);
        proof {
            assert forall|j: int| 0 <= j < 4 * (k + 1) implies out@[j] == expanded_word(
                sized,
                j / 4,
            )[j % 4] by {
                if j < 4 * k {
                    assert(out@[j] == before[j]);
                } else {
                    assert(j / 4 == k);
                    assert(words@[k as int]@ == expanded_word(sized, k as int));
                }
            }
        }
        k += 1;
    }
    assert(out@ =~= spec_key_schedule(key@));
    out
}

/// Brings a block to sixteen bytes and mixes in round key `r`.
fn enter(round_keys: &[u8], block: &[u8], r: usize) -> (s: Vec<u8>)
    requires
        16 * r + 16 <= round_keys@.len(),
    ensures
        s@ == add_round_key(resize(block@, 16, 0u8), round_keys@, r as int),
{
    let mut sixteen = slice_to_vec(block);
    sixteen.resize(16, 0);
    assert(sixteen@ =~= resize(block@, 16, 0u8));
    mix_key(sixteen.as_slice(), round_keys, r)
}

/// Mixes round key `r` into the state.
fn mix_key(s: &[u8], round_keys: &[u8], r: usize) -> (out: Vec<u8>)
    requires
        s@.len() == 16,
        16 * r + 16 <= round_keys@.len(),
    ensures
        out@ == add_round_key(s@, round_keys@, r as int),
{
    let mut out: Vec<u8> = Vec::with_capacity(16);
    let length = round_keys.len();
    let mut i: usize = 0;
    while i < 16
        invariant
            i <= 16,
            s@.len() == 16,
            16 * r + 16 <= round_keys@.len(),
            round_keys@.len() == length,
            out@.len() == i,
            forall|j: int| 0 <= j < i ==> out@[j] == s@[j] ^ round_keys@[16 * r + j],
        decreases 16 - i,
    {
        out.push(s[i] ^ round_keys[16 * r + i]);
        i += 1;
    }
    assert(out@ =~= add_round_key(s@, round_keys@, r as int));
    out
}

/// Substitutes and shifts the state: byte `i` of the result is the entry
/// of the box for the byte that the rows' shift brings to place `i`.
fn substitute_shifted(s: &[u8]) -> (out: Vec<u8>)
    requires
        s@.len() == 16,
    ensures
        out@ == shift_rows(sub_bytes(s@)),
{
    let mut out: Vec<u8> = Vec::with_capacity(16);
    let mut i: usize = 0;
    while i < 16
        invariant
            i <= 16,
            s@.len() == 16,
            out@.len() == i,
            forall|j: int| 0 <= j < i ==> out@[j] == shift_rows(sub_bytes(s@))[j],
        decreases 16 - i,
    {
        out.push(S_BOX[s[(i + 4 * (i % 4)) % 16] as usize]);
        i += 1;
    }
    assert(out@ =~= shift_rows(sub_bytes(s@)));
    out
}

/// Shifts the state back and substitutes by the inverse box.
fn unsubstitute_unshifted(s: &[u8]) -> (out: Vec<u8>)
    requires
        s@.len() == 16,
    ensures
        out@ == inv_sub_bytes(inv_shift_rows(s@)),
{
    let mut out: Vec<u8> = Vec::with_capacity(16);
    let mut i: usize = 0;
    while i < 16
        invariant
            i <= 16,
            s@.len() == 16,
            out@.len() == i,
            forall|j: int| 0 <= j < i ==> out@[j] == inv_sub_bytes(inv_shift_rows(s@))[j],
        decreases 16 - i,
    {
        out.push(INV_S_BOX[s[(i + 16 - 4 * (i % 4)) % 16] as usize]);
        i += 1;
    }
    assert(out@ =~= inv_sub_bytes(inv_shift_rows(s@)));
    out
}

/// Mixes the columns of the state.
fn mix(s: &[u8]) -> (out: Vec<u8>)
    requires
        s@.len() == 16,
    ensures
        out@ == mix_columns(s@),
{
    let mut out: Vec<u8> = Vec::with_capacity(16);
    let mut i: usize = 0;
    while i < 16
        invariant
            i <= 16,
            s@.len() == 16,
            out@.len() == i,
            forall|j: int| 0 <= j < i ==> out@[j] == mix_columns(s@)[j],
        decreases 16 - i,
    {
        let c = 4 * (i / 4);
        let r = i % 4;
        let a = s[c + r];
        let b = s[c + (r + 1) % 4];
        out.push(times2(a) ^ (times2(b) ^ b) ^ s[c + (r + 2) % 4] ^ s[c + (r + 3) % 4]);
        i += 1;
    }
    assert(out@ =~= mix_columns(s@));
    out
}

/// Mixes the columns of the state back.
fn unmix(s: &[u8]) -> (out: Vec<u8>)
    requires
        s@.len() == 16,
    ensures
        out@ == inv_mix_columns(s@),
{
    let mut out: Vec<u8> = Vec::with_capacity(16);
    let mut i: usize = 0;
    while i < 16
        invariant
            i <= 16,
            s@.len() == 16,
            out@.len() == i,
            forall|j: int| 0 <= j < i ==> out@[j] == inv_mix_columns(s@)[j],
        decreases 16 - i,
    {
        let c = 4 * (i / 4);
        let r = i % 4;
        let a = s[c + r];
        let b = s[c + (r + 1) % 4];
        let d = s[c + (r + 2) % 4];
        let e = s[c + (r + 3) % 4];
        let a2 = times2(a);
        let a4 = times2(a2);
        let a8 = times2(a4);
        let b2 = times2(b);
        let b8 = times2(times2(b2));
        let d4 = times2(times2(d));
        let d8 = times2(d4);
        let e8 = times2(times2(times2(e)));
        out.push((a8 ^ a4 ^ a2) ^ (b8 ^ b2 ^ b) ^ (d8 ^ d4 ^ d) ^ (e8 ^ e));
        i += 1;
    }
    assert(out@ =~= inv_mix_columns(s@));
    out
}

/// Encrypts one block under the round keys.
pub fn encrypt_block(round_keys: &[u8], block: &[u8]) -> (r: Bytes)
    requires
        keys_whole(round_keys@),
    ensures
        r@ == aes_encrypt_block(round_keys@, block@),
        r@.len() == 16,
{
    let nr = round_keys.len() / 16 - 1;
    let mut state = enter(round_keys, block, 0);
    let mut round: usize = 1;
    while round < nr
        invariant
            1 <= round <= nr,
            nr == round_count(round_keys@),
            keys_whole(round_keys@),
            state@ == enc_state(round_keys@, block@, round - 1),
        decreases nr - round,
    {
        let shifted = substitute_shifted(state.as_slice());
        let mixed = mix(shifted.as_slice());
        state = mix_key(mixed.as_slice(), round_keys, round);
        round += 1;
    }
    let shifted = substitute_shifted(state.as_slice());
    Bytes::new(mix_key(shifted.as_slice(), round_keys, nr))
}

/// Decrypts one block under the round keys.
pub fn decrypt_block(round_keys: &[u8], block: &[u8]) -> (r: Bytes)
    requires
        keys_whole(round_keys@),
    ensures
        r@ == aes_decrypt_block(round_keys@, block@),
        r@.len() == 16,
{
    let nr = round_keys.len() / 16 - 1;
    let mut state = enter(round_keys, block, nr);
    let mut done: usize = 1;
    while done < nr
        invariant
            1 <= done <= nr,
            nr == round_count(round_keys@),
            keys_whole(round_keys@),
            state@ == dec_state(round_keys@, block@, done - 1),
        decreases nr - done,
    {
        let unshifted = unsubstitute_unshifted(state.as_slice());
        let keyed = mix_key(unshifted.as_slice(), round_keys, nr - done);
        state = unmix(keyed.as_slice());
        done += 1;
    }
    let unshifted = unsubstitute_unshifted(state.as_slice());
    Bytes::new(mix_key(unshifted.as_slice(), round_keys, 0))
}

/// The encryption of blocks under the round keys, as a closure for a mode
/// of operation.
pub fn block_encrypt<'a>(round_keys: &'a [u8]) -> (f: impl Fn(&[u8]) -> Bytes + 'a)
    requires
        keys_whole(round_keys@),
    ensures
        total_bytes(f),
        computes_bytes(f, encrypt_transform(round_keys@)),
{
    move |block: &[u8]| -> (out: Bytes)
        requires
            keys_whole(round_keys@),
        ensures
            out@ == aes_encrypt_block(round_keys@, block@),
        { encrypt_block(round_keys, block) }
}

/// The decryption of blocks under the round keys, as a closure for a mode
/// of operation.
pub fn block_decrypt<'a>(round_keys: &'a [u8]) -> (f: impl Fn(&[u8]) -> Bytes + 'a)
    requires
        keys_whole(round_keys@),
    ensures
        total_bytes(f),
        computes_bytes(f, decrypt_transform(round_keys@)),
{
    move |block: &[u8]| -> (out: Bytes)
        requires
            keys_whole(round_keys@),
        ensures
            out@ == aes_decrypt_block(round_keys@, block@),
        { decrypt_block(round_keys, block) }
}

} // verus!
