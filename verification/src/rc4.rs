//! The stream cipher RC4.
use crate::bytes::Bytes;
use crate::operation::Operation;
use crate::types::Error;
use std::ops::Deref;
use vstd::prelude::*;

verus! {

/// The substitution box for an empty passphrase.
pub const ZERO_S_BOX: [u8; 256] = [
    0, 35, 3, 43, 9, 11, 65, 229, 32, 36, 134, 98, 59, 34, 173, 153, 214, 200, 64, 161, 191, 62, 6,
    25, 56, 234, 49, 246, 69, 133, 203, 194, 10, 42, 228, 198, 195, 245, 236, 91, 206, 23, 235, 27,
    138, 18, 143, 250, 244, 76, 123, 217, 132, 249, 72, 127, 94, 151, 33, 60, 248, 85, 177, 210,
    142, 83, 110, 140, 41, 135, 196, 238, 156, 242, 141, 67, 5, 185, 131, 63, 137, 37, 172, 121,
    70, 144, 237, 130, 17, 44, 253, 166, 78, 201, 12, 119, 215, 7, 126, 114, 97, 192, 53, 4, 254,
    45, 102, 122, 230, 88, 193, 129, 160, 124, 84, 108, 239, 189, 152, 120, 115, 207, 50, 176, 86,
    157, 164, 187, 71, 1, 15, 58, 29, 21, 46, 145, 247, 162, 95, 183, 13, 226, 159, 175, 221, 100,
    96, 202, 101, 178, 154, 47, 205, 106, 148, 104, 93, 112, 26, 165, 128, 186, 146, 218, 66, 211,
    171, 90, 252, 19, 40, 99, 223, 174, 255, 51, 77, 227, 48, 220, 168, 118, 224, 103, 75, 105,
    125, 199, 73, 82, 57, 181, 81, 149, 68, 52, 232, 22, 2, 216, 113, 30, 109, 163, 92, 61, 14, 8,
    38, 225, 79, 231, 170, 240, 20, 219, 204, 150, 180, 188, 116, 190, 241, 197, 179, 87, 74, 147,
    80, 54, 212, 16, 167, 222, 136, 213, 55, 182, 139, 24, 209, 251, 208, 28, 111, 89, 158, 155,
    243, 107, 233, 169, 117, 184, 31, 39,
];

/// A box with the entries at `i` and `j` exchanged.
pub open spec fn swapped(s: Seq<u8>, i: int, j: int) -> Seq<u8> {
    s.update(i, s[j]).update(j, s[i])
}

/// The box and the running index after the first `i` steps of the key
/// scheduling, for a key that is not empty: the box starts as the identity,
/// and step `i` exchanges entry `i` with the entry at the running index,
/// which moves on by that entry and a byte of the key.
pub open spec fn ksa_after(key: Seq<u8>, i: int) -> (Seq<u8>, int)
    decreases i,
{
    if i <= 0 {
        (Seq::new(256, |k: int| k as u8), 0)
    } else {
        let before = ksa_after(key, i - 1);
        let j = (before.1 + before.0[i - 1] + key[(i - 1) % (key.len() as int)]) % 256;
        (swapped(before.0, i - 1, j), j)
    }
}

/// The substitution box of a key.
pub open spec fn spec_ksa(key: Seq<u8>) -> Seq<u8> {
    if key.len() == 0 {
        ZERO_S_BOX@
    } else {
        ksa_after(key, 256).0
    }
}

/// The box and the running index after `n` bytes of key stream were made.
pub open spec fn prga_after(start: Seq<u8>, n: int) -> (Seq<u8>, int)
    decreases n,
{
    if n <= 0 {
        (start, 0)
    } else {
        let before = prga_after(start, n - 1);
        let i = n % 256;
        let j = (before.1 + before.0[i]) % 256;
        (swapped(before.0, i, j), j)
    }
}

/// Byte `index` of the key stream of a box.
pub open spec fn key_stream(start: Seq<u8>, index: int) -> u8 {
    let state = prga_after(start, index + 1);
    let i = (index + 1) % 256;
    state.0[(state.0[i] + state.0[state.1]) % 256]
}

/// The message with the key stream of the passphrase mixed in. Encryption
/// and decryption are the same.
pub open spec fn rc4(passphrase: Seq<u8>, input: Seq<u8>) -> Seq<u8> {
    Seq::new(input.len(), |k: int| input[k] ^ key_stream(spec_ksa(passphrase), k))
}

/// The stream cipher RC4 under a passphrase.
#[derive(Debug)]
pub struct RC4 {
    pub passphrase: Bytes,
}

impl RC4 {
    pub fn new(passphrase: Bytes) -> (r: RC4)
        ensures
            r.passphrase@ == passphrase@,
    {
        RC4 { passphrase }
    }
}

impl Default for RC4 {
    fn default() -> (r: RC4)
        ensures
            r.passphrase@ == Seq::<u8>::empty(),
    {
        RC4 { passphrase: Bytes::default() }
    }
}

/// The key scheduling: the substitution box of a key.
pub fn ksa(key: &[u8]) -> (s_box: Vec<u8>)
    ensures
        s_box@ == spec_ksa(key@),
        s_box@.len() == 256,
{
    let key_length = key.len();
    if key_length == 0 {
        return vstd::slice::slice_to_vec(ZERO_S_BOX.as_slice());
    }
    let mut s_box: Vec<u8> = Vec::with_capacity(256);
    let mut k: usize = 0;
    while k < 256
        invariant
            k <= 256,
            s_box@.len() == k,
            forall|m: int| 0 <= m < k ==> s_box@[m] == m as u8,
        decreases 256 - k,
    {
        s_box.push(k as u8);
        k += 1;
    }
    assert(s_box@ =~= ksa_after(key@, 0).0);
    let mut j: usize = 0;
    let mut i: usize = 0;
    while i < 256
        invariant
            i <= 256,
            j < 256,
            key_length == key@.len(),
            key_length > 0,
            s_box@.len() == 256,
            (s_box@, j as int) == ksa_after(key@, i as int),
        decreases 256 - i,
    {
        j = (j + s_box[i] as usize + key[i % key_length] as usize) % 256;
        let at_i = s_box[i];
        let at_j = s_box[j];
        s_box.set(i, at_j);
        s_box.set(j, at_i);
        i += 1;
    }
    s_box
}

impl Operation for RC4 {
    open spec fn spec_run(&self, input: Seq<u8>) -> Result<Seq<u8>, Error> {
        Ok(rc4(self.passphrase@, input))
    }

    fn run(&self, input: &[u8]) -> (r: Result<Bytes, Error>) {
        let mut s_box = ksa(self.passphrase.deref());
        let ghost start = s_box@;
        let mut j: usize = 0;
        let mut output: Vec<u8> = Vec::with_capacity(input.len());
        let mut index: usize = 0;
        while index < input.len()
            invariant
                index <= input.len(),
                j < 256,
                s_box@.len() == 256,
                start.len() == 256,
                (s_box@, j as int) == prga_after(start, index as int),
                output@.len() == index,
                forall|k: int| 0 <= k < index ==> output@[k] == input@[k] ^ key_stream(start, k),
            decreases input.len() - index,
        {
            let i = (index % 256 + 1) % 256;
            assert(i == (index + 1) % 256);
            j = (j + s_box[i] as usize) % 256;
            let at_i = s_box[i];
            let at_j = s_box[j];
            s_box.set(i, at_j);
            s_box.set(j, at_i);
            let k = s_box[(s_box[i] as usize + s_box[j] as usize) % 256];
            output.push(input[index] ^ k);
            index += 1;
        }
        assert(output@ =~= rc4(self.passphrase@, input@));
        Ok(Bytes::new(output))
    }
}

} // verus!
