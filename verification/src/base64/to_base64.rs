use crate::base64::alphabet::Alphabet;
use crate::bytes::Bytes;
use crate::operation::Operation;
use crate::types::Error;
use vstd::prelude::*;

verus! {

/// The number of characters that carry the bits of `len` bytes.
pub open spec fn text_len(len: nat) -> nat {
    (8 * len + 5) / 6
}

/// The number of padding characters after the text of `len` bytes.
pub open spec fn pad_count(len: nat) -> nat {
    (((6 - (8 * len) % 6) / 2) % 3) as nat
}

/// By what a pair of bytes is divided to bring the six bits that start at
/// bit `offset` of the first byte to the lowest places.
pub open spec fn divisor(offset: int) -> int {
    if offset == 0 {
        1024
    } else if offset == 2 {
        256
    } else if offset == 4 {
        64
    } else {
        16
    }
}

/// The value of the group of six bits number `k` of the input; bits beyond
/// the input count as zero.
pub open spec fn sextet(input: Seq<u8>, k: int) -> int {
    let index = (6 * k) / 8;
    let offset = (6 * k) % 8;
    let low = if index + 1 < input.len() {
        input[index + 1] as int
    } else {
        0
    };
    ((input[index] * 256 + low) / divisor(offset)) % 64
}

/// The Base64 text of bytes in an alphabet.
pub open spec fn encoded(input: Seq<u8>, charset: Seq<u8>, padding: Option<u8>) -> Seq<u8> {
    let text = Seq::new(text_len(input.len()), |k: int| charset[sextet(input, k)]);
    match padding {
        Some(c) => text + Seq::new(pad_count(input.len()), |k: int| c),
        None => text,
    }
}

/// Encoder of Base64 text.
#[derive(Debug)]
pub struct ToBase64 {
    pub alphabet: Alphabet,
}

impl Default for ToBase64 {
    fn default() -> (r: ToBase64)
        ensures
            r.alphabet.charset == crate::base64::alphabet::STANDARD_CHARSET,
            r.alphabet.padding == Some(61u8),
    {
        ToBase64 { alphabet: Alphabet::default() }
    }
}

impl ToBase64 {
    pub fn new(alphabet: Alphabet) -> (r: ToBase64)
        ensures
            r.alphabet == alphabet,
    {
        ToBase64 { alphabet }
    }
}

impl Operation for ToBase64 {
    open spec fn spec_run(&self, input: Seq<u8>) -> Result<Seq<u8>, Error> {
        Ok(encoded(input, self.alphabet.charset@, self.alphabet.padding))
    }

    fn run(&self, input: &[u8]) -> (r: Result<Bytes, Error>) {
        let length = input.len();
        let mut text: Vec<u8> = Vec::new();
        let mut index: usize = 0;
        let mut offset: usize = 0;
        let ghost mut k: int = 0;
        while index < length
            invariant
                index <= length,
                length == input@.len(),
                offset == 0 || offset == 2 || offset == 4 || offset == 6,
                8 * index + offset == 6 * k,
                index == length ==> offset <= 4,
                text@.len() == k,
                forall|m: int| 0 <= m < k ==> text@[m] == self.alphabet.charset@[sextet(input@, m)],
            decreases 8 * (length - index) + 8 - offset,
        {
            let lower_byte = input[index];
            let upper_byte = if index + 1 < length {
                input[index + 1]
            } else {
                0
            };
            let combined: u16 = (lower_byte as u16) * 256 + (upper_byte as u16);
            let by: u16 = if offset == 0 {
                1024
            } else if offset == 2 {
                256
            } else if offset == 4 {
                64
            } else {
                16
            };
            let index_of_64 = ((combined / by) % 64) as usize;
            proof {
                assert((6 * k) / 8 == index as int && (6 * k) % 8 == offset as int);
            }
            text.push(self.alphabet.charset[index_of_64]);
            offset += 6;
            if offset >= 8 {
                offset -= 8;
                index += 1;
            }
            proof {
                k = k + 1;
            }
        }
        proof {
            assert(k == text_len(length as nat));
        }
        let ghost plain = text@;
        assert(plain =~= Seq::new(
            text_len(input@.len()),
            |m: int| self.alphabet.charset@[sextet(input@, m)],
        ));
        match self.alphabet.padding {
            Some(c) => {
                let rest = length % 3;
                let padding_needed: usize = if rest == 0 {
                    0
                } else {
                    3 - rest
                };
                proof {
                    lemma_pad_count(length as nat);
                }
                let mut i: usize = 0;
                while i < padding_needed
                    invariant
                        i <= padding_needed,
                        text@ == plain + Seq::new(i as nat, |m: int| c),
                    decreases padding_needed - i,
                {
                    text.push(c);
                    i += 1;
                    assert(text@ =~= plain + Seq::new(i as nat, |m: int| c));
                }
            },
            None => {},
        }
        Ok(Bytes::new(text))
    }
}

/// The text is filled up to a multiple of four characters: one byte left
/// over takes two padding characters, two bytes take one.
pub proof fn lemma_pad_count(len: nat)
    ensures
        pad_count(len) == (if len % 3 == 0 {
            0nat
        } else {
            (3 - len % 3) as nat
        }),
{
    let q = len as int / 3;
    let r = len as int % 3;
    vstd::arithmetic::div_mod::lemma_fundamental_div_mod(len as int, 3);
    assert(8 * len == 6 * (4 * q) + 8 * r);
    vstd::arithmetic::div_mod::lemma_mod_multiples_vanish(4 * q, 8 * r, 6);
    assert((8 * len) % 6 == (8 * r) % 6);
}

} // verus!
