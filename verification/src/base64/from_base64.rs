use crate::base64::alphabet::Alphabet;
use crate::bytes::Bytes;
use crate::operation::Operation;
use crate::types::{outcome, Error};
use vstd::prelude::*;

verus! {

/// Where `byte` first stands in the character set, or -1 if it does not.
pub open spec fn position(charset: Seq<u8>, byte: u8) -> int
    decreases charset.len(),
{
    if charset.len() == 0 {
        -1
    } else if charset[0] == byte {
        0
    } else {
        let later = position(charset.skip(1), byte);
        if later < 0 {
            -1
        } else {
            later + 1
        }
    }
}

/// The decoder between two characters: how many bits are collected, and
/// the collected bits in the upper part of a buffer of sixteen bits.
pub struct Collected {
    pub bits: int,
    pub buffer: u16,
}

/// The decoder after one more character of the alphabet with the value
/// `index`: its six bits go into the buffer below the collected ones.
pub open spec fn with_sextet(state: Collected, index: int) -> Collected {
    Collected {
        bits: state.bits + 6,
        buffer: state.buffer | ((index as u16) << ((10 - state.bits) as usize)),
    }
}

/// The decoder after a padding character: two bits are dropped, or, where
/// nothing is collected, six bits count as collected.
pub open spec fn with_padding(state: Collected) -> Collected {
    if state.bits == 0 {
        Collected { bits: 6, buffer: state.buffer }
    } else {
        Collected { bits: state.bits - 2, buffer: state.buffer }
    }
}

/// The decoder after a byte left the buffer.
pub open spec fn without_byte(state: Collected) -> Collected {
    Collected { bits: state.bits - 8, buffer: (state.buffer & 0x00ff) << 8 }
}

/// What the rest of a text decodes to, from a state of the decoder. A byte
/// leaves the buffer as soon as eight bits are collected. A character that
/// is neither in the alphabet nor the padding character is an error. In
/// strict mode a padding character where nothing is collected is an error,
/// and so are bits left over at the end under an alphabet with padding.
pub open spec fn decoded_from(
    state: Collected,
    input: Seq<u8>,
    charset: Seq<u8>,
    padding: Option<u8>,
    strict: bool,
) -> Result<Seq<u8>, Error>
    decreases input.len(),
{
    if input.len() == 0 {
        if strict && state.bits != 0 && padding is Some {
            Err(Error::InvalidBase64Padding)
        } else {
            Ok(Seq::empty())
        }
    } else {
        let byte = input[0];
        let index = position(charset, byte);
        if index < 0 && padding != Some(byte) {
            Err(Error::InvalidBase64Character)
        } else if index < 0 && state.bits == 0 && strict {
            Err(Error::InvalidBase64Padding)
        } else {
            let next = if index >= 0 {
                with_sextet(state, index)
            } else {
                with_padding(state)
            };
            if next.bits >= 8 {
                match decoded_from(without_byte(next), input.skip(1), charset, padding, strict) {
                    Ok(rest) => Ok(seq![((next.buffer & 0xff00) >> 8) as u8] + rest),
                    Err(e) => Err(e),
                }
            } else {
                decoded_from(next, input.skip(1), charset, padding, strict)
            }
        }
    }
}

/// One step of the decoder, written out.
pub proof fn lemma_decoded_step(
    state: Collected,
    input: Seq<u8>,
    charset: Seq<u8>,
    padding: Option<u8>,
    strict: bool,
)
    requires
        input.len() > 0,
    ensures
        decoded_from(state, input, charset, padding, strict) == ({
            let byte = input[0];
            let index = position(charset, byte);
            if index < 0 && padding != Some(byte) {
                Err::<Seq<u8>, Error>(Error::InvalidBase64Character)
            } else if index < 0 && state.bits == 0 && strict {
                Err(Error::InvalidBase64Padding)
            } else {
                let next = if index >= 0 {
                    with_sextet(state, index)
                } else {
                    with_padding(state)
                };
                if next.bits >= 8 {
                    match decoded_from(
                        without_byte(next),
                        input.skip(1),
                        charset,
                        padding,
                        strict,
                    ) {
                        Ok(rest) => Ok(seq![((next.buffer & 0xff00) >> 8) as u8] + rest),
                        Err(e) => Err(e),
                    }
                } else {
                    decoded_from(next, input.skip(1), charset, padding, strict)
                }
            }
        }),
{
}

/// The bytes that a Base64 text spells in an alphabet.
pub open spec fn decoded(input: Seq<u8>, charset: Seq<u8>, padding: Option<u8>, strict: bool) -> Result<
    Seq<u8>,
    Error,
> {
    decoded_from(Collected { bits: 0, buffer: 0 }, input, charset, padding, strict)
}

/// The outcome so far in front of the outcome of the rest.
pub open spec fn after(done: Seq<u8>, rest: Result<Seq<u8>, Error>) -> Result<Seq<u8>, Error> {
    match rest {
        Ok(bytes) => Ok(done + bytes),
        Err(e) => Err(e),
    }
}

/// Decoder of Base64 text.
#[derive(Debug)]
pub struct FromBase64 {
    pub alphabet: Alphabet,
    pub strict_mode: bool,
}

impl Default for FromBase64 {
    fn default() -> (r: FromBase64)
        ensures
            r.alphabet.charset == crate::base64::alphabet::STANDARD_CHARSET,
            r.alphabet.padding == Some(61u8),
            !r.strict_mode,
    {
        FromBase64 { alphabet: Alphabet::default(), strict_mode: false }
    }
}

/// Looks a character up in the character set.
fn find(charset: &[u8; 64], byte: u8) -> (r: Option<usize>)
    ensures
        match r {
            Some(index) => index < 64 && position(charset@, byte) == index,
            None => position(charset@, byte) < 0,
        },
{
    let mut i: usize = 0;
    assert(charset@.skip(0) =~= charset@);
    while i < 64
        invariant
            i <= 64,
            position(charset@, byte) == (if position(charset@.skip(i as int), byte) < 0 {
                -1
            } else {
                i + position(charset@.skip(i as int), byte)
            }),
        decreases 64 - i,
    {
        if charset[i] == byte {
            return Some(i);
        }
        assert(charset@.skip(i as int).skip(1) =~= charset@.skip(i + 1));
        i += 1;
    }
    None
}

impl FromBase64 {
    pub fn new(alphabet: Alphabet, strict_mode: bool) -> (r: FromBase64)
        ensures
            r.alphabet == alphabet,
            r.strict_mode == strict_mode,
    {
        FromBase64 { alphabet, strict_mode }
    }
}

impl Operation for FromBase64 {
    open spec fn spec_run(&self, input: Seq<u8>) -> Result<Seq<u8>, Error> {
        decoded(input, self.alphabet.charset@, self.alphabet.padding, self.strict_mode)
    }

    fn run(&self, input: &[u8]) -> (r: Result<Bytes, Error>) {
        let mut collected_bits: usize = 0;
        let mut combined_buffer: u16 = 0;
        let mut output_bytes: Vec<u8> = Vec::new();
        let ghost charset = self.alphabet.charset@;
        let ghost padding = self.alphabet.padding;
        let ghost strict = self.strict_mode;
        let ghost total = decoded(input@, charset, padding, strict);
        let mut i: usize = 0;
        assert(input@.skip(0) =~= input@);
        assert(total is Ok ==> Seq::<u8>::empty() + total->Ok_0 =~= total->Ok_0);
        while i < input.len()
            invariant
                i <= input.len(),
                charset == self.alphabet.charset@,
                padding == self.alphabet.padding,
                strict == self.strict_mode,
                total == decoded(input@, charset, padding, strict),
                collected_bits == 0 || collected_bits == 2 || collected_bits == 4
                    || collected_bits == 6,
                after(
                    output_bytes@,
                    decoded_from(
                        Collected { bits: collected_bits as int, buffer: combined_buffer },
                        input@.skip(i as int),
                        charset,
                        padding,
                        strict,
                    ),
                ) == total,
            decreases input.len() - i,
        {
            let byte = input[i];
            let ghost state = Collected { bits: collected_bits as int, buffer: combined_buffer };
            let ghost here = input@.skip(i as int);
            proof {
                assert(here[0] == byte);
                assert(here.skip(1) =~= input@.skip(i + 1));
                lemma_decoded_step(state, here, charset, padding, strict);
            }
            match find(&self.alphabet.charset, byte) {
                Some(index) => {
                    combined_buffer |= (index as u16) << (10 - collected_bits);
                    collected_bits += 6;
                },
                None => {
                    let is_padding = match self.alphabet.padding {
                        Some(c) => c == byte,
                        None => false,
                    };
                    if is_padding {
                        if collected_bits == 0 {
                            if self.strict_mode {
                                return Err(Error::InvalidBase64Padding);
                            } else {
                                collected_bits = 6;
                            }
                        } else {
                            collected_bits -= 2;
                        }
                    } else {
                        return Err(Error::InvalidBase64Character);
                    }
                },
            }
            if collected_bits >= 8 {
                assert((combined_buffer & 0xff00) >> 8 <= 255) by (bit_vector);
                let out = ((combined_buffer & 0xff00) >> 8) as u8;
                let ghost before = output_bytes@;
                output_bytes.push(out);
                combined_buffer &= 0x00ff;
                combined_buffer <<= 8;
                collected_bits -= 8;
                proof {
                    let rest = decoded_from(
                        Collected { bits: collected_bits as int, buffer: combined_buffer },
                        input@.skip(i + 1),
                        charset,
                        padding,
                        strict,
                    );
                    if rest is Ok {
                        assert(before + (seq![out] + rest->Ok_0) =~= before.push(out) + rest->Ok_0);
                    }
                }
            }
            i += 1;
        }
        if self.strict_mode && collected_bits != 0 && self.alphabet.padding.is_some() {
            return Err(Error::InvalidBase64Padding);
        }
        assert(output_bytes@ + Seq::<u8>::empty() =~= output_bytes@);
        Ok(Bytes::new(output_bytes))
    }
}

} // verus!
