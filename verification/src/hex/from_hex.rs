use crate::bytes::Bytes;
use crate::hex::{digit_value, text_bytes};
use crate::operation::Operation;
use crate::types::{outcome, Error};
use vstd::prelude::*;
use vstd::slice::slice_subrange;

verus! {

/// The number that hexadecimal digits spell, if all of them are digits and
/// the number fits in a byte. No digits spell zero.
pub open spec fn hex_value(digits: Seq<u8>) -> Option<u8>
    decreases digits.len(),
{
    if digits.len() == 0 {
        Some(0u8)
    } else {
        match (hex_value(digits.drop_last()), digit_value(digits.last())) {
            (Some(v), Some(d)) => if 16 * v + d <= 255 {
                Some((16 * v + d) as u8)
            } else {
                None
            },
            _ => None,
        }
    }
}

/// The byte that a group of characters spells: at least one hexadecimal
/// digit, with or without a plus sign in front.
pub open spec fn parse_byte(s: Seq<u8>) -> Option<u8> {
    let digits = if s.len() > 0 && s[0] == 43 {
        s.skip(1)
    } else {
        s
    };
    if digits.len() == 0 {
        None
    } else {
        hex_value(digits)
    }
}

/// Whether `s` begins with `prefix`.
pub open spec fn starts_with(s: Seq<u8>, prefix: Seq<u8>) -> bool {
    s.len() >= prefix.len() && s.take(prefix.len() as int) == prefix
}

/// The byte that one part of the input spells: the prefix, then the digits.
pub open spec fn part_value(part: Seq<u8>, prefix: Seq<u8>) -> Result<u8, Error> {
    if !starts_with(part, prefix) {
        Err(Error::UnexpectedPrefix)
    } else {
        match parse_byte(part.skip(prefix.len() as int)) {
            Some(v) => Ok(v),
            None => Err(Error::InvalidHexDigit),
        }
    }
}

/// Where `pattern` first occurs in `s`, or -1 if it does not.
pub open spec fn first_match(s: Seq<u8>, pattern: Seq<u8>) -> int
    decreases s.len(),
{
    if s.len() < pattern.len() {
        -1
    } else if s.take(pattern.len() as int) == pattern {
        0
    } else if s.len() == 0 {
        -1
    } else {
        let later = first_match(s.skip(1), pattern);
        if later < 0 {
            -1
        } else {
            later + 1
        }
    }
}

/// The length of the next part of an input without delimiters: two digits
/// and the prefix, or what is left.
pub open spec fn group_len(len: nat, prefix_len: nat) -> nat {
    if len < prefix_len + 2 {
        len
    } else {
        prefix_len + 2
    }
}

/// A decoded byte in front of what the rest of the input decodes to.
pub open spec fn joined(byte: u8, rest: Result<Seq<u8>, Error>) -> Result<Seq<u8>, Error> {
    match rest {
        Ok(bytes) => Ok(seq![byte] + bytes),
        Err(e) => Err(e),
    }
}

/// The bytes that a hexadecimal text spells. With a delimiter the text is
/// cut at every occurrence of it, and every part has to spell a byte, an
/// empty text being one empty part. Without a delimiter the text is cut
/// into groups of the prefix and two digits. The first part that spells no
/// byte gives the error.
pub open spec fn decoded(input: Seq<u8>, delimiter: Seq<u8>, prefix: Seq<u8>) -> Result<
    Seq<u8>,
    Error,
>
    decreases input.len(),
{
    if delimiter.len() == 0 {
        if input.len() == 0 {
            Ok(Seq::empty())
        } else {
            let n = group_len(input.len(), prefix.len()) as int;
            match part_value(input.take(n), prefix) {
                Err(e) => Err(e),
                Ok(byte) => joined(byte, decoded(input.skip(n), delimiter, prefix)),
            }
        }
    } else {
        let at = first_match(input, delimiter);
        if at < 0 || at + delimiter.len() > input.len() {
            match part_value(input, prefix) {
                Err(e) => Err(e),
                Ok(byte) => Ok(seq![byte]),
            }
        } else {
            match part_value(input.take(at), prefix) {
                Err(e) => Err(e),
                Ok(byte) => joined(
                    byte,
                    decoded(input.skip(at + delimiter.len()), delimiter, prefix),
                ),
            }
        }
    }
}

/// A match is found inside the text, and never before position zero.
pub proof fn lemma_first_match_bounds(s: Seq<u8>, pattern: Seq<u8>)
    ensures
        first_match(s, pattern) >= -1,
        first_match(s, pattern) >= 0 ==> first_match(s, pattern) + pattern.len() <= s.len(),
    decreases s.len(),
{
    if s.len() >= pattern.len() && s.take(pattern.len() as int) != pattern && s.len() > 0 {
        lemma_first_match_bounds(s.skip(1), pattern);
    }
}

/// Decoder of hexadecimal text.
#[derive(Debug)]
pub struct FromHex {
    pub delimiter: String,
    pub prefix: String,
}

impl Default for FromHex {
    fn default() -> (r: FromHex)
        ensures
            r.delimiter@ == Seq::<char>::empty(),
            r.prefix@ == Seq::<char>::empty(),
    {
        FromHex { delimiter: String::new(), prefix: String::new() }
    }
}

/// Whether `s` begins with `prefix`.
fn has_prefix(s: &[u8], prefix: &[u8]) -> (r: bool)
    ensures
        r == starts_with(s@, prefix@),
{
    if s.len() < prefix.len() {
        return false;
    }
    let mut i: usize = 0;
    while i < prefix.len()
        invariant
            i <= prefix.len(),
            prefix.len() <= s.len(),
            forall|j: int| 0 <= j < i ==> s@[j] == prefix@[j],
        decreases prefix.len() - i,
    {
        if s[i] != prefix[i] {
            assert(s@.take(prefix@.len() as int)[i as int] != prefix@[i as int]);
            return false;
        }
        i += 1;
    }
    assert(s@.take(prefix@.len() as int) =~= prefix@);
    true
}

/// Where `pattern` first occurs in `s` at or after `from`.
fn find(s: &[u8], from: usize, pattern: &[u8]) -> (r: Option<usize>)
    requires
        from <= s@.len(),
    ensures
        match r {
            Some(at) => from <= at && at + pattern@.len() <= s@.len() && first_match(
                s@.skip(from as int),
                pattern@,
            ) == at - from,
            None => first_match(s@.skip(from as int), pattern@) < 0,
        },
{
    let mut at: usize = from;
    while s.len() - at >= pattern.len()
        invariant
            from <= at <= s@.len(),
            first_match(s@.skip(from as int), pattern@) == (if first_match(
                s@.skip(at as int),
                pattern@,
            ) < 0 {
                -1
            } else {
                at - from + first_match(s@.skip(at as int), pattern@)
            }),
        decreases s@.len() - at,
    {
        let here = slice_subrange(s, at, s.len());
        assert(here@ =~= s@.skip(at as int));
        if has_prefix(here, pattern) {
            return Some(at);
        }
        assert(pattern@.len() > 0) by {
            if pattern@.len() == 0 {
                assert(here@.take(0) =~= pattern@);
            }
        }
        assert(s@.skip(at as int).skip(1) =~= s@.skip(at + 1));
        at += 1;
    }
    None
}

/// Reads hexadecimal digits as a byte.
fn read_digits(digits: &[u8]) -> (r: Option<u8>)
    ensures
        r == hex_value(digits@),
{
    let mut value: u8 = 0;
    let mut i: usize = 0;
    assert(digits@.take(0) =~= Seq::<u8>::empty());
    while i < digits.len()
        invariant
            i <= digits.len(),
            hex_value(digits@.take(i as int)) == Some(value),
        decreases digits.len() - i,
    {
        let c = digits[i];
        let digit: u8 = if c >= 48 && c <= 57 {
            c - 48
        } else if c >= 97 && c <= 102 {
            c - 87
        } else if c >= 65 && c <= 70 {
            c - 55
        } else {
            proof {
                lemma_hex_value_fails(digits@, i as int);
            }
            return None;
        };
        if value > 15 {
            proof {
                assert(digits@.take(i + 1).drop_last() =~= digits@.take(i as int));
                lemma_hex_value_fails(digits@, i as int);
            }
            return None;
        }
        assert(digits@.take(i + 1).drop_last() =~= digits@.take(i as int));
        value = 16 * value + digit;
        i += 1;
    }
    assert(digits@.take(i as int) =~= digits@);
    Some(value)
}

/// Once a beginning of the digits spells no byte, the whole does not.
pub proof fn lemma_hex_value_fails(digits: Seq<u8>, i: int)
    requires
        0 <= i < digits.len(),
        hex_value(digits.take(i + 1)) is None,
    ensures
        hex_value(digits) is None,
    decreases digits.len() - i,
{
    if i + 1 < digits.len() {
        assert(digits.take(i + 2).drop_last() =~= digits.take(i + 1));
        lemma_hex_value_fails(digits, i + 1);
    } else {
        assert(digits.take(i + 1) =~= digits);
    }
}

/// Reads one part of the input.
fn read_part(part: &[u8], prefix: &[u8]) -> (r: Result<u8, Error>)
    ensures
        r == part_value(part@, prefix@),
{
    if !has_prefix(part, prefix) {
        return Err(Error::UnexpectedPrefix);
    }
    let rest = slice_subrange(part, prefix.len(), part.len());
    assert(rest@ =~= part@.skip(prefix@.len() as int));
    let digits = if rest.len() > 0 && rest[0] == 43 {
        let after = slice_subrange(rest, 1, rest.len());
        assert(after@ =~= rest@.skip(1));
        after
    } else {
        rest
    };
    if digits.len() == 0 {
        return Err(Error::InvalidHexDigit);
    }
    match read_digits(digits) {
        Some(v) => Ok(v),
        None => Err(Error::InvalidHexDigit),
    }
}

impl FromHex {
    pub fn new(delimiter: &str, prefix: &str) -> (r: FromHex)
        ensures
            r.delimiter@ == delimiter@,
            r.prefix@ == prefix@,
    {
        FromHex { delimiter: delimiter.to_owned(), prefix: prefix.to_owned() }
    }
}

/// The outcome so far in front of the outcome of the rest.
pub open spec fn after(done: Seq<u8>, rest: Result<Seq<u8>, Error>) -> Result<Seq<u8>, Error> {
    match rest {
        Ok(bytes) => Ok(done + bytes),
        Err(e) => Err(e),
    }
}

/// One step of decoding without a delimiter.
pub proof fn lemma_decoded_group(input: Seq<u8>, delimiter: Seq<u8>, prefix: Seq<u8>, n: int)
    requires
        delimiter.len() == 0,
        input.len() > 0,
        n == group_len(input.len(), prefix.len()),
    ensures
        decoded(input, delimiter, prefix) == (match part_value(input.take(n), prefix) {
            Err(e) => Err(e),
            Ok(byte) => joined(byte, decoded(input.skip(n), delimiter, prefix)),
        }),
{
}

/// One step of decoding with a delimiter that was found at `at`.
pub proof fn lemma_decoded_part(input: Seq<u8>, delimiter: Seq<u8>, prefix: Seq<u8>, at: int)
    requires
        delimiter.len() > 0,
        at == first_match(input, delimiter),
        at >= 0,
    ensures
        decoded(input, delimiter, prefix) == (match part_value(input.take(at), prefix) {
            Err(e) => Err(e),
            Ok(byte) => joined(
                byte,
                decoded(input.skip(at + delimiter.len()), delimiter, prefix),
            ),
        }),
{
    lemma_first_match_bounds(input, delimiter);
}

/// The last step of decoding with a delimiter: it occurs no more.
pub proof fn lemma_decoded_last(input: Seq<u8>, delimiter: Seq<u8>, prefix: Seq<u8>)
    requires
        delimiter.len() > 0,
        first_match(input, delimiter) < 0,
    ensures
        decoded(input, delimiter, prefix) == (match part_value(input, prefix) {
            Err(e) => Err(e),
            Ok(byte) => Ok(seq![byte]),
        }),
{
}

/// A byte more among the decoded ones is a byte less in front of the rest.
pub proof fn lemma_after_joined(done: Seq<u8>, byte: u8, rest: Result<Seq<u8>, Error>)
    ensures
        after(done.push(byte), rest) == after(done, joined(byte, rest)),
{
    if rest is Ok {
        assert(done.push(byte) + rest->Ok_0 =~= done + (seq![byte] + rest->Ok_0));
    }
}

/// Decodes a text without delimiters.
fn decode_groups(input: &[u8], delimiter: &[u8], prefix: &[u8]) -> (r: Result<Vec<u8>, Error>)
    requires
        delimiter@.len() == 0,
    ensures
        (match r {
            Ok(bytes) => Ok(bytes@),
            Err(e) => Err(e),
        }) == decoded(input@, delimiter@, prefix@),
{
    let mut output: Vec<u8> = Vec::new();
    let mut start: usize = 0;
    let ghost total = decoded(input@, delimiter@, prefix@);
    assert(input@.skip(0) =~= input@);
    assert(Seq::<u8>::empty() + Seq::<u8>::empty() =~= Seq::<u8>::empty());
    assert(total is Ok ==> Seq::<u8>::empty() + total->Ok_0 =~= total->Ok_0);
    while start < input.len()
        invariant
            start <= input.len(),
            delimiter@.len() == 0,
            total == decoded(input@, delimiter@, prefix@),
            after(output@, decoded(input@.skip(start as int), delimiter@, prefix@)) == total,
        decreases input.len() - start,
    {
        let left = input.len() - start;
        let end = if left <= prefix.len() || left - prefix.len() <= 2 {
            input.len()
        } else {
            start + prefix.len() + 2
        };
        let part = slice_subrange(input, start, end);
        let ghost here = input@.skip(start as int);
        proof {
            assert(here.take(end - start) =~= part@);
            assert(here.skip(end - start) =~= input@.skip(end as int));
            lemma_decoded_group(here, delimiter@, prefix@, end - start);
        }
        match read_part(part, prefix) {
            Ok(byte) => {
                proof {
                    lemma_after_joined(
                        output@,
                        byte,
                        decoded(input@.skip(end as int), delimiter@, prefix@),
                    );
                }
                output.push(byte);
            },
            Err(e) => {
                return Err(e);
            },
        }
        start = end;
    }
    assert(output@ + Seq::<u8>::empty() =~= output@);
    Ok(output)
}

/// Decodes a text whose parts a delimiter separates.
fn decode_parts(input: &[u8], delimiter: &[u8], prefix: &[u8]) -> (r: Result<Vec<u8>, Error>)
    requires
        delimiter@.len() > 0,
    ensures
        (match r {
            Ok(bytes) => Ok(bytes@),
            Err(e) => Err(e),
        }) == decoded(input@, delimiter@, prefix@),
{
    let mut output: Vec<u8> = Vec::new();
    let mut start: usize = 0;
    let ghost total = decoded(input@, delimiter@, prefix@);
    assert(input@.skip(0) =~= input@);
    assert(total is Ok ==> Seq::<u8>::empty() + total->Ok_0 =~= total->Ok_0);
    loop
        invariant
            start <= input.len(),
            delimiter@.len() > 0,
            total == decoded(input@, delimiter@, prefix@),
            after(output@, decoded(input@.skip(start as int), delimiter@, prefix@)) == total,
        decreases input.len() - start,
    {
        let ghost here = input@.skip(start as int);
        match find(input, start, delimiter) {
            None => {
                let part = slice_subrange(input, start, input.len());
                proof {
                    assert(part@ =~= here);
                    lemma_decoded_last(here, delimiter@, prefix@);
                }
                match read_part(part, prefix) {
                    Ok(byte) => {
                        let ghost before = output@;
                        output.push(byte);
                        assert(before + seq![byte] =~= before.push(byte));
                        return Ok(output);
                    },
                    Err(e) => {
                        return Err(e);
                    },
                }
            },
            Some(at) => {
                let part = slice_subrange(input, start, at);
                let next = at + delimiter.len();
                proof {
                    assert(here.take(at - start) =~= part@);
                    assert(here.skip(at - start + delimiter@.len()) =~= input@.skip(next as int));
                    lemma_decoded_part(here, delimiter@, prefix@, at - start);
                }
                match read_part(part, prefix) {
                    Ok(byte) => {
                        proof {
                            lemma_after_joined(
                                output@,
                                byte,
                                decoded(input@.skip(next as int), delimiter@, prefix@),
                            );
                        }
                        output.push(byte);
                    },
                    Err(e) => {
                        return Err(e);
                    },
                }
                start = next;
            },
        }
    }
}

impl Operation for FromHex {
    open spec fn spec_run(&self, input: Seq<u8>) -> Result<Seq<u8>, Error> {
        decoded(input, text_bytes(self.delimiter@), text_bytes(self.prefix@))
    }

    fn run(&self, input: &[u8]) -> (r: Result<Bytes, Error>) {
        let delimiter = self.delimiter.as_str().as_bytes();
        let prefix = self.prefix.as_str().as_bytes();
        let decoded = if delimiter.len() == 0 {
            decode_groups(input, delimiter, prefix)
        } else {
            decode_parts(input, delimiter, prefix)
        };
        match decoded {
            Ok(bytes) => Ok(Bytes::new(bytes)),
            Err(e) => Err(e),
        }
    }
}

} // verus!
