use crate::bytes::Bytes;
use crate::enums::Case;
use crate::hex::text_bytes;
use crate::operation::Operation;
use crate::types::Error;
use vstd::prelude::*;

verus! {

/// The character of a hexadecimal digit.
pub open spec fn hex_digit(value: u8, case: Case) -> u8 {
    if value < 10 {
        (48 + value) as u8
    } else if case == Case::Upper {
        (55 + value) as u8
    } else {
        (87 + value) as u8
    }
}

/// The text of one byte: the prefix and two digits.
pub open spec fn encoded_byte(byte: u8, prefix: Seq<u8>, case: Case) -> Seq<u8> {
    prefix + seq![hex_digit(byte / 16, case), hex_digit(byte % 16, case)]
}

/// The hexadecimal text of bytes: the texts of the bytes with the delimiter
/// between them.
pub open spec fn encoded(input: Seq<u8>, delimiter: Seq<u8>, prefix: Seq<u8>, case: Case) -> Seq<
    u8,
>
    decreases input.len(),
{
    if input.len() == 0 {
        Seq::empty()
    } else if input.len() == 1 {
        encoded_byte(input[0], prefix, case)
    } else {
        encoded(input.drop_last(), delimiter, prefix, case) + delimiter + encoded_byte(
            input.last(),
            prefix,
            case,
        )
    }
}

/// Encoder of hexadecimal text.
#[derive(Debug)]
pub struct ToHex {
    pub delimiter: String,
    pub prefix: String,
    pub case: Case,
}

impl Default for ToHex {
    fn default() -> (r: ToHex)
        ensures
            r.delimiter@ == Seq::<char>::empty(),
            r.prefix@ == Seq::<char>::empty(),
            r.case == Case::Lower,
    {
        ToHex { delimiter: String::new(), prefix: String::new(), case: Case::Lower }
    }
}

/// The character of a hexadecimal digit.
fn digit(value: u8, case: Case) -> (c: u8)
    requires
        value < 16,
    ensures
        c == hex_digit(value, case),
{
    if value < 10 {
        48 + value
    } else {
        match case {
            Case::Upper => 55 + value,
            Case::Lower => 87 + value,
        }
    }
}

impl ToHex {
    pub fn new(delimiter: &str, prefix: &str, case: Case) -> (r: ToHex)
        ensures
            r.delimiter@ == delimiter@,
            r.prefix@ == prefix@,
            r.case == case,
    {
        ToHex { delimiter: delimiter.to_owned(), prefix: prefix.to_owned(), case }
    }
}

impl Operation for ToHex {
    open spec fn spec_run(&self, input: Seq<u8>) -> Result<Seq<u8>, Error> {
        Ok(encoded(input, text_bytes(self.delimiter@), text_bytes(self.prefix@), self.case))
    }

    fn run(&self, input: &[u8]) -> (r: Result<Bytes, Error>) {
        let delimiter = self.delimiter.as_str().as_bytes();
        let prefix = self.prefix.as_str().as_bytes();
        let mut output: Vec<u8> = Vec::new();
        let mut i: usize = 0;
        assert(input@.take(0) =~= Seq::<u8>::empty());
        while i < input.len()
            invariant
                i <= input.len(),
                output@ == encoded(input@.take(i as int), delimiter@, prefix@, self.case),
            decreases input.len() - i,
        {
            let ghost before = output@;
            if i > 0 {
                output.extend_from_slice(delimiter);
            }
            output.extend_from_slice(prefix);
            let byte = input[i];
            output.push(digit(byte / 16, self.case));
            output.push(digit(byte % 16, self.case));
            proof {
                let now = input@.take(i + 1);
                assert(now.drop_last() =~= input@.take(i as int));
                assert(now.last() == byte);
                if i > 0 {
                    assert(output@ =~= before + delimiter@ + encoded_byte(
                        byte,
                        prefix@,
                        self.case,
                    ));
                } else {
                    assert(output@ =~= encoded_byte(byte, prefix@, self.case));
                }
            }
            i += 1;
        }
        assert(input@.take(i as int) =~= input@);
        Ok(Bytes::new(output))
    }
}

} // verus!
