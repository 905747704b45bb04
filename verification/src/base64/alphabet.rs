use vstd::prelude::*;

verus! {

/// The 64 characters that stand for the values of six bits, and the
/// character that fills up the last group, if there is one.
#[derive(Debug)]
pub struct Alphabet {
    pub charset: [u8; 64],
    pub padding: Option<u8>,
}

/// The characters of the standard alphabet (RFC 4648).
pub const STANDARD_CHARSET: [u8; 64] = [
    65, 66, 67, 68, 69, 70, 71, 72, 73, 74, 75, 76, 77, 78, 79, 80, 81, 82, 83, 84, 85, 86, 87,
    88, 89, 90, 97, 98, 99, 100, 101, 102, 103, 104, 105, 106, 107, 108, 109, 110, 111, 112,
    113, 114, 115, 116, 117, 118, 119, 120, 121, 122, 48, 49, 50, 51, 52, 53, 54, 55, 56, 57,
    43, 47,
];

/// The standard alphabet (RFC 4648), padded with `=`.
pub fn standard() -> (r: Alphabet)
    ensures
        r.charset == STANDARD_CHARSET,
        r.padding == Some(61u8),
{
    Alphabet { charset: STANDARD_CHARSET, padding: Some(61) }
}

/// The characters of the alphabet for URLs.
pub const URL_SAFE_CHARSET: [u8; 64] = [
    65, 66, 67, 68, 69, 70, 71, 72, 73, 74, 75, 76, 77, 78, 79, 80, 81, 82, 83, 84, 85, 86, 87,
    88, 89, 90, 97, 98, 99, 100, 101, 102, 103, 104, 105, 106, 107, 108, 109, 110, 111, 112,
    113, 114, 115, 116, 117, 118, 119, 120, 121, 122, 48, 49, 50, 51, 52, 53, 54, 55, 56, 57,
    45, 95,
];

/// The alphabet for URLs, without padding.
pub fn url_safe() -> (r: Alphabet)
    ensures
        r.charset == URL_SAFE_CHARSET,
        r.padding == None::<u8>,
{
    Alphabet { charset: URL_SAFE_CHARSET, padding: None }
}

/// The characters of the alphabet for file names.
pub const FILENAME_SAFE_CHARSET: [u8; 64] = [
    65, 66, 67, 68, 69, 70, 71, 72, 73, 74, 75, 76, 77, 78, 79, 80, 81, 82, 83, 84, 85, 86, 87,
    88, 89, 90, 97, 98, 99, 100, 101, 102, 103, 104, 105, 106, 107, 108, 109, 110, 111, 112,
    113, 114, 115, 116, 117, 118, 119, 120, 121, 122, 48, 49, 50, 51, 52, 53, 54, 55, 56, 57,
    43, 45,
];

/// The alphabet for file names, padded with `=`.
pub fn filename_safe() -> (r: Alphabet)
    ensures
        r.charset == FILENAME_SAFE_CHARSET,
        r.padding == Some(61u8),
{
    Alphabet { charset: FILENAME_SAFE_CHARSET, padding: Some(61) }
}

/// The characters of the alphabet of itoa64.
pub const ITOA64_CHARSET: [u8; 64] = [
    46, 47, 48, 49, 50, 51, 52, 53, 54, 55, 56, 57, 65, 66, 67, 68, 69, 70, 71, 72, 73, 74, 75,
    76, 77, 78, 79, 80, 81, 82, 83, 84, 85, 86, 87, 88, 89, 90, 97, 98, 99, 100, 101, 102, 103,
    104, 105, 106, 107, 108, 109, 110, 111, 112, 113, 114, 115, 116, 117, 118, 119, 120, 121,
    122,
];

/// The alphabet of itoa64, padded with `=`.
pub fn itoa64() -> (r: Alphabet)
    ensures
        r.charset == ITOA64_CHARSET,
        r.padding == Some(61u8),
{
    Alphabet { charset: ITOA64_CHARSET, padding: Some(61) }
}

/// The characters of the alphabet for XML names.
pub const XML_CHARSET: [u8; 64] = [
    65, 66, 67, 68, 69, 70, 71, 72, 73, 74, 75, 76, 77, 78, 79, 80, 81, 82, 83, 84, 85, 86, 87,
    88, 89, 90, 97, 98, 99, 100, 101, 102, 103, 104, 105, 106, 107, 108, 109, 110, 111, 112,
    113, 114, 115, 116, 117, 118, 119, 120, 121, 122, 48, 49, 50, 51, 52, 53, 54, 55, 56, 57,
    95, 46,
];

/// The alphabet for XML names, without padding.
pub fn xml() -> (r: Alphabet)
    ensures
        r.charset == XML_CHARSET,
        r.padding == None::<u8>,
{
    Alphabet { charset: XML_CHARSET, padding: None }
}

/// The characters of the alphabet Y64.
pub const Y64_CHARSET: [u8; 64] = [
    65, 66, 67, 68, 69, 70, 71, 72, 73, 74, 75, 76, 77, 78, 79, 80, 81, 82, 83, 84, 85, 86, 87,
    88, 89, 90, 97, 98, 99, 100, 101, 102, 103, 104, 105, 106, 107, 108, 109, 110, 111, 112,
    113, 114, 115, 116, 117, 118, 119, 120, 121, 122, 48, 49, 50, 51, 52, 53, 54, 55, 56, 57,
    46, 95,
];

/// The alphabet Y64, padded with `-`.
pub fn y64() -> (r: Alphabet)
    ensures
        r.charset == Y64_CHARSET,
        r.padding == Some(45u8),
{
    Alphabet { charset: Y64_CHARSET, padding: Some(45) }
}

/// The characters of the alphabet Z64.
pub const Z64_CHARSET: [u8; 64] = [
    48, 49, 50, 51, 52, 53, 54, 55, 56, 57, 97, 98, 99, 100, 101, 102, 103, 104, 105, 106, 107,
    108, 109, 110, 111, 112, 113, 114, 115, 116, 117, 118, 119, 120, 121, 122, 65, 66, 67, 68,
    69, 70, 71, 72, 73, 74, 75, 76, 77, 78, 79, 80, 81, 82, 83, 84, 85, 86, 87, 88, 89, 90, 43,
    47,
];

/// The alphabet Z64, padded with `=`.
pub fn z64() -> (r: Alphabet)
    ensures
        r.charset == Z64_CHARSET,
        r.padding == Some(61u8),
{
    Alphabet { charset: Z64_CHARSET, padding: Some(61) }
}

/// The characters of the alphabet Radix-64.
pub const RADIX64_CHARSET: [u8; 64] = [
    48, 49, 50, 51, 52, 53, 54, 55, 56, 57, 65, 66, 67, 68, 69, 70, 71, 72, 73, 74, 75, 76, 77,
    78, 79, 80, 81, 82, 83, 84, 85, 86, 87, 88, 89, 90, 97, 98, 99, 100, 101, 102, 103, 104,
    105, 106, 107, 108, 109, 110, 111, 112, 113, 114, 115, 116, 117, 118, 119, 120, 121, 122,
    43, 47,
];

/// The alphabet Radix-64, padded with `=`.
pub fn radix64() -> (r: Alphabet)
    ensures
        r.charset == RADIX64_CHARSET,
        r.padding == Some(61u8),
{
    Alphabet { charset: RADIX64_CHARSET, padding: Some(61) }
}

/// The characters of the alphabet of xxencoding.
pub const XXENCODING_CHARSET: [u8; 64] = [
    43, 45, 48, 49, 50, 51, 52, 53, 54, 55, 56, 57, 65, 66, 67, 68, 69, 70, 71, 72, 73, 74, 75,
    76, 77, 78, 79, 80, 81, 82, 83, 84, 85, 86, 87, 88, 89, 90, 97, 98, 99, 100, 101, 102, 103,
    104, 105, 106, 107, 108, 109, 110, 111, 112, 113, 114, 115, 116, 117, 118, 119, 120, 121,
    122,
];

/// The alphabet of xxencoding, without padding.
pub fn xxencoding() -> (r: Alphabet)
    ensures
        r.charset == XXENCODING_CHARSET,
        r.padding == None::<u8>,
{
    Alphabet { charset: XXENCODING_CHARSET, padding: None }
}

/// The characters of the alphabet of BinHex.
pub const BIN_HEX_CHARSET: [u8; 64] = [
    33, 34, 35, 36, 37, 38, 39, 40, 41, 42, 43, 44, 45, 48, 49, 50, 51, 52, 53, 54, 56, 57, 64,
    65, 66, 67, 68, 69, 70, 71, 72, 73, 74, 75, 76, 77, 78, 80, 81, 82, 83, 84, 85, 86, 88, 89,
    90, 91, 96, 97, 98, 99, 100, 101, 102, 104, 105, 106, 107, 108, 109, 112, 113, 114,
];

/// The alphabet of BinHex, without padding.
pub fn bin_hex() -> (r: Alphabet)
    ensures
        r.charset == BIN_HEX_CHARSET,
        r.padding == None::<u8>,
{
    Alphabet { charset: BIN_HEX_CHARSET, padding: None }
}

/// The characters of the standard alphabet with its letters rotated by 13.
pub const ROT13_CHARSET: [u8; 64] = [
    78, 79, 80, 81, 82, 83, 84, 85, 86, 87, 88, 89, 90, 65, 66, 67, 68, 69, 70, 71, 72, 73, 74,
    75, 76, 77, 110, 111, 112, 113, 114, 115, 116, 117, 118, 119, 120, 121, 122, 97, 98, 99,
    100, 101, 102, 103, 104, 105, 106, 107, 108, 109, 48, 49, 50, 51, 52, 53, 54, 55, 56, 57,
    43, 47,
];

/// The standard alphabet with its letters rotated by 13, padded with `=`.
pub fn rot13() -> (r: Alphabet)
    ensures
        r.charset == ROT13_CHARSET,
        r.padding == Some(61u8),
{
    Alphabet { charset: ROT13_CHARSET, padding: Some(61) }
}

/// The characters of the alphabet of Unix crypt.
pub const UNIX_CRYPT_CHARSET: [u8; 64] = [
    46, 47, 48, 49, 50, 51, 52, 53, 54, 55, 56, 57, 65, 66, 67, 68, 69, 70, 71, 72, 73, 74, 75,
    76, 77, 78, 79, 80, 81, 82, 83, 84, 85, 86, 87, 88, 89, 90, 97, 98, 99, 100, 101, 102, 103,
    104, 105, 106, 107, 108, 109, 110, 111, 112, 113, 114, 115, 116, 117, 118, 119, 120, 121,
    122,
];

/// The alphabet of Unix crypt, without padding.
pub fn unix_crypt() -> (r: Alphabet)
    ensures
        r.charset == UNIX_CRYPT_CHARSET,
        r.padding == None::<u8>,
{
    Alphabet { charset: UNIX_CRYPT_CHARSET, padding: None }
}

/// The characters of the alphabet Atom128.
pub const ATOM128_CHARSET: [u8; 64] = [
    47, 49, 50, 56, 71, 104, 73, 111, 80, 81, 82, 79, 83, 84, 101, 85, 98, 65, 68, 102, 103, 72,
    105, 106, 75, 76, 77, 43, 110, 48, 112, 70, 87, 88, 89, 52, 53, 54, 120, 121, 122, 66, 55,
    61, 51, 57, 86, 97, 113, 114, 115, 116, 74, 107, 108, 109, 78, 117, 90, 118, 119, 99, 100,
    69,
];

/// The alphabet Atom128, padded with `C`.
pub fn atom128() -> (r: Alphabet)
    ensures
        r.charset == ATOM128_CHARSET,
        r.padding == Some(67u8),
{
    Alphabet { charset: ATOM128_CHARSET, padding: Some(67) }
}

/// The characters of the alphabet Megan35.
pub const MEGAN35_CHARSET: [u8; 64] = [
    51, 71, 72, 73, 74, 75, 76, 77, 78, 79, 80, 81, 82, 83, 84, 85, 98, 61, 99, 100, 101, 102,
    103, 104, 105, 106, 107, 108, 109, 110, 111, 112, 87, 88, 89, 90, 47, 49, 50, 43, 52, 48,
    54, 55, 56, 57, 86, 97, 113, 114, 115, 116, 117, 118, 119, 120, 121, 122, 65, 66, 67, 68,
    69, 70,
];

/// The alphabet Megan35, padded with `5`.
pub fn megan35() -> (r: Alphabet)
    ensures
        r.charset == MEGAN35_CHARSET,
        r.padding == Some(53u8),
{
    Alphabet { charset: MEGAN35_CHARSET, padding: Some(53) }
}

/// The characters of the alphabet Zong22.
pub const ZONG22_CHARSET: [u8; 64] = [
    90, 75, 106, 57, 110, 43, 121, 102, 48, 119, 68, 86, 88, 49, 115, 47, 53, 89, 98, 100, 120,
    83, 111, 61, 73, 76, 97, 85, 112, 80, 66, 67, 72, 103, 56, 117, 118, 78, 79, 52, 107, 108,
    109, 54, 105, 74, 71, 104, 81, 55, 101, 70, 114, 87, 99, 122, 65, 77, 69, 113, 51, 82, 84,
    116,
];

/// The alphabet Zong22, padded with `2`.
pub fn zong22() -> (r: Alphabet)
    ensures
        r.charset == ZONG22_CHARSET,
        r.padding == Some(50u8),
{
    Alphabet { charset: ZONG22_CHARSET, padding: Some(50) }
}

/// The characters of the alphabet Hazz15.
pub const HAZZ15_CHARSET: [u8; 64] = [
    72, 78, 79, 52, 107, 108, 109, 54, 105, 106, 57, 110, 43, 74, 50, 104, 121, 102, 48, 103,
    122, 65, 56, 117, 118, 119, 68, 69, 113, 51, 88, 49, 81, 55, 90, 75, 101, 70, 114, 87, 99,
    86, 84, 116, 115, 47, 77, 82, 71, 89, 98, 100, 120, 83, 111, 61, 73, 76, 97, 85, 112, 80,
    66, 67,
];

/// The alphabet Hazz15, padded with `5`.
pub fn hazz15() -> (r: Alphabet)
    ensures
        r.charset == HAZZ15_CHARSET,
        r.padding == Some(53u8),
{
    Alphabet { charset: HAZZ15_CHARSET, padding: Some(53) }
}

impl Default for Alphabet {
    fn default() -> (r: Alphabet)
        ensures
            r.charset == STANDARD_CHARSET,
            r.padding == Some(61u8),
    {
        standard()
    }
}

impl Alphabet {
    pub fn new(charset: [u8; 64], padding: Option<u8>) -> (r: Alphabet)
        ensures
            r.charset == charset,
            r.padding == padding,
    {
        Alphabet { charset, padding }
    }
}

} // verus!
