//! Byte vectors.
use crate::bits::{
    bits_to_bytes, bits_value, byte_len, bytes_to_bits, lemma_bits_value_byte, lemma_leading_zeros,
    word_modulus, Bits,
};
use crate::enums::{Bit, Endian};
use crate::types::Error;
use crate::vector::{align, max_len, permute};
use std::ops::{BitXor, Deref};
use std::str::FromStr;
use vstd::prelude::*;
use vstd::slice::{slice_subrange, slice_to_vec};
use vstd::string::StringSliceAdditionalSpecFns;

verus! {

/// Byte by byte exclusive or. The result is as long as the longer operand;
/// the shorter one is read cyclically. An empty operand leaves the other one
/// as it is.
pub open spec fn xor_bytes(a: Seq<u8>, b: Seq<u8>) -> Seq<u8> {
    if a.len() == 0 {
        b
    } else if b.len() == 0 {
        a
    } else {
        Seq::new(max_len(a.len(), b.len()), |i: int| a[i % a.len() as int] ^ b[i % b.len() as int])
    }
}

/// 256 to the power `k`.
pub open spec fn pow256(k: nat) -> nat
    decreases k,
{
    if k == 0 {
        1
    } else {
        256 * pow256((k - 1) as nat)
    }
}

/// The number that bytes spell, most significant byte first.
pub open spec fn be_value(s: Seq<u8>) -> nat
    decreases s.len(),
{
    if s.len() == 0 {
        0
    } else {
        256 * be_value(s.drop_last()) + s.last() as nat
    }
}

/// The low `n` bytes of the number `v` in the given byte order.
pub open spec fn field_bytes(v: nat, n: nat, endian: Endian) -> Seq<u8> {
    Seq::new(
        n,
        |i: int|
            {
                let k = match endian {
                    Endian::Little => i,
                    Endian::Big => n - 1 - i,
                };
                ((v / pow256(k as nat)) % 256) as u8
            },
    )
}

/// The bytes of a field, most significant first.
pub open spec fn most_significant_first(field: Seq<u8>, endian: Endian) -> Seq<u8> {
    Seq::new(
        field.len(),
        |i: int|
            match endian {
                Endian::Big => field[i],
                Endian::Little => field[field.len() - 1 - i],
            },
    )
}

/// The number that a field holds in the given byte order.
pub open spec fn field_value(field: Seq<u8>, endian: Endian) -> nat {
    be_value(most_significant_first(field, endian))
}

/// Whether every byte of `s` from position `from` on is `0xff`.
pub open spec fn all_ones_from(s: Seq<u8>, from: int) -> bool {
    forall|j: int| from <= j < s.len() ==> s[j] == 0xff
}

/// The number of trailing bytes that a counter of `width` bytes covers in a
/// vector of `len` bytes.
pub open spec fn counter_width(len: nat, width: nat) -> nat {
    if len < width {
        len
    } else {
        width
    }
}

/// `s` after one is added to the number that its last `width` bytes spell,
/// most significant byte first. A byte of the counter changes exactly when
/// every byte after it is `0xff`; a carry out of the counter is dropped.
pub open spec fn incremented(s: Seq<u8>, width: nat) -> Seq<u8> {
    Seq::new(
        s.len(),
        |i: int|
            if i >= s.len() - counter_width(s.len(), width) && all_ones_from(s, i + 1) {
                ((s[i] + 1) % 256) as u8
            } else {
                s[i]
            },
    )
}

/// An ordered sequence of bytes.
#[derive(Debug)]
pub struct Bytes {
    inner: Vec<u8>,
}

impl View for Bytes {
    type V = Seq<u8>;

    closed spec fn view(&self) -> Seq<u8> {
        self.inner@
    }
}

impl Clone for Bytes {
    fn clone(&self) -> (r: Bytes)
        ensures
            r@ == self@,
    {
        Bytes { inner: self.inner.clone() }
    }
}

impl Default for Bytes {
    fn default() -> (r: Bytes)
        ensures
            r@ == Seq::<u8>::empty(),
    {
        Bytes { inner: Vec::new() }
    }
}

impl Deref for Bytes {
    type Target = [u8];

    fn deref(&self) -> (r: &[u8])
        ensures
            r@ == self@,
    {
        self.inner.as_slice()
    }
}

impl Bytes {
    /// Copies the bytes behind `s`.
    pub fn new<T>(s: T) -> (r: Bytes) where T: Deref<Target = [u8]>
        ensures
            exists|bytes: &[u8]| call_ensures(T::deref, (&s,), bytes) && r@ == bytes@,
    {
        let bytes: &[u8] = s.deref();
        Bytes { inner: slice_to_vec(bytes) }
    }

    /// Copies a slice of bytes.
    pub fn from_slice(s: &[u8]) -> (r: Bytes)
        ensures
            r@ == s@,
    {
        Bytes { inner: slice_to_vec(s) }
    }

    /// Unpacks the bytes into bits, most significant bit first.
    pub fn to_bits(&self) -> (r: Bits)
        ensures
            r@ == bytes_to_bits(self@),
    {
        Bits::from(self.inner.as_slice())
    }

    /// Right-justifies the bytes in `len` places, cutting or filling with
    /// `value` at the front.
    pub fn align(&self, len: usize, value: u8) -> (r: Bytes)
        ensures
            r@ == align(self@, len as nat, value),
    {
        let n = self.inner.len();
        let mut out: Vec<u8> = Vec::with_capacity(len);
        let mut i: usize = 0;
        while i < len
            invariant
                i <= len,
                n == self.inner.len(),
                out@.len() == i,
                forall|j: int| 0 <= j < i ==> out@[j] == align(self.inner@, len as nat, value)[j],
            decreases len - i,
        {
            if len - i <= n {
                out.push(self.inner[n - (len - i)]);
            } else {
                out.push(value);
            }
            i += 1;
        }
        assert(out@ =~= align(self.inner@, len as nat, value));
        Bytes { inner: out }
    }

    /// Byte by byte exclusive or, the shorter operand read cyclically.
    pub fn xor(&self, other: &Bytes) -> (r: Bytes)
        ensures
            r@ == xor_bytes(self@, other@),
    {
        let n = self.inner.len();
        let m = other.inner.len();
        if n == 0 {
            return other.clone();
        }
        if m == 0 {
            return self.clone();
        }
        let total = if n >= m { n } else { m };
        let mut out: Vec<u8> = Vec::with_capacity(total);
        let mut i: usize = 0;
        while i < total
            invariant
                i <= total,
                n == self.inner.len(),
                m == other.inner.len(),
                n > 0,
                m > 0,
                total == max_len(n as nat, m as nat),
                out@.len() == i,
                forall|j: int| 0 <= j < i ==> out@[j] == xor_bytes(self.inner@, other.inner@)[j],
            decreases total - i,
        {
            out.push(self.inner[i % n] ^ other.inner[i % m]);
            i += 1;
        }
        assert(out@ =~= xor_bytes(self.inner@, other.inner@));
        Bytes { inner: out }
    }

    /// Adds one to the number that the bytes spell, most significant byte
    /// first. An overflow wraps around to zero.
    pub fn increment(&mut self)
        ensures
            final(self)@ == incremented(old(self)@, old(self)@.len()),
    {
        let width = self.inner.len();
        self.add_one(width);
    }

    /// Adds one to the number that the last four bytes spell, most
    /// significant byte first, and leaves the bytes before them alone. An
    /// overflow wraps around to zero.
    pub fn increment_low32(&mut self)
        ensures
            final(self)@ == incremented(old(self)@, 4),
    {
        self.add_one(4);
    }

    fn add_one(&mut self, width: usize)
        ensures
            final(self)@ == incremented(old(self)@, width as nat),
    {
        let n = self.inner.len();
        let w = if n < width { n } else { width };
        let mut i: usize = n;
        let mut carry = true;
        while carry && i > n - w
            invariant
                n == old(self).inner@.len(),
                self.inner@.len() == n,
                w == counter_width(n as nat, width as nat),
                n - w <= i <= n,
                carry ==> all_ones_from(old(self).inner@, i as int),
                forall|j: int| 0 <= j < i ==> self.inner@[j] == old(self).inner@[j],
                forall|j: int|
                    i <= j < n ==> self.inner@[j] == incremented(old(self).inner@, width as nat)[j],
                !carry ==> forall|j: int|
                    0 <= j < i ==> old(self).inner@[j] == incremented(
                        old(self).inner@,
                        width as nat,
                    )[j],
            decreases i,
        {
            i -= 1;
            let byte = self.inner[i];
            if byte == 0xff {
                self.inner.set(i, 0);
            } else {
                self.inner.set(i, byte + 1);
                carry = false;
                assert(!all_ones_from(old(self).inner@, i as int));
                assert forall|j: int| 0 <= j < i implies old(self).inner@[j] == incremented(
                    old(self).inner@,
                    width as nat,
                )[j] by {
                    assert(!all_ones_from(old(self).inner@, j + 1));
                }
            }
        }
        assert(self.inner@ =~= incremented(old(self).inner@, width as nat));
    }

    /// Selects bytes by an index list. An index out of range gives 0.
    pub fn permutation(&self, permuted_choice: &[usize]) -> (r: Bytes)
        ensures
            r@ == permute(self@, permuted_choice@, 0u8),
            r@.len() == permuted_choice@.len(),
    {
        let mut out: Vec<u8> = Vec::with_capacity(permuted_choice.len());
        let mut i: usize = 0;
        while i < permuted_choice.len()
            invariant
                i <= permuted_choice.len(),
                out@.len() == i,
                forall|j: int|
                    0 <= j < i ==> out@[j] == permute(self.inner@, permuted_choice@, 0u8)[j],
            decreases permuted_choice.len() - i,
        {
            let index = permuted_choice[i];
            if index < self.inner.len() {
                out.push(self.inner[index]);
            } else {
                out.push(0);
            }
            i += 1;
        }
        assert(out@ =~= permute(self.inner@, permuted_choice@, 0u8));
        Bytes { inner: out }
    }
}

impl<'a> BitXor<&'a Bytes> for &'a Bytes {
    type Output = Bytes;

    fn bitxor(self, rhs: &'a Bytes) -> (r: Bytes)
        ensures
            r@ == xor_bytes(self@, rhs@),
    {
        self.xor(rhs)
    }
}

impl<'a> vstd::std_specs::ops::BitXorSpecImpl<&'a Bytes> for &'a Bytes {
    open spec fn obeys_bitxor_spec() -> bool {
        false
    }

    open spec fn bitxor_req(self, rhs: &'a Bytes) -> bool {
        true
    }

    open spec fn bitxor_spec(self, rhs: &'a Bytes) -> Bytes {
        arbitrary()
    }
}

/// The byte that up to eight bits spell.
fn pack_byte(bits: &[Bit]) -> (r: u8)
    requires
        bits@.len() <= 8,
    ensures
        r as nat == bits_value(bits@),
{
    let value = Bits::new(slice_to_vec(bits)).to_usize();
    proof {
        lemma_bits_value_byte(bits@);
        vstd::arithmetic::div_mod::lemma_small_mod(bits_value(bits@), word_modulus());
    }
    value as u8
}

impl From<&[Bit]> for Bytes {
    /// Packs bits into bytes, eight per byte, most significant bit first. A
    /// length that is no multiple of eight is filled up at the front with
    /// zero bits.
    fn from(value: &[Bit]) -> (r: Bytes)
        ensures
            r@ == bits_to_bytes(value@),
    {
        let n = value.len();
        let head = n % 8;
        let ghost count = byte_len(n as nat);
        let ghost aligned = align(value@, 8 * count, Bit::Zero);
        let mut bytes: Vec<u8> = Vec::new();
        let mut start: usize = 0;
        if head != 0 {
            let first = slice_subrange(value, 0, head);
            bytes.push(pack_byte(first));
            start = head;
            proof {
                assert(aligned.subrange(0, 8) =~= align(first@, 8, Bit::Zero));
                lemma_leading_zeros(first@, 8);
            }
        }
        while start < n
            invariant
                n == value@.len(),
                head == n % 8,
                count == byte_len(n as nat),
                aligned == align(value@, 8 * count, Bit::Zero),
                start <= n,
                start % 8 == head,
                8 * bytes@.len() == start + 8 * count - n,
                forall|j: int|
                    0 <= j < bytes@.len() ==> bytes@[j] == bits_value(
                        aligned.subrange(8 * j, 8 * j + 8),
                    ) as u8,
            decreases n - start,
        {
            let chunk = slice_subrange(value, start, start + 8);
            let ghost j = bytes@.len() as int;
            bytes.push(pack_byte(chunk));
            proof {
                assert(aligned.subrange(8 * j, 8 * j + 8) =~= chunk@);
            }
            start += 8;
        }
        assert(bytes@ =~= bits_to_bytes(value@));
        Bytes { inner: bytes }
    }
}

impl vstd::std_specs::convert::FromSpecImpl<&[Bit]> for Bytes {
    open spec fn obeys_from_spec() -> bool {
        false
    }

    open spec fn from_spec(value: &[Bit]) -> Bytes {
        arbitrary()
    }
}

impl FromStr for Bytes {
    type Err = Error;

    /// The bytes of a string in UTF-8. Never fails.
    fn from_str(s: &str) -> (r: Result<Bytes, Error>)
        ensures
            r is Ok,
            r->Ok_0@ == s.spec_bytes(),
    {
        Ok(Bytes { inner: slice_to_vec(s.as_bytes()) })
    }
}

/// The `count` low bytes of `value`, least significant first.
fn low_bytes(value: u128, count: usize) -> (r: Vec<u8>)
    ensures
        r@.len() == count,
        forall|j: int|
            0 <= j < count ==> r@[j] == ((value as nat / pow256(j as nat)) % 256) as u8,
{
    let mut out: Vec<u8> = Vec::with_capacity(count);
    let mut rest: u128 = value;
    let mut k: usize = 0;
    assert(pow256(0) == 1);
    while k < count
        invariant
            k <= count,
            out@.len() == k,
            rest as nat == value as nat / pow256(k as nat),
            forall|j: int| 0 <= j < k ==> out@[j] == ((value as nat / pow256(j as nat)) % 256) as u8,
        decreases count - k,
    {
        out.push((rest % 256) as u8);
        proof {
            lemma_pow256_positive(k as nat);
            vstd::arithmetic::div_mod::lemma_div_denominator(value as int, pow256(k as nat) as int, 256);
            assert(pow256((k + 1) as nat) == pow256(k as nat) * 256);
        }
        rest = rest / 256;
        k += 1;
    }
    out
}

/// The `count` low bytes of `value` in the given byte order.
pub fn write_number(value: u128, count: usize, endian: Endian) -> (r: Vec<u8>)
    ensures
        r@ == field_bytes(value as nat, count as nat, endian),
{
    let low_first = low_bytes(value, count);
    let mut out: Vec<u8> = Vec::with_capacity(count);
    let mut k: usize = 0;
    while k < count
        invariant
            k <= count,
            low_first@.len() == count,
            forall|j: int|
                0 <= j < count ==> low_first@[j] == ((value as nat / pow256(j as nat)) % 256) as u8,
            out@ == field_bytes(value as nat, count as nat, endian).take(k as int),
        decreases count - k,
    {
        let byte = match endian {
            Endian::Little => low_first[k],
            Endian::Big => low_first[count - 1 - k],
        };
        out.push(byte);
        k += 1;
        assert(out@ =~= field_bytes(value as nat, count as nat, endian).take(k as int));
    }
    assert(out@ =~= field_bytes(value as nat, count as nat, endian));
    out
}

/// The number that a field of at most sixteen bytes holds in the given byte
/// order.
pub fn read_number(field: &[u8], endian: Endian) -> (value: u128)
    requires
        field@.len() <= 16,
    ensures
        value as nat == field_value(field@, endian),
{
    let count = field.len();
    let ghost ordered = most_significant_first(field@, endian);
    let mut value: u128 = 0;
    let mut k: usize = 0;
    proof {
        lemma_pow256_16();
        assert(pow256(0) == 1);
    }
    while k < count
        invariant
            k <= count,
            count <= 16,
            field@.len() == count,
            ordered == most_significant_first(field@, endian),
            value as nat == be_value(ordered.take(k as int)),
            value < pow256(k as nat),
            pow256(16) == u128::MAX + 1,
        decreases count - k,
    {
        let byte = match endian {
            Endian::Big => field[k],
            Endian::Little => field[count - 1 - k],
        };
        proof {
            assert(ordered.take(k + 1).drop_last() =~= ordered.take(k as int));
            assert(ordered.take(k + 1).last() == byte);
            lemma_pow256_monotonic((k + 1) as nat, 16);
        }
        value = value * 256 + byte as u128;
        k += 1;
    }
    assert(ordered.take(count as int) =~= ordered);
    value
}

/// Where neither operand is empty, every place of the result mixes the
/// bytes that stand at that place modulo the operand's length.
pub proof fn lemma_xor_bytes_cyclic(a: Seq<u8>, b: Seq<u8>)
    requires
        a.len() > 0,
        b.len() > 0,
    ensures
        xor_bytes(a, b).len() == max_len(a.len(), b.len()),
        forall|i: int|
            0 <= i < xor_bytes(a, b).len() ==> xor_bytes(a, b)[i] == a[i % a.len() as int] ^ b[i
                % b.len() as int],
{
}

/// Mixing the same bytes in twice gives back what one started with, as
/// long as the bytes mixed in are not longer than it.
pub proof fn lemma_xor_bytes_involution(a: Seq<u8>, b: Seq<u8>)
    requires
        a.len() >= b.len(),
    ensures
        xor_bytes(xor_bytes(a, b), b) == a,
        xor_bytes(a, b).len() == a.len(),
{
    if b.len() > 0 {
        let once = xor_bytes(a, b);
        assert(once.len() == a.len());
        assert forall|i: int| 0 <= i < a.len() implies xor_bytes(once, b)[i] == a[i] by {
            vstd::arithmetic::div_mod::lemma_small_mod(i as nat, a.len());
            let x = a[i];
            let y = b[i % b.len() as int];
            assert((x ^ y) ^ y == x) by (bit_vector);
        }
        assert(xor_bytes(once, b) =~= a);
    }
}

/// The `n` low bytes of `v`, most significant first.
pub open spec fn low_digits(v: nat, n: nat) -> Seq<u8> {
    Seq::new(n, |i: int| ((v / pow256((n - 1 - i) as nat)) % 256) as u8)
}

/// The `n` low bytes of a number spell the number modulo 256 to the power
/// `n`.
pub proof fn lemma_low_digits_value(v: nat, n: nat)
    ensures
        be_value(low_digits(v, n)) == v % pow256(n),
    decreases n,
{
    if n == 0 {
        vstd::arithmetic::div_mod::lemma_mod_self_0(1);
        assert(v % 1 == 0) by {
            vstd::arithmetic::div_mod::lemma_fundamental_div_mod(v as int, 1);
        }
    } else {
        let digits = low_digits(v, n);
        let p = pow256((n - 1) as nat);
        lemma_pow256_positive((n - 1) as nat);
        assert(digits.drop_last() =~= low_digits(v / 256, (n - 1) as nat)) by {
            assert forall|i: int| 0 <= i < n - 1 implies digits[i] == low_digits(
                v / 256,
                (n - 1) as nat,
            )[i] by {
                let q = pow256((n - 2 - i) as nat);
                lemma_pow256_positive((n - 2 - i) as nat);
                assert(pow256((n - 1 - i) as nat) == 256 * q);
                vstd::arithmetic::div_mod::lemma_div_denominator(v as int, 256, q as int);
            }
        }
        assert(pow256(0) == 1);
        assert(digits.last() == digits[n - 1]);
        assert(v / pow256(0) == v) by {
            vstd::arithmetic::div_mod::lemma_div_basics(v as int);
        }
        assert(digits.last() == (v % 256) as u8);
        lemma_low_digits_value(v / 256, (n - 1) as nat);
        vstd::arithmetic::div_mod::lemma_mod_breakdown(v as int, 256, p as int);
    }
}

/// Reading a field that was written gives back the number, modulo the
/// range of the field.
pub proof fn lemma_field_round_trip(v: nat, n: nat, endian: Endian)
    ensures
        field_value(field_bytes(v, n, endian), endian) == v % pow256(n),
        field_bytes(v, n, endian).len() == n,
{
    assert(most_significant_first(field_bytes(v, n, endian), endian) =~= low_digits(v, n));
    lemma_low_digits_value(v, n);
}

/// Every power of 256 is positive.
pub proof fn lemma_pow256_positive(k: nat)
    ensures
        pow256(k) > 0,
    decreases k,
{
    if k > 0 {
        lemma_pow256_positive((k - 1) as nat);
    }
}

/// Powers of 256 grow with the exponent.
pub proof fn lemma_pow256_monotonic(a: nat, b: nat)
    requires
        a <= b,
    ensures
        pow256(a) <= pow256(b),
    decreases b,
{
    if a < b {
        lemma_pow256_monotonic(a, (b - 1) as nat);
        lemma_pow256_positive((b - 1) as nat);
    }
}

/// Sixteen bytes hold exactly the numbers below two to the power 128.
pub proof fn lemma_pow256_16()
    ensures
        pow256(16) == u128::MAX + 1,
{
    reveal_with_fuel(pow256, 17);
}

/// A sequence of `n` bytes spells a number below 256 to the power `n`.
pub proof fn lemma_be_value_bound(s: Seq<u8>)
    ensures
        be_value(s) < pow256(s.len()),
    decreases s.len(),
{
    if s.len() > 0 {
        lemma_be_value_bound(s.drop_last());
    }
}

/// Incrementing adds one to the number that the counter bytes spell, modulo
/// the counter's range, and leaves the bytes before the counter alone.
pub proof fn lemma_incremented_value(s: Seq<u8>, width: nat)
    ensures
        incremented(s, width).len() == s.len(),
        incremented(s, width).take(s.len() - counter_width(s.len(), width)) == s.take(
            s.len() - counter_width(s.len(), width),
        ),
        be_value(incremented(s, width).skip(s.len() - counter_width(s.len(), width))) == (be_value(
            s.skip(s.len() - counter_width(s.len(), width)),
        ) + 1) % pow256(counter_width(s.len(), width)),
{
    let w = counter_width(s.len(), width);
    let cut = s.len() - w;
    let counter = s.skip(cut);
    assert(incremented(s, width).take(cut) =~= s.take(cut));
    assert(incremented(s, width).skip(cut) =~= incremented(counter, w)) by {
        assert forall|i: int| 0 <= i < w implies incremented(s, width).skip(cut)[i]
            == incremented(counter, w)[i] by {
            if all_ones_from(s, cut + i + 1) {
                assert forall|j: int| i + 1 <= j < counter.len() implies counter[j] == 0xff by {
                    assert(s[cut + j] == 0xff);
                }
            }
            if all_ones_from(counter, i + 1) {
                assert forall|j: int| cut + i + 1 <= j < s.len() implies s[j] == 0xff by {
                    assert(counter[j - cut] == 0xff);
                }
            }
        }
    }
    lemma_incremented_whole(counter);
}

/// A counter that holds only `0xff` bytes wraps around to zero.
pub proof fn lemma_incremented_wraps(s: Seq<u8>, width: nat)
    requires
        s.len() <= width,
        forall|i: int| 0 <= i < s.len() ==> s[i] == 0xff,
    ensures
        incremented(s, width) == Seq::new(s.len(), |i: int| 0u8),
{
    assert forall|i: int| 0 <= i < s.len() implies incremented(s, width)[i] == 0 by {
        assert(all_ones_from(s, i + 1));
    }
    assert(incremented(s, width) =~= Seq::new(s.len(), |i: int| 0u8));
}

/// Incrementing a whole vector adds one to the number it spells, modulo its
/// range.
pub proof fn lemma_incremented_whole(s: Seq<u8>)
    ensures
        be_value(incremented(s, s.len())) == (be_value(s) + 1) % pow256(s.len()),
    decreases s.len(),
{
    let n = s.len();
    let inc = incremented(s, n);
    if n == 0 {
        vstd::arithmetic::div_mod::lemma_mod_self_0(1);
    } else {
        let front = s.drop_last();
        let p = pow256((n - 1) as nat);
        lemma_pow256_positive((n - 1) as nat);
        lemma_be_value_bound(front);
        assert(all_ones_from(s, n as int));
        if s.last() == 0xff {
            assert(inc.drop_last() =~= incremented(front, front.len())) by {
                assert forall|i: int| 0 <= i < n - 1 implies inc.drop_last()[i] == incremented(
                    front,
                    front.len(),
                )[i] by {
                    if all_ones_from(s, i + 1) {
                        assert forall|j: int| i + 1 <= j < front.len() implies front[j]
                            == 0xff by {
                            assert(s[j] == 0xff);
                        }
                    }
                    if all_ones_from(front, i + 1) {
                        assert forall|j: int| i + 1 <= j < s.len() implies s[j] == 0xff by {
                            if j < n - 1 {
                                assert(front[j] == 0xff);
                            }
                        }
                    }
                }
            }
            assert(inc.last() == 0);
            lemma_incremented_whole(front);
            vstd::arithmetic::div_mod::lemma_truncate_middle(
                be_value(front) as int + 1,
                256,
                p as int,
            );
            assert(be_value(s) + 1 == 256 * (be_value(front) + 1));
        } else {
            assert(inc.drop_last() =~= front) by {
                assert forall|i: int| 0 <= i < n - 1 implies inc.drop_last()[i] == front[i] by {
                    assert(!all_ones_from(s, i + 1));
                }
            }
            assert(inc.last() == s.last() + 1);
            assert(be_value(inc) == be_value(s) + 1);
            assert(be_value(s) + 1 < 256 * p);
            vstd::arithmetic::div_mod::lemma_small_mod(be_value(s) + 1, pow256(n));
        }
    }
}

} // verus!
