//! Bit vectors: ordered sequences of single binary digits.
use crate::bytes::Bytes;
use crate::enums::Bit;
use crate::vector::{align, max_len, permute};
use std::ops::{BitXor, Deref};
use vstd::prelude::*;

verus! {

/// The number that a sequence of digits spells, most significant digit first.
pub open spec fn bits_value(s: Seq<Bit>) -> nat
    decreases s.len(),
{
    if s.len() == 0 {
        0
    } else {
        2 * bits_value(s.drop_last()) + s.last().value()
    }
}

/// Digit by digit exclusive or. The result is as long as the longer operand;
/// the shorter one is read cyclically. An empty operand leaves the other one
/// as it is.
pub open spec fn xor_bits(a: Seq<Bit>, b: Seq<Bit>) -> Seq<Bit> {
    if a.len() == 0 {
        b
    } else if b.len() == 0 {
        a
    } else {
        Seq::new(
            max_len(a.len(), b.len()),
            |i: int| a[i % a.len() as int].spec_xor(b[i % b.len() as int]),
        )
    }
}

/// The weight of digit `k` of a byte, counted from the most significant one.
pub open spec fn digit_weight(k: int) -> int {
    if k == 0 {
        128
    } else if k == 1 {
        64
    } else if k == 2 {
        32
    } else if k == 3 {
        16
    } else if k == 4 {
        8
    } else if k == 5 {
        4
    } else if k == 6 {
        2
    } else {
        1
    }
}

/// Digit `k` of a byte, counted from the most significant one.
pub open spec fn bit_at(byte: u8, k: int) -> Bit {
    if (byte as int / digit_weight(k)) % 2 == 1 {
        Bit::One
    } else {
        Bit::Zero
    }
}

/// The digits of a byte string, eight per byte, most significant first.
pub open spec fn bytes_to_bits(s: Seq<u8>) -> Seq<Bit> {
    Seq::new(8 * s.len(), |i: int| bit_at(s[i / 8], i % 8))
}

/// The number of bytes that hold `n` digits.
pub open spec fn byte_len(n: nat) -> nat {
    ((n + 7) / 8) as nat
}

/// Packs digits into bytes. A length that is no multiple of eight is first
/// filled up at the front with zero digits.
pub open spec fn bits_to_bytes(s: Seq<Bit>) -> Seq<u8> {
    let n = byte_len(s.len());
    let aligned = align(s, 8 * n, Bit::Zero);
    Seq::new(n, |j: int| bits_value(aligned.subrange(8 * j, 8 * j + 8)) as u8)
}

/// Whether every digit of `s` from position `from` on is `One`.
pub open spec fn all_set_from(s: Seq<Bit>, from: int) -> bool {
    forall|j: int| from <= j < s.len() ==> s[j] == Bit::One
}

/// The number of trailing digits that a counter of `width` digits covers in
/// a vector of `len` digits.
pub open spec fn counter_digits(len: nat, width: nat) -> nat {
    if len < width {
        len
    } else {
        width
    }
}

/// `s` after one is added to the number that its last `width` digits spell.
/// A digit of the counter flips exactly when every digit after it is `One`;
/// a carry out of the counter is dropped.
pub open spec fn incremented_bits(s: Seq<Bit>, width: nat) -> Seq<Bit> {
    Seq::new(
        s.len(),
        |i: int|
            if i >= s.len() - counter_digits(s.len(), width) && all_set_from(s, i + 1) {
                s[i].spec_xor(Bit::One)
            } else {
                s[i]
            },
    )
}

/// The modulus of machine-word arithmetic.
pub open spec fn word_modulus() -> nat {
    usize::MAX as nat + 1
}

/// An ordered sequence of bits.
#[derive(Debug)]
pub struct Bits {
    inner: Vec<Bit>,
}

impl View for Bits {
    type V = Seq<Bit>;

    closed spec fn view(&self) -> Seq<Bit> {
        self.inner@
    }
}

impl Clone for Bits {
    fn clone(&self) -> (r: Bits)
        ensures
            r@ == self@,
    {
        Bits { inner: self.inner.clone() }
    }
}

impl Default for Bits {
    fn default() -> (r: Bits)
        ensures
            r@ == Seq::<Bit>::empty(),
    {
        Bits { inner: Vec::new() }
    }
}

impl Deref for Bits {
    type Target = [Bit];

    fn deref(&self) -> (r: &[Bit])
        ensures
            r@ == self@,
    {
        self.inner.as_slice()
    }
}

impl Bits {
    /// Copies the bits behind `s`.
    pub fn new<T>(s: T) -> (r: Bits) where T: Deref<Target = [Bit]>
        ensures
            exists|bits: &[Bit]| call_ensures(T::deref, (&s,), bits) && r@ == bits@,
    {
        let bits: &[Bit] = s.deref();
        Bits { inner: vstd::slice::slice_to_vec(bits) }
    }

    /// Packs the bits into bytes, eight per byte.
    pub fn to_bytes(&self) -> (r: Bytes)
        ensures
            r@ == bits_to_bytes(self@),
    {
        Bytes::from(self.inner.as_slice())
    }

    /// Bit by bit exclusive or, the shorter operand read cyclically.
    pub fn xor(&self, other: &Bits) -> (r: Bits)
        ensures
            r@ == xor_bits(self@, other@),
    {
        let n = self.inner.len();
        let m = other.inner.len();
        if n == 0 {
            return other.clone();
        }
        if m == 0 {
            return self.clone();
        }
        let total = if n >= m { n } else { m };
        let mut out: Vec<Bit> = Vec::with_capacity(total);
        let mut i: usize = 0;
        while i < total
            invariant
                i <= total,
                n == self.inner.len(),
                m == other.inner.len(),
                n > 0,
                m > 0,
                total == max_len(n as nat, m as nat),
                out@.len() == i,
                forall|j: int| 0 <= j < i ==> out@[j] == xor_bits(self.inner@, other.inner@)[j],
            decreases total - i,
        {
            out.push(self.inner[i % n] ^ other.inner[i % m]);
            i += 1;
        }
        assert(out@ =~= xor_bits(self.inner@, other.inner@));
        Bits { inner: out }
    }

    /// Reads the bits as a number, most significant bit first, modulo the
    /// range of a machine word.
    pub fn to_usize(&self) -> (r: usize)
        ensures
            r as nat == bits_value(self@) % word_modulus(),
    {
        let mut result: usize = 0;
        let mut i: usize = 0;
        proof {
            assert(self.inner@.take(0).len() == 0);
            vstd::arithmetic::div_mod::lemma_small_mod(0, word_modulus());
        }
        while i < self.inner.len()
            invariant
                i <= self.inner.len(),
                result as nat == bits_value(self.inner@.take(i as int)) % word_modulus(),
            decreases self.inner.len() - i,
        {
            let ghost before = self.inner@.take(i as int);
            let ghost after = self.inner@.take(i + 1);
            let ghost old_result = result;
            let bit = self.inner[i];
            let doubled: usize = result.wrapping_mul(2);
            result = match bit {
                Bit::One => doubled.wrapping_add(1),
                Bit::Zero => doubled,
            };
            proof {
                assert(after.drop_last() =~= before);
                assert(after.last() == bit);
                lemma_shift_in(old_result, bit, bits_value(before));
            }
            i += 1;
        }
        assert(self.inner@.take(i as int) =~= self.inner@);
        result
    }

    /// Right-justifies the bits in `len` places, cutting or filling with
    /// `value` at the front.
    pub fn align(&self, len: usize, value: Bit) -> (r: Bits)
        ensures
            r@ == align(self@, len as nat, value),
    {
        let n = self.inner.len();
        let mut out: Vec<Bit> = Vec::with_capacity(len);
        let mut i: usize = 0;
        while i < len
            invariant
                i <= len,
                n == self.inner.len(),
                out@.len() == i,
                forall|j: int| 0 <= j < i ==> out@[j] == align(self.inner@, len as nat, value)[j],
            decreases len - i,
        {
            if len - i <= n {
                out.push(self.inner[n - (len - i)]);
            } else {
                out.push(value);
            }
            i += 1;
        }
        assert(out@ =~= align(self.inner@, len as nat, value));
        Bits { inner: out }
    }

    /// Adds one to the number that the bits spell, most significant bit
    /// first. An overflow wraps around to zero.
    pub fn increment(&mut self)
        ensures
            final(self)@ == incremented_bits(old(self)@, old(self)@.len()),
    {
        let width = self.inner.len();
        self.add_one(width);
    }

    /// Adds one to the number that the last 32 bits spell, most significant
    /// bit first, and leaves the bits before them alone. An overflow wraps
    /// around to zero.
    pub fn increment_low32(&mut self)
        ensures
            final(self)@ == incremented_bits(old(self)@, 32),
    {
        self.add_one(32);
    }

    fn add_one(&mut self, width: usize)
        ensures
            final(self)@ == incremented_bits(old(self)@, width as nat),
    {
        let n = self.inner.len();
        let w = if n < width { n } else { width };
        let mut i: usize = n;
        let mut carry = true;
        while carry && i > n - w
            invariant
                n == old(self).inner@.len(),
                self.inner@.len() == n,
                w == counter_digits(n as nat, width as nat),
                n - w <= i <= n,
                carry ==> all_set_from(old(self).inner@, i as int),
                forall|j: int| 0 <= j < i ==> self.inner@[j] == old(self).inner@[j],
                forall|j: int|
                    i <= j < n ==> self.inner@[j] == incremented_bits(
                        old(self).inner@,
                        width as nat,
                    )[j],
                !carry ==> forall|j: int|
                    0 <= j < i ==> old(self).inner@[j] == incremented_bits(
                        old(self).inner@,
                        width as nat,
                    )[j],
            decreases i,
        {
            i -= 1;
            match self.inner[i] {
                Bit::One => {
                    self.inner.set(i, Bit::Zero);
                },
                Bit::Zero => {
                    self.inner.set(i, Bit::One);
                    carry = false;
                    assert(!all_set_from(old(self).inner@, i as int));
                    assert forall|j: int| 0 <= j < i implies old(self).inner@[j]
                        == incremented_bits(old(self).inner@, width as nat)[j] by {
                        assert(!all_set_from(old(self).inner@, j + 1));
                    }
                },
            }
        }
        assert(self.inner@ =~= incremented_bits(old(self).inner@, width as nat));
    }

    /// Selects bits by an index list. An index out of range gives `Zero`.
    pub fn permutation(&self, permuted_choice: &[usize]) -> (r: Bits)
        ensures
            r@ == permute(self@, permuted_choice@, Bit::Zero),
            r@.len() == permuted_choice@.len(),
    {
        let mut out: Vec<Bit> = Vec::with_capacity(permuted_choice.len());
        let mut i: usize = 0;
        while i < permuted_choice.len()
            invariant
                i <= permuted_choice.len(),
                out@.len() == i,
                forall|j: int|
                    0 <= j < i ==> out@[j] == permute(
                        self.inner@,
                        permuted_choice@,
                        Bit::Zero,
                    )[j],
            decreases permuted_choice.len() - i,
        {
            let index = permuted_choice[i];
            if index < self.inner.len() {
                out.push(self.inner[index]);
            } else {
                out.push(Bit::Zero);
            }
            i += 1;
        }
        assert(out@ =~= permute(self.inner@, permuted_choice@, Bit::Zero));
        Bits { inner: out }
    }

    /// Reads the bits as a row number and returns that row of `sbox`.
    pub fn substitution<const N: usize>(&self, sbox: &[[Bit; N]]) -> (r: Bits)
        requires
            bits_value(self@) % word_modulus() < sbox@.len(),
        ensures
            r@ == sbox@[(bits_value(self@) % word_modulus()) as int]@,
    {
        let index = self.to_usize();
        let row: &[Bit; N] = &sbox[index];
        Bits { inner: vstd::slice::slice_to_vec(row.as_slice()) }
    }
}

impl<'a> BitXor<&'a Bits> for &'a Bits {
    type Output = Bits;

    fn bitxor(self, rhs: &'a Bits) -> (r: Bits)
        ensures
            r@ == xor_bits(self@, rhs@),
    {
        self.xor(rhs)
    }
}

impl<'a> vstd::std_specs::ops::BitXorSpecImpl<&'a Bits> for &'a Bits {
    open spec fn obeys_bitxor_spec() -> bool {
        false
    }

    open spec fn bitxor_req(self, rhs: &'a Bits) -> bool {
        true
    }

    open spec fn bitxor_spec(self, rhs: &'a Bits) -> Bits {
        arbitrary()
    }
}

impl From<&[u8]> for Bits {
    /// Unpacks bytes into bits, most significant bit first.
    fn from(value: &[u8]) -> (r: Bits)
        ensures
            r@ == bytes_to_bits(value@),
    {
        let mut bits: Vec<Bit> = Vec::new();
        let mut i: usize = 0;
        while i < value.len()
            invariant
                i <= value.len(),
                bits@.len() == 8 * i,
                forall|j: int| 0 <= j < 8 * i ==> bits@[j] == bytes_to_bits(value@)[j],
            decreases value.len() - i,
        {
            let byte = value[i];
            proof {
                lemma_mask_digits(byte);
            }
            bits.push(if (byte & 0b10000000) == 0 { Bit::Zero } else { Bit::One });
            bits.push(if (byte & 0b01000000) == 0 { Bit::Zero } else { Bit::One });
            bits.push(if (byte & 0b00100000) == 0 { Bit::Zero } else { Bit::One });
            bits.push(if (byte & 0b00010000) == 0 { Bit::Zero } else { Bit::One });
            bits.push(if (byte & 0b00001000) == 0 { Bit::Zero } else { Bit::One });
            bits.push(if (byte & 0b00000100) == 0 { Bit::Zero } else { Bit::One });
            bits.push(if (byte & 0b00000010) == 0 { Bit::Zero } else { Bit::One });
            bits.push(if (byte & 0b00000001) == 0 { Bit::Zero } else { Bit::One });
            i += 1;
        }
        assert(bits@ =~= bytes_to_bits(value@));
        Bits { inner: bits }
    }
}

impl vstd::std_specs::convert::FromSpecImpl<&[u8]> for Bits {
    open spec fn obeys_from_spec() -> bool {
        false
    }

    open spec fn from_spec(value: &[u8]) -> Bits {
        arbitrary()
    }
}

/// A sequence of `n` digits spells a number below two to the power `n`.
pub proof fn lemma_bits_value_bound(s: Seq<Bit>)
    ensures
        bits_value(s) < vstd::arithmetic::power2::pow2(s.len()),
    decreases s.len(),
{
    if s.len() == 0 {
        vstd::arithmetic::power2::lemma2_to64();
    } else {
        lemma_bits_value_bound(s.drop_last());
        vstd::arithmetic::power2::lemma_pow2_unfold(s.len());
    }
}

/// Up to eight digits spell a number that fits in a byte.
pub proof fn lemma_bits_value_byte(s: Seq<Bit>)
    requires
        s.len() <= 8,
    ensures
        bits_value(s) < 256,
{
    lemma_bits_value_bound(s);
    vstd::arithmetic::power2::lemma2_to64();
    if s.len() < 8 {
        vstd::arithmetic::power2::lemma_pow2_strictly_increases(s.len(), 8);
    }
}

/// Zero digits in front do not change the number that the digits spell.
pub proof fn lemma_leading_zeros(s: Seq<Bit>, len: nat)
    requires
        len >= s.len(),
    ensures
        bits_value(align(s, len, Bit::Zero)) == bits_value(s),
    decreases len,
{
    let a = align(s, len, Bit::Zero);
    if len == 0 {
        assert(a =~= s);
    } else if s.len() == 0 {
        assert(a.drop_last() =~= align(s, (len - 1) as nat, Bit::Zero));
        lemma_leading_zeros(s, (len - 1) as nat);
    } else {
        assert(a.drop_last() =~= align(s.drop_last(), (len - 1) as nat, Bit::Zero));
        assert(a.last() == s.last());
        lemma_leading_zeros(s.drop_last(), (len - 1) as nat);
    }
}

/// Incrementing adds one to the number that the counter digits spell,
/// modulo the counter's range, and leaves the digits before the counter
/// alone.
pub proof fn lemma_incremented_bits_value(s: Seq<Bit>, width: nat)
    ensures
        incremented_bits(s, width).len() == s.len(),
        incremented_bits(s, width).take(s.len() - counter_digits(s.len(), width)) == s.take(
            s.len() - counter_digits(s.len(), width),
        ),
        bits_value(incremented_bits(s, width).skip(s.len() - counter_digits(s.len(), width))) == (
        bits_value(s.skip(s.len() - counter_digits(s.len(), width))) + 1)
            % vstd::arithmetic::power2::pow2(counter_digits(s.len(), width)),
{
    let w = counter_digits(s.len(), width);
    let cut = s.len() - w;
    let counter = s.skip(cut);
    assert(incremented_bits(s, width).take(cut) =~= s.take(cut));
    assert(incremented_bits(s, width).skip(cut) =~= incremented_bits(counter, w)) by {
        assert forall|i: int| 0 <= i < w implies incremented_bits(s, width).skip(cut)[i]
            == incremented_bits(counter, w)[i] by {
            if all_set_from(s, cut + i + 1) {
                assert forall|j: int| i + 1 <= j < counter.len() implies counter[j]
                    == Bit::One by {
                    assert(s[cut + j] == Bit::One);
                }
            }
            if all_set_from(counter, i + 1) {
                assert forall|j: int| cut + i + 1 <= j < s.len() implies s[j] == Bit::One by {
                    assert(counter[j - cut] == Bit::One);
                }
            }
        }
    }
    lemma_incremented_bits_whole(counter);
}

/// Incrementing a whole bit vector adds one to the number it spells, modulo
/// its range.
pub proof fn lemma_incremented_bits_whole(s: Seq<Bit>)
    ensures
        bits_value(incremented_bits(s, s.len())) == (bits_value(s) + 1)
            % vstd::arithmetic::power2::pow2(s.len()),
    decreases s.len(),
{
    let n = s.len();
    let inc = incremented_bits(s, n);
    if n == 0 {
        vstd::arithmetic::power2::lemma2_to64();
        vstd::arithmetic::div_mod::lemma_mod_self_0(1);
    } else {
        let front = s.drop_last();
        let p = vstd::arithmetic::power2::pow2((n - 1) as nat);
        vstd::arithmetic::power2::lemma_pow2_pos((n - 1) as nat);
        vstd::arithmetic::power2::lemma_pow2_unfold(n);
        lemma_bits_value_bound(front);
        assert(all_set_from(s, n as int));
        if s.last() == Bit::One {
            assert(inc.drop_last() =~= incremented_bits(front, front.len())) by {
                assert forall|i: int| 0 <= i < n - 1 implies inc.drop_last()[i]
                    == incremented_bits(front, front.len())[i] by {
                    if all_set_from(s, i + 1) {
                        assert forall|j: int| i + 1 <= j < front.len() implies front[j]
                            == Bit::One by {
                            assert(s[j] == Bit::One);
                        }
                    }
                    if all_set_from(front, i + 1) {
                        assert forall|j: int| i + 1 <= j < s.len() implies s[j] == Bit::One by {
                            if j < n - 1 {
                                assert(front[j] == Bit::One);
                            }
                        }
                    }
                }
            }
            assert(inc.last() == Bit::Zero);
            lemma_incremented_bits_whole(front);
            vstd::arithmetic::div_mod::lemma_truncate_middle(
                bits_value(front) as int + 1,
                2,
                p as int,
            );
            assert(bits_value(s) + 1 == 2 * (bits_value(front) + 1));
        } else {
            assert(inc.drop_last() =~= front) by {
                assert forall|i: int| 0 <= i < n - 1 implies inc.drop_last()[i] == front[i] by {
                    assert(!all_set_from(s, i + 1));
                }
            }
            assert(inc.last() == Bit::One);
            assert(bits_value(inc) == bits_value(s) + 1);
            assert(bits_value(s) + 1 < 2 * p);
            vstd::arithmetic::div_mod::lemma_small_mod(
                bits_value(s) + 1,
                vstd::arithmetic::power2::pow2(n),
            );
        }
    }
}

/// The number that eight digits spell, written out.
pub proof fn lemma_eight_digits(s: Seq<Bit>)
    requires
        s.len() == 8,
    ensures
        bits_value(s) == 128 * s[0].value() + 64 * s[1].value() + 32 * s[2].value() + 16
            * s[3].value() + 8 * s[4].value() + 4 * s[5].value() + 2 * s[6].value()
            + s[7].value(),
{
    let s7 = s.drop_last();
    let s6 = s7.drop_last();
    let s5 = s6.drop_last();
    let s4 = s5.drop_last();
    let s3 = s4.drop_last();
    let s2 = s3.drop_last();
    let s1 = s2.drop_last();
    let s0 = s1.drop_last();
    assert(bits_value(s0) == 0);
    assert(bits_value(s1) == s[0].value());
    assert(bits_value(s2) == 2 * bits_value(s1) + s[1].value());
    assert(bits_value(s3) == 2 * bits_value(s2) + s[2].value());
    assert(bits_value(s4) == 2 * bits_value(s3) + s[3].value());
    assert(bits_value(s5) == 2 * bits_value(s4) + s[4].value());
    assert(bits_value(s6) == 2 * bits_value(s5) + s[5].value());
    assert(bits_value(s7) == 2 * bits_value(s6) + s[6].value());
    assert(bits_value(s) == 2 * bits_value(s7) + s[7].value());
}

/// The eight digits of a byte spell the byte.
pub proof fn lemma_byte_of_digits(byte: u8)
    ensures
        bits_value(Seq::new(8, |k: int| bit_at(byte, k))) == byte,
{
    let s = Seq::new(8, |k: int| bit_at(byte, k));
    lemma_eight_digits(s);
    assert(byte == 128 * ((byte / 128) % 2) + 64 * ((byte / 64) % 2) + 32 * ((byte / 32) % 2) + 16
        * ((byte / 16) % 2) + 8 * ((byte / 8) % 2) + 4 * ((byte / 4) % 2) + 2 * ((byte / 2) % 2)
        + (byte / 1) % 2) by (bit_vector);
    assert(s[0].value() == (byte / 128) % 2);
    assert(s[1].value() == (byte / 64) % 2);
    assert(s[2].value() == (byte / 32) % 2);
    assert(s[3].value() == (byte / 16) % 2);
    assert(s[4].value() == (byte / 8) % 2);
    assert(s[5].value() == (byte / 4) % 2);
    assert(s[6].value() == (byte / 2) % 2);
    assert(s[7].value() == (byte / 1) % 2);
}

/// The byte that eight digits spell has those digits.
pub proof fn lemma_digits_of_byte(s: Seq<Bit>)
    requires
        s.len() == 8,
    ensures
        bits_value(s) < 256,
        forall|k: int| 0 <= k < 8 ==> bit_at(bits_value(s) as u8, k) == s[k],
{
    lemma_eight_digits(s);
    let d0 = s[0].value() as u8;
    let d1 = s[1].value() as u8;
    let d2 = s[2].value() as u8;
    let d3 = s[3].value() as u8;
    let d4 = s[4].value() as u8;
    let d5 = s[5].value() as u8;
    let d6 = s[6].value() as u8;
    let d7 = s[7].value() as u8;
    let v = bits_value(s) as u8;
    assert(v == 128 * d0 + 64 * d1 + 32 * d2 + 16 * d3 + 8 * d4 + 4 * d5 + 2 * d6 + d7);
    assert((v / 128) % 2 == d0 && (v / 64) % 2 == d1 && (v / 32) % 2 == d2 && (v / 16) % 2 == d3
        && (v / 8) % 2 == d4 && (v / 4) % 2 == d5 && (v / 2) % 2 == d6 && (v / 1) % 2 == d7)
        by (bit_vector)
        requires
            d0 <= 1,
            d1 <= 1,
            d2 <= 1,
            d3 <= 1,
            d4 <= 1,
            d5 <= 1,
            d6 <= 1,
            d7 <= 1,
            v == 128 * d0 + 64 * d1 + 32 * d2 + 16 * d3 + 8 * d4 + 4 * d5 + 2 * d6 + d7,
    ;
    assert forall|k: int| 0 <= k < 8 implies bit_at(v, k) == s[k] by {
        assert(s[k].value() == (v as int / digit_weight(k)) % 2);
    }
}

/// Unpacking bytes into bits and packing them again gives the bytes back.
pub proof fn lemma_bytes_bits_round_trip(s: Seq<u8>)
    ensures
        bits_to_bytes(bytes_to_bits(s)) == s,
        bytes_to_bits(s).len() == 8 * s.len(),
{
    let bits = bytes_to_bits(s);
    let n = byte_len(bits.len());
    assert(n == s.len());
    let aligned = align(bits, 8 * n, Bit::Zero);
    assert(aligned =~= bits);
    assert forall|j: int| 0 <= j < n implies bits_to_bytes(bits)[j] == s[j] by {
        assert(aligned.subrange(8 * j, 8 * j + 8) =~= Seq::new(8, |k: int| bit_at(s[j], k)));
        lemma_byte_of_digits(s[j]);
    }
    assert(bits_to_bytes(bits) =~= s);
}

/// Packing a whole number of eight-bit groups into bytes and unpacking them
/// again gives the bits back.
pub proof fn lemma_bits_bytes_round_trip(s: Seq<Bit>)
    requires
        s.len() % 8 == 0,
    ensures
        bytes_to_bits(bits_to_bytes(s)) == s,
        bits_to_bytes(s).len() * 8 == s.len(),
{
    let n = byte_len(s.len());
    assert(8 * n == s.len());
    let aligned = align(s, 8 * n, Bit::Zero);
    assert(aligned =~= s);
    let bytes = bits_to_bytes(s);
    assert forall|i: int| 0 <= i < s.len() implies bytes_to_bits(bytes)[i] == s[i] by {
        let j = i / 8;
        let group = aligned.subrange(8 * j, 8 * j + 8);
        lemma_digits_of_byte(group);
        assert(bytes[j] == bits_value(group) as u8);
        assert(group[i % 8] == s[i]);
    }
    assert(bytes_to_bits(bytes) =~= s);
}

/// A block of `8 * n` bits packs into `n` bytes and unpacks to itself.
pub proof fn lemma_bit_block(block: Seq<Bit>, n: nat)
    requires
        block.len() == 8 * n,
    ensures
        bits_to_bytes(block).len() == n,
        bytes_to_bits(bits_to_bytes(block)) == block,
{
    vstd::arithmetic::div_mod::lemma_mod_multiples_basic(n as int, 8);
    lemma_bits_bytes_round_trip(block);
}

/// Where neither operand is empty, every place of the result mixes the
/// bits that stand at that place modulo the operand's length.
pub proof fn lemma_xor_bits_cyclic(a: Seq<Bit>, b: Seq<Bit>)
    requires
        a.len() > 0,
        b.len() > 0,
    ensures
        xor_bits(a, b).len() == max_len(a.len(), b.len()),
        forall|i: int|
            0 <= i < xor_bits(a, b).len() ==> xor_bits(a, b)[i] == a[i % a.len() as int].spec_xor(
                b[i % b.len() as int],
            ),
{
}

/// Mixing bits into something that already holds them mixed in takes them
/// out again.
pub proof fn lemma_xor_bits_cancel(a: Seq<Bit>, b: Seq<Bit>)
    requires
        a.len() == b.len(),
    ensures
        xor_bits(a, xor_bits(a, b)) == b,
        xor_bits(a, b).len() == b.len(),
{
    if a.len() > 0 {
        let once = xor_bits(a, b);
        assert forall|i: int| 0 <= i < b.len() implies xor_bits(a, once)[i] == b[i] by {
            vstd::arithmetic::div_mod::lemma_small_mod(i as nat, a.len());
        }
        assert(xor_bits(a, once) =~= b);
    }
}

/// Mixing the same bits in twice gives back what one started with, as long
/// as the bits mixed in are not longer than it.
pub proof fn lemma_xor_bits_involution(a: Seq<Bit>, b: Seq<Bit>)
    requires
        a.len() >= b.len(),
    ensures
        xor_bits(xor_bits(a, b), b) == a,
        xor_bits(a, b).len() == a.len(),
{
    if b.len() > 0 {
        let once = xor_bits(a, b);
        assert(once.len() == a.len());
        assert forall|i: int| 0 <= i < a.len() implies xor_bits(once, b)[i] == a[i] by {
            vstd::arithmetic::div_mod::lemma_small_mod(i as nat, a.len());
        }
        assert(xor_bits(once, b) =~= a);
    }
}

/// Masking a byte with one bit tells the same as dividing by that bit's weight.
pub proof fn lemma_mask_digits(byte: u8)
    ensures
        (byte & 0b10000000 == 0) <==> bit_at(byte, 0) == Bit::Zero,
        (byte & 0b01000000 == 0) <==> bit_at(byte, 1) == Bit::Zero,
        (byte & 0b00100000 == 0) <==> bit_at(byte, 2) == Bit::Zero,
        (byte & 0b00010000 == 0) <==> bit_at(byte, 3) == Bit::Zero,
        (byte & 0b00001000 == 0) <==> bit_at(byte, 4) == Bit::Zero,
        (byte & 0b00000100 == 0) <==> bit_at(byte, 5) == Bit::Zero,
        (byte & 0b00000010 == 0) <==> bit_at(byte, 6) == Bit::Zero,
        (byte & 0b00000001 == 0) <==> bit_at(byte, 7) == Bit::Zero,
{
    assert(((byte & 0b10000000 == 0) <==> (byte / 128) % 2 == 0) && ((byte & 0b01000000 == 0) <==> (
    byte / 64) % 2 == 0) && ((byte & 0b00100000 == 0) <==> (byte / 32) % 2 == 0) && ((byte
        & 0b00010000 == 0) <==> (byte / 16) % 2 == 0) && ((byte & 0b00001000 == 0) <==> (byte / 8)
        % 2 == 0) && ((byte & 0b00000100 == 0) <==> (byte / 4) % 2 == 0) && ((byte & 0b00000010
        == 0) <==> (byte / 2) % 2 == 0) && ((byte & 0b00000001 == 0) <==> (byte / 1) % 2 == 0))
        by (bit_vector);
}

/// Doubling a word and adding a digit, both wrapping, keeps the word equal
/// to the spelled number modulo the word's range.
pub proof fn lemma_shift_in(word: usize, bit: Bit, value: nat)
    requires
        word as nat == value % word_modulus(),
    ensures
        bit == Bit::One ==> word.wrapping_mul(2).wrapping_add(1) as nat == (2 * value + 1)
            % word_modulus(),
        bit == Bit::Zero ==> word.wrapping_mul(2) as nat == (2 * value) % word_modulus(),
{
    let m = word_modulus() as int;
    let v = value as int;
    let doubled = word.wrapping_mul(2);
    assert(word as nat * 2 == 2 * (v % m));
    vstd::arithmetic::div_mod::lemma_mul_mod_noop_right(2, v, m);
    assert(doubled as int == (2 * v) % m);
    vstd::arithmetic::div_mod::lemma_add_mod_noop(2 * v, 1, m);
    vstd::arithmetic::div_mod::lemma_small_mod(1, m as nat);
    if doubled + 1 > usize::MAX {
        vstd::arithmetic::div_mod::lemma_mod_self_0(m);
    } else {
        vstd::arithmetic::div_mod::lemma_small_mod((doubled + 1) as nat, m as nat);
    }
}

} // verus!
