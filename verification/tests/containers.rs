use crypto::add;
use crypto::bits::Bits;
use crypto::bytes::{read_number, write_number, Bytes};
use crypto::enums::{Bit, Endian};
use std::str::FromStr;

#[test]
fn it_works() {
    let result = add(2, 2);
    assert_eq!(result, 4);
}

#[test]
fn permutation_of_empty_index_list_is_empty() {
    let bytes = Bytes::new(vec![1u8, 2, 3]);
    assert_eq!(bytes.permutation(&[]).to_vec(), Vec::<u8>::new());
    let bits = Bits::new(vec![Bit::One, Bit::Zero]);
    assert_eq!(bits.permutation(&[]).len(), 0);
}

#[test]
fn permutation_out_of_range_gives_zero() {
    let bytes = Bytes::new(vec![10u8, 20, 30]);
    assert_eq!(bytes.permutation(&[2, 7, 0, 3]).to_vec(), vec![30u8, 0, 10, 0]);
    let bits = Bits::new(vec![Bit::One, Bit::One]);
    assert_eq!(bits.permutation(&[1, 2, 0]).to_vec(), vec![Bit::One, Bit::Zero, Bit::One]);
}

#[test]
fn xor_reads_shorter_operand_cyclically() {
    let a = Bytes::new(vec![1u8, 2, 3, 4, 5, 6, 7, 8]);
    let b = Bytes::new(vec![0xf0u8, 0x0f, 0xff]);
    let expected: Vec<u8> = (0..8).map(|i| a[i] ^ b[i % 3]).collect();
    assert_eq!(a.xor(&b).to_vec(), expected);
    assert_eq!(b.xor(&a).to_vec(), expected);
    assert_eq!((&a ^ &b).to_vec(), expected);
}

#[test]
fn bits_and_bytes_convert() {
    let bytes = Bytes::new(vec![0xa5u8, 0x01]);
    let bits = bytes.to_bits();
    assert_eq!(bits.len(), 16);
    assert_eq!(bits.to_usize(), 0xa501);
    assert_eq!(bits.to_bytes().to_vec(), vec![0xa5u8, 0x01]);
    let short = Bits::new(vec![Bit::One, Bit::Zero, Bit::One]);
    assert_eq!(short.to_bytes().to_vec(), vec![5u8]);
    let nine = Bits::new(vec![Bit::One; 9]);
    assert_eq!(nine.to_bytes().to_vec(), vec![1u8, 0xff]);
}

#[test]
fn align_is_right_justified() {
    let bytes = Bytes::new(vec![1u8, 2, 3]);
    assert_eq!(bytes.align(5, 9).to_vec(), vec![9u8, 9, 1, 2, 3]);
    assert_eq!(bytes.align(2, 9).to_vec(), vec![2u8, 3]);
    assert_eq!(bytes.align(0, 9).to_vec(), Vec::<u8>::new());
}

#[test]
fn increment_low32_wraps_to_zero() {
    let mut counter = Bytes::new(vec![0xffu8, 0xff, 0xff, 0xff]);
    counter.increment_low32();
    assert_eq!(counter.to_vec(), vec![0u8, 0, 0, 0]);
}

#[test]
fn increment_low32_leaves_the_prefix_alone() {
    let mut counter = Bytes::new(vec![7u8, 0xff, 0xff, 0xff, 0xff, 0xff]);
    counter.increment_low32();
    assert_eq!(counter.to_vec(), vec![7u8, 0xff, 0, 0, 0, 0]);
    let mut counter = Bytes::new(vec![1u8, 2, 3, 4, 5, 0xff]);
    counter.increment_low32();
    assert_eq!(counter.to_vec(), vec![1u8, 2, 3, 4, 6, 0]);
    let mut short = Bytes::new(vec![0xffu8, 0xfe]);
    short.increment_low32();
    assert_eq!(short.to_vec(), vec![0xffu8, 0xff]);
    short.increment_low32();
    assert_eq!(short.to_vec(), vec![0u8, 0]);
    let mut empty = Bytes::default();
    empty.increment_low32();
    assert_eq!(empty.len(), 0);
}

#[test]
fn increment_carries_through_the_whole_vector() {
    let mut counter = Bytes::new(vec![0u8, 0xff, 0xff, 0xff, 0xff, 0xff]);
    counter.increment();
    assert_eq!(counter.to_vec(), vec![1u8, 0, 0, 0, 0, 0]);
    let mut all = Bytes::new(vec![0xffu8; 6]);
    all.increment();
    assert_eq!(all.to_vec(), vec![0u8; 6]);
}

#[test]
fn bit_counters_count() {
    let mut bits = Bytes::new(vec![0xaau8, 0xff, 0xff, 0xff, 0xff]).to_bits();
    bits.increment_low32();
    assert_eq!(bits.to_bytes().to_vec(), vec![0xaau8, 0, 0, 0, 0]);
    let mut bits = Bytes::new(vec![0x00u8, 0xff]).to_bits();
    bits.increment();
    assert_eq!(bits.to_bytes().to_vec(), vec![0x01u8, 0x00]);
    let mut three = Bits::new(vec![Bit::One, Bit::One, Bit::One]);
    three.increment();
    assert_eq!(three.to_vec(), vec![Bit::Zero, Bit::Zero, Bit::Zero]);
}

#[test]
fn substitution_picks_the_row_the_bits_spell() {
    let table = [[Bit::Zero, Bit::Zero], [Bit::Zero, Bit::One], [Bit::One, Bit::Zero], [Bit::One, Bit::One]];
    let index = Bits::new(vec![Bit::One, Bit::Zero]);
    assert_eq!(index.substitution(&table).to_vec(), vec![Bit::One, Bit::Zero]);
    let index = Bits::new(vec![Bit::Zero, Bit::Zero, Bit::One, Bit::One]);
    assert_eq!(index.substitution(&table).to_vec(), vec![Bit::One, Bit::One]);
}

#[test]
fn bit_xor_and_default() {
    assert_eq!(Bit::One ^ Bit::One, Bit::Zero);
    assert_eq!(Bit::One ^ Bit::Zero, Bit::One);
    assert_eq!(Bit::Zero ^ Bit::One, Bit::One);
    assert_eq!(Bit::Zero ^ Bit::Zero, Bit::Zero);
    assert_eq!(Bit::default(), Bit::Zero);
    let a = Bits::new(vec![Bit::One, Bit::Zero, Bit::One, Bit::One]);
    let b = Bits::new(vec![Bit::One, Bit::One]);
    assert_eq!(a.xor(&b).to_vec(), vec![Bit::Zero, Bit::One, Bit::Zero, Bit::Zero]);
    assert_eq!((&a ^ &b).to_vec(), vec![Bit::Zero, Bit::One, Bit::Zero, Bit::Zero]);
    let empty = Bits::default();
    assert_eq!(a.xor(&empty).to_vec(), a.to_vec());
    assert_eq!(empty.xor(&a).to_vec(), a.to_vec());
}

#[test]
fn bytes_from_str_and_clone() {
    let bytes = Bytes::from_str("foo").unwrap();
    assert_eq!(bytes.to_vec(), b"foo".to_vec());
    assert_eq!(bytes.clone().to_vec(), b"foo".to_vec());
    let from_slice = Bytes::new(b"bar".as_ref());
    assert_eq!(from_slice.to_vec(), b"bar".to_vec());
    let empty = Bytes::default();
    let other = Bytes::new(vec![1u8, 2]);
    assert_eq!(empty.xor(&other).to_vec(), vec![1u8, 2]);
}

#[test]
fn numbers_and_byte_fields() {
    assert_eq!(write_number(0x0102_0304, 4, Endian::Big), vec![1u8, 2, 3, 4]);
    assert_eq!(write_number(0x0102_0304, 4, Endian::Little), vec![4u8, 3, 2, 1]);
    assert_eq!(write_number(0x0102_0304, 2, Endian::Big), vec![3u8, 4]);
    assert_eq!(write_number(1, 16, Endian::Big), vec![0u8, 0, 0, 0, 0, 0, 0, 0, 0, 0, 0, 0, 0, 0, 0, 1]);
    assert_eq!(read_number(&[1, 2, 3, 4], Endian::Big), 0x0102_0304);
    assert_eq!(read_number(&[1, 2, 3, 4], Endian::Little), 0x0403_0201);
    assert_eq!(read_number(&[0xff; 16], Endian::Big), u128::MAX);
    assert_eq!(read_number(&[], Endian::Big), 0);
}
