use crypto::enums::{BlockSize, Endian};
use crypto::padding::{BitPadding, NoPadding, Padding, Pkcs7Padding, PKCSPadding, ZeroPadding};

#[test]
fn pkcs7_pads_to_the_next_block() {
    let padding = Pkcs7Padding::new(BlockSize::Bytes16);
    let padded = padding.pad(b"123456");
    let mut expected = b"123456".to_vec();
    expected.extend(vec![10u8; 10]);
    assert_eq!(padded, expected);
    assert!(padding.can_unpad(&padded));
    assert_eq!(padding.unpad(&padded), b"123456".to_vec());
}

#[test]
fn pkcs7_appends_a_full_block_to_an_aligned_message() {
    let padding = Pkcs7Padding::new(BlockSize::Bytes8);
    let padded = padding.pad(b"12345678");
    let mut expected = b"12345678".to_vec();
    expected.extend(vec![8u8; 8]);
    assert_eq!(padded, expected);
    assert_eq!(padding.unpad(&padded), b"12345678".to_vec());
    assert_eq!(padding.pad(b""), vec![8u8; 8]);
    assert_eq!(padding.unpad(&padding.pad(b"")), Vec::<u8>::new());
}

#[test]
fn pkcs7_round_trips_every_length() {
    for block_size in [BlockSize::Bytes8, BlockSize::Bytes16, BlockSize::Bytes32, BlockSize::Bytes64, BlockSize::Bytes128] {
        let padding = Pkcs7Padding::build(block_size);
        let size: usize = block_size.into();
        for len in 0..(2 * size + 1) {
            let message: Vec<u8> = (0..len).map(|i| (i % 251) as u8).collect();
            let padded = padding.pad(&message);
            assert_eq!(padded.len() % size, 0);
            assert!(padded.len() > message.len());
            assert!(padding.can_unpad(&padded));
            assert_eq!(padding.unpad(&padded), message);
        }
    }
}

#[test]
fn pkcs7_refuses_what_is_no_padding() {
    let padding = Pkcs7Padding::new(BlockSize::Bytes8);
    assert!(!padding.can_unpad(&[]));
    assert!(!padding.can_unpad(&[1, 2, 9]));
    assert!(padding.can_unpad(&[1, 2, 3]));
    assert_eq!(padding.unpad(&[1, 2, 3]), Vec::<u8>::new());
    assert_eq!(padding.unpad(&[1, 2, 0]), vec![1u8, 2, 0]);
}

#[test]
fn zero_padding_is_lossy_for_trailing_zeros() {
    let padding = ZeroPadding::new(BlockSize::Bytes16);
    let padded = padding.pad(b"123456");
    let mut expected = b"123456".to_vec();
    expected.extend(vec![0u8; 10]);
    assert_eq!(padded, expected);
    assert_eq!(padding.unpad(&padded), b"123456".to_vec());
    let padded = padding.pad(&[1, 2, 0, 0]);
    assert_eq!(padded.len(), 16);
    assert_eq!(padding.unpad(&padded), vec![1u8, 2]);
    assert_eq!(padding.unpad(&[0, 0, 0]), Vec::<u8>::new());
    assert_eq!(padding.unpad(&[]), Vec::<u8>::new());
}

#[test]
fn zero_padding_of_an_aligned_message_adds_a_block() {
    let padding = ZeroPadding::build(BlockSize::Bytes8);
    let padded = padding.pad(b"12345678");
    assert_eq!(padded.len(), 16);
    assert_eq!(&padded[8..], &[0u8; 8]);
    assert_eq!(padding.unpad(&padded), b"12345678".to_vec());
}

#[test]
fn no_padding_is_the_identity() {
    let padding = NoPadding::new(BlockSize::Bytes8);
    assert_eq!(padding.pad(b"abc"), b"abc".to_vec());
    assert_eq!(padding.unpad(b"abc"), b"abc".to_vec());
    assert!(padding.can_unpad(b""));
    let built = NoPadding::build(BlockSize::Bytes16);
    assert_eq!(built.pad(b""), Vec::<u8>::new());
}

#[test]
fn bit_padding_big_endian_32() {
    let padding = BitPadding::new(BlockSize::Bytes32, Endian::Big);
    let padded = padding.pad(b"123456");
    let mut expected = b"123456".to_vec();
    expected.push(0x80);
    expected.extend(vec![0u8; 21]);
    expected.extend([0u8, 0, 0, 48]);
    assert_eq!(padded, expected);
    assert_eq!(padded.len(), 32);
    assert!(padding.can_unpad(&padded));
    assert_eq!(padding.unpad(&padded), b"123456".to_vec());
}

#[test]
fn bit_padding_little_endian_128() {
    let padding = BitPadding::new(BlockSize::Bytes128, Endian::Little);
    let message: Vec<u8> = (0..32u8).collect();
    let padded = padding.pad(&message);
    assert_eq!(padded.len(), 128);
    assert_eq!(padded[32], 0x80);
    assert!(padded[33..112].iter().all(|b| *b == 0));
    let mut field = vec![0u8; 16];
    field[1] = 1;
    assert_eq!(&padded[112..], &field[..]);
    assert_eq!(padding.unpad(&padded), message);
}

#[test]
fn bit_padding_as_hash_functions_use_it() {
    let padding = BitPadding::new(BlockSize::Bytes64, Endian::Big);
    assert_eq!(padding.pad(b"").len(), 64);
    assert_eq!(padding.pad(&[0u8; 55]).len(), 64);
    assert_eq!(padding.pad(&[0u8; 56]).len(), 128);
    assert_eq!(padding.pad(&[0u8; 64]).len(), 128);
    let padded = padding.pad(b"abc");
    assert_eq!(&padded[..4], &[b'a', b'b', b'c', 0x80]);
    assert_eq!(&padded[56..], &[0u8, 0, 0, 0, 0, 0, 0, 24]);
    let little = BitPadding::new(BlockSize::Bytes64, Endian::Little);
    assert_eq!(&little.pad(b"abc")[56..], &[24u8, 0, 0, 0, 0, 0, 0, 0]);
}

#[test]
fn bit_padding_small_blocks_and_wrapped_lengths() {
    let padding = BitPadding::build(BlockSize::Bytes8);
    assert_eq!(padding.endian, Endian::Big);
    assert_eq!(padding.pad(b"abc"), vec![b'a', b'b', b'c', 0x80, 0, 0, 0, 24]);
    assert_eq!(padding.unpad(&padding.pad(b"abc")), b"abc".to_vec());
    let long = vec![7u8; 32];
    let padded = padding.pad(&long);
    assert_eq!(padded.len(), 40);
    assert_eq!(padded[39], 0);
    assert_eq!(padding.unpad(&padded), Vec::<u8>::new());
    let sixteen = BitPadding::new(BlockSize::Bytes16, Endian::Little);
    assert_eq!(sixteen.pad(b"abc"), vec![b'a', b'b', b'c', 0x80, 0, 0, 0, 0, 0, 0, 0, 0, 0, 0, 24, 0]);
    assert!(!sixteen.can_unpad(&[1]));
    assert!(sixteen.can_unpad(&[1, 2]));
    assert_eq!(sixteen.unpad(&[9, 9, 9, 9, 16, 0]), vec![9u8, 9]);
    assert_eq!(sixteen.unpad(&[9, 9, 9, 9, 0xff, 0xff]), vec![9u8, 9, 9, 9, 0xff, 0xff]);
}

#[test]
fn pkcs_padding_with_a_free_block_size() {
    let padding = PKCSPadding::new(5);
    assert_eq!(padding.pad(b"abc"), vec![b'a', b'b', b'c', 2, 2]);
    assert_eq!(padding.pad(b"abcde"), vec![b'a', b'b', b'c', b'd', b'e', 5, 5, 5, 5, 5]);
    let wide = PKCSPadding::new(300);
    let padded = wide.pad(b"");
    assert_eq!(padded.len(), 300);
    assert!(padded.iter().all(|b| *b == 44));
}
