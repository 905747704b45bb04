use crypto::bits::Bits;
use crypto::bytes::Bytes;
use crypto::des::{block_crypt, key_schedule, reversed};
use crypto::enums::{Bit, BlockSize};
use crypto::mode::{ghash_u128, gmul_u128, Cbc, Cfb, Ctr, Ecb, Gcm, Mode, Ofb};
use crypto::types::Error;

fn hex(s: &str) -> Vec<u8> {
    (0..s.len() / 2).map(|i| u8::from_str_radix(&s[2 * i..2 * i + 2], 16).unwrap()).collect()
}

fn toy(block: &[u8]) -> Bytes {
    let mut sixteen = block.to_vec();
    sixteen.resize(16, 0);
    Bytes::new(sixteen.iter().rev().map(|b| b ^ 0x5a).collect::<Vec<u8>>())
}

fn toy_bits(block: &[Bit]) -> Bits {
    toy(&Bits::new(block).to_bytes()).to_bits()
}

fn numbers(from: u8, to: u8) -> Vec<u8> {
    (from..to).collect()
}

#[test]
fn ecb_with_des_known_answer() {
    let keys = key_schedule(&Bytes::new(b"12345678".as_ref()));
    let mut message = b"Hello, World!".to_vec();
    message.extend([0u8; 3]);
    let cipher = Ecb.bits_encrypt(&message, BlockSize::Bytes8, block_crypt(&keys)).unwrap();
    assert_eq!(cipher.to_vec(), hex("9ad0b4f8b6ab6007ae24804b509ef809"));
    let back = reversed(keys);
    let plain = Ecb.bits_decrypt(&cipher, BlockSize::Bytes8, block_crypt(&back)).unwrap();
    assert_eq!(plain.to_vec(), message);
    assert!(Ecb.inverts_on_decrypt());
}

#[test]
fn free_ecb_functions_run_every_block_alone() {
    let out = crypto::mode::bytes_crypt(&numbers(0, 20), BlockSize::Bytes8, |b: &[u8]| {
        Bytes::new(b.iter().map(|x| x + 1).collect::<Vec<u8>>())
    });
    assert_eq!(out.to_vec(), numbers(1, 21));
    let out = crypto::mode::bits_crypt(&[0x0f, 0xf0, 0xaa], BlockSize::Bytes8, |b: &[Bit]| {
        Bits::new(b.iter().map(|x| *x ^ Bit::One).collect::<Vec<Bit>>())
    });
    assert_eq!(out.to_vec(), vec![0xf0u8, 0x0f, 0x55]);
    let empty = crypto::mode::bytes_crypt(&[], BlockSize::Bytes16, toy);
    assert_eq!(empty.len(), 0);
}

#[test]
fn cbc_with_des_known_answer() {
    let keys = key_schedule(&Bytes::new(b"12345678".as_ref()));
    let data = numbers(1, 25);
    let cbc = Cbc::new(b"ab");
    let cipher = cbc.bits_encrypt(&data, BlockSize::Bytes8, block_crypt(&keys)).unwrap();
    assert_eq!(cipher.to_vec(), hex("8e10cc3921f4c0f727aff6a29b980ba456384e98e5e2d798"));
    let back = reversed(key_schedule(&Bytes::new(b"12345678".as_ref())));
    let plain = cbc.bits_decrypt(&cipher, BlockSize::Bytes8, block_crypt(&back)).unwrap();
    assert_eq!(plain.to_vec(), data);
    let long_iv = Cbc::new(b"abcdefghijk");
    let cipher = long_iv.bits_encrypt(&data, BlockSize::Bytes8, block_crypt(&keys)).unwrap();
    assert_eq!(cipher.to_vec(), hex("44afbe0c7297baf868a56439b212761f703e197499194b24"));
    assert!(cbc.inverts_on_decrypt());
}

#[test]
fn cfb_with_des_known_answer() {
    let keys = key_schedule(&Bytes::new(b"12345678".as_ref()));
    let data = numbers(1, 25);
    let cfb = Cfb::new(b"abcdefgh");
    let cipher = cfb.bits_encrypt(&data, BlockSize::Bytes8, block_crypt(&keys)).unwrap();
    assert_eq!(cipher.to_vec(), hex("95d6406fc6b3b19ba9bd3a9b63bc400b8dd62beed92fddb5"));
    let plain = cfb.bits_decrypt(&cipher, BlockSize::Bytes8, block_crypt(&keys)).unwrap();
    assert_eq!(plain.to_vec(), data);
    assert!(!cfb.inverts_on_decrypt());
}

#[test]
fn ofb_with_des_known_answer() {
    let keys = key_schedule(&Bytes::new(b"12345678".as_ref()));
    let data = numbers(1, 25);
    let ofb = Ofb::new(b"abcdefgh");
    let cipher = ofb.bits_encrypt(&data, BlockSize::Bytes8, block_crypt(&keys)).unwrap();
    assert_eq!(cipher.to_vec(), hex("95d6406fc6b3b19b4261b8a5e9506677063f8863be2a7af4"));
    let plain = ofb.bits_decrypt(&cipher, BlockSize::Bytes8, block_crypt(&keys)).unwrap();
    assert_eq!(plain.to_vec(), data);
    assert_eq!(ofb.bits_crypt(&data, BlockSize::Bytes8, block_crypt(&keys)).to_vec(), cipher.to_vec());
    assert!(!ofb.inverts_on_decrypt());
}

#[test]
fn ctr_with_des_known_answer() {
    let keys = key_schedule(&Bytes::new(b"12345678".as_ref()));
    let data = numbers(1, 25);
    let ctr = Ctr::new(&[b'a', b'b', 0xff, 0xff, 0xff, 0xff, 0xff, 0xfe]);
    let cipher = ctr.bits_encrypt(&data, BlockSize::Bytes8, block_crypt(&keys)).unwrap();
    assert_eq!(cipher.to_vec(), hex("c867360d0cf0c5df9e27322591831bf14659c9bca37d891c"));
    let plain = ctr.bits_decrypt(&cipher, BlockSize::Bytes8, block_crypt(&keys)).unwrap();
    assert_eq!(plain.to_vec(), data);
    assert!(!ctr.inverts_on_decrypt());
}

#[test]
fn ctr_reads_a_short_last_block_cyclically() {
    let keys = key_schedule(&Bytes::new(b"12345678".as_ref()));
    let ctr = Ctr::new(&[b'a', b'b', 0xff, 0xff, 0xff, 0xff, 0xff, 0xfe]);
    let cipher = ctr.bits_crypt(&numbers(1, 12), BlockSize::Bytes8, block_crypt(&keys));
    assert_eq!(cipher.to_vec(), hex("c867360d0cf0c5df9e27322096861deb"));
}

#[test]
fn byte_paths_agree_with_bit_paths() {
    let data = numbers(0, 48);
    let iv = numbers(100, 116);
    let size = BlockSize::Bytes16;
    let cbc = Cbc::new(&iv);
    assert_eq!(cbc.bytes_encrypt(&data, size, toy).unwrap().to_vec(), cbc.bits_encrypt(&data, size, toy_bits).unwrap().to_vec());
    assert_eq!(cbc.bytes_decrypt(&data, size, toy).unwrap().to_vec(), cbc.bits_decrypt(&data, size, toy_bits).unwrap().to_vec());
    let cfb = Cfb::new(&iv);
    assert_eq!(cfb.bytes_encrypt(&data, size, toy).unwrap().to_vec(), cfb.bits_encrypt(&data, size, toy_bits).unwrap().to_vec());
    assert_eq!(cfb.bytes_decrypt(&data, size, toy).unwrap().to_vec(), cfb.bits_decrypt(&data, size, toy_bits).unwrap().to_vec());
    let ofb = Ofb::new(&iv);
    assert_eq!(ofb.bytes_crypt(&data, size, toy).to_vec(), ofb.bits_crypt(&data, size, toy_bits).to_vec());
    let ctr = Ctr::new(&iv);
    assert_eq!(ctr.bytes_crypt(&data, size, toy).to_vec(), ctr.bits_crypt(&data, size, toy_bits).to_vec());
    assert_eq!(Ecb.bytes_encrypt(&data, size, toy).unwrap().to_vec(), Ecb.bits_encrypt(&data, size, toy_bits).unwrap().to_vec());
}

#[test]
fn byte_paths_round_trip() {
    let data = numbers(0, 64);
    let iv = numbers(7, 23);
    let size = BlockSize::Bytes16;
    let cbc = Cbc::new(&iv);
    let cipher = cbc.bytes_encrypt(&data, size, toy).unwrap();
    assert_eq!(cbc.bytes_decrypt(&cipher, size, toy).unwrap().to_vec(), data);
    let cfb = Cfb::new(&iv);
    let cipher = cfb.bytes_encrypt(&data, size, toy).unwrap();
    assert_eq!(cfb.bytes_decrypt(&cipher, size, toy).unwrap().to_vec(), data);
    let ofb = Ofb::new(&iv);
    let cipher = ofb.bytes_encrypt(&data, size, toy).unwrap();
    assert_eq!(ofb.bytes_decrypt(&cipher, size, toy).unwrap().to_vec(), data);
    let ctr = Ctr::new(&iv);
    let cipher = ctr.bytes_encrypt(&data, size, toy).unwrap();
    assert_eq!(ctr.bytes_decrypt(&cipher, size, toy).unwrap().to_vec(), data);
    let cipher = Ecb.bytes_encrypt(&data, size, toy).unwrap();
    assert_eq!(Ecb.bytes_decrypt(&cipher, size, toy).unwrap().to_vec(), data);
}

#[test]
fn galois_multiplication_known_values() {
    assert_eq!(gmul_u128(1 << 127, 0x1234), 0x1234);
    assert_eq!(gmul_u128(0x8000_0000_0000_0000_0000_0000_0000_0000, 0xabcdef), 0xabcdef);
    assert_eq!(gmul_u128(1, 1), 0xe608_0000_0000_0000_0000_0000_0000_0003);
    assert_eq!(gmul_u128(0, 0xffff), 0);
    assert_eq!(
        gmul_u128(0x0388dace60b6a392f328c2b971b2fe78, 0x66e94bd4ef8a2c3b884cfa59ca342b2e),
        0x5e2ec746917062882c85b0685353deb7
    );
}

#[test]
fn ghash_known_value() {
    let h = 0x66e94bd4ef8a2c3b884cfa59ca342b2e;
    assert_eq!(ghash_u128(h, &[0x0388dace60b6a392f328c2b971b2fe78, 0x80]), 0xf38cbb1ad69223dcc3457ae5b6b0f885);
    assert_eq!(ghash_u128(h, &[]), 0);
}

#[test]
fn gcm_known_answers() {
    let size = BlockSize::Bytes16;
    let gcm = Gcm::new(&numbers(0, 12), None);
    assert_eq!(gcm.bytes_encrypt(&[], size, toy).unwrap().to_vec(), hex("5b5a5a5a515053525d5c5f5e59585b5a"));
    let gcm = Gcm::new(&numbers(0, 12), Some(b"header".as_ref()));
    assert_eq!(
        gcm.bytes_encrypt(&numbers(0, 32), size, toy).unwrap().to_vec(),
        hex("585b5859555555555555555555555555494b484945454545454545454545454586aaa181fe3b13d147385e81e33c5af3")
    );
    let aad = numbers(0, 20);
    let gcm = Gcm::new(b"shortiv", Some(&aad));
    assert_eq!(
        gcm.bytes_encrypt(&numbers(0, 48), size, toy).unwrap().to_vec(),
        hex("d38cda8edc88de0a3594c1689b45fcc4c09cca9ecc98ce1a2584d1788b55ecd4f1acfaaefca8fe2a15b4e148bb65dce48b4a69b64009f08a409a9dba00918088")
    );
    let gcm = Gcm::new(&numbers(0, 40), None);
    assert_eq!(
        gcm.bytes_encrypt(&numbers(0, 16), size, toy).unwrap().to_vec(),
        hex("d01a10e8952858132bf668614d230085ace31d885f3f8bb814e1765ec09d7f01")
    );
    let gcm = Gcm::new(&numbers(0, 12), Some(b"a".as_ref()));
    assert_eq!(
        gcm.bytes_encrypt(&numbers(0, 5), size, toy).unwrap().to_vec(),
        hex("585b5859555052505e585f5f5b5b5f5a90ebb42146bcb6926091d22bf9b9ff81")
    );
    assert!(!gcm.inverts_on_decrypt());
}

#[test]
fn gcm_round_trips_whole_blocks() {
    let size = BlockSize::Bytes16;
    for iv_len in [0u8, 5, 12, 16, 33] {
        let gcm = Gcm::new(&numbers(0, iv_len), Some(b"additional data".as_ref()));
        for len in [0u8, 16, 32, 80] {
            let message = numbers(10, 10 + len);
            let sealed = gcm.bytes_encrypt(&message, size, toy).unwrap();
            assert_eq!(sealed.len(), message.len() + 16);
            assert_eq!(gcm.bytes_decrypt(&sealed, size, toy).unwrap().to_vec(), message);
            let sealed = gcm.bits_encrypt(&message, size, toy_bits).unwrap();
            assert_eq!(gcm.bits_decrypt(&sealed, size, toy_bits).unwrap().to_vec(), message);
            assert_eq!(sealed.to_vec(), gcm.bytes_encrypt(&message, size, toy).unwrap().to_vec());
        }
    }
}

#[test]
fn gcm_detects_every_flipped_bit() {
    let size = BlockSize::Bytes16;
    let gcm = Gcm::new(&numbers(0, 12), Some(b"header".as_ref()));
    let sealed = gcm.bytes_encrypt(&numbers(0, 32), size, toy).unwrap().to_vec();
    assert!(gcm.bytes_decrypt(&sealed, size, toy).is_ok());
    for position in 0..sealed.len() {
        for bit in 0..8 {
            let mut tampered = sealed.clone();
            tampered[position] ^= 1 << bit;
            assert_eq!(gcm.bytes_decrypt(&tampered, size, toy).err(), Some(Error::AuthenticationFailed));
        }
    }
    let other_aad = Gcm::new(&numbers(0, 12), Some(b"Header".as_ref()));
    assert_eq!(other_aad.bytes_decrypt(&sealed, size, toy).err(), Some(Error::AuthenticationFailed));
    let other_iv = Gcm::new(&numbers(1, 13), Some(b"header".as_ref()));
    assert_eq!(other_iv.bytes_decrypt(&sealed, size, toy).err(), Some(Error::AuthenticationFailed));
}

#[test]
fn gcm_errors() {
    let gcm = Gcm::new(&numbers(0, 12), None);
    assert_eq!(gcm.bytes_encrypt(b"x", BlockSize::Bytes8, toy).err(), Some(Error::UnsupportedBlockSize));
    assert_eq!(gcm.bytes_decrypt(&[0u8; 32], BlockSize::Bytes32, toy).err(), Some(Error::UnsupportedBlockSize));
    assert_eq!(gcm.bits_encrypt(b"x", BlockSize::Bytes64, toy_bits).err(), Some(Error::UnsupportedBlockSize));
    assert_eq!(gcm.bits_decrypt(&[0u8; 32], BlockSize::Bytes128, toy_bits).err(), Some(Error::UnsupportedBlockSize));
    assert_eq!(gcm.bytes_decrypt(&[0u8; 15], BlockSize::Bytes16, toy).err(), Some(Error::MissingTag));
    assert_eq!(gcm.bytes_decrypt(&[], BlockSize::Bytes16, toy).err(), Some(Error::MissingTag));
    assert_eq!(gcm.bytes_decrypt(&[0u8; 16], BlockSize::Bytes16, toy).err(), Some(Error::AuthenticationFailed));
}
