use crypto::enums::BlockSize;
use crypto::hmac::Hmac;
use crypto::md5::MD5;
use crypto::operation::{Hashing, Operation};
use crypto::sha1::SHA1;
use crypto::sha2::{SHA256, SHA512};
use crypto::sm3::{ffj, ggj, p0, p1, tj, Sm3};

fn hex_of(bytes: &[u8]) -> String {
    bytes.iter().map(|b| format!("{:02x}", b)).collect()
}

#[test]
fn md5_digests() {
    assert_eq!(hex_of(&MD5.run(b"").unwrap()), "d41d8cd98f00b204e9800998ecf8427e");
    assert_eq!(hex_of(&MD5.run(b"abc").unwrap()), "900150983cd24fb0d6963f7d28e17f72");
    assert_eq!(hex_of(&MD5.run(b"123456").unwrap()), "e10adc3949ba59abbe56e057f20f883e");
    assert_eq!(hex_of(&MD5.run(&[b'a'; 200]).unwrap()), "887f30b43b2867f4a9accceee7d16e6c");
    assert!(matches!(MD5.block_size(), BlockSize::Bytes64));
}

#[test]
fn sha1_digests() {
    let sha1 = SHA1::default();
    assert_eq!(sha1.rounds, 80);
    assert_eq!(hex_of(&sha1.run(b"").unwrap()), "da39a3ee5e6b4b0d3255bfef95601890afd80709");
    assert_eq!(hex_of(&sha1.run(b"abc").unwrap()), "a9993e364706816aba3e25717850c26c9cd0d89d");
    assert_eq!(hex_of(&sha1.run(b"123456").unwrap()), "7c4a8d09ca3762af61e59520943dc26494f8941b");
    assert_eq!(hex_of(&sha1.run(&[b'a'; 200]).unwrap()), "e61cfffe0d9195a525fc6cf06ca2d77119c24a40");
    assert_eq!(SHA1::new(0).rounds, 80);
    assert_eq!(SHA1::new(12).rounds, 12);
    assert_eq!(hex_of(&SHA1::new(80).run(b"abc").unwrap()), "a9993e364706816aba3e25717850c26c9cd0d89d");
    assert_ne!(hex_of(&SHA1::new(79).run(b"abc").unwrap()), "a9993e364706816aba3e25717850c26c9cd0d89d");
    assert_eq!(SHA1::new(3).run(b"abc").unwrap().len(), 20);
    assert_eq!(SHA1::new(90).run(b"abc").unwrap().len(), 20);
}

#[test]
fn sha256_digests() {
    assert_eq!(hex_of(&SHA256.run(b"").unwrap()), "e3b0c44298fc1c149afbf4c8996fb92427ae41e4649b934ca495991b7852b855");
    assert_eq!(hex_of(&SHA256.run(b"abc").unwrap()), "ba7816bf8f01cfea414140de5dae2223b00361a396177a9cb410ff61f20015ad");
    assert_eq!(hex_of(&SHA256.run(b"123456").unwrap()), "8d969eef6ecad3c29a3a629280e686cf0c3f5d5a86aff3ca12020c923adc6c92");
    assert_eq!(hex_of(&SHA256.run(&[b'a'; 200]).unwrap()), "c2a908d98f5df987ade41b5fce213067efbcc21ef2240212a41e54b5e7c28ae5");
    assert_eq!(SHA256.output_size(), 32);
    let padded = crypto::sha256::padding(b"abc");
    assert_eq!(padded.len(), 64);
    assert_eq!(&padded[..4], &[b'a', b'b', b'c', 0x80]);
    assert_eq!(padded[63], 24);
}

#[test]
fn sha512_digests() {
    assert_eq!(hex_of(&SHA512.run(b"").unwrap()), "cf83e1357eefb8bdf1542850d66d8007d620e4050b5715dc83f4a921d36ce9ce47d0d13c5d85f2b0ff8318d2877eec2f63b931bd47417a81a538327af927da3e");
    assert_eq!(hex_of(&SHA512.run(b"abc").unwrap()), "ddaf35a193617abacc417349ae20413112e6fa4e89a97ea20a9eeee64b55d39a2192992a274fc1a836ba3c23a3feebbd454d4423643ce80e2a9ac94fa54ca49f");
    assert_eq!(hex_of(&SHA512.run(b"123456").unwrap()), "ba3253876aed6bc22d4a6ff53d8406c6ad864195ed144ab5c87621b6c233b548baeae6956df346ec8c17f5ea10f35ee3cbc514797ed7ddd3145464e2a0bab413");
    assert_eq!(hex_of(&SHA512.run(&[b'a'; 200]).unwrap()), "4b11459c33f52a22ee8236782714c150a3b2c60994e9acee17fe68947a3e6789f31e7668394592da7bef827cddca88c4e6f86e4df7ed1ae6cba71f3e98faee9f");
    assert!(matches!(SHA512.block_size(), BlockSize::Bytes128));
    assert_eq!(SHA512.output_size(), 64);
}

#[test]
fn sm3_digests() {
    assert_eq!(hex_of(&Sm3.run(b"").unwrap()), "1ab21d8355cfa17f8e61194831e81a8f22bec8c728fefb747ed035eb5082aa2b");
    assert_eq!(hex_of(&Sm3.run(b"abc").unwrap()), "66c7f0f462eeedd9d1f2d46bdc10e4e24167c4875cf2f7a2297da02b8f4ba8e0");
    assert_eq!(hex_of(&Sm3.run(b"123456").unwrap()), "207cf410532f92a47dee245ce9b11ff71f578ebd763eb3bbea44ebd043d018fb");
    assert_eq!(hex_of(&Sm3.run(&[b'a'; 200]).unwrap()), "a8da99c801bbd65ec00992ed5cbef851f275e98da9fb2d4f5be184f81473d5dd");
}

#[test]
fn sm3_round_helpers() {
    assert_eq!(tj(0), 0x79cc4519);
    assert_eq!(tj(15), 0x79cc4519);
    assert_eq!(tj(16), 0x7a879d8a);
    assert_eq!(ffj(3, 0b1100, 0b1010, 0b0110), 0b0000);
    assert_eq!(ffj(20, 0b1100, 0b1010, 0b0110), 0b1110);
    assert_eq!(ggj(3, 0b1100, 0b1010, 0b0110), 0b0000);
    assert_eq!(ggj(20, 0b1100, 0b1010, 0b0110), 0b1010);
    assert_eq!(p0(1), 1 ^ (1 << 9) ^ (1 << 17));
    assert_eq!(p1(1), 1 ^ (1 << 15) ^ (1 << 23));
    assert_eq!(p0(0x8000_0000), 0x8000_0000u32 ^ 0x8000_0000u32.rotate_left(9) ^ 0x8000_0000u32.rotate_left(17));
}

#[test]
fn hmac_codes() {
    let code = Hmac::<SHA512>::new(b"123456").run(b"Hello, world!").unwrap();
    assert_eq!(hex_of(&code), "5d939b5d53749fdead9f86bfff5f6f4bc831f4eb5b80f3f123a761f786f0e265296b0c6865233939c7610e271b45553ebf1b2a1bf7d38af6931161a82e64dad6");
    let code = Hmac::<SHA256>::new(&[b'k'; 100]).run(b"msg").unwrap();
    assert_eq!(hex_of(&code), "bd56a1782c2830e8abc6ed866a57a1230661e650b84c62f7ee3accc5fa5af491");
    let code = Hmac::<MD5>::new(b"key").run(b"The quick brown fox jumps over the lazy dog").unwrap();
    assert_eq!(hex_of(&code), "80070713463e7749b90c2dc24911e275");
    let code = Hmac::<SHA1>::new(b"key").run(b"The quick brown fox jumps over the lazy dog").unwrap();
    assert_eq!(hex_of(&code), "de7c9b85b8b78aa6bc8a7a36f70a90701c9db4d9");
    let key = [0xff, 0xee, 0xdd, 0xcc, 0xbb, 0xaa, 0x99, 0x88, 0x77, 0x66, 0x55, 0x44, 0x33, 0x22, 0x11, 0x00];
    let code = Hmac::<Sm3>::new(&key).run(b"3334444").unwrap();
    assert_eq!(hex_of(&code), "00553ca274527eaa1fcc35f2fe458c5ecebb8e33e3252451f6e8168690070fcb");
}

#[test]
fn word_helpers() {
    use_words();
}

fn use_words() {
    assert_eq!(crypto::word::rotate_left32(0x8000_0001, 1), 3);
    assert_eq!(crypto::word::rotate_left32(0x1234_5678, 0), 0x1234_5678);
    assert_eq!(crypto::word::rotate_right32(3, 1), 0x8000_0001);
    assert_eq!(crypto::word::rotate_right64(1, 1), 0x8000_0000_0000_0000);
    assert_eq!(crypto::word::read_word32(&[1, 2, 3, 4, 5], 1, crypto::enums::Endian::Big), 0x0203_0405);
    assert_eq!(crypto::word::read_word32(&[1, 2, 3, 4, 5], 1, crypto::enums::Endian::Little), 0x0504_0302);
    assert_eq!(crypto::word::read_word64(&[1, 2, 3, 4, 5, 6, 7, 8], 0, crypto::enums::Endian::Big), 0x0102_0304_0506_0708);
    assert_eq!(crypto::word::write_words32(&[0x0102_0304, 5], crypto::enums::Endian::Big), vec![1u8, 2, 3, 4, 0, 0, 0, 5]);
    assert_eq!(crypto::word::write_words64(&[0x0102_0304], crypto::enums::Endian::Little), vec![4u8, 3, 2, 1, 0, 0, 0, 0]);
}
