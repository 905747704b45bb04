use crypto::aes::{
    block_decrypt, block_encrypt, decrypt_block, encrypt_block, times2, AesDecrypt, AesEncrypt,
};
use crypto::base64::{FromBase64, ToBase64};
use crypto::bytes::Bytes;
use crypto::enums::BlockSize;
use crypto::mode::{Cbc, Cfb, Ctr, Ecb, Gcm, Mode, Ofb};
use crypto::operation::Operation;
use crypto::padding::{NoPadding, Pkcs7Padding};
use crypto::recipe::Recipe;
use crypto::sm4::{Sm4Decrypt, Sm4Encrypt};
use crypto::types::Error;

fn hex(s: &str) -> Vec<u8> {
    (0..s.len() / 2).map(|i| u8::from_str_radix(&s[2 * i..2 * i + 2], 16).unwrap()).collect()
}

fn numbers(from: u8, to: u8) -> Vec<u8> {
    (from..to).collect()
}

#[test]
fn aes_known_answers() {
    let block = hex("00112233445566778899aabbccddeeff");
    let keys = crypto::aes::key_schedule(&Bytes::new(numbers(0, 16)));
    assert_eq!(keys.len(), 176);
    let cipher = encrypt_block(&keys, &block);
    assert_eq!(cipher.to_vec(), hex("69c4e0d86a7b0430d8cdb78070b4c55a"));
    assert_eq!(decrypt_block(&keys, &cipher).to_vec(), block);
    let keys = crypto::aes::key_schedule(&Bytes::new(numbers(0, 24)));
    assert_eq!(keys.len(), 208);
    assert_eq!(encrypt_block(&keys, &block).to_vec(), hex("dda97ca4864cdfe06eaf70a0ec0d7191"));
    let keys = crypto::aes::key_schedule(&Bytes::new(numbers(0, 32)));
    assert_eq!(keys.len(), 240);
    let cipher = block_encrypt(&keys)(&block);
    assert_eq!(cipher.to_vec(), hex("8ea2b7ca516745bfeafc49904b496089"));
    assert_eq!(block_decrypt(&keys)(&cipher).to_vec(), block);
    assert_eq!(times2(0x57), 0xae);
    assert_eq!(times2(0xae), 0x47);
}

#[test]
fn aes_cbc_foobar_round_trip() {
    let key = b"012345678901234567890";
    assert_eq!(key.len(), 21);
    let iv = b"01234567";
    let encrypt = AesEncrypt::<_, Pkcs7Padding>::new(key, Cbc::new(iv));
    let cipher = encrypt.run(b"FooBar").unwrap();
    assert_eq!(cipher.to_vec(), hex("638d02cc22fecb331492ab441267b4d0"));
    let decrypt = AesDecrypt::<_, Pkcs7Padding>::new(key, Cbc::new(iv));
    assert_eq!(decrypt.run(&cipher).unwrap().to_vec(), b"FooBar".to_vec());
}

#[test]
fn aes_keys_are_brought_to_a_working_length() {
    let iv = b"01234567";
    let cases: [(&[u8], &str); 3] = [
        (b"01234567890123456789", "94a4a86dbfdd08f152172481e2cc4c70"),
        (b"short", "eb772ba27b1b07a2e99a484ff8aa56a2"),
        (b"0123456789abcdef0123456789abcdef-tail", "f4cd2ac77c96b1b349165806bdb033bf"),
    ];
    for (key, expected) in cases {
        let cipher = AesEncrypt::<_, Pkcs7Padding>::new(key, Cbc::new(iv)).run(b"FooBar").unwrap();
        assert_eq!(cipher.to_vec(), hex(expected));
        let plain = AesDecrypt::<_, Pkcs7Padding>::new(key, Cbc::new(iv)).run(&cipher).unwrap();
        assert_eq!(plain.to_vec(), b"FooBar".to_vec());
    }
}

#[test]
fn aes_in_a_recipe_with_base64() {
    let key = b"01234567890123456789";
    let iv = b"01234567";
    let sealing = Recipe::new(vec![
        Box::new(AesEncrypt::<_, Pkcs7Padding>::new(key, Cbc::new(iv))),
        Box::new(ToBase64::default()),
    ]);
    let text = sealing.bake(b"FooBar").unwrap();
    let opening = Recipe::new(vec![
        Box::new(FromBase64::default()),
        Box::new(AesDecrypt::<_, Pkcs7Padding>::new(key, Cbc::new(iv))),
    ]);
    assert_eq!(opening.bake(&text).unwrap().to_vec(), b"FooBar".to_vec());
}

#[test]
fn aes_round_trips_in_every_mode() {
    let key = b"sixteen byte key";
    let iv = numbers(50, 66);
    for len in [0usize, 1, 15, 16, 17, 47, 48] {
        let message: Vec<u8> = (0..len).map(|i| (5 * i + 1) as u8).collect();
        let cipher = AesEncrypt::<_, Pkcs7Padding>::new(key, Ecb).run(&message).unwrap();
        assert_eq!(AesDecrypt::<_, Pkcs7Padding>::new(key, Ecb).run(&cipher).unwrap().to_vec(), message);
        let cipher = AesEncrypt::<_, Pkcs7Padding>::new(key, Cbc::new(&iv)).run(&message).unwrap();
        assert_eq!(AesDecrypt::<_, Pkcs7Padding>::new(key, Cbc::new(&iv)).run(&cipher).unwrap().to_vec(), message);
        let cipher = AesEncrypt::<_, Pkcs7Padding>::new(key, Cfb::new(&iv)).run(&message).unwrap();
        assert_eq!(AesDecrypt::<_, Pkcs7Padding>::new(key, Cfb::new(&iv)).run(&cipher).unwrap().to_vec(), message);
        let cipher = AesEncrypt::<_, Pkcs7Padding>::new(key, Ofb::new(&iv)).run(&message).unwrap();
        assert_eq!(AesDecrypt::<_, Pkcs7Padding>::new(key, Ofb::new(&iv)).run(&cipher).unwrap().to_vec(), message);
        let cipher = AesEncrypt::<_, Pkcs7Padding>::new(key, Ctr::new(&iv)).run(&message).unwrap();
        assert_eq!(AesDecrypt::<_, Pkcs7Padding>::new(key, Ctr::new(&iv)).run(&cipher).unwrap().to_vec(), message);
        let gcm = Gcm::new(&iv, Some(b"aad".as_ref()));
        let cipher = AesEncrypt::<_, Pkcs7Padding>::new(key, gcm.clone()).run(&message).unwrap();
        assert_eq!(AesDecrypt::<_, Pkcs7Padding>::new(key, gcm).run(&cipher).unwrap().to_vec(), message);
    }
}

#[test]
fn aes_ctr_counts_in_the_low_32_bits() {
    let mut counter = vec![0u8; 12];
    counter.extend([0xff, 0xff, 0xff, 0xfe]);
    let cipher = AesEncrypt::<_, NoPadding>::new(&numbers(0, 16), Ctr::new(&counter)).run(&numbers(0, 32)).unwrap();
    assert_eq!(cipher.to_vec(), hex("0b3174762511f1d7e45288880f6b66de47850de0554d97b7aabe8b61d9e72da7"));
}

#[test]
fn aes_gcm_published_vectors() {
    let zero_key = [0u8; 16];
    let gcm = Gcm::new(&[0u8; 12], None);
    let sealed = AesEncrypt::<_, NoPadding>::new(&zero_key, gcm.clone()).run(&[]).unwrap();
    assert_eq!(sealed.to_vec(), hex("58e2fccefa7e3061367f1d57a4e7455a"));
    let sealed = AesEncrypt::<_, NoPadding>::new(&zero_key, gcm.clone()).run(&[0u8; 16]).unwrap();
    assert_eq!(sealed.to_vec(), hex("0388dace60b6a392f328c2b971b2fe78ab6e47d42cec13bdf53a67b21257bddf"));
    assert_eq!(AesDecrypt::<_, NoPadding>::new(&zero_key, gcm).run(&sealed).unwrap().to_vec(), vec![0u8; 16]);

    let key = hex("feffe9928665731c6d6a8f9467308308");
    let plain = hex("d9313225f88406e5a55909c5aff5269a86a7a9531534f7da2e4c303d8a318a721c3c0c95956809532fcf0e2449a6b525");
    let aad = hex("feedfacedeadbeeffeedfacedeadbeefabaddad2");
    let gcm = Gcm::new(&hex("cafebabefacedbaddecaf888"), Some(&aad));
    let sealed = AesEncrypt::<_, NoPadding>::new(&key, gcm.clone()).run(&plain).unwrap();
    assert_eq!(
        sealed.to_vec(),
        hex("42831ec2217774244b7221b784d0d49ce3aa212f2c02a4e035c17e2329aca12e21d514b25466931c7d8f6a5aac84aa05e2a780abfb04ae8c06c56e4bb31b417f")
    );
    assert_eq!(AesDecrypt::<_, NoPadding>::new(&key, gcm).run(&sealed).unwrap().to_vec(), plain);
    let gcm = Gcm::new(&hex("cafebabefacedbad"), Some(&aad));
    let sealed = AesEncrypt::<_, NoPadding>::new(&key, gcm).run(&plain).unwrap();
    assert_eq!(
        sealed.to_vec(),
        hex("61353b4c2806934a777ff51fa22a4755699b2a714fcdc6f83766e5f97b6c742373806900e49f24b22b097544d4896b42f6f1091764900630a19365240777e726")
    );
}

#[test]
fn aes_gcm_refuses_tampered_messages() {
    let key = hex("feffe9928665731c6d6a8f9467308308");
    let gcm = Gcm::new(&hex("cafebabefacedbaddecaf888"), Some(b"header".as_ref()));
    let sealed = AesEncrypt::<_, NoPadding>::new(&key, gcm.clone()).run(&numbers(0, 32)).unwrap().to_vec();
    let decrypt = AesDecrypt::<_, NoPadding>::new(&key, gcm);
    assert_eq!(decrypt.run(&sealed).unwrap().to_vec(), numbers(0, 32));
    for position in 0..sealed.len() {
        for bit in 0..8 {
            let mut tampered = sealed.clone();
            tampered[position] ^= 1 << bit;
            assert_eq!(decrypt.run(&tampered).err(), Some(Error::AuthenticationFailed));
        }
    }
    assert_eq!(decrypt.run(&sealed[..10]).err(), Some(Error::MissingTag));
    let wrong_key = AesDecrypt::<_, NoPadding>::new(b"another key", Gcm::new(&hex("cafebabefacedbaddecaf888"), Some(b"header".as_ref())));
    assert_eq!(wrong_key.run(&sealed).err(), Some(Error::AuthenticationFailed));
}

#[test]
fn gcm_needs_blocks_of_sixteen_bytes() {
    let gcm = Gcm::new(&[0u8; 12], None);
    let des = crypto::des::DesEncrypt::<_, NoPadding>::new(b"12345678", gcm.clone());
    assert_eq!(des.run(b"12345678").err(), Some(Error::UnsupportedBlockSize));
    let des = crypto::des::DesDecrypt::<_, NoPadding>::new(b"12345678", gcm.clone());
    assert_eq!(des.run(&[0u8; 24]).err(), Some(Error::UnsupportedBlockSize));
    assert!(gcm.bytes_encrypt(b"", BlockSize::Bytes16, |b: &[u8]| Bytes::new(b.to_vec())).is_ok());
}

#[test]
fn sm4_known_answers() {
    let key = hex("0123456789abcdeffedcba9876543210");
    let keys = crypto::sm4::key_schedule(&Bytes::new(key.clone()));
    assert_eq!(keys.len(), 32);
    assert_eq!(keys[0], 0xf12186f9);
    assert_eq!(keys[31], 0x9124a012);
    let cipher = crypto::sm4::crypt_block(&keys, &key);
    assert_eq!(cipher.to_vec(), hex("681edf34d206965e86b3e94f536e4246"));
    let back = crypto::sm4::reversed(keys);
    assert_eq!(crypto::sm4::block_crypt(&back)(&cipher).to_vec(), key);
    assert_eq!(crypto::sm4::substitute(0x00010203), 0xd690e9fe);
}

#[test]
fn sm4_modes_known_answers() {
    let key = hex("00112233445566778899aabbccddeeff");
    let iv = hex("ffeeddccbbaa99887766554433221100");
    let input = hex("00000000000000000808080808080808");
    let cipher = Sm4Encrypt::<_, Pkcs7Padding>::new(&key, Cbc::new(&iv)).run(&input).unwrap();
    assert_eq!(cipher.to_vec(), hex("7a3ba0936dec7961a627af427564249532579d4ead88d7d8cda784a720939766"));
    assert_eq!(Sm4Decrypt::<_, Pkcs7Padding>::new(&key, Cbc::new(&iv)).run(&cipher).unwrap().to_vec(), input);
    let cipher = Sm4Encrypt::<_, Pkcs7Padding>::new(&key, Ecb).run(b"Hello, World!").unwrap();
    assert_eq!(cipher.to_vec(), hex("213fe3d11218e84f894af27467c47329"));
    assert_eq!(Sm4Decrypt::<_, Pkcs7Padding>::new(&key, Ecb).run(&cipher).unwrap().to_vec(), b"Hello, World!".to_vec());
    let mut counter = iv[..12].to_vec();
    counter.extend([0u8; 4]);
    let mut data = numbers(0, 40);
    data.extend([0u8; 8]);
    let cipher = Sm4Encrypt::<_, NoPadding>::new(&key, Ctr::new(&counter)).run(&data).unwrap();
    assert_eq!(cipher.to_vec(), hex("90b6f39ce0ca731956037a990a16bbb60d1a3fd4c8bcd58c6f8da00433eb3165997d2687c409da6ee364bc3334c2547a"));
    assert_eq!(Sm4Decrypt::<_, NoPadding>::new(&key, Ctr::new(&counter)).run(&cipher).unwrap().to_vec(), data);
    assert_eq!(Sm4Decrypt::<_, Pkcs7Padding>::new(&key, Ecb).run(&[]).err(), Some(Error::InvalidPadding));
}
