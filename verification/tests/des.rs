use crypto::bytes::Bytes;
use crypto::des::{
    block_crypt, crypt_block, key_schedule, reversed, s_boxes, split_key, DesDecrypt, DesEncrypt,
    TripleDesDecrypt, TripleDesEncrypt,
};
use crypto::enums::Bit;
use crypto::mode::{Cbc, Cfb, Ctr, Ecb, Ofb};
use crypto::operation::Operation;
use crypto::padding::{NoPadding, Pkcs7Padding, ZeroPadding};
use crypto::recipe::Recipe;
use crypto::types::Error;

fn hex(s: &str) -> Vec<u8> {
    (0..s.len() / 2).map(|i| u8::from_str_radix(&s[2 * i..2 * i + 2], 16).unwrap()).collect()
}

#[test]
fn des_known_answer() {
    let key = Bytes::new(hex("0101010101010101"));
    let keys = key_schedule(&key);
    assert_eq!(keys.len(), 16);
    assert!(keys.iter().all(|k| k.len() == 48));
    let zero = Bytes::new(vec![0u8; 8]).to_bits();
    let cipher = crypt_block(&keys, &zero);
    assert_eq!(cipher.to_bytes().to_vec(), hex("8ca64de9c1b123a7"));
    let back = reversed(keys);
    assert_eq!(crypt_block(&back, &cipher).to_bytes().to_vec(), vec![0u8; 8]);
}

#[test]
fn des_textbook_vector() {
    let keys = key_schedule(&Bytes::new(hex("133457799bbcdff1")));
    let block = Bytes::new(hex("0123456789abcdef")).to_bits();
    let transform = block_crypt(&keys);
    assert_eq!(transform(&block).to_bytes().to_vec(), hex("85e813540f0ab405"));
}

#[test]
fn s_boxes_substitute_six_bits_by_four() {
    let zeros = Bytes::new(vec![0u8; 6]).to_bits();
    let out = s_boxes(&zeros);
    assert_eq!(out.to_bytes().to_vec(), hex("efa72c4d"));
    let ones = Bytes::new(vec![0xffu8; 6]).to_bits();
    assert_eq!(s_boxes(&ones).to_bytes().to_vec(), hex("d9ce3dcb"));
    let short = crypto::bits::Bits::new(vec![Bit::Zero; 7]);
    assert_eq!(s_boxes(&short).len(), 8);
    assert_eq!(s_boxes(&crypto::bits::Bits::default()).len(), 0);
}

#[test]
fn des_ecb_zero_padding_round_trip() {
    let encrypt = DesEncrypt::<Ecb, ZeroPadding>::new(b"12345678", Ecb);
    let cipher = encrypt.run(b"12345678").unwrap();
    assert_eq!(cipher.to_vec(), hex("96d0028878d58c893d7595a98bff809d"));
    let decrypt = DesDecrypt::<Ecb, ZeroPadding>::new(b"12345678", Ecb);
    assert_eq!(decrypt.run(&cipher).unwrap().to_vec(), b"12345678".to_vec());
}

#[test]
fn des_cbc_pkcs7_with_short_key_and_vector() {
    let encrypt = DesEncrypt::<_, Pkcs7Padding>::new(b"321", Cbc::new(b"123"));
    let cipher = encrypt.run(b"Hello, World!").unwrap();
    assert_eq!(cipher.to_vec(), hex("342b0d1c58767ed38390cd901db6d412"));
    let decrypt = DesDecrypt::<_, Pkcs7Padding>::new(b"321", Cbc::new(b"123"));
    assert_eq!(decrypt.run(&cipher).unwrap().to_vec(), b"Hello, World!".to_vec());
}

#[test]
fn des_round_trips_in_every_mode() {
    let key = b"secret!!";
    let iv = b"01234567";
    for len in 0..40usize {
        let message: Vec<u8> = (0..len).map(|i| (3 * i + 1) as u8).collect();
        let cipher = DesEncrypt::<_, Pkcs7Padding>::new(key, Ecb).run(&message).unwrap();
        assert_eq!(DesDecrypt::<_, Pkcs7Padding>::new(key, Ecb).run(&cipher).unwrap().to_vec(), message);
        let cipher = DesEncrypt::<_, Pkcs7Padding>::new(key, Cbc::new(iv)).run(&message).unwrap();
        assert_eq!(DesDecrypt::<_, Pkcs7Padding>::new(key, Cbc::new(iv)).run(&cipher).unwrap().to_vec(), message);
        let cipher = DesEncrypt::<_, Pkcs7Padding>::new(key, Cfb::new(iv)).run(&message).unwrap();
        assert_eq!(DesDecrypt::<_, Pkcs7Padding>::new(key, Cfb::new(iv)).run(&cipher).unwrap().to_vec(), message);
        let cipher = DesEncrypt::<_, Pkcs7Padding>::new(key, Ofb::new(iv)).run(&message).unwrap();
        assert_eq!(DesDecrypt::<_, Pkcs7Padding>::new(key, Ofb::new(iv)).run(&cipher).unwrap().to_vec(), message);
        let cipher = DesEncrypt::<_, Pkcs7Padding>::new(key, Ctr::new(iv)).run(&message).unwrap();
        assert_eq!(DesDecrypt::<_, Pkcs7Padding>::new(key, Ctr::new(iv)).run(&cipher).unwrap().to_vec(), message);
    }
}

#[test]
fn des_stream_modes_known_answers() {
    let data: Vec<u8> = (1..25).collect();
    let cipher = DesEncrypt::<_, NoPadding>::new(b"12345678", Cfb::new(b"abcdefgh")).run(&data).unwrap();
    assert_eq!(cipher.to_vec(), hex("95d6406fc6b3b19ba9bd3a9b63bc400b8dd62beed92fddb5"));
    let plain = DesDecrypt::<_, NoPadding>::new(b"12345678", Cfb::new(b"abcdefgh")).run(&cipher).unwrap();
    assert_eq!(plain.to_vec(), data);
    let counter = [b'a', b'b', 0xff, 0xff, 0xff, 0xff, 0xff, 0xfe];
    let cipher = DesEncrypt::<_, NoPadding>::new(b"12345678", Ctr::new(&counter)).run(&data).unwrap();
    assert_eq!(cipher.to_vec(), hex("c867360d0cf0c5df9e27322591831bf14659c9bca37d891c"));
    let plain = DesDecrypt::<_, NoPadding>::new(b"12345678", Ctr::new(&counter)).run(&cipher).unwrap();
    assert_eq!(plain.to_vec(), data);
}

#[test]
fn triple_des_two_key_and_three_key() {
    let encrypt = TripleDesEncrypt::<_, Pkcs7Padding>::new(b"1234567887654321", Cbc::new(b"00009999"));
    let cipher = encrypt.run(b"Hello, World!").unwrap();
    assert_eq!(cipher.to_vec(), hex("8eab10ab14c571b939129a25b923a0d7"));
    let decrypt = TripleDesDecrypt::<_, Pkcs7Padding>::new(b"1234567887654321", Cbc::new(b"00009999"));
    assert_eq!(decrypt.run(&cipher).unwrap().to_vec(), b"Hello, World!".to_vec());
    let encrypt = TripleDesEncrypt::<_, Pkcs7Padding>::new(b"1234567887654321abcdefgh", Cbc::new(b"00009999"));
    let cipher = encrypt.run(b"Hello, World!").unwrap();
    assert_eq!(cipher.to_vec(), hex("d523dc6bf32f26f580c813702cb839d4"));
    let decrypt = TripleDesDecrypt::<_, Pkcs7Padding>::new(b"1234567887654321abcdefgh", Cbc::new(b"00009999"));
    assert_eq!(decrypt.run(&cipher).unwrap().to_vec(), b"Hello, World!".to_vec());
    let cipher = TripleDesEncrypt::<_, Pkcs7Padding>::new(b"short", Ecb).run(b"Hello, World!").unwrap();
    assert_eq!(cipher.to_vec(), hex("2d7cefa6e3f1fdec819c240c24b631f4"));
    assert_eq!(TripleDesDecrypt::<_, Pkcs7Padding>::new(b"short", Ecb).run(&cipher).unwrap().to_vec(), b"Hello, World!".to_vec());
}

#[test]
fn triple_des_stream_modes_run_forward_in_both_directions() {
    let data: Vec<u8> = (1..25).collect();
    let key = b"1234567887654321";
    let counter = [b'a', b'b', 0xff, 0xff, 0xff, 0xff, 0xff, 0xfe];
    let cipher = TripleDesEncrypt::<_, NoPadding>::new(key, Ctr::new(&counter)).run(&data).unwrap();
    assert_eq!(cipher.to_vec(), hex("1b218651cc16846ead6e2efd59418f9a043351f41078149b"));
    assert_eq!(TripleDesDecrypt::<_, NoPadding>::new(key, Ctr::new(&counter)).run(&cipher).unwrap().to_vec(), data);
    let cipher = TripleDesEncrypt::<_, NoPadding>::new(key, Cfb::new(b"abcdefgh")).run(&data).unwrap();
    assert_eq!(cipher.to_vec(), hex("0b61ad0af2aeadc015d09484750acdafa90c769ec8c9b137"));
    assert_eq!(TripleDesDecrypt::<_, NoPadding>::new(key, Cfb::new(b"abcdefgh")).run(&cipher).unwrap().to_vec(), data);
    let cipher = TripleDesEncrypt::<_, NoPadding>::new(key, Ofb::new(b"abcdefgh")).run(&data).unwrap();
    assert_eq!(TripleDesDecrypt::<_, NoPadding>::new(key, Ofb::new(b"abcdefgh")).run(&cipher).unwrap().to_vec(), data);
}

#[test]
fn triple_key_split() {
    let (a, b, c) = split_key(&Bytes::new(b"1234567887654321".as_ref()));
    assert_eq!((a.to_vec(), b.to_vec(), c.to_vec()), (b"12345678".to_vec(), b"87654321".to_vec(), b"12345678".to_vec()));
    let (a, b, c) = split_key(&Bytes::new(b"123456788765432".as_ref()));
    assert_eq!((a.to_vec(), b.to_vec(), c.to_vec()), (b"12345678".to_vec(), b"8765432".to_vec().into_iter().chain([0u8]).collect::<Vec<u8>>(), vec![0u8; 8]));
    let (a, b, c) = split_key(&Bytes::new(b"0123456789abcdefghijklmnopqrstuvwxyz".as_ref()));
    assert_eq!((a.to_vec(), b.to_vec(), c.to_vec()), (b"01234567".to_vec(), b"89abcdef".to_vec(), b"ghijklmn".to_vec()));
}

#[test]
fn decrypting_garbage_reports_invalid_padding() {
    let decrypt = DesDecrypt::<_, Pkcs7Padding>::new(b"12345678", Ecb);
    assert_eq!(decrypt.run(&[]).err(), Some(Error::InvalidPadding));
    let cipher = DesEncrypt::<_, NoPadding>::new(b"12345678", Ecb).run(&[1, 2, 3, 4, 5, 6, 7, 200]).unwrap();
    assert_eq!(decrypt.run(&cipher).err(), Some(Error::InvalidPadding));
    let triple = TripleDesDecrypt::<_, Pkcs7Padding>::new(b"12345678", Ecb);
    assert_eq!(triple.run(&[]).err(), Some(Error::InvalidPadding));
}

#[test]
fn recipes_chain_operations() {
    let encrypt = DesEncrypt::<Ecb, ZeroPadding>::new(b"12345678", Ecb);
    let decrypt = DesDecrypt::<Ecb, ZeroPadding>::new(b"12345678", Ecb);
    let recipe = Recipe::new(vec![Box::new(encrypt), Box::new(decrypt)]);
    assert_eq!(recipe.bake(b"Hello, World!").unwrap().to_vec(), b"Hello, World!".to_vec());
    let empty = Recipe::new(vec![]);
    assert_eq!(empty.bake(b"as it is").unwrap().to_vec(), b"as it is".to_vec());
    assert_eq!(recipe.bake(b"again").unwrap().to_vec(), b"again".to_vec());
}

#[test]
fn recipes_stop_at_the_first_error() {
    let failing = DesDecrypt::<Ecb, Pkcs7Padding>::new(b"12345678", Ecb);
    let encrypt = DesEncrypt::<Ecb, ZeroPadding>::new(b"12345678", Ecb);
    let recipe = Recipe::new(vec![Box::new(failing), Box::new(encrypt)]);
    assert_eq!(recipe.bake(&[]).err(), Some(Error::InvalidPadding));
}
