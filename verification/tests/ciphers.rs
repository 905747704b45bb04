use crypto::bytes::Bytes;
use crypto::operation::Operation;
use crypto::rc4::{ksa, RC4, ZERO_S_BOX};
use crypto::tea::{xxtea_mx, XxteaDecrypt, XxteaEncrypt, DELTA};

fn hex(s: &str) -> Vec<u8> {
    (0..s.len() / 2).map(|i| u8::from_str_radix(&s[2 * i..2 * i + 2], 16).unwrap()).collect()
}

#[test]
fn rc4_known_answers() {
    let rc4 = RC4::new(Bytes::new(b"Key".as_ref()));
    assert_eq!(rc4.run(b"Plaintext").unwrap().to_vec(), hex("bbf316e8d940af0ad3"));
    let rc4 = RC4::new(Bytes::new(b"CRYPTO".as_ref()));
    let cipher = rc4.run(b"Hello").unwrap();
    assert_eq!(cipher.to_vec(), hex("89954f71fd"));
    assert_eq!(rc4.run(&cipher).unwrap().to_vec(), b"Hello".to_vec());
    let rc4 = RC4::new(Bytes::new(b"Secret12".as_ref()));
    assert_eq!(rc4.run(b"Attack at dawn").unwrap().to_vec(), hex("2e5de0fa9378433797c2153f0bb4"));
}

#[test]
fn rc4_long_messages_wrap_the_box_index() {
    let mut long: Vec<u8> = (0..=255).collect();
    long.extend(0..=255u8);
    long.extend(b"tail");
    let cipher = RC4::new(Bytes::new(b"Secret".as_ref())).run(&long).unwrap();
    assert_eq!(&cipher[cipher.len() - 8..], &hex("5c9fd5490e06b525")[..]);
}

#[test]
fn rc4_empty_passphrase_uses_the_fixed_box() {
    assert_eq!(ksa(&[]), ZERO_S_BOX.to_vec());
    assert_eq!(RC4::default().run(b"Hello").unwrap().to_vec(), hex("967de52dcc"));
    let identity: Vec<u8> = ksa(&[0]);
    assert_eq!(identity.len(), 256);
    let mut sorted = ksa(b"any key");
    sorted.sort();
    assert_eq!(sorted, (0..=255).collect::<Vec<u8>>());
}

#[test]
fn xxtea_known_answers() {
    let key = [2, 0, 0, 0, 2, 0, 0, 0, 3, 0, 0, 0, 4, 0, 0];
    let cipher = XxteaEncrypt::new(&key, false).run(&[1, 0, 0, 0, 2, 0, 0]).unwrap();
    assert_eq!(cipher.to_vec(), hex("8ba408c132cbbc7a"));
    assert_eq!(XxteaDecrypt::new(&key, false).run(&cipher).unwrap().to_vec(), vec![1u8, 0, 0, 0, 2, 0, 0, 0]);
}

#[test]
fn xxtea_with_length() {
    let key = b"0123456789abcdef-extra";
    let cipher = XxteaEncrypt::new(key, true).run(b"Hello, XXTEA!").unwrap();
    assert_eq!(cipher.to_vec(), hex("713d03e52249e5fcd19cc232596dd02a90f63cc8"));
    assert_eq!(XxteaDecrypt::new(key, true).run(&cipher).unwrap().to_vec(), b"Hello, XXTEA!".to_vec());
    assert_eq!(XxteaEncrypt::new(key, false).run(b"").unwrap().len(), 0);
    assert_eq!(XxteaDecrypt::new(key, true).run(b"").unwrap().len(), 0);
    assert_eq!(XxteaEncrypt::new(b"k", false).run(b"abcd").unwrap().to_vec(), hex("3c5b9364"));
}

#[test]
fn xxtea_round_trips() {
    for len in 5..60usize {
        let message: Vec<u8> = (0..len).map(|i| (i * 7 + 3) as u8).collect();
        let cipher = XxteaEncrypt::new(b"a key of 16 byte", true).run(&message).unwrap();
        assert_eq!(XxteaDecrypt::new(b"a key of 16 byte", true).run(&cipher).unwrap().to_vec(), message);
    }
}

#[test]
fn xxtea_mixing_function() {
    let key = [1u32, 2, 3, 4];
    let expected = (((7u32 >> 5) ^ (9u32 << 2)).wrapping_add((9u32 >> 3) ^ (7u32 << 4))) ^ ((DELTA ^ 9).wrapping_add(key[(5 & 3) ^ 2] ^ 7));
    assert_eq!(xxtea_mx(7, 9, DELTA, &key, 5, 2), expected);
    assert_eq!(DELTA, 0x9E3779B9);
}
