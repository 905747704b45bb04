use crypto::base64::alphabet;
use crypto::base64::{FromBase64, ToBase64};
use crypto::enums::Case;
use crypto::hex::{FromHex, ToHex};
use crypto::operation::Operation;
use crypto::recipe::Recipe;
use crypto::rot::Rot;
use crypto::rot13::Rot13;
use crypto::types::Error;

#[test]
fn to_hex_writes_prefix_digits_and_delimiter() {
    assert_eq!(ToHex::default().run(b"Hello").unwrap().to_vec(), b"48656c6c6f".to_vec());
    assert_eq!(ToHex::new(" ", "\\x", Case::Upper).run(b"Hello").unwrap().to_vec(), b"\\x48 \\x65 \\x6C \\x6C \\x6F".to_vec());
    assert_eq!(ToHex::new(", ", "0x", Case::Lower).run(&[0, 255, 16]).unwrap().to_vec(), b"0x00, 0xff, 0x10".to_vec());
    assert_eq!(ToHex::new(":", "", Case::Upper).run(&[0xab]).unwrap().to_vec(), b"AB".to_vec());
    assert_eq!(ToHex::new(":", "0x", Case::Upper).run(&[]).unwrap().len(), 0);
}

#[test]
fn from_hex_reads_parts() {
    assert_eq!(FromHex::new(", ", "0x").run(b"0x48, 0x65, 0x6c, 0x6c, 0x6f").unwrap().to_vec(), b"Hello".to_vec());
    assert_eq!(FromHex::default().run(b"48656c6c6f").unwrap().to_vec(), b"Hello".to_vec());
    assert_eq!(FromHex::default().run(b"48656C6c6").unwrap().to_vec(), vec![0x48u8, 0x65, 0x6c, 0x6c, 0x06]);
    assert_eq!(FromHex::default().run(b"").unwrap().len(), 0);
    assert_eq!(FromHex::new("", "\\x").run(b"\\x48\\x65").unwrap().to_vec(), b"He".to_vec());
    assert_eq!(FromHex::new(" ", "").run(b"1 +f 0ff 000a").unwrap().to_vec(), vec![1u8, 15, 255, 10]);
}

#[test]
fn from_hex_errors() {
    assert_eq!(FromHex::new(", ", "0x").run(b"0x48, 65").err(), Some(Error::UnexpectedPrefix));
    assert_eq!(FromHex::new(", ", "0x").run(b"0x48, 0xzz").err(), Some(Error::InvalidHexDigit));
    assert_eq!(FromHex::new(",", "").run(b"").err(), Some(Error::InvalidHexDigit));
    assert_eq!(FromHex::new(",", "").run(b"41,").err(), Some(Error::InvalidHexDigit));
    assert_eq!(FromHex::new(",", "").run(b"100").err(), Some(Error::InvalidHexDigit));
    assert_eq!(FromHex::new(",", "").run(b"+").err(), Some(Error::InvalidHexDigit));
    assert_eq!(FromHex::new(",", "").run(b"-1").err(), Some(Error::InvalidHexDigit));
    assert_eq!(FromHex::default().run(b"4g").err(), Some(Error::InvalidHexDigit));
    assert_eq!(FromHex::default().run(&[0x34, 0xff]).err(), Some(Error::InvalidHexDigit));
}

#[test]
fn hex_round_trip() {
    let data: Vec<u8> = (0..=255).collect();
    for (delimiter, prefix) in [("", ""), (" ", ""), (", ", "0x"), ("", "%"), ("\n", "\\x")] {
        for case in [Case::Lower, Case::Upper] {
            let text = ToHex::new(delimiter, prefix, case).run(&data).unwrap();
            assert_eq!(FromHex::new(delimiter, prefix).run(&text).unwrap().to_vec(), data);
        }
    }
}

#[test]
fn to_base64_standard() {
    let encoder = ToBase64::default();
    assert_eq!(encoder.run(b"").unwrap().to_vec(), b"".to_vec());
    assert_eq!(encoder.run(b"Hello").unwrap().to_vec(), b"SGVsbG8=".to_vec());
    assert_eq!(encoder.run(b"Hello!").unwrap().to_vec(), b"SGVsbG8h".to_vec());
    assert_eq!(encoder.run(b"Hello!!").unwrap().to_vec(), b"SGVsbG8hIQ==".to_vec());
    assert_eq!(ToBase64::new(alphabet::url_safe()).run(&[0xfb, 0xff, 0xfe]).unwrap().to_vec(), b"-__-".to_vec());
    assert_eq!(ToBase64::new(alphabet::url_safe()).run(b"Hello").unwrap().to_vec(), b"SGVsbG8".to_vec());
    assert_eq!(ToBase64::new(alphabet::y64()).run(b"Hello").unwrap().to_vec(), b"SGVsbG8-".to_vec());
}

#[test]
fn from_base64_standard() {
    let decoder = FromBase64::new(alphabet::standard(), true);
    assert_eq!(decoder.run(b"SGVsbG8=").unwrap().to_vec(), b"Hello".to_vec());
    assert_eq!(decoder.run(b"SGVsbG8h").unwrap().to_vec(), b"Hello!".to_vec());
    assert_eq!(decoder.run(b"SGVsbG8hIQ==").unwrap().to_vec(), b"Hello!!".to_vec());
    assert_eq!(decoder.run(b"").unwrap().len(), 0);
    assert_eq!(FromBase64::default().run(b"SGVsbG8").unwrap().to_vec(), b"Hello".to_vec());
    assert_eq!(FromBase64::new(alphabet::url_safe(), true).run(b"-__-").unwrap().to_vec(), vec![0xfbu8, 0xff, 0xfe]);
}

#[test]
fn from_base64_errors() {
    let strict = FromBase64::new(alphabet::standard(), true);
    assert_eq!(strict.run(b"SGVs*G8=").err(), Some(Error::InvalidBase64Character));
    assert_eq!(strict.run(b"SGVsbG8").err(), Some(Error::InvalidBase64Padding));
    assert_eq!(strict.run(b"SGVsbG8h=").err(), Some(Error::InvalidBase64Padding));
    let lenient = FromBase64::new(alphabet::standard(), false);
    assert_eq!(lenient.run(b"SGVs*G8=").err(), Some(Error::InvalidBase64Character));
    assert!(lenient.run(b"SGVsbG8h=").is_ok());
    assert_eq!(FromBase64::new(alphabet::url_safe(), true).run(b"SGVsbG8=").err(), Some(Error::InvalidBase64Character));
}

#[test]
fn base64_round_trip_in_every_alphabet() {
    let alphabets = [
        alphabet::standard, alphabet::url_safe, alphabet::filename_safe, alphabet::itoa64,
        alphabet::xml, alphabet::y64, alphabet::z64, alphabet::radix64, alphabet::xxencoding,
        alphabet::bin_hex, alphabet::rot13, alphabet::unix_crypt,
    ];
    for make in alphabets {
        for len in 0..40usize {
            let data: Vec<u8> = (0..len).map(|i| (i * 37 + 11) as u8).collect();
            let text = ToBase64::new(make()).run(&data).unwrap();
            assert_eq!(FromBase64::new(make(), true).run(&text).unwrap().to_vec(), data);
        }
    }
    let custom = alphabet::Alphabet::new(alphabet::STANDARD_CHARSET, Some(b'.'));
    assert_eq!(ToBase64::new(custom).run(b"a").unwrap().to_vec(), b"YQ..".to_vec());
    assert_eq!(alphabet::Alphabet::default().padding, Some(b'='));
}

#[test]
fn rot13_rotates_letters_only() {
    let rot13 = Rot13::default();
    assert_eq!(rot13.shift, 13);
    assert_eq!(rot13.run(b"Hello, World! xyz XYZ").unwrap().to_vec(), b"Uryyb, Jbeyq! klm KLM".to_vec());
    assert_eq!(rot13.run(&rot13.run(b"Round trip").unwrap()).unwrap().to_vec(), b"Round trip".to_vec());
    assert_eq!(Rot13::new(0).run(b"same").unwrap().to_vec(), b"same".to_vec());
    assert_eq!(Rot13::new(26).shift, 0);
    assert_eq!(Rot13::new(27).run(b"az AZ").unwrap().to_vec(), b"ba BA".to_vec());
    assert_eq!(Rot13::new(25).run(b"az AZ@[`{").unwrap().to_vec(), b"zy ZY@[`{".to_vec());
}

#[test]
fn rot_agrees_with_rot13() {
    let text: Vec<u8> = (0..=255).collect();
    for shift in 0..60u8 {
        assert_eq!(Rot::new(shift).run(&text).unwrap().to_vec(), Rot13::new(shift).run(&text).unwrap().to_vec());
    }
    assert_eq!(Rot::default().shift, 13);
    assert_eq!(Rot { shift: 200 }.run(b"a").unwrap().to_vec(), Rot::new(200).run(b"a").unwrap().to_vec());
}

#[test]
fn codecs_in_a_recipe() {
    let recipe = Recipe::new(vec![
        Box::new(ToHex::new(" ", "", Case::Lower)),
        Box::new(ToBase64::default()),
        Box::new(FromBase64::default()),
        Box::new(FromHex::new(" ", "")),
    ]);
    assert_eq!(recipe.bake(b"Hello").unwrap().to_vec(), b"Hello".to_vec());
    let failing = Recipe::new(vec![Box::new(FromHex::new(" ", "")), Box::new(ToBase64::default())]);
    assert_eq!(failing.bake(b"zz").err(), Some(Error::InvalidHexDigit));
}
