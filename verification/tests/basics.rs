use multiparty_payjoin::bytes::{
    i32_from_le, i32_to_le, u32_from_le, u32_to_le, u64_from_le, u64_to_le,
};
use multiparty_payjoin::directory::ShortId;
use multiparty_payjoin::hex::{hex_decode, hex_encode, HexError};
use multiparty_payjoin::hpke::{
    decrypt_message_a, encrypt_message_a, open_plaintext_a, HpkeError, HpkeKeyPair, HpkePublicKey,
};
use multiparty_payjoin::text::{decimal_string, to_lower, to_upper};
use multiparty_payjoin::time::Time;
use multiparty_payjoin::url::{Url, UrlParseError};

#[test]
fn url_parts_and_text() {
    let url = Url::parse("HTTPS://Payjo.in:443/a/b?x=1#F").expect("a URL");
    assert_eq!(url.scheme, "https");
    assert_eq!(url.authority, "payjo.in:443");
    assert_eq!(url.path, "/a/b");
    assert_eq!(url.query.as_deref(), Some("x=1"));
    assert_eq!(url.fragment.as_deref(), Some("F"));
    assert_eq!(url.as_string(), "https://payjo.in:443/a/b?x=1#F");
    assert_eq!(Url::parse(&url.as_string()), Ok(url));
}

#[test]
fn url_errors() {
    assert_eq!(Url::parse("payjo.in"), Err(UrlParseError::MissingScheme));
    assert_eq!(Url::parse("1http://payjo.in"), Err(UrlParseError::InvalidScheme));
    assert_eq!(Url::parse("http:///path"), Err(UrlParseError::EmptyHost));
}

#[test]
fn longer_text_is_a_url() {
    for text in ["http://a", "http://a/b", "http://a?q", "http://a#f"] {
        assert!(Url::parse(text).is_ok());
        assert!(Url::parse(&format!("{}/ID1QQQ", text)).is_ok());
    }
}

#[test]
fn origin_drops_path_query_and_fragment() {
    let url = Url::parse("https://payjo.in/mailbox?x#y").expect("a URL");
    assert_eq!(url.payjoin_directory_origin().as_string(), "https://payjo.in/");
}

#[test]
fn relay_learns_the_origin_alone() {
    let relay = Url::parse("http://relay.example").expect("a URL");
    let one = Url::parse("https://payjo.in/one#secret").expect("a URL");
    let two = Url::parse("https://payjo.in/two").expect("a URL");
    assert_eq!(relay.relay_to(&one).as_string(), "http://relay.example/https://payjo.in/");
    assert_eq!(relay.relay_to(&one), relay.relay_to(&two));
}

#[test]
fn segments_are_pushed() {
    let url = Url::parse("https://payjo.in").expect("a URL");
    assert_eq!(url.push_segment("a").as_string(), "https://payjo.in/a");
    assert_eq!(url.push_segment("a").push_segment("b").as_string(), "https://payjo.in/a/b");
}

#[test]
fn time_after_and_elapsed() {
    let time = Time::after(1000, 10).expect("in range");
    assert_eq!(time, Time(1010));
    assert!(!time.elapsed_at(1009));
    assert!(time.elapsed_at(1010));
    assert!(time.elapsed_at(1011));
    assert_eq!(Time::after(u32::MAX as u64, 1), None);
    assert_eq!(Time::after(u64::MAX, 1), None);
    assert!(Time::from_now(0).expect("in range").0 > 1_600_000_000);
}

#[test]
fn decimal_and_case() {
    assert_eq!(decimal_string(0), "0");
    assert_eq!(decimal_string(18_446_744_073_709_551_615), "18446744073709551615");
    assert_eq!(to_lower("AbC-1"), "abc-1");
    assert_eq!(to_upper("AbC-1"), "ABC-1");
}

#[test]
fn short_id_is_the_front_of_a_sha256_digest() {
    // The SHA-256 digest of "abc" starts with ba7816bf8f01cfea.
    let id = ShortId::of_bytes(b"abc");
    assert_eq!(id.0, [0xba, 0x78, 0x16, 0xbf, 0x8f, 0x01, 0xcf, 0xea]);
}

#[test]
fn hex_round_trips() {
    assert_eq!(hex_encode(b"foobar"), "666f6f626172");
    assert_eq!(hex_decode("666f6f626172"), Ok(b"foobar".to_vec()));
    assert_eq!(hex_decode("666F6F626172"), Ok(b"foobar".to_vec()));
    assert_eq!(hex_decode(""), Ok(vec![]));
    let all: Vec<u8> = (0..=255).collect();
    assert_eq!(hex_decode(&hex_encode(&all)), Ok(all));
}

#[test]
fn hex_errors() {
    assert_eq!(hex_decode("123"), Err(HexError::OddLength));
    let err = hex_decode("12g4").unwrap_err();
    assert_eq!(err, HexError::InvalidHexCharacter { c: 'g', index: 2 });
    assert_eq!(err.message(), "Invalid character g at position 2");
    assert_eq!(HexError::OddLength.message(), "Odd number of digits");
}

#[test]
fn sealed_message_is_opened_by_the_receiver_alone() {
    let receiver = HpkeKeyPair::gen_keypair();
    let sender = HpkeKeyPair::gen_keypair();
    let message =
        encrypt_message_a(b"body".to_vec(), sender.public_key(), receiver.public_key()).unwrap();
    assert_eq!(message.len(), 7168);
    let (body, reply_key) = decrypt_message_a(&message, receiver.secret_key()).expect("opens");
    assert_eq!(body.len(), 7023);
    assert_eq!(&body[..4], b"body");
    assert!(body[4..].iter().all(|b| *b == 0));
    assert_eq!(reply_key, sender.public);
    assert_eq!(
        decrypt_message_a(&message, sender.secret_key()).err(),
        Some(HpkeError::Hpke)
    );
    assert_eq!(
        decrypt_message_a(&message[..63], receiver.secret_key()).err(),
        Some(HpkeError::PayloadTooShort)
    );
}

#[test]
fn plaintext_without_a_key_is_refused() {
    assert_eq!(open_plaintext_a(None).err(), Some(HpkeError::Hpke));
    assert_eq!(open_plaintext_a(Some(vec![0; 64])).err(), Some(HpkeError::PayloadTooShort));
    assert_eq!(open_plaintext_a(Some(vec![0; 70])).err(), Some(HpkeError::Hpke));
    let key = HpkeKeyPair::gen_keypair().public;
    let mut plaintext = key.to_bytes().to_vec();
    plaintext.extend(b"rest");
    assert_eq!(open_plaintext_a(Some(plaintext)), Ok((b"rest".to_vec(), key)));
}

#[test]
fn derived_keys_depend_on_the_material_alone() {
    let one = HpkeKeyPair::derive_keypair(&[7u8; 32]);
    let two = HpkeKeyPair::derive_keypair(&[7u8; 32]);
    let other = HpkeKeyPair::derive_keypair(&[8u8; 32]);
    assert_eq!(one.public, two.public);
    assert_ne!(one.public, other.public);
    let message = encrypt_message_a(vec![1], &one.public, &two.public).unwrap();
    assert!(decrypt_message_a(&message, one.secret_key()).is_ok());
}

#[test]
fn public_keys_round_trip() {
    let key = HpkeKeyPair::gen_keypair().public;
    assert_eq!(HpkePublicKey::from_bytes(&key.to_bytes()), Ok(key));
    let compressed = key.to_compressed_bytes();
    assert!(compressed[0] == 2 || compressed[0] == 3);
    assert_eq!(HpkePublicKey::from_compressed_bytes(&compressed), Ok(key));
    assert_eq!(HpkePublicKey::from_bytes(&[0u8; 65]), Err(HpkeError::InvalidPublicKey));
    assert_eq!(
        HpkePublicKey::from_compressed_bytes(&[0u8; 33]),
        Err(HpkeError::InvalidPublicKey)
    );
    assert_eq!(key.short_id(), ShortId::of_bytes(&compressed));
}

#[test]
fn little_endian_bytes() {
    assert_eq!(u32_to_le(0x0102_0304), vec![4, 3, 2, 1]);
    assert_eq!(u32_from_le(&[0xfd, 0xff, 0xff, 0xff]), 0xffff_fffd);
    assert_eq!(u64_to_le(0x0102_0304_0506_0708), vec![8, 7, 6, 5, 4, 3, 2, 1]);
    assert_eq!(u64_from_le(&[1, 0, 0, 0, 0, 0, 0, 0x80]), 0x8000_0000_0000_0001);
    for x in [0, 1, -1, 2, i32::MIN, i32::MAX] {
        assert_eq!(i32_to_le(x), x.to_le_bytes().to_vec());
        assert_eq!(i32_from_le(&x.to_le_bytes()), x);
    }
}
