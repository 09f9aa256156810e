//! Named inputs with the results they must give.

use std::borrow::Cow;

use simd_cesu8::{
    decode, decode_lossy, decode_lossy_strict, decode_strict, encode, mutf8, needs_encoded,
};

const HEART: [u8; 4] = [0xf0, 0x9f, 0x92, 0x96];
const HEART_PAIR: [u8; 6] = [0xed, 0xa0, 0xbd, 0xed, 0xb2, 0x96];
const UNPAIRED_THEN_PAIR: [u8; 9] = [0xed, 0xa0, 0xbd, 0xed, 0xa0, 0xbd, 0xed, 0xb2, 0x96];

fn is_borrowed<T: ?Sized + ToOwned>(value: &Cow<'_, T>) -> bool {
    matches!(value, Cow::Borrowed(_))
}

#[test]
fn strict_rejects_four_byte_utf8_that_plain_lets_through() {
    assert_eq!(std::str::from_utf8(&HEART), Ok("💖"));

    assert!(decode_strict(&HEART).is_err());

    let plain = decode(&HEART).unwrap();
    assert_eq!(plain, "💖");
    assert!(is_borrowed(&plain));
}

#[test]
fn mutf8_strict_rejects_four_byte_utf8_that_plain_lets_through() {
    assert!(mutf8::decode_strict(&HEART).is_err());

    let plain = mutf8::decode(&HEART).unwrap();
    assert_eq!(plain, "💖");
    assert!(is_borrowed(&plain));
}

#[test]
fn surrogate_pair_is_one_character() {
    for decoded in [
        decode(&HEART_PAIR).unwrap(),
        decode_strict(&HEART_PAIR).unwrap(),
        decode_lossy(&HEART_PAIR),
        decode_lossy_strict(&HEART_PAIR),
        mutf8::decode(&HEART_PAIR).unwrap(),
        mutf8::decode_strict(&HEART_PAIR).unwrap(),
        mutf8::decode_lossy(&HEART_PAIR),
        mutf8::decode_lossy_strict(&HEART_PAIR),
    ] {
        assert_eq!(decoded, Cow::<str>::Owned(String::from("💖")));
        assert!(!is_borrowed(&decoded));
    }

    assert_eq!(encode("💖"), Cow::<[u8]>::Owned(HEART_PAIR.to_vec()));
    assert!(!is_borrowed(&encode("💖")));
    assert_eq!(mutf8::encode("💖"), Cow::<[u8]>::Owned(HEART_PAIR.to_vec()));
}

#[test]
fn lossy_decoding_replaces_once_per_invalid_byte_and_resumes() {
    for decoded in [
        decode_lossy(&UNPAIRED_THEN_PAIR),
        decode_lossy_strict(&UNPAIRED_THEN_PAIR),
        mutf8::decode_lossy(&UNPAIRED_THEN_PAIR),
        mutf8::decode_lossy_strict(&UNPAIRED_THEN_PAIR),
    ] {
        assert_eq!(decoded, Cow::<str>::Owned(String::from("���💖")));
        assert_eq!(decoded, "\u{fffd}\u{fffd}\u{fffd}\u{1f496}");
    }

    assert!(decode(&UNPAIRED_THEN_PAIR).is_err());
    assert!(mutf8::decode_strict(&UNPAIRED_THEN_PAIR).is_err());
}

#[test]
fn lossy_strict_replaces_every_byte_of_four_byte_utf8() {
    assert_eq!(decode_lossy_strict(&HEART), Cow::<str>::Owned(String::from("����")));
    assert_eq!(mutf8::decode_lossy_strict(&HEART), Cow::<str>::Owned(String::from("����")));

    let plain = decode_lossy(&HEART);
    assert_eq!(plain, Cow::Borrowed("💖"));
    assert!(is_borrowed(&plain));
}

#[test]
fn mutf8_writes_null_in_two_bytes() {
    assert_eq!(mutf8::encode("\0"), Cow::<[u8]>::Owned(vec![0xc0, 0x80]));
    assert!(mutf8::needs_encoded("\0"));

    assert!(mutf8::decode_strict(&[0x00]).is_err());

    let plain = mutf8::decode(&[0x00]).unwrap();
    assert_eq!(plain, "\0");
    assert!(is_borrowed(&plain));

    assert_eq!(mutf8::decode(&[0xc0, 0x80]).unwrap(), Cow::<str>::Owned(String::from("\0")));
    assert_eq!(mutf8::decode_strict(&[0xc0, 0x80]).unwrap(), "\0");
}

#[test]
fn cesu8_keeps_null_in_one_byte() {
    let encoded = encode("\0");
    assert_eq!(encoded, Cow::Borrowed(&[0x00u8][..]));
    assert!(is_borrowed(&encoded));
    assert!(!needs_encoded("\0"));

    let decoded = decode_strict(&[0x00]).unwrap();
    assert_eq!(decoded, "\0");
    assert!(is_borrowed(&decoded));

    assert!(decode(&[0xc0, 0x80]).is_err());
    assert!(decode_strict(&[0xc0, 0x80]).is_err());
    assert_eq!(decode_lossy(&[0xc0, 0x80]), "\u{fffd}\u{fffd}");
}

#[test]
fn plain_ascii_is_borrowed_by_every_entry_point() {
    let bytes = b"Hello, world!";

    for decoded in [
        decode(bytes).unwrap(),
        decode_strict(bytes).unwrap(),
        decode_lossy(bytes),
        decode_lossy_strict(bytes),
        mutf8::decode(bytes).unwrap(),
        mutf8::decode_strict(bytes).unwrap(),
        mutf8::decode_lossy(bytes),
        mutf8::decode_lossy_strict(bytes),
    ] {
        assert_eq!(decoded, Cow::Borrowed("Hello, world!"));
        assert!(is_borrowed(&decoded));
    }
}

#[test]
fn encode_by_character_width() {
    let single_byte = "\u{0045}";
    assert_eq!(single_byte, "E");
    assert_eq!(single_byte.as_bytes(), &[0x45]);
    assert_eq!(encode(single_byte), Cow::Borrowed(&[0x45u8][..]));
    assert!(is_borrowed(&encode(single_byte)));

    let two_bytes = "\u{0205}";
    assert_eq!(two_bytes, "ȅ");
    assert_eq!(two_bytes.as_bytes(), &[0xc8, 0x85]);
    assert_eq!(encode(two_bytes), Cow::Borrowed(&[0xc8u8, 0x85][..]));
    assert!(is_borrowed(&encode(two_bytes)));

    let three_bytes = "\u{20ac}";
    assert_eq!(three_bytes, "€");
    assert_eq!(three_bytes.as_bytes(), &[0xe2, 0x82, 0xac]);
    assert_eq!(encode(three_bytes), Cow::Borrowed(&[0xe2u8, 0x82, 0xac][..]));
    assert!(is_borrowed(&encode(three_bytes)));

    let four_bytes = "\u{10400}";
    assert_eq!(four_bytes, "𐐀");
    assert_eq!(four_bytes.as_bytes(), &[0xf0, 0x90, 0x90, 0x80]);
    assert_eq!(
        encode(four_bytes),
        Cow::<[u8]>::Owned(vec![0xed, 0xa0, 0x81, 0xed, 0xb0, 0x80])
    );
    assert!(!is_borrowed(&encode(four_bytes)));
}

#[test]
fn needs_encoded_by_character_width() {
    assert!(!needs_encoded("E"));
    assert!(!needs_encoded("ȅ"));
    assert!(!needs_encoded("€"));
    assert!(needs_encoded("𐐀"));
    assert!(!needs_encoded(""));

    assert!(!mutf8::needs_encoded("E"));
    assert!(!mutf8::needs_encoded("ȅ"));
    assert!(!mutf8::needs_encoded("€"));
    assert!(mutf8::needs_encoded("𐐀"));
    assert!(mutf8::needs_encoded("a\0b"));
    assert!(!mutf8::needs_encoded(""));
}

#[test]
fn the_error_says_invalid_input() {
    let error = decode_strict(&[0xff]).unwrap_err();
    assert_eq!(error.message(), "invalid input");
    assert_eq!(error, mutf8::decode(&[0xff]).unwrap_err());
}
