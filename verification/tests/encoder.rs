//! The encoder proper, character by character.

use simd_cesu8::internal::{
    encode as encode_with, encode_surrogate, to_surrogate_pair, Flavor,
};

fn both(value: &str) -> Vec<u8> {
    let cesu8 = encode_with(value, Flavor::Cesu8);
    let mutf8 = encode_with(value, Flavor::Mutf8);
    assert_eq!(cesu8, mutf8, "the flavors differ on {value:?}");
    cesu8
}

#[test]
fn empty_string_encodes_to_nothing() {
    assert_eq!(both(""), Vec::<u8>::new());
}

#[test]
fn characters_of_up_to_three_bytes_are_copied() {
    assert_eq!(both("E"), vec![0x45]);
    assert_eq!(both("\u{7f}"), vec![0x7f]);
    assert_eq!(both("\u{80}"), vec![0xc2, 0x80]);
    assert_eq!(both("ȅ"), vec![0xc8, 0x85]);
    assert_eq!(both("\u{7ff}"), vec![0xdf, 0xbf]);
    assert_eq!(both("\u{800}"), vec![0xe0, 0xa0, 0x80]);
    assert_eq!(both("€"), vec![0xe2, 0x82, 0xac]);
    assert_eq!(both("\u{d7ff}"), vec![0xed, 0x9f, 0xbf]);
    assert_eq!(both("\u{e000}"), vec![0xee, 0x80, 0x80]);
    assert_eq!(both("\u{ffff}"), vec![0xef, 0xbf, 0xbf]);
    assert_eq!(both("héllo €uro"), "héllo €uro".as_bytes());
}

#[test]
fn characters_of_four_bytes_become_surrogate_pairs() {
    assert_eq!(both("\u{10000}"), vec![0xed, 0xa0, 0x80, 0xed, 0xb0, 0x80]);
    assert_eq!(both("\u{10400}"), vec![0xed, 0xa0, 0x81, 0xed, 0xb0, 0x80]);
    assert_eq!(both("\u{1f496}"), vec![0xed, 0xa0, 0xbd, 0xed, 0xb2, 0x96]);
    assert_eq!(both("\u{10ffff}"), vec![0xed, 0xaf, 0xbf, 0xed, 0xbf, 0xbf]);
    assert_eq!(
        both("a\u{1f496}b"),
        vec![0x61, 0xed, 0xa0, 0xbd, 0xed, 0xb2, 0x96, 0x62]
    );
}

#[test]
fn null_is_written_by_flavor() {
    assert_eq!(encode_with("\0", Flavor::Cesu8), vec![0x00]);
    assert_eq!(encode_with("\0", Flavor::Mutf8), vec![0xc0, 0x80]);
    assert_eq!(encode_with("a\0b", Flavor::Cesu8), vec![0x61, 0x00, 0x62]);
    assert_eq!(encode_with("a\0b", Flavor::Mutf8), vec![0x61, 0xc0, 0x80, 0x62]);
}

#[test]
fn mixed_string_in_mutf8() {
    assert_eq!(
        encode_with("a\0\u{10400}€", Flavor::Mutf8),
        vec![0x61, 0xc0, 0x80, 0xed, 0xa0, 0x81, 0xed, 0xb0, 0x80, 0xe2, 0x82, 0xac]
    );
    assert_eq!(
        encode_with("a\0\u{10400}€", Flavor::Cesu8),
        vec![0x61, 0x00, 0xed, 0xa0, 0x81, 0xed, 0xb0, 0x80, 0xe2, 0x82, 0xac]
    );
}

#[test]
fn output_is_at_most_twice_the_input() {
    for value in ["\0\0\0\0", "\u{10400}\u{10400}", "a\0\u{1f496}€ȅ", ""] {
        for flavor in [Flavor::Cesu8, Flavor::Mutf8] {
            let encoded = encode_with(value, flavor);
            assert!(encoded.len() >= value.len());
            assert!(encoded.len() <= 2 * value.len());
        }
    }
    assert_eq!(encode_with("\0\0\0\0", Flavor::Mutf8).len(), 8);
    assert_eq!(encode_with("\u{10400}\u{10400}", Flavor::Cesu8).len(), 12);
}

#[test]
fn scalar_splits_into_surrogates() {
    assert_eq!(to_surrogate_pair(0x10000), [0xd800, 0xdc00]);
    assert_eq!(to_surrogate_pair(0x10400), [0xd801, 0xdc00]);
    assert_eq!(to_surrogate_pair(0x1f496), [0xd83d, 0xdc96]);
    assert_eq!(to_surrogate_pair(0x10ffff), [0xdbff, 0xdfff]);
}

#[test]
fn surrogates_agree_with_utf16() {
    for c in ['\u{10000}', '\u{10400}', '\u{1f496}', '\u{e0041}', '\u{10ffff}'] {
        let mut units = [0u16; 2];
        c.encode_utf16(&mut units);
        assert_eq!(to_surrogate_pair(c as u32), units);
    }
}

#[test]
fn surrogate_in_three_bytes() {
    assert_eq!(encode_surrogate(0xd800), [0xed, 0xa0, 0x80]);
    assert_eq!(encode_surrogate(0xd801), [0xed, 0xa0, 0x81]);
    assert_eq!(encode_surrogate(0xd83d), [0xed, 0xa0, 0xbd]);
    assert_eq!(encode_surrogate(0xdbff), [0xed, 0xaf, 0xbf]);
    assert_eq!(encode_surrogate(0xdc00), [0xed, 0xb0, 0x80]);
    assert_eq!(encode_surrogate(0xdc96), [0xed, 0xb2, 0x96]);
    assert_eq!(encode_surrogate(0xdfff), [0xed, 0xbf, 0xbf]);
    assert_eq!(encode_surrogate(0x20ac), [0xe2, 0x82, 0xac]);
}
