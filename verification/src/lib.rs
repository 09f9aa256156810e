//! Conversion between UTF-8 and two legacy relatives of it:
//!
//! - CESU-8, which writes every supplementary-plane character as a pair of
//!   three-byte surrogate sequences instead of one four-byte sequence;
//! - MUTF-8, which is CESU-8 with the null character written as the two
//!   bytes `0xC0 0x80`.
//!
//! The functions at the crate root speak CESU-8; the same functions for MUTF-8
//! live in [`mutf8`].  Whenever the input is already in the requested form the
//! result borrows it instead of allocating.
//!
//! Every function is verified against the byte-level model in [`format`];
//! [`laws`] holds what follows from that model for all inputs.

use std::borrow::Cow;

use simdutf8::basic::from_utf8;
use vstd::prelude::*;
use vstd::string::StringSliceAdditionalSpecFns;
use vstd::utf8::{encode_utf8, valid_utf8};

pub mod error;
pub mod format;
pub mod implementation;
pub mod internal;
pub mod laws;
pub mod lemmas;
pub mod mutf8;
pub mod utf8;

pub use self::error::DecodingError;
use self::format::{
    any_needs_encoding, decode_bytes, decode_lenient, encode_chars, is_plain, lossily, strictly,
};
use self::implementation::active::contains_utf8_4_byte_char_header;
use self::implementation::{has_signal, ScanMode};
use self::internal::{DecodeOptions, Flavor};
use self::laws::{
    lemma_plain_text_is_its_encoding, lemma_scan_decides_zero_copy,
    lemma_scan_finds_what_needs_encoding,
};

verus! {

/// Converts CESU-8 bytes to a string, replacing what is invalid, and treating
/// UTF-8 that is not CESU-8 as invalid.
///
/// The result is that of decoding the input as CESU-8, with U+FFFD in the
/// place of every byte at which no CESU-8 character starts.  A four-byte
/// UTF-8 character is such input: each of its four bytes is replaced.
///
/// The result borrows the input exactly when the input is well-formed UTF-8
/// and holds no four-byte character.  Otherwise the input must be short
/// enough for the worst case, three bytes of output for each byte of input,
/// to be allocated.
#[must_use]
#[inline]
pub fn decode_lossy_strict(bytes: &[u8]) -> (decoded: Cow<'_, str>)
    requires
        !is_plain(bytes@, Flavor::Cesu8) ==> 3 * bytes@.len() <= isize::MAX,
    ensures
        decode_bytes(bytes@, lossily(Flavor::Cesu8)) == Some(encode_utf8(decoded@)),
        decoded is Borrowed <==> is_plain(bytes@, Flavor::Cesu8),
{
    let options = DecodeOptions { flavor: Flavor::Cesu8, lossy: true };
    if !contains_utf8_4_byte_char_header(bytes) {
        if let Ok(text) = from_utf8(bytes) {
            proof {
                lemma_scan_decides_zero_copy(bytes@, options);
            }
            return Cow::Borrowed(text);
        }
    }
    match internal::decode(bytes, options) {
        Ok(text) => Cow::Owned(text),
        Err(_) => vstd::pervasive::unreached(),
    }
}

/// Converts CESU-8 bytes to a string, replacing what is invalid.
///
/// Input that is well-formed UTF-8 is returned borrowed, whether or not it
/// is CESU-8 as well.  All other input is decoded as CESU-8 into an owned
/// string, with U+FFFD in the place of every byte at which no CESU-8
/// character starts; it must be short enough for the worst case, three bytes
/// of output for each byte of input, to be allocated.
///
/// That UTF-8 which is not CESU-8 passes is what makes this function fast.
/// Use [`decode_lossy_strict`] where it must not pass.
#[must_use]
#[inline]
pub fn decode_lossy(bytes: &[u8]) -> (decoded: Cow<'_, str>)
    requires
        !valid_utf8(bytes@) ==> 3 * bytes@.len() <= isize::MAX,
    ensures
        decode_lenient(bytes@, lossily(Flavor::Cesu8)) == Some(encode_utf8(decoded@)),
        decoded is Borrowed <==> valid_utf8(bytes@),
{
    if let Ok(text) = from_utf8(bytes) {
        Cow::Borrowed(text)
    } else {
        match internal::decode(bytes, DecodeOptions { flavor: Flavor::Cesu8, lossy: true }) {
            Ok(text) => Cow::Owned(text),
            Err(_) => vstd::pervasive::unreached(),
        }
    }
}

/// Converts CESU-8 bytes to a string, treating UTF-8 that is not CESU-8 as
/// invalid.
///
/// The result is that of decoding the input as CESU-8.  It borrows the input
/// exactly when the input is well-formed UTF-8 and holds no four-byte
/// character.
///
/// # Errors
///
/// Fails exactly when the input is not CESU-8: when at some byte of it no
/// CESU-8 character starts.
#[inline]
pub fn decode_strict(bytes: &[u8]) -> (decoded: Result<Cow<'_, str>, DecodingError>)
    ensures
        decoded is Ok <==> decode_bytes(bytes@, strictly(Flavor::Cesu8)) is Some,
        decoded matches Ok(text) ==> decode_bytes(bytes@, strictly(Flavor::Cesu8)) == Some(
            encode_utf8(text@),
        ) && (text is Borrowed <==> is_plain(bytes@, Flavor::Cesu8)),
{
    let options = DecodeOptions { flavor: Flavor::Cesu8, lossy: false };
    proof {
        if is_plain(bytes@, Flavor::Cesu8) {
            lemma_scan_decides_zero_copy(bytes@, options);
        }
    }
    if !contains_utf8_4_byte_char_header(bytes) {
        if let Ok(text) = from_utf8(bytes) {
            return Ok(Cow::Borrowed(text));
        }
    }
    match internal::decode(bytes, options) {
        Ok(text) => Ok(Cow::Owned(text)),
        Err(error) => Err(error),
    }
}

/// Converts CESU-8 bytes to a string.
///
/// Input that is well-formed UTF-8 is returned borrowed, whether or not it
/// is CESU-8 as well.  All other input is decoded as CESU-8 into an owned
/// string.
///
/// That UTF-8 which is not CESU-8 passes is what makes this function fast.
/// Use [`decode_strict`] where it must not pass.
///
/// # Errors
///
/// Fails exactly when the input is neither UTF-8 nor CESU-8.
#[inline]
pub fn decode(bytes: &[u8]) -> (decoded: Result<Cow<'_, str>, DecodingError>)
    ensures
        decoded is Ok <==> decode_lenient(bytes@, strictly(Flavor::Cesu8)) is Some,
        decoded matches Ok(text) ==> decode_lenient(bytes@, strictly(Flavor::Cesu8)) == Some(
            encode_utf8(text@),
        ) && (text is Borrowed <==> valid_utf8(bytes@)),
{
    if let Ok(text) = from_utf8(bytes) {
        Ok(Cow::Borrowed(text))
    } else {
        match internal::decode(bytes, DecodeOptions { flavor: Flavor::Cesu8, lossy: false }) {
            Ok(text) => Ok(Cow::Owned(text)),
            Err(error) => Err(error),
        }
    }
}

/// Encodes a string as CESU-8.
///
/// A string without a four-byte character is CESU-8 as it stands, and its
/// bytes are returned borrowed.  Any other string is encoded into an owned
/// buffer, which must be short enough to be allocated: it can take up twice
/// the bytes of the string.
#[must_use]
#[inline]
pub fn encode(value: &str) -> (encoded: Cow<'_, [u8]>)
    requires
        any_needs_encoding(value@, Flavor::Cesu8) ==> 2 * value.len() <= isize::MAX,
    ensures
        encoded@ == encode_chars(value@, Flavor::Cesu8),
        encoded is Borrowed <==> !any_needs_encoding(value@, Flavor::Cesu8),
{
    if needs_encoded(value) {
        Cow::Owned(internal::encode(value, Flavor::Cesu8))
    } else {
        proof {
            lemma_plain_text_is_its_encoding(value@, Flavor::Cesu8);
        }
        Cow::Borrowed(value.as_bytes())
    }
}

/// Whether a string has to be changed to become CESU-8: whether it holds a
/// character that UTF-8 writes in four bytes.
#[must_use]
#[inline]
pub fn needs_encoded(value: &str) -> (needed: bool)
    ensures
        needed == any_needs_encoding(value@, Flavor::Cesu8),
        needed == has_signal(value.spec_bytes(), ScanMode::Only4ByteHeader),
{
    proof {
        lemma_scan_finds_what_needs_encoding(value@, Flavor::Cesu8);
    }
    contains_utf8_4_byte_char_header(value.as_bytes())
}

} // verus!
