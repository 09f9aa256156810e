//! Modified UTF-8 (MUTF-8): CESU-8 with the null character written as the two
//! bytes `0xC0 0x80`, so that an encoded string never holds a `0x00` byte.
//!
//! The functions are those of the crate root, for this flavor.

use std::borrow::Cow;

use simdutf8::basic::from_utf8;
use vstd::prelude::*;
use vstd::string::StringSliceAdditionalSpecFns;
use vstd::utf8::{encode_utf8, valid_utf8};

use crate::error::DecodingError;
use crate::format::{
    any_needs_encoding, decode_bytes, decode_lenient, encode_chars, is_plain, lossily, strictly,
};
use crate::implementation::active::contains_null_or_utf8_4_byte_char_header;
use crate::implementation::{has_signal, ScanMode};
use crate::internal;
use crate::internal::{DecodeOptions, Flavor};
use crate::laws::{
    lemma_plain_text_is_its_encoding, lemma_scan_decides_zero_copy,
    lemma_scan_finds_what_needs_encoding,
};

verus! {

/// Converts MUTF-8 bytes to a string, replacing what is invalid, and treating
/// UTF-8 that is not MUTF-8 as invalid.
///
/// The result is that of decoding the input as MUTF-8, with U+FFFD in the
/// place of every byte at which no MUTF-8 character starts.  A four-byte
/// UTF-8 character is such input: each of its four bytes is replaced.
///
/// The result borrows the input exactly when the input is well-formed UTF-8
/// and holds neither a null byte nor a four-byte character.  Otherwise the
/// input must be short enough for the worst case, three bytes of output for
/// each byte of input, to be allocated.
#[must_use]
#[inline]
pub fn decode_lossy_strict(bytes: &[u8]) -> (decoded: Cow<'_, str>)
    requires
        !is_plain(bytes@, Flavor::Mutf8) ==> 3 * bytes@.len() <= isize::MAX,
    ensures
        decode_bytes(bytes@, lossily(Flavor::Mutf8)) == Some(encode_utf8(decoded@)),
        decoded is Borrowed <==> is_plain(bytes@, Flavor::Mutf8),
{
    let options = DecodeOptions { flavor: Flavor::Mutf8, lossy: true };
    if !contains_null_or_utf8_4_byte_char_header(bytes) {
        if let Ok(text) = from_utf8(bytes) {
            proof {
                lemma_scan_decides_zero_copy(bytes@, options);
            }
            return Cow::Borrowed(text);
        }
    }
    match internal::decode(bytes, options) {
        Ok(text) => Cow::Owned(text),
        Err(_) => vstd::pervasive::unreached(),
    }
}

/// Converts MUTF-8 bytes to a string, replacing what is invalid.
///
/// Input that is well-formed UTF-8 is returned borrowed, whether or not it
/// is MUTF-8 as well.  All other input is decoded as MUTF-8 into an owned
/// string, with U+FFFD in the place of every byte at which no MUTF-8
/// character starts; it must be short enough for the worst case, three bytes
/// of output for each byte of input, to be allocated.
///
/// That UTF-8 which is not MUTF-8 passes is what makes this function fast.
/// Use [`decode_lossy_strict`] where it must not pass.
#[must_use]
#[inline]
pub fn decode_lossy(bytes: &[u8]) -> (decoded: Cow<'_, str>)
    requires
        !valid_utf8(bytes@) ==> 3 * bytes@.len() <= isize::MAX,
    ensures
        decode_lenient(bytes@, lossily(Flavor::Mutf8)) == Some(encode_utf8(decoded@)),
        decoded is Borrowed <==> valid_utf8(bytes@),
{
    if let Ok(text) = from_utf8(bytes) {
        Cow::Borrowed(text)
    } else {
        match internal::decode(bytes, DecodeOptions { flavor: Flavor::Mutf8, lossy: true }) {
            Ok(text) => Cow::Owned(text),
            Err(_) => vstd::pervasive::unreached(),
        }
    }
}

/// Converts MUTF-8 bytes to a string, treating UTF-8 that is not MUTF-8 as
/// invalid.
///
/// The result is that of decoding the input as MUTF-8.  It borrows the input
/// exactly when the input is well-formed UTF-8 and holds neither a null byte
/// nor a four-byte character.
///
/// # Errors
///
/// Fails exactly when the input is not MUTF-8: when at some byte of it no
/// MUTF-8 character starts.
#[inline]
pub fn decode_strict(bytes: &[u8]) -> (decoded: Result<Cow<'_, str>, DecodingError>)
    ensures
        decoded is Ok <==> decode_bytes(bytes@, strictly(Flavor::Mutf8)) is Some,
        decoded matches Ok(text) ==> decode_bytes(bytes@, strictly(Flavor::Mutf8)) == Some(
            encode_utf8(text@),
        ) && (text is Borrowed <==> is_plain(bytes@, Flavor::Mutf8)),
{
    let options = DecodeOptions { flavor: Flavor::Mutf8, lossy: false };
    proof {
        if is_plain(bytes@, Flavor::Mutf8) {
            lemma_scan_decides_zero_copy(bytes@, options);
        }
    }
    if !contains_null_or_utf8_4_byte_char_header(bytes) {
        if let Ok(text) = from_utf8(bytes) {
            return Ok(Cow::Borrowed(text));
        }
    }
    match internal::decode(bytes, options) {
        Ok(text) => Ok(Cow::Owned(text)),
        Err(error) => Err(error),
    }
}

/// Converts MUTF-8 bytes to a string.
///
/// Input that is well-formed UTF-8 is returned borrowed, whether or not it
/// is MUTF-8 as well.  All other input is decoded as MUTF-8 into an owned
/// string.
///
/// That UTF-8 which is not MUTF-8 passes is what makes this function fast.
/// Use [`decode_strict`] where it must not pass.
///
/// # Errors
///
/// Fails exactly when the input is neither UTF-8 nor MUTF-8.
#[inline]
pub fn decode(bytes: &[u8]) -> (decoded: Result<Cow<'_, str>, DecodingError>)
    ensures
        decoded is Ok <==> decode_lenient(bytes@, strictly(Flavor::Mutf8)) is Some,
        decoded matches Ok(text) ==> decode_lenient(bytes@, strictly(Flavor::Mutf8)) == Some(
            encode_utf8(text@),
        ) && (text is Borrowed <==> valid_utf8(bytes@)),
{
    if let Ok(text) = from_utf8(bytes) {
        Ok(Cow::Borrowed(text))
    } else {
        match internal::decode(bytes, DecodeOptions { flavor: Flavor::Mutf8, lossy: false }) {
            Ok(text) => Ok(Cow::Owned(text)),
            Err(error) => Err(error),
        }
    }
}

/// Encodes a string as MUTF-8.
///
/// A string with neither a null character nor a four-byte character is
/// MUTF-8 as it stands, and its bytes are returned borrowed.  Any other string
/// is encoded into an owned buffer, which must be short enough to be
/// allocated: it can take up twice the bytes of the string.
#[must_use]
#[inline]
pub fn encode(value: &str) -> (encoded: Cow<'_, [u8]>)
    requires
        any_needs_encoding(value@, Flavor::Mutf8) ==> 2 * value.len() <= isize::MAX,
    ensures
        encoded@ == encode_chars(value@, Flavor::Mutf8),
        encoded is Borrowed <==> !any_needs_encoding(value@, Flavor::Mutf8),
{
    if needs_encoded(value) {
        Cow::Owned(internal::encode(value, Flavor::Mutf8))
    } else {
        proof {
            lemma_plain_text_is_its_encoding(value@, Flavor::Mutf8);
        }
        Cow::Borrowed(value.as_bytes())
    }
}

/// Whether a string has to be changed to become MUTF-8: whether it holds the
/// null character or a character that UTF-8 writes in four bytes.
#[must_use]
#[inline]
pub fn needs_encoded(value: &str) -> (needed: bool)
    ensures
        needed == any_needs_encoding(value@, Flavor::Mutf8),
        needed == has_signal(value.spec_bytes(), ScanMode::NullOr4ByteHeader),
{
    proof {
        lemma_scan_finds_what_needs_encoding(value@, Flavor::Mutf8);
    }
    contains_null_or_utf8_4_byte_char_header(value.as_bytes())
}

} // verus!
