//! The fast scanner: does a buffer hold any byte that forces a conversion?
//!
//! Two kinds of byte matter.  A byte whose top five bits are `11110` starts a
//! four-byte UTF-8 character, which CESU-8 and MUTF-8 write differently.  A
//! null byte is written differently by MUTF-8 alone.  The scanner only looks
//! for these bit patterns; it never checks that the buffer is well formed.
//!
//! The three backends ([`fallback`], [`word`], [`simd`]) differ in how many
//! bytes they inspect per step and in nothing a caller can observe: each is
//! proved to return [`has_signal`] of its input.

use vstd::prelude::*;

pub mod fallback;
pub mod simd;
pub mod word;

/// The backend that the rest of the crate calls.
pub use self::word as active;

verus! {

/// Which bytes the scanner looks for.
#[derive(Clone, Copy, PartialEq, Eq, Structural, Debug)]
pub enum ScanMode {
    /// Null bytes and four-byte lead bytes (the MUTF-8 rule).
    NullOr4ByteHeader,
    /// Four-byte lead bytes only (the CESU-8 rule).
    Only4ByteHeader,
}

/// One of the three interchangeable ways to scan.
#[derive(Clone, Copy, PartialEq, Eq, Structural, Debug)]
pub enum Backend {
    /// One byte per step.
    Fallback,
    /// One machine word per step.
    Word,
    /// One group of byte lanes per step.
    Simd,
}

/// `byte` has the form `11110xxx`: it is the lead byte of a four-byte UTF-8
/// character.
pub open spec fn is_four_byte_header(byte: u8) -> bool {
    0xf0 <= byte <= 0xf7
}

/// `byte` is one of the bytes that `mode` looks for.
pub open spec fn is_signal(byte: u8, mode: ScanMode) -> bool {
    is_four_byte_header(byte) || (mode == ScanMode::NullOr4ByteHeader && byte == 0)
}

/// Some byte of `bytes` is one that `mode` looks for.
pub open spec fn has_signal(bytes: Seq<u8>, mode: ScanMode) -> bool {
    exists|i: int| 0 <= i < bytes.len() && is_signal(#[trigger] bytes[i], mode)
}

/// Scans `bytes` with the backend given.
///
/// The answer does not depend on the backend, nor on anything but the bytes
/// and the mode: scanning the same buffer again gives the same answer.
#[must_use]
pub fn scan_with(backend: Backend, bytes: &[u8], mode: ScanMode) -> (found: bool)
    ensures
        found == has_signal(bytes@, mode),
{
    match (backend, mode) {
        (Backend::Fallback, ScanMode::NullOr4ByteHeader) => {
            fallback::contains_null_or_utf8_4_byte_char_header(bytes)
        },
        (Backend::Fallback, ScanMode::Only4ByteHeader) => {
            fallback::contains_utf8_4_byte_char_header(bytes)
        },
        (Backend::Word, ScanMode::NullOr4ByteHeader) => {
            word::contains_null_or_utf8_4_byte_char_header(bytes)
        },
        (Backend::Word, ScanMode::Only4ByteHeader) => word::contains_utf8_4_byte_char_header(bytes),
        (Backend::Simd, ScanMode::NullOr4ByteHeader) => {
            simd::contains_null_or_utf8_4_byte_char_header(bytes)
        },
        (Backend::Simd, ScanMode::Only4ByteHeader) => simd::contains_utf8_4_byte_char_header(bytes),
    }
}

/// Whether `bytes` holds a byte that `mode` looks for.
#[must_use]
#[inline]
pub fn scan(bytes: &[u8], mode: ScanMode) -> (found: bool)
    ensures
        found == has_signal(bytes@, mode),
{
    match mode {
        ScanMode::NullOr4ByteHeader => active::contains_null_or_utf8_4_byte_char_header(bytes),
        ScanMode::Only4ByteHeader => active::contains_utf8_4_byte_char_header(bytes),
    }
}

/// The mask test used by the executable code picks out exactly the four-byte
/// lead bytes.
pub proof fn lemma_four_byte_header_mask(byte: u8)
    by (bit_vector)
    ensures
        (byte & 0xf8 == 0xf0) <==> is_four_byte_header(byte),
{
}

} // verus!
