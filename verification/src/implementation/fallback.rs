//! The byte-at-a-time scanner, used for short buffers and for the tails that
//! the wider backends leave over.

use vstd::prelude::*;

use super::{has_signal, is_signal, lemma_four_byte_header_mask, ScanMode};

verus! {

/// Whether `bytes` holds a null byte or the lead byte of a four-byte UTF-8
/// character.
#[must_use]
#[inline]
pub fn contains_null_or_utf8_4_byte_char_header(bytes: &[u8]) -> (found: bool)
    ensures
        found == has_signal(bytes@, ScanMode::NullOr4ByteHeader),
{
    for byte in iter: bytes.iter()
        invariant
            iter.seq() == bytes@.as_ref(),
            forall|i: int|
                0 <= i < iter.index() ==> !is_signal(
                    #[trigger] bytes@[i],
                    ScanMode::NullOr4ByteHeader,
                ),
    {
        proof {
            lemma_four_byte_header_mask(*byte);
        }
        if *byte == 0x00 || *byte & 0b1111_1000 == 0b1111_0000 {
            return true;
        }
    }
    false
}

/// Whether `bytes` holds the lead byte of a four-byte UTF-8 character.
#[must_use]
#[inline]
pub fn contains_utf8_4_byte_char_header(bytes: &[u8]) -> (found: bool)
    ensures
        found == has_signal(bytes@, ScanMode::Only4ByteHeader),
{
    for byte in iter: bytes.iter()
        invariant
            iter.seq() == bytes@.as_ref(),
            forall|i: int|
                0 <= i < iter.index() ==> !is_signal(
                    #[trigger] bytes@[i],
                    ScanMode::Only4ByteHeader,
                ),
    {
        proof {
            lemma_four_byte_header_mask(*byte);
        }
        if *byte & 0b1111_1000 == 0b1111_0000 {
            return true;
        }
    }
    false
}

} // verus!
