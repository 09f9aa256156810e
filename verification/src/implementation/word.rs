//! The word-parallel scanner: one machine word of bytes per step.
//!
//! A word is tested for a zero byte with one subtraction and two masks (see
//! [`word_contains_null_byte`]); the test for a lead byte is reduced to that
//! one.  The tests are proved for words of four and of eight bytes.

use vstd::prelude::*;

use super::fallback;
use super::{has_signal, is_four_byte_header, is_signal, ScanMode};

verus! {

/// The number of bytes in a machine word.
pub const USIZE_SIZE: usize = (usize::BITS / 8) as usize;

/// Byte `lane` of `word`, counting from the least significant byte.
pub open spec fn word_lane(word: usize, lane: int) -> u8 {
    ((word >> ((8 * lane) as usize)) & 0xff) as u8
}

/// The word whose every byte is `byte`.
pub open spec fn repeated_byte(byte: u8) -> usize {
    ((usize::MAX / 255) * byte) as usize
}

/// Every byte of [`repeated_byte`] is the byte it was made from.
pub proof fn lemma_repeated_byte_lanes(byte: u8, lane: int)
    requires
        0 <= lane < USIZE_SIZE,
    ensures
        word_lane(repeated_byte(byte), lane) == byte,
{
    let ones: usize = usize::MAX;
    let word = repeated_byte(byte);
    let shift: usize = (8 * lane) as usize;
    assert((ones / 255) * byte <= ones) by (nonlinear_arith)
        requires
            0 <= byte <= 255,
            0 <= ones,
    ;
    let unit: usize = ones / 255;
    assert(((word >> shift) & 0xff) as u8 == byte) by (bit_vector)
        requires
            word == unit * byte,
            unit == 0x0101_0101usize || unit == 0x0101_0101_0101_0101u64,
            shift < 32 || (unit > 0xffff_ffffusize && shift < 64),
            shift % 8 == 0,
    ;
}

/// Whether some byte of `word` is zero.
pub open spec fn word_has_null_lane(word: usize) -> bool {
    exists|lane: int| 0 <= lane < USIZE_SIZE && #[trigger] word_lane(word, lane) == 0
}

/// Whether some byte of `word` is one that `mode` looks for.
pub open spec fn word_has_signal(word: usize, mode: ScanMode) -> bool {
    exists|lane: int| 0 <= lane < USIZE_SIZE && is_signal(#[trigger] word_lane(word, lane), mode)
}

/// The bytes of `word` are the `USIZE_SIZE` bytes of `bytes` that start at
/// `position`, the first of them in the lowest lane.
pub open spec fn word_holds(word: usize, bytes: Seq<u8>, position: int) -> bool {
    forall|lane: int|
        0 <= lane < USIZE_SIZE ==> #[trigger] word_lane(word, lane) == bytes[position + lane]
}

/// The word made of `USIZE_SIZE` copies of `byte`.
#[must_use]
#[inline]
pub fn usize_repeat_u8(byte: u8) -> (word: usize)
    ensures
        word == repeated_byte(byte),
{
    assert((usize::MAX / 255) * byte <= usize::MAX) by (nonlinear_arith)
        requires
            0 <= byte <= 255,
    ;
    (usize::MAX / 255) * (byte as usize)
}

/// Whether some byte of `word` is zero.
///
/// Subtracting one from every byte sets the top bit of a byte that was zero
/// (and possibly of bytes above it, through the borrow); masking with the
/// complement of `word` keeps only top bits that were clear before.
#[must_use]
#[inline]
pub fn word_contains_null_byte(word: usize) -> (found: bool)
    ensures
        found == word_has_null_lane(word),
{
    let low_mask: usize = usize_repeat_u8(0x01);
    let high_mask: usize = usize_repeat_u8(0x80);
    let borrowed = word.wrapping_sub(low_mask);
    let found = (borrowed & !word & high_mask) != 0;
    proof {
        let wide = usize::BITS == 64;
        let l0 = word_lane(word, 0);
        let l1 = word_lane(word, 1);
        let l2 = word_lane(word, 2);
        let l3 = word_lane(word, 3);
        let l4 = word_lane(word, 4);
        let l5 = word_lane(word, 5);
        let l6 = word_lane(word, 6);
        let l7 = word_lane(word, 7);
        assert(found == (l0 == 0 || l1 == 0 || l2 == 0 || l3 == 0 || (wide && (l4 == 0 || l5 == 0
            || l6 == 0 || l7 == 0)))) by (bit_vector)
            requires
                found == ((borrowed & !word & high_mask) != 0),
                wide ==> low_mask == 0x0101_0101_0101_0101u64 && high_mask
                    == 0x8080_8080_8080_8080u64,
                !wide ==> low_mask == 0x0101_0101usize && high_mask == 0x8080_8080usize,
                word >= low_mask ==> borrowed == word - low_mask,
                word < low_mask ==> wide ==> borrowed == word - low_mask
                    + 0x1_0000_0000_0000_0000int,
                word < low_mask ==> !wide ==> borrowed == word - low_mask + 0x1_0000_0000int,
                l0 == ((word >> 0usize) & 0xff) as u8,
                l1 == ((word >> 8usize) & 0xff) as u8,
                l2 == ((word >> 16usize) & 0xff) as u8,
                l3 == ((word >> 24usize) & 0xff) as u8,
                l4 == ((word >> 32usize) & 0xff) as u8,
                l5 == ((word >> 40usize) & 0xff) as u8,
                l6 == ((word >> 48usize) & 0xff) as u8,
                l7 == ((word >> 56usize) & 0xff) as u8,
        ;
    }
    found
}

/// Whether some byte of `word` is the lead byte of a four-byte UTF-8
/// character.
///
/// Masking every byte with `0xF8` and flipping the bits of `0xF0` leaves a
/// zero byte exactly where a lead byte stood.
#[must_use]
#[inline]
pub fn word_contains_utf8_4_byte_char_header(word: usize) -> (found: bool)
    ensures
        found == word_has_signal(word, ScanMode::Only4ByteHeader),
{
    let mask: usize = usize_repeat_u8(0b1111_1000);
    let header: usize = usize_repeat_u8(0b1111_0000);
    let folded = (word & mask) ^ header;
    proof {
        assert forall|lane: int| 0 <= lane < USIZE_SIZE implies (#[trigger] word_lane(folded, lane)
            == 0) == is_four_byte_header(word_lane(word, lane)) by {
            lemma_repeated_byte_lanes(0b1111_1000, lane);
            lemma_repeated_byte_lanes(0b1111_0000, lane);
            let shift: usize = (8 * lane) as usize;
            let byte = word_lane(word, lane);
            assert((((folded >> shift) & 0xff) as u8 == 0) == is_four_byte_header(byte))
                by (bit_vector)
                requires
                    folded == (word & mask) ^ header,
                    ((mask >> shift) & 0xff) as u8 == 0xf8,
                    ((header >> shift) & 0xff) as u8 == 0xf0,
                    byte == ((word >> shift) & 0xff) as u8,
            ;
        }
        if word_has_null_lane(folded) {
            let lane = choose|lane: int|
                0 <= lane < USIZE_SIZE && #[trigger] word_lane(folded, lane) == 0;
            assert(is_signal(word_lane(word, lane), ScanMode::Only4ByteHeader));
        }
        if word_has_signal(word, ScanMode::Only4ByteHeader) {
            let lane = choose|lane: int|
                0 <= lane < USIZE_SIZE && is_signal(
                    #[trigger] word_lane(word, lane),
                    ScanMode::Only4ByteHeader,
                );
            assert(word_lane(folded, lane) == 0);
        }
    }
    word_contains_null_byte(folded)
}

/// Whether some byte of `word` is null or the lead byte of a four-byte UTF-8
/// character.
#[must_use]
#[inline]
pub fn word_contains_null_or_utf8_4_byte_char_header(word: usize) -> (found: bool)
    ensures
        found == word_has_signal(word, ScanMode::NullOr4ByteHeader),
{
    proof {
        lemma_null_or_header(word);
    }
    word_contains_null_byte(word) || word_contains_utf8_4_byte_char_header(word)
}

/// A word holds a null byte or a lead byte exactly when it holds the one or
/// the other.
proof fn lemma_null_or_header(word: usize)
    ensures
        word_has_signal(word, ScanMode::NullOr4ByteHeader) == (word_has_null_lane(word)
            || word_has_signal(word, ScanMode::Only4ByteHeader)),
{
    if word_has_null_lane(word) {
        let lane = choose|lane: int|
            0 <= lane < USIZE_SIZE && #[trigger] word_lane(word, lane) == 0;
        assert(is_signal(word_lane(word, lane), ScanMode::NullOr4ByteHeader));
    }
    if word_has_signal(word, ScanMode::Only4ByteHeader) {
        let lane = choose|lane: int|
            0 <= lane < USIZE_SIZE && is_signal(
                #[trigger] word_lane(word, lane),
                ScanMode::Only4ByteHeader,
            );
        assert(is_signal(word_lane(word, lane), ScanMode::NullOr4ByteHeader));
    }
    if word_has_signal(word, ScanMode::NullOr4ByteHeader) {
        let lane = choose|lane: int|
            0 <= lane < USIZE_SIZE && is_signal(
                #[trigger] word_lane(word, lane),
                ScanMode::NullOr4ByteHeader,
            );
        assert(word_lane(word, lane) == 0 || is_signal(
            word_lane(word, lane),
            ScanMode::Only4ByteHeader,
        ));
    }
}

/// Reads the `USIZE_SIZE` bytes of `value` that start at `position` into one
/// word, the first of them into the lowest lane.
#[inline]
fn load_word(value: &[u8], position: usize) -> (word: usize)
    requires
        position + USIZE_SIZE <= value.len(),
    ensures
        word_holds(word, value@, position as int),
{
    let mut word: usize = 0;
    let mut lane: usize = 0;
    proof {
        assert(word >> 0usize == 0) by (bit_vector)
            requires
                word == 0,
        ;
    }
    while lane < USIZE_SIZE
        invariant
            lane <= USIZE_SIZE,
            position + USIZE_SIZE <= value.len(),
            forall|k: int| 0 <= k < lane ==> #[trigger] word_lane(word, k) == value@[position + k],
            lane < USIZE_SIZE ==> word >> ((8 * lane) as usize) == 0,
        decreases USIZE_SIZE - lane,
    {
        let byte = value[position + lane];
        let shift: usize = 8 * lane;
        let ghost before = word;
        word = word | ((byte as usize) << shift);
        proof {
            let ones: usize = usize::MAX;
            let wide = usize::BITS == 64;
            assert forall|k: int| 0 <= k < lane + 1 implies #[trigger] word_lane(word, k)
                == value@[position + k] by {
                let low: usize = (8 * k) as usize;
                assert(((word >> low) & 0xff) as u8 == (if low == shift {
                    byte
                } else {
                    ((before >> low) & 0xff) as u8
                })) by (bit_vector)
                    requires
                        word == before | ((byte as usize) << shift),
                        before >> shift == 0,
                        low <= shift,
                        low % 8 == 0,
                        shift % 8 == 0,
                        wide ==> ones == 0xffff_ffff_ffff_ffffu64,
                        shift < 32 || (wide && shift < 64),
                ;
                if k < lane {
                    assert(word_lane(word, k) == word_lane(before, k));
                }
            }
            if lane + 1 < USIZE_SIZE {
                let next: usize = (shift + 8) as usize;
                assert(word >> next == 0) by (bit_vector)
                    requires
                        word == before | ((byte as usize) << shift),
                        before >> shift == 0,
                        next == shift + 8,
                        wide ==> ones == 0xffff_ffff_ffff_ffffu64,
                        next < 32 || (wide && next < 64),
                ;
            }
        }
        lane += 1;
    }
    word
}

/// Scans `value` a word at a time.
///
/// The first word is read at the start of the buffer, further words follow
/// it end to end, and the last word is read so that it ends with the buffer.
/// The last word may overlap the one before it: a byte that is looked at twice
/// changes nothing, since the scan only asks whether a byte is present.
///
/// `fallback` scans a buffer that is shorter than one word; `test` says
/// whether a word holds a byte that is looked for.
#[must_use]
#[inline]
fn test_word_any<F, T>(value: &[u8], fallback: F, test: T, Ghost(mode): Ghost<ScanMode>) -> (found:
    bool) where F: Fn(&[u8]) -> bool, T: Fn(usize) -> bool
    requires
        forall|bytes: &[u8]| call_requires(fallback, (bytes,)),
        forall|bytes: &[u8], found: bool|
            call_ensures(fallback, (bytes,), found) ==> found == has_signal(bytes@, mode),
        forall|word: usize| call_requires(test, (word,)),
        forall|word: usize, found: bool|
            call_ensures(test, (word,), found) ==> found == word_has_signal(word, mode),
    ensures
        found == has_signal(value@, mode),
{
    let len = value.len();

    if len < USIZE_SIZE {
        return fallback(value);
    }

    let first_word = load_word(value, 0);

    if test(first_word) {
        proof {
            lemma_word_signal(first_word, value@, 0, mode);
        }
        return true;
    }

    let mut byte_position = USIZE_SIZE;
    proof {
        lemma_word_signal(first_word, value@, 0, mode);
    }

    while byte_position < len - USIZE_SIZE
        invariant
            USIZE_SIZE <= byte_position,
            USIZE_SIZE <= len == value@.len(),
            byte_position <= len,
            forall|i: int| 0 <= i < byte_position ==> !is_signal(#[trigger] value@[i], mode),
            forall|word: usize| call_requires(test, (word,)),
            forall|word: usize, found: bool|
                call_ensures(test, (word,), found) ==> found == word_has_signal(word, mode),
        decreases len - byte_position,
    {
        let word = load_word(value, byte_position);

        proof {
            lemma_word_signal(word, value@, byte_position as int, mode);
        }

        if test(word) {
            return true;
        }

        byte_position += USIZE_SIZE;
    }

    let last_word = load_word(value, len - USIZE_SIZE);
    proof {
        lemma_word_signal(last_word, value@, len - USIZE_SIZE, mode);
    }

    test(last_word)
}

/// A word that holds a stretch of `bytes` has a signal byte exactly when
/// that stretch has one.
proof fn lemma_word_signal(word: usize, bytes: Seq<u8>, position: int, mode: ScanMode)
    requires
        0 <= position,
        position + USIZE_SIZE <= bytes.len(),
        word_holds(word, bytes, position),
    ensures
        word_has_signal(word, mode) <==> exists|i: int|
            position <= i < position + USIZE_SIZE && is_signal(#[trigger] bytes[i], mode),
{
    if word_has_signal(word, mode) {
        let lane = choose|lane: int|
            0 <= lane < USIZE_SIZE && is_signal(#[trigger] word_lane(word, lane), mode);
        assert(is_signal(bytes[position + lane], mode));
    }
    if exists|i: int|
        position <= i < position + USIZE_SIZE && is_signal(#[trigger] bytes[i], mode) {
        let i = choose|i: int|
            position <= i < position + USIZE_SIZE && is_signal(#[trigger] bytes[i], mode);
        assert(is_signal(word_lane(word, i - position), mode));
    }
}

/// Whether `value` holds a null byte or the lead byte of a four-byte UTF-8
/// character.
#[must_use]
#[inline]
pub fn contains_null_or_utf8_4_byte_char_header(value: &[u8]) -> (found: bool)
    ensures
        found == has_signal(value@, ScanMode::NullOr4ByteHeader),
{
    test_word_any(
        value,
        fallback::contains_null_or_utf8_4_byte_char_header,
        word_contains_null_or_utf8_4_byte_char_header,
        Ghost(ScanMode::NullOr4ByteHeader),
    )
}

/// Whether `value` holds the lead byte of a four-byte UTF-8 character.
#[must_use]
#[inline]
pub fn contains_utf8_4_byte_char_header(value: &[u8]) -> (found: bool)
    ensures
        found == has_signal(value@, ScanMode::Only4ByteHeader),
{
    test_word_any(
        value,
        fallback::contains_utf8_4_byte_char_header,
        word_contains_utf8_4_byte_char_header,
        Ghost(ScanMode::Only4ByteHeader),
    )
}

} // verus!
