//! The encoder and the decoder proper.
//!
//! Both walk their input once, from left to right, one character at a time.
//! What they produce is laid down in [`crate::format`].

use vstd::prelude::*;
use vstd::utf8::*;

use crate::error::DecodingError;
use crate::format::{
    decode_bytes, decode_first, encode_char, encode_chars, four_byte_form, high_surrogate,
    is_high_surrogate, is_low_surrogate, is_supplementary, is_surrogate_pair_tail,
    join_surrogates, low_surrogate, prepend, replacement, surrogate_unit, three_byte_form,
};
use crate::laws::lemma_decode_bytes_valid;
use crate::lemmas::{lemma_prepend_twice, lemma_surrogate_pair_units};

verus! {

/// The two encodings this crate speaks.
///
/// They differ in one point only: MUTF-8 writes the null character as
/// `0xC0 0x80` and does not allow a `0x00` byte.
#[derive(Debug, Clone, Copy, PartialEq, Eq, Structural)]
pub enum Flavor {
    /// CESU-8.
    Cesu8,
    /// Modified UTF-8.
    Mutf8,
}

/// How to decode: in which flavor, and what to do with invalid input.
#[derive(Debug, Clone, Copy)]
pub struct DecodeOptions {
    /// The encoding of the input.
    pub flavor: Flavor,
    /// Whether an invalid sequence is replaced by U+FFFD (`true`) or ends the
    /// decoding with an error (`false`).
    pub lossy: bool,
}

/// Decodes `bytes` to a string.
///
/// Strict decoding fails at the first byte at which no character of the
/// flavor starts.  Lossy decoding never fails: it puts out U+FFFD for such a
/// byte and goes on with the next one.
#[inline]
pub fn decode(bytes: &[u8], options: DecodeOptions) -> (result: Result<String, DecodingError>)
    requires
        options.lossy ==> 3 * bytes@.len() <= isize::MAX,
    ensures
        result is Ok <==> decode_bytes(bytes@, options) is Some,
        result matches Ok(text) ==> decode_bytes(bytes@, options) == Some(encode_utf8(text@)),
        options.lossy ==> result is Ok,
{
    let capacity = if options.lossy {
        // In the worst case every byte is invalid and becomes U+FFFD.
        bytes.len().checked_mul(3).unwrap_or(ISIZE_MAX_USIZE)
    } else {
        // A decoded string is never longer than its encoding.
        bytes.len()
    };

    let mut decoded = Vec::<u8>::with_capacity(capacity);
    let mut processed: usize = 0;

    proof {
        assert(bytes@.skip(0) =~= bytes@);
        assert(Seq::<u8>::empty() + decode_bytes(bytes@, options)->0 =~= decode_bytes(
            bytes@,
            options,
        )->0);
    }

    while processed < bytes.len()
        invariant
            processed <= bytes.len(),
            decode_bytes(bytes@, options) == prepend(
                decoded@,
                decode_bytes(bytes@.skip(processed as int), options),
            ),
        decreases bytes.len() - processed,
    {
        let ghost tail = bytes@.skip(processed as int);
        let ghost before = decoded@;
        match decode_next(bytes, processed, options.flavor, &mut decoded) {
            Some(next) => {
                proof {
                    let (utf8, taken) = decode_first(tail, options.flavor)->0;
                    assert(tail.skip(taken) =~= bytes@.skip(next as int));
                    lemma_prepend_twice(before, utf8, decode_bytes(tail.skip(taken), options));
                }
                processed = next;
            },
            None => {
                if options.lossy {
                    decoded.extend_from_slice(&[0xef, 0xbf, 0xbd]);
                    proof {
                        assert(tail.skip(1) =~= bytes@.skip(processed + 1));
                        lemma_prepend_twice(
                            before,
                            replacement(),
                            decode_bytes(tail.skip(1), options),
                        );
                    }
                    processed += 1;
                } else {
                    return Err(DecodingError(()));
                }
            },
        }
    }

    proof {
        lemma_decode_bytes_valid(bytes@, options);
    }
    match String::from_utf8(decoded) {
        Ok(text) => Ok(text),
        Err(_) => vstd::pervasive::unreached(),
    }
}

/// Decodes the one character that starts at `start`, if one does.
///
/// On success the character's UTF-8 bytes are appended to `decoded` and the
/// index behind its encoding is returned.  Otherwise `decoded` is left as it
/// was.
#[inline]
fn decode_next(bytes: &[u8], start: usize, flavor: Flavor, decoded: &mut Vec<u8>) -> (next: Option<
    usize,
>)
    requires
        start < bytes.len(),
    ensures
        decode_first(bytes@.skip(start as int), flavor) matches Some((utf8, taken)) ==> next
            == Some((start + taken) as usize) && start + taken <= bytes.len() && final(decoded)@
            == old(decoded)@ + utf8,
        decode_first(bytes@.skip(start as int), flavor) is None ==> next is None
            && final(decoded)@ == old(decoded)@,
{
    let ghost tail = bytes@.skip(start as int);
    let len = bytes.len();
    let first = bytes[start];
    let mut index = start + 1;

    match first {
        0x00 if flavor == Flavor::Mutf8 => {
            return None;
        },
        0x00..=0x7f => {
            decoded.push(first);
        },
        0xc0 if flavor == Flavor::Mutf8 => {
            if index >= len {
                return None;
            }
            let second = bytes[index];
            index += 1;

            if second != 0x80 {
                return None;
            }
            decoded.push(0x00);
        },
        0xc2..=0xdf => {
            if index >= len {
                return None;
            }
            let second = bytes[index];
            index += 1;

            proof {
                utf8_byte_ranges_bitwise(second);
            }
            if second & 0b1100_0000 != 0b1000_0000 {
                return None;
            }
            decoded.extend_from_slice(&[first, second]);
        },
        0xe0..=0xef => {
            if index >= len {
                return None;
            }
            let second = bytes[index];
            index += 1;

            match (first, second) {
                (0xe0, 0xa0..=0xbf) | (0xe1..=0xec | 0xee..=0xef, 0x80..=0xbf) | (
                    0xed,
                    0x80..=0x9f,
                ) => {
                    if index >= len {
                        return None;
                    }
                    let third = bytes[index];
                    index += 1;

                    proof {
                        utf8_byte_ranges_bitwise(third);
                    }
                    if third & 0b1100_0000 != 0b1000_0000 {
                        return None;
                    }
                    decoded.extend_from_slice(&[first, second, third]);
                },
                (0xed, 0xa0..=0xaf) => {
                    if len - index < 4 {
                        return None;
                    }
                    let slice = &bytes[index..index + 4];
                    let third = slice[0];
                    let fourth = slice[1];
                    let fifth = slice[2];
                    let sixth = slice[3];
                    assert(tail[2] == third && tail[3] == fourth && tail[4] == fifth && tail[5]
                        == sixth);

                    // One test for all four bytes: the first is a
                    // continuation byte, the second is 0xED, the third lies
                    // in 0xB0..=0xBF and the fourth is a continuation byte.
                    let value = u32::from(third) << 24 | u32::from(fourth) << 16 | u32::from(fifth)
                        << 8 | u32::from(sixth);
                    let validation_mask = 0b1100_0000_1111_1111_1111_0000_1100_0000u32;
                    let desired = 0b1000_0000_1110_1101_1011_0000_1000_0000u32;
                    assert((value & validation_mask == desired) == is_surrogate_pair_tail(
                        second,
                        third,
                        fourth,
                        fifth,
                        sixth,
                    )) by (bit_vector)
                        requires
                            0xa0 <= second <= 0xaf,
                            value == (third as u32) << 24 | (fourth as u32) << 16 | (fifth as u32)
                                << 8 | (sixth as u32),
                            validation_mask == 0xc0fff0c0u32,
                            desired == 0x80edb080u32,
                    ;

                    if value & validation_mask != desired {
                        return None;
                    }
                    proof {
                        lemma_surrogate_pair_units(second, third, fourth, fifth, sixth);
                    }

                    index += 4;
                    let c = decode_surrogate_pair(second, third, fifth, sixth);
                    decoded.extend_from_slice(&c);
                },
                _ => {
                    return None;
                },
            }
        },
        _ => {
            return None;
        },
    }

    Some(index)
}

/// The sixteen-bit unit carried by the two continuation bytes of a
/// three-byte sequence whose lead byte is `0xED`.
#[inline]
pub fn decode_surrogate(second: u8, third: u8) -> (unit: u32)
    ensures
        unit == surrogate_unit(second, third),
{
    let unit = 0xd000 | u32::from(second & 0b0011_1111) << 6 | u32::from(third & 0b0011_1111);
    assert(unit == surrogate_unit(second, third)) by (bit_vector)
        requires
            unit == 0xd000u32 | ((second & 0x3f) as u32) << 6 | ((third & 0x3f) as u32),
    ;
    unit
}

/// The four bytes `11110xxx 10xxxxxx 10xxxxxx 10xxxxxx` for `code_point`.
///
/// For a scalar of the supplementary planes this is its UTF-8 encoding.
#[inline]
pub fn decode_code_point(code_point: u32) -> (utf8: [u8; 4])
    ensures
        utf8@ == four_byte_form(code_point),
{
    let first = (code_point & 0b1_1100_0000_0000_0000_0000) >> 18;
    let second = (code_point & 0b0_0011_1111_0000_0000_0000) >> 12;
    let third = (code_point & 0b0_0000_0000_1111_1100_0000) >> 6;
    let fourth = code_point & 0b0_0000_0000_0000_0011_1111;
    assert(first <= 0x07 && second <= 0x3f && third <= 0x3f && fourth <= 0x3f) by (bit_vector)
        requires
            first == (code_point & 0x1c0000) >> 18,
            second == (code_point & 0x03f000) >> 12,
            third == (code_point & 0x000fc0) >> 6,
            fourth == code_point & 0x00003f,
    ;
    let utf8 = [
        0b1111_0000 | first as u8,
        0b1000_0000 | second as u8,
        0b1000_0000 | third as u8,
        0b1000_0000 | fourth as u8,
    ];
    assert(utf8@ =~= four_byte_form(code_point)) by {
        let a = utf8[0];
        let b = utf8[1];
        let c = utf8[2];
        let d = utf8[3];
        assert(a == leading_byte_width_4(code_point) && b == third_last_continuation_byte(
            code_point,
        ) && c == second_last_continuation_byte(code_point) && d == last_continuation_byte(
            code_point,
        )) by (bit_vector)
            requires
                a == 0xf0u8 | (((code_point & 0x1c0000) >> 18) as u8),
                b == 0x80u8 | (((code_point & 0x03f000) >> 12) as u8),
                c == 0x80u8 | (((code_point & 0x000fc0) >> 6) as u8),
                d == 0x80u8 | ((code_point & 0x00003f) as u8),
        ;
    }
    utf8
}

/// The UTF-8 encoding of the character that a surrogate pair stands for,
/// given the continuation bytes of the pair's two three-byte sequences.
#[inline]
pub fn decode_surrogate_pair(second: u8, third: u8, fifth: u8, sixth: u8) -> (utf8: [u8; 4])
    requires
        is_high_surrogate(surrogate_unit(second, third)),
        is_low_surrogate(surrogate_unit(fifth, sixth)),
    ensures
        utf8@ == four_byte_form(
            join_surrogates(surrogate_unit(second, third), surrogate_unit(fifth, sixth)),
        ),
{
    let high = decode_surrogate(second, third);
    let low = decode_surrogate(fifth, sixth);
    assert(((high - 0xd800) as u32) << 10 | (low - 0xdc00) as u32 == (high - 0xd800) * 0x400 + (low
        - 0xdc00)) by (bit_vector)
        requires
            0xd800 <= high <= 0xdbff,
            0xdc00 <= low <= 0xdfff,
    ;
    let code_point = 0x10000 + ((high - 0xd800) << 10 | (low - 0xdc00));
    decode_code_point(code_point)
}

/// Splits a scalar of the supplementary planes into its high and its low
/// surrogate.
#[must_use]
#[inline]
pub fn to_surrogate_pair(code_point: u32) -> (pair: [u16; 2])
    requires
        is_supplementary(code_point),
    ensures
        pair@ == seq![high_surrogate(code_point) as u16, low_surrogate(code_point) as u16],
{
    let code_point = code_point - 0x10000;
    let upper = code_point >> 10;
    let lower = code_point & 0x3ff;
    assert(upper == code_point / 0x400 && lower == code_point % 0x400 && upper <= 0x3ff && lower
        <= 0x3ff && (upper as u16) | 0xd800 == 0xd800 + upper && (lower as u16) | 0xdc00 == 0xdc00
        + lower) by (bit_vector)
        requires
            code_point <= 0xfffff,
            upper == code_point >> 10,
            lower == code_point & 0x3ff,
    ;
    let high = (upper as u16) | 0xd800;
    let low = (lower as u16) | 0xdc00;
    let pair = [high, low];
    pair
}

/// The three bytes `1110xxxx 10xxxxxx 10xxxxxx` for a sixteen-bit unit.
#[must_use]
#[inline]
pub fn encode_surrogate(surrogate: u16) -> (bytes: [u8; 3])
    ensures
        bytes@ == three_byte_form(surrogate as u32),
{
    let first = (surrogate & 0b1111_0000_0000_0000) >> 12;
    let second = (surrogate & 0b0000_1111_1100_0000) >> 6;
    let third = surrogate & 0b0000_0000_0011_1111;
    assert(first <= 0x0f && second <= 0x3f && third <= 0x3f) by (bit_vector)
        requires
            first == (surrogate & 0xf000) >> 12,
            second == (surrogate & 0x0fc0) >> 6,
            third == surrogate & 0x003f,
    ;
    let bytes = [0b1110_0000 | first as u8, 0b1000_0000 | second as u8, 0b1000_0000 | third as u8];
    assert(bytes@ =~= three_byte_form(surrogate as u32)) by {
        let unit = surrogate as u32;
        let a = bytes[0];
        let b = bytes[1];
        let c = bytes[2];
        assert(a == leading_byte_width_3(unit) && b == second_last_continuation_byte(unit) && c
            == last_continuation_byte(unit)) by (bit_vector)
            requires
                unit == surrogate as u32,
                a == 0xe0u8 | (((surrogate & 0xf000) >> 12) as u8),
                b == 0x80u8 | (((surrogate & 0x0fc0) >> 6) as u8),
                c == 0x80u8 | ((surrogate & 0x003f) as u8),
        ;
    }
    bytes
}

/// The largest capacity a vector can be asked for.
pub const ISIZE_MAX_USIZE: usize = isize::MAX as usize;

/// Encodes a string in the given flavor.
///
/// The output takes up at most twice the bytes of the input, and room for
/// that much is set aside before the first byte is written.
#[must_use]
#[inline]
pub fn encode(value: &str, flavor: Flavor) -> (encoded: Vec<u8>)
    requires
        2 * value.len() <= isize::MAX,
    ensures
        encoded@ == encode_chars(value@, flavor),
{
    let capacity = value.len().checked_mul(2).unwrap_or(ISIZE_MAX_USIZE);
    let mut encoded = Vec::with_capacity(capacity);

    let bytes = value.as_bytes();
    let mut index: usize = 0;
    let ghost chars = value@;
    let ghost mut done: int = 0;

    proof {
        assert(chars.skip(0) =~= chars);
    }

    while index < bytes.len()
        invariant
            index <= bytes.len(),
            0 <= done <= chars.len(),
            bytes@.skip(index as int) == encode_utf8(chars.skip(done)),
            encode_chars(chars, flavor) == encoded@ + encode_chars(chars.skip(done), flavor),
        decreases bytes.len() - index,
    {
        let first = bytes[index];

        let ghost rest = chars.skip(done);
        let ghost tail = bytes@.skip(index as int);
        let ghost scalar = rest[0] as u32;
        let ghost before = encoded@;
        proof {
            encode_utf8_first_scalar(rest);
            char_is_scalar(rest[0]);
            assert(rest.drop_first() =~= chars.skip(done + 1));
            assert(encode_chars(rest, flavor) == encode_char(rest[0], flavor) + encode_chars(
                rest.drop_first(),
                flavor,
            ));
        }

        if first <= 0x7f {
            if flavor == Flavor::Mutf8 && first == 0x00 {
                encoded.extend_from_slice(&[0xc0, 0x80]);
            } else {
                encoded.push(first);
            };

            proof {
                assert(scalar == 0 <==> first == 0) by (bit_vector)
                    requires
                        is_leading_byte_width_1(first),
                        scalar == codepoint_width_1(first),
                ;
                assert(tail.skip(1) =~= encode_utf8(rest.drop_first()));
            }
            index += 1;
        } else if first <= 0xdf {
            let slice = &bytes[index..index + 2];
            encoded.extend_from_slice(slice);
            proof {
                assert(tail.skip(2) =~= encode_utf8(rest.drop_first()));
            }
            index += 2;
        } else if first <= 0xef {
            let slice = &bytes[index..index + 3];
            encoded.extend_from_slice(slice);
            proof {
                assert(tail.skip(3) =~= encode_utf8(rest.drop_first()));
            }
            index += 3;
        } else {
            let slice = &bytes[index..index + 4];
            let first = slice[0];
            let second = slice[1];
            let third = slice[2];
            let fourth = slice[3];

            let code_point = (u32::from(first & 0b0000_0111) << 18) | (u32::from(
                second & 0b0011_1111,
            ) << 12) | (u32::from(third & 0b0011_1111) << 6) | u32::from(fourth & 0b0011_1111);

            let pair = to_surrogate_pair(code_point);
            let s1 = pair[0];
            let s2 = pair[1];
            let high = encode_surrogate(s1);
            encoded.extend_from_slice(&high);
            let low = encode_surrogate(s2);
            encoded.extend_from_slice(&low);
            proof {
                assert(tail.skip(4) =~= encode_utf8(rest.drop_first()));
            }
            index += 4;
        };
        proof {
            done = done + 1;
        }
    }

    proof {
        assert(chars.skip(done).len() == 0) by {
            if chars.skip(done).len() > 0 {
                encode_utf8_first_scalar(chars.skip(done));
            }
        }
    }
    encoded
}

} // verus!
