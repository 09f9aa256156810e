//! The byte formats, as mathematics.
//!
//! CESU-8 agrees with UTF-8 on every character of one to three bytes.  A
//! character of the supplementary planes, which UTF-8 writes in four bytes, is
//! first split into a high and a low surrogate as UTF-16 would split it, and
//! each surrogate is then written in three bytes as if it were a character.
//! MUTF-8 is CESU-8 with the null character written as `0xC0 0x80`.
//!
//! Encoding is defined on characters ([`encode_chars`]).  Decoding is defined
//! on bytes ([`decode_bytes`]), since it has to say what happens to input that
//! no string encodes to.

use vstd::prelude::*;
use vstd::utf8::*;

use crate::implementation::{has_signal, ScanMode};
use crate::internal::{DecodeOptions, Flavor};

verus! {

/// The bytes the scanner looks for on behalf of `flavor`.
pub open spec fn scan_mode(flavor: Flavor) -> ScanMode {
    match flavor {
        Flavor::Cesu8 => ScanMode::Only4ByteHeader,
        Flavor::Mutf8 => ScanMode::NullOr4ByteHeader,
    }
}

/// Strict decoding in `flavor`: invalid input is an error.
pub open spec fn strictly(flavor: Flavor) -> DecodeOptions {
    DecodeOptions { flavor, lossy: false }
}

/// Lossy decoding in `flavor`: invalid input is replaced.
pub open spec fn lossily(flavor: Flavor) -> DecodeOptions {
    DecodeOptions { flavor, lossy: true }
}

/// `scalar` lies in the supplementary planes: UTF-8 needs four bytes for it.
pub open spec fn is_supplementary(scalar: u32) -> bool {
    0x10000 <= scalar <= 0x10ffff
}

/// `unit` is a high (leading) surrogate.
pub open spec fn is_high_surrogate(unit: u32) -> bool {
    0xd800 <= unit <= 0xdbff
}

/// `unit` is a low (trailing) surrogate.
pub open spec fn is_low_surrogate(unit: u32) -> bool {
    0xdc00 <= unit <= 0xdfff
}

/// The high surrogate of a supplementary scalar: `0xD800` plus the upper ten
/// of the twenty bits of `scalar - 0x10000`.
pub open spec fn high_surrogate(scalar: u32) -> u32
    recommends
        is_supplementary(scalar),
{
    (0xd800 + (scalar - 0x10000) / 0x400) as u32
}

/// The low surrogate of a supplementary scalar: `0xDC00` plus the lower ten
/// of the twenty bits of `scalar - 0x10000`.
pub open spec fn low_surrogate(scalar: u32) -> u32
    recommends
        is_supplementary(scalar),
{
    (0xdc00 + (scalar - 0x10000) % 0x400) as u32
}

/// The scalar that a high and a low surrogate stand for together.
pub open spec fn join_surrogates(high: u32, low: u32) -> u32
    recommends
        is_high_surrogate(high),
        is_low_surrogate(low),
{
    (0x10000 + (high - 0xd800) * 0x400 + (low - 0xdc00)) as u32
}

/// The three bytes `1110xxxx 10xxxxxx 10xxxxxx` that carry the sixteen bits
/// of `unit`.
pub open spec fn three_byte_form(unit: u32) -> Seq<u8> {
    seq![
        leading_byte_width_3(unit),
        second_last_continuation_byte(unit),
        last_continuation_byte(unit),
    ]
}

/// The four bytes `11110xxx 10xxxxxx 10xxxxxx 10xxxxxx` that carry the
/// twenty-one bits of `scalar`.
pub open spec fn four_byte_form(scalar: u32) -> Seq<u8> {
    seq![
        leading_byte_width_4(scalar),
        third_last_continuation_byte(scalar),
        second_last_continuation_byte(scalar),
        last_continuation_byte(scalar),
    ]
}

/// The sixteen-bit unit carried by the three bytes `0xED`, `second`, `third`:
/// the six payload bits of each of the two continuation bytes below the fixed
/// top nibble `0xD`.
pub open spec fn surrogate_unit(second: u8, third: u8) -> u32 {
    (0xd000 + (second % 64) * 64 + third % 64) as u32
}

/// The encoding of one character.
pub open spec fn encode_char(c: char, flavor: Flavor) -> Seq<u8> {
    let scalar = c as u32;
    if scalar == 0 && flavor == Flavor::Mutf8 {
        seq![0xc0u8, 0x80u8]
    } else if is_supplementary(scalar) {
        three_byte_form(high_surrogate(scalar)) + three_byte_form(low_surrogate(scalar))
    } else {
        encode_scalar(scalar)
    }
}

/// The encoding of a string: the encodings of its characters, one after the
/// other.
pub open spec fn encode_chars(chars: Seq<char>, flavor: Flavor) -> Seq<u8>
    decreases chars.len(),
{
    if chars.len() == 0 {
        seq![]
    } else {
        encode_char(chars[0], flavor) + encode_chars(chars.drop_first(), flavor)
    }
}

/// `c` is written differently in `flavor` than in UTF-8.
pub open spec fn needs_encoding(c: char, flavor: Flavor) -> bool {
    is_supplementary(c as u32) || (flavor == Flavor::Mutf8 && c as u32 == 0)
}

/// Some character of `chars` is written differently in `flavor` than in
/// UTF-8.
pub open spec fn any_needs_encoding(chars: Seq<char>, flavor: Flavor) -> bool {
    exists|i: int| 0 <= i < chars.len() && needs_encoding(#[trigger] chars[i], flavor)
}

/// The UTF-8 bytes of U+FFFD, the replacement character.
pub open spec fn replacement() -> Seq<u8> {
    seq![0xefu8, 0xbfu8, 0xbdu8]
}

/// `first` and `second` begin a three-byte character that is neither written
/// too long nor a surrogate.
pub open spec fn is_plain_three_byte_start(first: u8, second: u8) -> bool {
    ||| first == 0xe0 && 0xa0 <= second <= 0xbf
    ||| (0xe1 <= first <= 0xec || 0xee <= first <= 0xef) && 0x80 <= second <= 0xbf
    ||| first == 0xed && 0x80 <= second <= 0x9f
}

/// `second` to `sixth` continue a lead byte `0xED` to a surrogate pair: a
/// high surrogate in three bytes, then a low surrogate in three bytes.
pub open spec fn is_surrogate_pair_tail(
    second: u8,
    third: u8,
    fourth: u8,
    fifth: u8,
    sixth: u8,
) -> bool {
    &&& 0xa0 <= second <= 0xaf
    &&& is_continuation_byte(third)
    &&& fourth == 0xed
    &&& 0xb0 <= fifth <= 0xbf
    &&& is_continuation_byte(sixth)
}

/// What the decoder accepts at the front of `bytes`.
///
/// The result is the UTF-8 form of the character found there, together with
/// the number of bytes of `bytes` that were its encoding; or `None` where no
/// character of `flavor` starts.
///
/// | first byte | followed by                              | stands for       |
/// |------------|------------------------------------------|------------------|
/// | `00`       | nothing; CESU-8 only                     | U+0000           |
/// | `01..=7F`  | nothing                                  | itself           |
/// | `C0`       | `80`; MUTF-8 only                        | U+0000           |
/// | `C2..=DF`  | a continuation byte                      | itself           |
/// | `E0`       | `A0..=BF`, a continuation byte           | itself           |
/// | `E1..=EC`  | two continuation bytes                   | itself           |
/// | `ED`       | `80..=9F`, a continuation byte           | itself           |
/// | `ED`       | a surrogate pair's other five bytes      | the pair's character, in four bytes |
/// | `EE..=EF`  | two continuation bytes                   | itself           |
///
/// Every other byte, and each of these without what has to follow it, starts
/// nothing.  The other five bytes of a surrogate pair are laid down in
/// [`is_surrogate_pair_tail`].
pub open spec fn decode_first(bytes: Seq<u8>, flavor: Flavor) -> Option<(Seq<u8>, int)> {
    let first = bytes[0];
    if bytes.len() >= 1 && first <= 0x7f && !(first == 0 && flavor == Flavor::Mutf8) {
        Some((seq![first], 1))
    } else if bytes.len() >= 2 && first == 0xc0 && flavor == Flavor::Mutf8 && bytes[1] == 0x80 {
        Some((seq![0u8], 2))
    } else if bytes.len() >= 2 && 0xc2 <= first <= 0xdf && is_continuation_byte(bytes[1]) {
        Some((seq![first, bytes[1]], 2))
    } else if bytes.len() >= 3 && is_plain_three_byte_start(first, bytes[1])
        && is_continuation_byte(bytes[2]) {
        Some((seq![first, bytes[1], bytes[2]], 3))
    } else if bytes.len() >= 6 && first == 0xed && is_surrogate_pair_tail(
        bytes[1],
        bytes[2],
        bytes[3],
        bytes[4],
        bytes[5],
    ) {
        Some(
            (
                four_byte_form(
                    join_surrogates(
                        surrogate_unit(bytes[1], bytes[2]),
                        surrogate_unit(bytes[4], bytes[5]),
                    ),
                ),
                6,
            ),
        )
    } else {
        None
    }
}

/// `head` in front of what `tail` holds, if it holds anything.
pub open spec fn prepend(head: Seq<u8>, tail: Option<Seq<u8>>) -> Option<Seq<u8>> {
    match tail {
        Some(tail) => Some(head + tail),
        None => None,
    }
}

/// The UTF-8 bytes that `bytes` decode to, or `None` where decoding fails.
///
/// Decoding takes one accepted character after the other.  Where none starts,
/// strict decoding fails as a whole, while lossy decoding puts out one
/// replacement character, skips the one byte at which it stood, and goes on
/// with the byte after it.
pub open spec fn decode_bytes(bytes: Seq<u8>, options: DecodeOptions) -> Option<Seq<u8>>
    decreases bytes.len(),
{
    if bytes.len() == 0 {
        Some(seq![])
    } else {
        match decode_first(bytes, options.flavor) {
            Some((utf8, taken)) => prepend(utf8, decode_bytes(bytes.skip(taken), options)),
            None => if options.lossy {
                prepend(replacement(), decode_bytes(bytes.skip(1), options))
            } else {
                None
            },
        }
    }
}

/// The UTF-8 bytes that `bytes` decode to when well-formed UTF-8 is let
/// through as it is, whether or not it is in the flavor's form, and only other
/// input is decoded.
pub open spec fn decode_lenient(bytes: Seq<u8>, options: DecodeOptions) -> Option<Seq<u8>> {
    if valid_utf8(bytes) {
        Some(bytes)
    } else {
        decode_bytes(bytes, options)
    }
}

/// `bytes` are well-formed UTF-8 and in the form of `flavor` as well: no byte
/// of them is one that the scanner looks for.
pub open spec fn is_plain(bytes: Seq<u8>, flavor: Flavor) -> bool {
    valid_utf8(bytes) && !has_signal(bytes, scan_mode(flavor))
}

} // verus!
