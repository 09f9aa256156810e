//! What holds of the formats and of the scanner, whatever the input.
//!
//! Each law is stated over the definitions in [`crate::format`] and
//! [`crate::implementation`], the ones that the contracts of the executable
//! functions are stated over as well.

use vstd::prelude::*;
use vstd::utf8::*;

use crate::format::{
    any_needs_encoding, decode_bytes, decode_first, decode_lenient, encode_char, encode_chars,
    high_surrogate, is_plain, is_supplementary, lossily, low_surrogate, needs_encoding,
    replacement, scan_mode, strictly, three_byte_form,
};
use crate::implementation::{has_signal, is_signal};
use crate::internal::{DecodeOptions, Flavor};
use crate::lemmas::{
    lemma_char_signal, lemma_decode_first_is_encoding, lemma_decode_first_of_encoding,
    lemma_decode_first_of_utf8, lemma_decode_first_valid, lemma_needs_encoding_unfold,
    lemma_replacement_valid, lemma_signal_concat, lemma_signal_of_first_scalar,
    lemma_surrogate_has_no_signal,
};

verus! {

/// A string is pinned down by its UTF-8 bytes.  The contracts of the decoding
/// functions state the bytes of the string they return; by this law they
/// state the string.
pub proof fn lemma_utf8_determines_text(left: Seq<char>, right: Seq<char>)
    requires
        encode_utf8(left) == encode_utf8(right),
    ensures
        left == right,
{
    encode_utf8_decode_utf8(left);
    encode_utf8_decode_utf8(right);
}

/// **Round trip.**  Decoding the encoding of a string gives the string back,
/// in either flavor, strictly or lossily.
pub proof fn lemma_round_trip(chars: Seq<char>, options: DecodeOptions)
    ensures
        decode_bytes(encode_chars(chars, options.flavor), options) == Some(encode_utf8(chars)),
    decreases chars.len(),
{
    if chars.len() > 0 {
        let flavor = options.flavor;
        let head = encode_char(chars[0], flavor);
        let rest = chars.drop_first();
        let tail = encode_chars(rest, flavor);
        lemma_decode_first_of_encoding(chars[0], flavor, tail);
        lemma_decode_first_valid(head + tail, flavor);
        lemma_round_trip(rest, options);
        assert((head + tail).skip(head.len() as int) =~= tail);
    }
}

/// **Round trip through the entry points.**  What the encoder puts out, the
/// entry points that let UTF-8 pass decode to the string it came from, as the
/// strict ones do.
pub proof fn lemma_round_trip_lenient(chars: Seq<char>, options: DecodeOptions)
    ensures
        decode_lenient(encode_chars(chars, options.flavor), options) == Some(encode_utf8(chars)),
{
    let encoded = encode_chars(chars, options.flavor);
    lemma_round_trip(chars, options);
    if valid_utf8(encoded) {
        let strict = strictly(options.flavor);
        lemma_round_trip(chars, strict);
        lemma_scan_decides_zero_copy(encoded, strict);
    }
}

/// **The decoder accepts encodings only.**  Whatever strict decoding accepts
/// is the encoding of the string it decodes to.  With the round trip this
/// makes the encoder and the strict decoder inverses of each other: strict
/// decoding succeeds on the encodings of strings and on nothing else.
pub proof fn lemma_strict_decoding_inverts_encoding(bytes: Seq<u8>, flavor: Flavor) -> (chars: Seq<
    char,
>)
    requires
        decode_bytes(bytes, strictly(flavor)) is Some,
    ensures
        decode_bytes(bytes, strictly(flavor)) == Some(encode_utf8(chars)),
        encode_chars(chars, flavor) == bytes,
    decreases bytes.len(),
{
    if bytes.len() == 0 {
        Seq::<char>::empty()
    } else {
        lemma_decode_first_valid(bytes, flavor);
        let (utf8, taken) = decode_first(bytes, flavor)->0;
        let c = lemma_decode_first_is_encoding(bytes, flavor);
        let rest = lemma_strict_decoding_inverts_encoding(bytes.skip(taken), flavor);
        let chars = seq![c] + rest;
        assert(chars.drop_first() =~= rest);
        assert(bytes =~= bytes.take(taken) + bytes.skip(taken));
        chars
    }
}

/// **Strict decoding succeeds exactly on encodings.**  The inputs that strict
/// decoding accepts are the encodings of strings in the flavor, all of them
/// and nothing else.
pub proof fn lemma_strict_decoding_accepts_encodings(bytes: Seq<u8>, flavor: Flavor)
    ensures
        decode_bytes(bytes, strictly(flavor)) is Some <==> exists|chars: Seq<char>|
            #[trigger] encode_chars(chars, flavor) == bytes,
{
    if decode_bytes(bytes, strictly(flavor)) is Some {
        let chars = lemma_strict_decoding_inverts_encoding(bytes, flavor);
        assert(encode_chars(chars, flavor) == bytes);
    }
    if exists|chars: Seq<char>| #[trigger] encode_chars(chars, flavor) == bytes {
        let chars = choose|chars: Seq<char>| #[trigger] encode_chars(chars, flavor) == bytes;
        lemma_round_trip(chars, strictly(flavor));
    }
}

/// The scanner finds a byte it looks for in the UTF-8 bytes of a string
/// exactly when the string holds a character that has to be written
/// differently: a character of four bytes, or, for MUTF-8, the null
/// character.
pub proof fn lemma_scan_finds_what_needs_encoding(chars: Seq<char>, flavor: Flavor)
    ensures
        has_signal(encode_utf8(chars), scan_mode(flavor)) == any_needs_encoding(chars, flavor),
    decreases chars.len(),
{
    if chars.len() > 0 {
        let rest = chars.drop_first();
        lemma_scan_finds_what_needs_encoding(rest, flavor);
        lemma_char_signal(chars[0], flavor);
        lemma_signal_concat(
            encode_scalar(chars[0] as u32),
            encode_utf8(rest),
            scan_mode(flavor),
        );
        lemma_needs_encoding_unfold(chars, flavor);
    }
}

/// A string without a character that has to be written differently is its
/// own encoding: its UTF-8 bytes can be handed out as they are.
pub proof fn lemma_plain_text_is_its_encoding(chars: Seq<char>, flavor: Flavor)
    requires
        !any_needs_encoding(chars, flavor),
    ensures
        encode_chars(chars, flavor) == encode_utf8(chars),
    decreases chars.len(),
{
    if chars.len() > 0 {
        lemma_needs_encoding_unfold(chars, flavor);
        lemma_plain_text_is_its_encoding(chars.drop_first(), flavor);
    }
}

/// **Borrowed means unchanged.**  The encoding of a string differs from its
/// UTF-8 bytes exactly when some character of it has to be written
/// differently.  This is the one case in which `encode` allocates.
pub proof fn lemma_encoding_differs_iff_needed(chars: Seq<char>, flavor: Flavor)
    ensures
        encode_chars(chars, flavor) != encode_utf8(chars) <==> any_needs_encoding(chars, flavor),
{
    lemma_encoded_len(chars, flavor);
    if !any_needs_encoding(chars, flavor) {
        lemma_plain_text_is_its_encoding(chars, flavor);
    }
}

/// **The scanner and the decoder agree.**  On well-formed UTF-8 the scanner
/// finds a byte it looks for exactly when decoding would not give the input
/// back unchanged.  So the input may be handed out as it is exactly when the
/// scanner finds nothing; and where the scanner finds something, strict
/// decoding fails.
pub proof fn lemma_scan_decides_zero_copy(bytes: Seq<u8>, options: DecodeOptions)
    requires
        valid_utf8(bytes),
    ensures
        has_signal(bytes, scan_mode(options.flavor)) <==> decode_bytes(bytes, options) != Some(
            bytes,
        ),
        has_signal(bytes, scan_mode(options.flavor)) && !options.lossy ==> decode_bytes(
            bytes,
            options,
        ) is None,
    decreases bytes.len(),
{
    let mode = scan_mode(options.flavor);
    if bytes.len() == 0 {
        assert(bytes =~= Seq::<u8>::empty());
    } else {
        let head = take_first_scalar(bytes);
        let rest = pop_first_scalar(bytes);
        assert(bytes =~= head + rest);
        lemma_signal_of_first_scalar(bytes, mode);
        if is_signal(bytes[0], mode) {
            // Nothing starts at a byte that the scanner looks for: strict
            // decoding fails, and lossy decoding puts 0xEF in its place.
            assert(decode_first(bytes, options.flavor) is None);
            if let Some(after) = decode_bytes(bytes.skip(1), options) {
                assert((replacement() + after)[0] == 0xef);
            }
        } else {
            // The first character is decoded to itself, so the whole comes
            // back unchanged exactly when the rest does.
            lemma_decode_first_of_utf8(bytes, options.flavor);
            lemma_scan_decides_zero_copy(rest, options);
            if let Some(after) = decode_bytes(rest, options) {
                if head + after == bytes {
                    assert(after =~= (head + after).skip(head.len() as int));
                    assert(after =~= rest);
                }
            }
        }
    }
}

/// **Zero copy means unchanged.**  Decoding gives the input back, byte for
/// byte, exactly when the input is well-formed UTF-8 in which the scanner
/// finds nothing.  This is the one case in which the strict entry points
/// borrow.
pub proof fn lemma_unchanged_iff_plain(bytes: Seq<u8>, options: DecodeOptions)
    ensures
        decode_bytes(bytes, options) == Some(bytes) <==> is_plain(bytes, options.flavor),
{
    if decode_bytes(bytes, options) == Some(bytes) {
        lemma_decode_bytes_valid(bytes, options);
    }
    if valid_utf8(bytes) {
        lemma_scan_decides_zero_copy(bytes, options);
    }
}

/// An encoding never holds a byte that the scanner looks for on behalf of its
/// flavor: no lead byte of a four-byte character, and in MUTF-8 no null byte
/// either.
pub proof fn lemma_encoding_has_no_signal(chars: Seq<char>, flavor: Flavor)
    ensures
        !has_signal(encode_chars(chars, flavor), scan_mode(flavor)),
    decreases chars.len(),
{
    let mode = scan_mode(flavor);
    if chars.len() > 0 {
        let c = chars[0];
        let scalar = c as u32;
        let head = encode_char(c, flavor);
        let tail = encode_chars(chars.drop_first(), flavor);
        lemma_encoding_has_no_signal(chars.drop_first(), flavor);
        lemma_signal_concat(head, tail, mode);
        if needs_encoding(c, flavor) {
            if is_supplementary(scalar) {
                let high = high_surrogate(scalar);
                let low = low_surrogate(scalar);
                lemma_surrogate_has_no_signal(high, mode);
                lemma_surrogate_has_no_signal(low, mode);
                lemma_signal_concat(three_byte_form(high), three_byte_form(low), mode);
            }
        } else {
            lemma_char_signal(c, flavor);
        }
    }
}

/// Whatever decoding puts out is well-formed UTF-8.
pub proof fn lemma_decode_bytes_valid(bytes: Seq<u8>, options: DecodeOptions)
    requires
        decode_bytes(bytes, options) is Some,
    ensures
        valid_utf8(decode_bytes(bytes, options)->0),
    decreases bytes.len(),
{
    if bytes.len() > 0 {
        match decode_first(bytes, options.flavor) {
            Some((utf8, taken)) => {
                lemma_decode_first_valid(bytes, options.flavor);
                lemma_decode_bytes_valid(bytes.skip(taken), options);
                valid_utf8_concat(utf8, decode_bytes(bytes.skip(taken), options)->0);
            },
            None => {
                lemma_replacement_valid();
                lemma_decode_bytes_valid(bytes.skip(1), options);
                valid_utf8_concat(replacement(), decode_bytes(bytes.skip(1), options)->0);
            },
        }
    }
}

/// Lossy decoding never fails.
pub proof fn lemma_lossy_never_fails(bytes: Seq<u8>, options: DecodeOptions)
    requires
        options.lossy,
    ensures
        decode_bytes(bytes, options) is Some,
    decreases bytes.len(),
{
    if bytes.len() > 0 {
        match decode_first(bytes, options.flavor) {
            Some((utf8, taken)) => {
                lemma_decode_first_valid(bytes, options.flavor);
                lemma_lossy_never_fails(bytes.skip(taken), options);
            },
            None => {
                lemma_lossy_never_fails(bytes.skip(1), options);
            },
        }
    }
}

/// What strict decoding accepts, lossy decoding decodes to the same string.
pub proof fn lemma_lossy_extends_strict(bytes: Seq<u8>, flavor: Flavor)
    requires
        decode_bytes(bytes, strictly(flavor)) is Some,
    ensures
        decode_bytes(bytes, lossily(flavor)) == decode_bytes(
            bytes,
            strictly(flavor),
        ),
    decreases bytes.len(),
{
    if bytes.len() > 0 {
        lemma_decode_first_valid(bytes, flavor);
        let (utf8, taken) = decode_first(bytes, flavor)->0;
        lemma_lossy_extends_strict(bytes.skip(taken), flavor);
    }
}

/// The encoding of a string holds at least as many bytes as its UTF-8 form
/// and at most twice as many.  It holds more exactly when some character of
/// the string has to be written differently.
pub proof fn lemma_encoded_len(chars: Seq<char>, flavor: Flavor)
    ensures
        encode_utf8(chars).len() <= encode_chars(chars, flavor).len() <= 2 * encode_utf8(
            chars,
        ).len(),
        encode_utf8(chars).len() < encode_chars(chars, flavor).len() <==> any_needs_encoding(
            chars,
            flavor,
        ),
    decreases chars.len(),
{
    if chars.len() > 0 {
        let rest = chars.drop_first();
        lemma_encoded_len(rest, flavor);
        lemma_needs_encoding_unfold(chars, flavor);
        char_is_scalar(chars[0]);
    }
}

/// Decoding never puts out more bytes than it was given, unless it replaces:
/// then it may put out three times as many.
pub proof fn lemma_decoded_len(bytes: Seq<u8>, options: DecodeOptions)
    requires
        decode_bytes(bytes, options) is Some,
    ensures
        !options.lossy ==> decode_bytes(bytes, options)->0.len() <= bytes.len(),
        decode_bytes(bytes, options)->0.len() <= 3 * bytes.len(),
    decreases bytes.len(),
{
    if bytes.len() > 0 {
        match decode_first(bytes, options.flavor) {
            Some((utf8, taken)) => {
                lemma_decode_first_valid(bytes, options.flavor);
                lemma_decoded_len(bytes.skip(taken), options);
            },
            None => {
                lemma_decoded_len(bytes.skip(1), options);
            },
        }
    }
}

} // verus!
