//! Facts about single characters and single steps of the decoder, on which
//! the executable code and the laws of this crate rest.

use vstd::prelude::*;
use vstd::utf8::*;

use crate::format::{
    any_needs_encoding, decode_first, encode_char, four_byte_form, high_surrogate,
    is_high_surrogate, is_low_surrogate, is_plain_three_byte_start, is_supplementary,
    is_surrogate_pair_tail, join_surrogates, low_surrogate, needs_encoding, prepend, replacement,
    scan_mode, surrogate_unit, three_byte_form,
};
use crate::implementation::{has_signal, is_signal, ScanMode};
use crate::internal::Flavor;

verus! {

/// A byte sequence that is exactly one well-formed scalar is well-formed
/// UTF-8.
pub proof fn lemma_one_scalar_valid(bytes: Seq<u8>)
    requires
        valid_first_scalar(bytes),
        length_of_first_scalar(bytes) == bytes.len(),
    ensures
        valid_utf8(bytes),
{
    reveal_with_fuel(valid_utf8, 2);
}

/// The four-byte form of a scalar of the supplementary planes is its UTF-8
/// encoding, and is well-formed.
pub proof fn lemma_four_byte_form_valid(scalar: u32)
    requires
        is_supplementary(scalar),
    ensures
        four_byte_form(scalar) == encode_scalar(scalar),
        valid_utf8(four_byte_form(scalar)),
{
    let c = scalar as char;
    let chars = seq![c];
    assert(encode_utf8(chars) =~= encode_scalar(scalar)) by {
        reveal_with_fuel(encode_utf8, 2);
    }
    encode_utf8_valid_utf8(chars);
}

/// The replacement character is well-formed UTF-8.
pub proof fn lemma_replacement_valid()
    ensures
        valid_utf8(replacement()),
{
    assert(codepoint_width_3(0xef, 0xbf, 0xbd) == 0xfffd) by (bit_vector);
    lemma_one_scalar_valid(replacement());
}

/// The bytes that follow a lead byte `0xED` in a surrogate pair carry a high
/// and a low surrogate, and the pair stands for a scalar of the
/// supplementary planes.
pub proof fn lemma_surrogate_pair_units(second: u8, third: u8, fourth: u8, fifth: u8, sixth: u8)
    requires
        is_surrogate_pair_tail(second, third, fourth, fifth, sixth),
    ensures
        is_high_surrogate(surrogate_unit(second, third)),
        is_low_surrogate(surrogate_unit(fifth, sixth)),
        is_supplementary(
            join_surrogates(surrogate_unit(second, third), surrogate_unit(fifth, sixth)),
        ),
{
}

/// What the decoder accepts is never empty, never longer than the input, and
/// stands for one well-formed UTF-8 character that is no longer than what was
/// accepted.
pub proof fn lemma_decode_first_valid(bytes: Seq<u8>, flavor: Flavor)
    requires
        decode_first(bytes, flavor) is Some,
    ensures
        decode_first(bytes, flavor) matches Some((utf8, taken)) ==> 1 <= taken <= bytes.len() && 1
            <= utf8.len() <= taken && valid_utf8(utf8),
{
    let (utf8, taken) = decode_first(bytes, flavor)->0;
    let first = bytes[0];
    if first <= 0x7f {
        lemma_one_scalar_valid(utf8);
    } else if first == 0xc0 && flavor == Flavor::Mutf8 {
        lemma_one_scalar_valid(utf8);
    } else if 0xc2 <= first <= 0xdf {
        let second = bytes[1];
        let point = codepoint_width_2(first, second);
        assert(0x80 <= point <= 0x7ff) by (bit_vector)
            requires
                0xc2 <= first <= 0xdf,
                is_continuation_byte(second),
                point == codepoint_width_2(first, second),
        ;
        lemma_one_scalar_valid(utf8);
    } else if is_plain_three_byte_start(first, bytes[1]) {
        let second = bytes[1];
        let third = bytes[2];
        let point = codepoint_width_3(first, second, third);
        assert(0x800 <= point <= 0xffff && !(0xd800 <= point <= 0xdfff)) by (bit_vector)
            requires
                is_plain_three_byte_start(first, second),
                is_continuation_byte(third),
                point == codepoint_width_3(first, second, third),
        ;
        lemma_one_scalar_valid(utf8);
    } else {
        lemma_surrogate_pair_units(bytes[1], bytes[2], bytes[3], bytes[4], bytes[5]);
        lemma_four_byte_form_valid(
            join_surrogates(surrogate_unit(bytes[1], bytes[2]), surrogate_unit(bytes[4], bytes[5])),
        );
    }
}

/// The encoding of a character, whatever follows it, is accepted by the
/// decoder as that character.
pub proof fn lemma_decode_first_of_encoding(c: char, flavor: Flavor, tail: Seq<u8>)
    ensures
        decode_first(encode_char(c, flavor) + tail, flavor) == Some(
            (encode_scalar(c as u32), encode_char(c, flavor).len() as int),
        ),
{
    let scalar = c as u32;
    let encoded = encode_char(c, flavor);
    let bytes = encoded + tail;
    char_is_scalar(c);
    if scalar == 0 && flavor == Flavor::Mutf8 {
        assert(leading_byte_width_1(0) == 0) by (bit_vector);
    } else if has_width_1_encoding(scalar) {
        let first = encoded[0];
        assert(first == scalar) by (bit_vector)
            requires
                has_width_1_encoding(scalar),
                first == leading_byte_width_1(scalar),
        ;
    } else if has_width_2_encoding(scalar) {
        let first = encoded[0];
        let second = encoded[1];
        assert(0xc2 <= first <= 0xdf && is_continuation_byte(second)) by (bit_vector)
            requires
                has_width_2_encoding(scalar),
                first == leading_byte_width_2(scalar),
                second == last_continuation_byte(scalar),
        ;
    } else if has_width_3_encoding(scalar) {
        let first = encoded[0];
        let second = encoded[1];
        let third = encoded[2];
        assert(is_leading_byte_width_3(first) && is_plain_three_byte_start(first, second)
            && is_continuation_byte(third)) by (bit_vector)
            requires
                has_width_3_encoding(scalar),
                first == leading_byte_width_3(scalar),
                second == second_last_continuation_byte(scalar),
                third == last_continuation_byte(scalar),
        ;
    } else {
        let high = high_surrogate(scalar);
        let low = low_surrogate(scalar);
        let first = three_byte_form(high)[0];
        let second = three_byte_form(high)[1];
        let third = three_byte_form(high)[2];
        let fourth = three_byte_form(low)[0];
        let fifth = three_byte_form(low)[1];
        let sixth = three_byte_form(low)[2];
        assert(bytes[0] == first && bytes[1] == second && bytes[2] == third && bytes[3] == fourth
            && bytes[4] == fifth && bytes[5] == sixth);
        assert(first == 0xed && 0xa0 <= second <= 0xaf && is_continuation_byte(third) && high
            == surrogate_unit(second, third)) by (bit_vector)
            requires
                is_high_surrogate(high),
                first == leading_byte_width_3(high),
                second == second_last_continuation_byte(high),
                third == last_continuation_byte(high),
        ;
        assert(fourth == 0xed && 0xb0 <= fifth <= 0xbf && is_continuation_byte(sixth) && low
            == surrogate_unit(fifth, sixth)) by (bit_vector)
            requires
                is_low_surrogate(low),
                fourth == leading_byte_width_3(low),
                fifth == second_last_continuation_byte(low),
                sixth == last_continuation_byte(low),
        ;
        lemma_four_byte_form_valid(scalar);
    }
}

/// A well-formed UTF-8 character that does not start with a byte the scanner
/// looks for is accepted by the decoder as it stands.
pub proof fn lemma_decode_first_of_utf8(bytes: Seq<u8>, flavor: Flavor)
    requires
        valid_first_scalar(bytes),
        !is_signal(bytes[0], scan_mode(flavor)),
    ensures
        decode_first(bytes, flavor) == Some(
            (take_first_scalar(bytes), length_of_first_scalar(bytes)),
        ),
{
    let first = bytes[0];
    if is_leading_byte_width_2(first) {
        let second = bytes[1];
        let point = codepoint_width_2(first, second);
        assert(0xc2 <= first) by (bit_vector)
            requires
                is_leading_byte_width_2(first),
                is_continuation_byte(second),
                point == codepoint_width_2(first, second),
                0x80 <= point,
        ;
    } else if is_leading_byte_width_3(first) {
        let second = bytes[1];
        let third = bytes[2];
        let point = codepoint_width_3(first, second, third);
        assert(is_plain_three_byte_start(first, second)) by (bit_vector)
            requires
                is_leading_byte_width_3(first),
                is_continuation_byte(second),
                is_continuation_byte(third),
                point == codepoint_width_3(first, second, third),
                0x800 <= point,
                !(0xd800 <= point <= 0xdfff),
        ;
    }
}

/// Whatever the decoder accepts at the front of its input is the encoding of
/// one character, and what it puts out for it is that character in UTF-8.
pub proof fn lemma_decode_first_is_encoding(bytes: Seq<u8>, flavor: Flavor) -> (c: char)
    requires
        decode_first(bytes, flavor) is Some,
    ensures
        decode_first(bytes, flavor) matches Some((utf8, taken)) ==> utf8 == encode_scalar(c as u32)
            && bytes.take(taken) == encode_char(c, flavor),
{
    let (utf8, taken) = decode_first(bytes, flavor)->0;
    let first = bytes[0];
    if first <= 0x7f {
        let scalar = first as u32;
        assert(leading_byte_width_1(scalar) == first) by (bit_vector)
            requires
                scalar == first,
                is_leading_byte_width_1(first),
        ;
        first as char
    } else if first == 0xc0 && flavor == Flavor::Mutf8 {
        assert(leading_byte_width_1(0) == 0) by (bit_vector);
        0u8 as char
    } else if 0xc2 <= first <= 0xdf {
        let second = bytes[1];
        let point = codepoint_width_2(first, second);
        assert(has_width_2_encoding(point) && leading_byte_width_2(point) == first
            && last_continuation_byte(point) == second) by (bit_vector)
            requires
                0xc2 <= first <= 0xdf,
                is_continuation_byte(second),
                point == codepoint_width_2(first, second),
        ;
        point as char
    } else if is_plain_three_byte_start(first, bytes[1]) {
        let second = bytes[1];
        let third = bytes[2];
        let point = codepoint_width_3(first, second, third);
        assert(has_width_3_encoding(point) && leading_byte_width_3(point) == first
            && second_last_continuation_byte(point) == second && last_continuation_byte(point)
            == third) by (bit_vector)
            requires
                is_plain_three_byte_start(first, second),
                is_continuation_byte(third),
                point == codepoint_width_3(first, second, third),
        ;
        point as char
    } else {
        let second = bytes[1];
        let third = bytes[2];
        let fifth = bytes[4];
        let sixth = bytes[5];
        let high = surrogate_unit(second, third);
        let low = surrogate_unit(fifth, sixth);
        let scalar = join_surrogates(high, low);
        lemma_surrogate_pair_units(second, third, bytes[3], fifth, sixth);
        lemma_four_byte_form_valid(scalar);
        assert(leading_byte_width_3(high) == 0xed && second_last_continuation_byte(high) == second
            && last_continuation_byte(high) == third) by (bit_vector)
            requires
                0xa0 <= second <= 0xaf,
                is_continuation_byte(third),
                high == surrogate_unit(second, third),
        ;
        assert(leading_byte_width_3(low) == 0xed && second_last_continuation_byte(low) == fifth
            && last_continuation_byte(low) == sixth) by (bit_vector)
            requires
                0xb0 <= fifth <= 0xbf,
                is_continuation_byte(sixth),
                low == surrogate_unit(fifth, sixth),
        ;
        scalar as char
    }
}

/// Putting two heads in front of a tail, one after the other, is putting
/// their concatenation in front of it.
pub proof fn lemma_prepend_twice(first: Seq<u8>, second: Seq<u8>, tail: Option<Seq<u8>>)
    ensures
        prepend(first, prepend(second, tail)) == prepend(first + second, tail),
{
    if let Some(tail) = tail {
        assert(first + (second + tail) =~= (first + second) + tail);
    }
}

/// A concatenation holds a byte that the scanner looks for exactly when one
/// of its two parts does.
pub proof fn lemma_signal_concat(left: Seq<u8>, right: Seq<u8>, mode: ScanMode)
    ensures
        has_signal(left + right, mode) == (has_signal(left, mode) || has_signal(right, mode)),
{
    let whole = left + right;
    if has_signal(whole, mode) {
        let i = choose|i: int| 0 <= i < whole.len() && is_signal(#[trigger] whole[i], mode);
        if i < left.len() {
            assert(is_signal(left[i], mode));
        } else {
            assert(is_signal(right[i - left.len()], mode));
        }
    }
    if has_signal(left, mode) {
        let i = choose|i: int| 0 <= i < left.len() && is_signal(#[trigger] left[i], mode);
        assert(is_signal(whole[i], mode));
    }
    if has_signal(right, mode) {
        let i = choose|i: int| 0 <= i < right.len() && is_signal(#[trigger] right[i], mode);
        assert(is_signal(whole[left.len() + i], mode));
    }
}

/// The UTF-8 encoding of a character holds a byte that the scanner looks for
/// on behalf of a flavor exactly when the flavor writes that character
/// differently.
pub proof fn lemma_char_signal(c: char, flavor: Flavor)
    ensures
        has_signal(encode_scalar(c as u32), scan_mode(flavor)) == needs_encoding(c, flavor),
{
    let scalar = c as u32;
    let mode = scan_mode(flavor);
    let bytes = encode_scalar(scalar);
    char_is_scalar(c);
    if has_width_1_encoding(scalar) {
        let first = bytes[0];
        assert(first == scalar) by (bit_vector)
            requires
                has_width_1_encoding(scalar),
                first == leading_byte_width_1(scalar),
        ;
    } else if has_width_2_encoding(scalar) {
        let first = bytes[0];
        let second = bytes[1];
        assert(is_leading_byte_width_2(first) && is_continuation_byte(second)) by (bit_vector)
            requires
                first == leading_byte_width_2(scalar),
                second == last_continuation_byte(scalar),
        ;
    } else if has_width_3_encoding(scalar) {
        let first = bytes[0];
        let second = bytes[1];
        let third = bytes[2];
        assert(is_leading_byte_width_3(first) && is_continuation_byte(second)
            && is_continuation_byte(third)) by (bit_vector)
            requires
                first == leading_byte_width_3(scalar),
                second == second_last_continuation_byte(scalar),
                third == last_continuation_byte(scalar),
        ;
    } else {
        let first = bytes[0];
        assert(is_leading_byte_width_4(first)) by (bit_vector)
            requires
                first == leading_byte_width_4(scalar),
        ;
    }
}

/// A string holds a character that has to be written differently exactly
/// when its first character is one or the rest of it holds one.
pub proof fn lemma_needs_encoding_unfold(chars: Seq<char>, flavor: Flavor)
    requires
        chars.len() > 0,
    ensures
        any_needs_encoding(chars, flavor) == (needs_encoding(chars[0], flavor)
            || any_needs_encoding(chars.drop_first(), flavor)),
{
    let rest = chars.drop_first();
    if any_needs_encoding(chars, flavor) {
        let i = choose|i: int| 0 <= i < chars.len() && needs_encoding(#[trigger] chars[i], flavor);
        if i > 0 {
            assert(needs_encoding(rest[i - 1], flavor));
        }
    }
    if any_needs_encoding(rest, flavor) {
        let i = choose|i: int| 0 <= i < rest.len() && needs_encoding(#[trigger] rest[i], flavor);
        assert(needs_encoding(chars[i + 1], flavor));
    }
    if needs_encoding(chars[0], flavor) {
        assert(any_needs_encoding(chars, flavor));
    }
}

/// The three-byte form of a surrogate holds no byte that the scanner looks
/// for.
pub proof fn lemma_surrogate_has_no_signal(unit: u32, mode: ScanMode)
    requires
        is_high_surrogate(unit) || is_low_surrogate(unit),
    ensures
        !has_signal(three_byte_form(unit), mode),
{
    let first = three_byte_form(unit)[0];
    let second = three_byte_form(unit)[1];
    let third = three_byte_form(unit)[2];
    assert(first == 0xed && is_continuation_byte(second) && is_continuation_byte(third))
        by (bit_vector)
        requires
            is_high_surrogate(unit) || is_low_surrogate(unit),
            first == leading_byte_width_3(unit),
            second == second_last_continuation_byte(unit),
            third == last_continuation_byte(unit),
    ;
}

/// In well-formed UTF-8 only the first byte of a character can be one that
/// the scanner looks for.
pub proof fn lemma_signal_of_first_scalar(bytes: Seq<u8>, mode: ScanMode)
    requires
        valid_first_scalar(bytes),
    ensures
        has_signal(bytes, mode) == (is_signal(bytes[0], mode) || has_signal(
            pop_first_scalar(bytes),
            mode,
        )),
{
    let head = take_first_scalar(bytes);
    let rest = pop_first_scalar(bytes);
    assert(bytes =~= head + rest);
    lemma_signal_concat(head, rest, mode);
    if has_signal(head, mode) {
        let i = choose|i: int| 0 <= i < head.len() && is_signal(#[trigger] head[i], mode);
        if i > 0 {
            assert(is_continuation_byte(head[i]));
        }
    }
    if is_signal(bytes[0], mode) {
        assert(is_signal(head[0], mode));
    }
}

} // verus!
