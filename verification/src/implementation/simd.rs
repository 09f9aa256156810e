//! The vector-parallel scanner: fixed-width groups of byte lanes per step.
//!
//! The buffer is cut into chunks of 64 lanes; what is left over is cut into
//! chunks of 32 lanes, and so on down to 2 lanes.  The last odd byte goes to
//! the byte-at-a-time scanner.  Within a chunk every lane is compared and the
//! comparisons are folded into one flag, so that the compiler is free to use
//! vector instructions; only a whole chunk ends the scan early.

use vstd::prelude::*;

use super::fallback;
use super::{has_signal, is_signal, lemma_four_byte_header_mask, ScanMode};
use crate::lemmas::lemma_signal_concat;

verus! {

/// Whether some lane of `chunk` holds a byte that `mode` looks for.
///
/// Every lane is tested; nothing is decided before the last one.
#[inline]
fn any_lane(chunk: &[u8], mode: ScanMode) -> (found: bool)
    ensures
        found == has_signal(chunk@, mode),
{
    let with_null = match mode {
        ScanMode::NullOr4ByteHeader => true,
        ScanMode::Only4ByteHeader => false,
    };
    let mut found = false;
    for lane in 0..chunk.len()
        invariant
            found == exists|i: int| 0 <= i < lane && is_signal(#[trigger] chunk@[i], mode),
            with_null == (mode == ScanMode::NullOr4ByteHeader),
    {
        let byte = chunk[lane];
        proof {
            lemma_four_byte_header_mask(byte);
        }
        let hit = (with_null && byte == 0x00) || byte & 0b1111_1000 == 0b1111_0000;
        found = found || hit;
    }
    found
}

/// Tests the whole chunks of `LANES` bytes at the front of `remainder`.
///
/// Returns `None` as soon as a chunk holds a byte that `mode` looks for.
/// Otherwise returns the bytes behind the last whole chunk, fewer than `LANES`
/// of them: they are all that still has to be looked at.
#[inline]
fn process<'a, const LANES: usize>(remainder: &'a [u8], mode: ScanMode) -> (rest: Option<&'a [u8]>)
    requires
        LANES > 0,
    ensures
        rest is None ==> has_signal(remainder@, mode),
        rest matches Some(rest) ==> rest@.len() < LANES && has_signal(remainder@, mode)
            == has_signal(rest@, mode),
{
    let len = remainder.len();
    proof {
        vstd::arithmetic::div_mod::lemma_fundamental_div_mod(len as int, LANES as int);
        vstd::arithmetic::div_mod::lemma_mod_bound(len as int, LANES as int);
        vstd::arithmetic::div_mod::lemma_div_pos_is_pos(len as int, LANES as int);
    }
    let whole = len - len % LANES;
    let ghost mut chunks: int = (len / LANES) as int;
    let mut position: usize = 0;
    while position < whole
        invariant
            LANES > 0,
            len == remainder@.len(),
            position <= whole <= len,
            len - whole < LANES,
            chunks >= 0,
            whole - position == LANES * chunks,
            !has_signal(remainder@.take(position as int), mode),
        decreases whole - position,
    {
        assert(position + LANES <= whole) by (nonlinear_arith)
            requires
                LANES > 0,
                position < whole,
                chunks >= 0,
                whole - position == LANES * chunks,
        ;
        let chunk = &remainder[position..position + LANES];
        proof {
            assert(remainder@.take(position + LANES) =~= remainder@.take(position as int)
                + chunk@);
            lemma_signal_concat(remainder@.take(position as int), chunk@, mode);
        }
        if any_lane(chunk, mode) {
            proof {
                assert(remainder@ =~= remainder@.take(position + LANES) + remainder@.skip(
                    position + LANES,
                ));
                lemma_signal_concat(
                    remainder@.take(position + LANES),
                    remainder@.skip(position + LANES),
                    mode,
                );
            }
            return None;
        }
        position += LANES;
        proof {
            assert(LANES * (chunks - 1) == LANES * chunks - LANES) by (nonlinear_arith);
            chunks = chunks - 1;
        }
    }
    proof {
        assert(remainder@ =~= remainder@.take(whole as int) + remainder@.skip(whole as int));
        lemma_signal_concat(remainder@.take(whole as int), remainder@.skip(whole as int), mode);
    }
    Some(&remainder[whole..len])
}

/// Scans `value` with all lane widths in turn, widest first.
#[inline]
fn scan(value: &[u8], mode: ScanMode) -> (found: bool)
    ensures
        found == has_signal(value@, mode),
{
    let mut remainder = value;

    match process::<64>(remainder, mode) {
        None => {
            return true;
        },
        Some(rest) => {
            remainder = rest;
        },
    }
    match process::<32>(remainder, mode) {
        None => {
            return true;
        },
        Some(rest) => {
            remainder = rest;
        },
    }
    match process::<16>(remainder, mode) {
        None => {
            return true;
        },
        Some(rest) => {
            remainder = rest;
        },
    }
    match process::<8>(remainder, mode) {
        None => {
            return true;
        },
        Some(rest) => {
            remainder = rest;
        },
    }
    match process::<4>(remainder, mode) {
        None => {
            return true;
        },
        Some(rest) => {
            remainder = rest;
        },
    }
    match process::<2>(remainder, mode) {
        None => {
            return true;
        },
        Some(rest) => {
            remainder = rest;
        },
    }

    match mode {
        ScanMode::NullOr4ByteHeader => {
            fallback::contains_null_or_utf8_4_byte_char_header(remainder)
        },
        ScanMode::Only4ByteHeader => fallback::contains_utf8_4_byte_char_header(remainder),
    }
}

/// Whether `value` holds a null byte or the lead byte of a four-byte UTF-8
/// character.
#[must_use]
#[inline]
pub fn contains_null_or_utf8_4_byte_char_header(value: &[u8]) -> (found: bool)
    ensures
        found == has_signal(value@, ScanMode::NullOr4ByteHeader),
{
    scan(value, ScanMode::NullOr4ByteHeader)
}

/// Whether `value` holds the lead byte of a four-byte UTF-8 character.
#[must_use]
#[inline]
pub fn contains_utf8_4_byte_char_header(value: &[u8]) -> (found: bool)
    ensures
        found == has_signal(value@, ScanMode::Only4ByteHeader),
{
    scan(value, ScanMode::Only4ByteHeader)
}

} // verus!
