//! The scanner and its three backends.

use simd_cesu8::implementation::word::{
    usize_repeat_u8, word_contains_null_byte, word_contains_null_or_utf8_4_byte_char_header,
    word_contains_utf8_4_byte_char_header, USIZE_SIZE,
};
use simd_cesu8::implementation::{fallback, scan, scan_with, simd, word, Backend, ScanMode};

const BACKENDS: [Backend; 3] = [Backend::Fallback, Backend::Word, Backend::Simd];
const MODES: [ScanMode; 2] = [ScanMode::NullOr4ByteHeader, ScanMode::Only4ByteHeader];

/// The scan as it is defined: byte by byte.
fn expected(bytes: &[u8], mode: ScanMode) -> bool {
    bytes.iter().any(|&byte| {
        byte & 0xf8 == 0xf0 || (mode == ScanMode::NullOr4ByteHeader && byte == 0x00)
    })
}

fn check_all(bytes: &[u8]) {
    for mode in MODES {
        let wanted = expected(bytes, mode);
        for backend in BACKENDS {
            assert_eq!(
                scan_with(backend, bytes, mode),
                wanted,
                "{backend:?} in {mode:?} on {bytes:x?}"
            );
            // Scanning again changes nothing.
            assert_eq!(scan_with(backend, bytes, mode), wanted);
        }
        assert_eq!(scan(bytes, mode), wanted);
    }
    assert_eq!(
        fallback::contains_null_or_utf8_4_byte_char_header(bytes),
        expected(bytes, ScanMode::NullOr4ByteHeader)
    );
    assert_eq!(
        word::contains_null_or_utf8_4_byte_char_header(bytes),
        expected(bytes, ScanMode::NullOr4ByteHeader)
    );
    assert_eq!(
        simd::contains_null_or_utf8_4_byte_char_header(bytes),
        expected(bytes, ScanMode::NullOr4ByteHeader)
    );
    assert_eq!(
        fallback::contains_utf8_4_byte_char_header(bytes),
        expected(bytes, ScanMode::Only4ByteHeader)
    );
    assert_eq!(
        word::contains_utf8_4_byte_char_header(bytes),
        expected(bytes, ScanMode::Only4ByteHeader)
    );
    assert_eq!(
        simd::contains_utf8_4_byte_char_header(bytes),
        expected(bytes, ScanMode::Only4ByteHeader)
    );
}

#[test]
fn empty_buffer_holds_nothing() {
    check_all(&[]);
    for backend in BACKENDS {
        for mode in MODES {
            assert!(!scan_with(backend, &[], mode));
        }
    }
}

#[test]
fn backends_agree_on_every_length_and_position() {
    // Twice the widest group of lanes, and a little more.
    for len in 0..=150usize {
        let quiet = vec![0x41u8; len];
        check_all(&quiet);
        for backend in BACKENDS {
            for mode in MODES {
                assert!(!scan_with(backend, &quiet, mode), "{backend:?} {mode:?} {len}");
            }
        }

        for position in 0..len {
            for signal in [0x00u8, 0xf0, 0xf4, 0xf7] {
                let mut bytes = quiet.clone();
                bytes[position] = signal;
                check_all(&bytes);
                for backend in BACKENDS {
                    assert_eq!(
                        scan_with(backend, &bytes, ScanMode::NullOr4ByteHeader),
                        true,
                        "{backend:?} {len} {position} {signal:#x}"
                    );
                    assert_eq!(
                        scan_with(backend, &bytes, ScanMode::Only4ByteHeader),
                        signal != 0x00,
                        "{backend:?} {len} {position} {signal:#x}"
                    );
                }
            }
        }
    }
}

#[test]
fn only_the_two_bit_patterns_count() {
    for byte in 0..=255u8 {
        for len in [1usize, 7, 8, 9, 16, 33, 64, 65] {
            for position in [0, len / 2, len - 1] {
                let mut bytes = vec![0x61u8; len];
                bytes[position] = byte;
                check_all(&bytes);
            }
        }
    }
}

#[test]
fn neighbours_of_the_patterns_do_not_count() {
    for byte in [0x01u8, 0x7f, 0x80, 0xbf, 0xc0, 0xe0, 0xef, 0xf8, 0xfb, 0xfc, 0xfe, 0xff] {
        let bytes = vec![byte; 40];
        for backend in BACKENDS {
            for mode in MODES {
                assert!(!scan_with(backend, &bytes, mode), "{backend:?} {mode:?} {byte:#x}");
            }
        }
    }
}

#[test]
fn the_scan_does_not_validate() {
    // Continuation bytes without a lead byte, and a lead byte without
    // continuation bytes: the scanner only looks at the patterns.
    for backend in BACKENDS {
        assert!(!scan_with(backend, &[0x80, 0x80, 0x80], ScanMode::NullOr4ByteHeader));
        assert!(scan_with(backend, &[0xf0], ScanMode::Only4ByteHeader));
        assert!(scan_with(backend, &[0x80, 0xf7, 0x80], ScanMode::Only4ByteHeader));
    }
}

#[test]
fn a_word_repeats_a_byte_in_every_lane() {
    assert_eq!(USIZE_SIZE, std::mem::size_of::<usize>());
    assert_eq!(usize_repeat_u8(0x00), 0);
    assert_eq!(usize_repeat_u8(0xff), usize::MAX);
    assert_eq!(usize_repeat_u8(0x01), usize::from_ne_bytes([0x01; USIZE_SIZE]));
    assert_eq!(usize_repeat_u8(0x80), usize::from_ne_bytes([0x80; USIZE_SIZE]));
    assert_eq!(usize_repeat_u8(0xf8), usize::from_ne_bytes([0xf8; USIZE_SIZE]));
    assert_eq!(usize_repeat_u8(0xf0), usize::from_ne_bytes([0xf0; USIZE_SIZE]));
    assert_eq!(usize_repeat_u8(0x41).to_ne_bytes(), [0x41; USIZE_SIZE]);
}

#[test]
fn a_word_is_tested_lane_by_lane() {
    for lane in 0..USIZE_SIZE {
        for byte in 0..=255u8 {
            let mut lanes = [0x41u8; USIZE_SIZE];
            lanes[lane] = byte;
            let word = usize::from_ne_bytes(lanes);

            let null = byte == 0x00;
            let header = byte & 0xf8 == 0xf0;
            assert_eq!(word_contains_null_byte(word), null, "{lane} {byte:#x}");
            assert_eq!(word_contains_utf8_4_byte_char_header(word), header, "{lane} {byte:#x}");
            assert_eq!(
                word_contains_null_or_utf8_4_byte_char_header(word),
                null || header,
                "{lane} {byte:#x}"
            );
        }
    }
}

#[test]
fn a_borrow_does_not_reach_the_verdict() {
    // 0x01 above 0x00: the subtraction borrows from the upper lane and sets
    // its top bit, but the verdict is right all the same.
    let mut lanes = [0x01u8; USIZE_SIZE];
    assert!(!word_contains_null_byte(usize::from_ne_bytes(lanes)));
    lanes[0] = 0x00;
    assert!(word_contains_null_byte(usize::from_ne_bytes(lanes)));
    assert!(!word_contains_null_byte(usize::MAX));
    assert!(word_contains_null_byte(0));
    assert!(!word_contains_null_byte(usize_repeat_u8(0x80)));
}
