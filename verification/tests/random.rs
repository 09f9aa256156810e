//! Random strings of every character width, held against the `cesu8` crate.

use rand::distributions::Uniform;
use rand::{Rng, SeedableRng};
use rand_xoshiro::Xoshiro256StarStar;

/// The length in bytes of each generated string.
const VALUE_SIZE: usize = 16_380;

/// Draws characters until one has the wanted UTF-8 width.
fn clamped_char(rng: &mut Xoshiro256StarStar, width: usize) -> char {
    loop {
        let random_char = rng.gen::<char>();

        if random_char.len_utf8() == width {
            return random_char;
        }
    }
}

/// `count` characters of the given UTF-8 width.
fn clamped_string(rng: &mut Xoshiro256StarStar, width: usize, count: usize) -> String {
    (0..count).map(|_| clamped_char(rng, width)).collect()
}

/// Strings in which characters of one, two, three and four bytes follow each
/// other in turn, every other one-byte character being the null character.
fn interspersed(count: usize) -> Vec<String> {
    let mut rng = Xoshiro256StarStar::seed_from_u64(1);
    let ascii_dist = Uniform::new_inclusive(0x01, 0x7f);

    let passes = VALUE_SIZE / (4 + 3 + 2 + 1);

    let mut values = Vec::with_capacity(count);

    for _ in 0..count {
        let clamped_1 = (0..passes)
            .map(|i| {
                if i % 2 == 0 {
                    '\0'
                } else {
                    let n: u8 = rng.sample(ascii_dist);
                    char::from(n)
                }
            })
            .collect::<String>();
        let clamped_2 = clamped_string(&mut rng, 2, passes);
        let clamped_3 = clamped_string(&mut rng, 3, passes);
        let clamped_4 = clamped_string(&mut rng, 4, passes);

        let mut clamped_1_chars = clamped_1.chars();
        let mut clamped_2_chars = clamped_2.chars();
        let mut clamped_3_chars = clamped_3.chars();
        let mut clamped_4_chars = clamped_4.chars();

        let mut string = String::with_capacity(VALUE_SIZE);

        for _ in 0..passes {
            string.push(clamped_1_chars.next().unwrap());
            string.push(clamped_2_chars.next().unwrap());
            string.push(clamped_3_chars.next().unwrap());
            string.push(clamped_4_chars.next().unwrap());
        }

        assert_eq!(string.len(), VALUE_SIZE);
        values.push(string);
    }

    values
}

#[test]
fn test() {
    const SAMPLE_SIZE: usize = 100;

    let random_strings = interspersed(SAMPLE_SIZE);
    let mut iter = random_strings.iter();

    for _ in 0..SAMPLE_SIZE {
        let string = iter.next().unwrap();

        let simd_encoded = simd_cesu8::encode(string);
        let compare_encoded = cesu8::to_cesu8(string);

        assert_eq!(simd_encoded, compare_encoded);

        let simd_decoded = simd_cesu8::decode(&simd_encoded).unwrap();
        let compare_decoded = cesu8::from_cesu8(&compare_encoded).unwrap();

        assert_eq!(simd_decoded, compare_decoded);
    }
}

#[test]
fn random_strings_agree_with_the_cesu8_crate_in_mutf8() {
    for string in interspersed(4) {
        let encoded = simd_cesu8::mutf8::encode(&string);
        let compare_encoded = cesu8::to_java_cesu8(&string);
        assert_eq!(encoded, compare_encoded);
        assert!(!encoded.contains(&0x00));

        let decoded = simd_cesu8::mutf8::decode_strict(&encoded).unwrap();
        let compare_decoded = cesu8::from_java_cesu8(&compare_encoded).unwrap();
        assert_eq!(decoded, compare_decoded);
        assert_eq!(decoded, string);
    }
}
