//! Generation: lengths, round-trips, and fuzzing.

use rand::RngExt;

use human_friendly_ids::Id;

const GEN_ALPHABET: [char; 23] = [
    'a', 'b', 'c', 'd', 'e', 'f', 'h', 'i', 'j', 'k', 'm', 'n', 'o', 'p', 'r', 's', 't', 'w', 'x',
    'y', '3', '4', 'v',
];

#[test]
fn assert_largest_id_is_fixed() {
    let largest = Id::max_length();
    assert_eq!(largest, 838_488_366_986_797_801); // Absurdly large number, but it's fixed.

    // Try and generate an id with a very large length, notably this will
    // allocate a string of this size.
    const TEST_SIZE: usize = 1024 * 1024; // 1mb

    let id = Id::new(TEST_SIZE);
    assert_eq!(id.as_str().len(), TEST_SIZE);

    // Decode and re-encode the id.
    let id_str = id.as_str().to_string();
    let id_decoded: Id = id_str.parse().expect("Failed to decode UploadId");

    assert_eq!(id_decoded.as_str(), id_str);
}

#[test]
fn fuzz_generated_ids() {
    for _ in 0_u64..10_000_u64 {
        let id = Id::new(25);
        assert_eq!(id.as_str().len(), 25);

        // Assert that serializing and deserializing the id doesn't change it.
        let id_str = id.as_str().to_string();
        let id = Id::try_from(id_str.clone()).expect("Failed to decode UploadId");
        assert_eq!(id.as_str(), id_str);
    }
}

#[test]
fn fuzz_gen_alphabet_strings() {
    let mut rng = rand::rng();
    for _ in 0..100_000_u64 {
        // Generate a random string of characters from 2 to 25 characters long.
        let string = (0..rng.random_range(2..25))
            .map(|_| GEN_ALPHABET[rng.random_range(0..GEN_ALPHABET.len())])
            .collect::<String>();

        // Try and decode it - should not panic.
        let _ = Id::try_from(string.clone());
    }
}

#[test]
fn fuzz_random_strings() {
    let mut rng = rand::rng();
    for _ in 0..100_000_u64 {
        // Generate a random string of characters from 2 to 25 characters long.
        let string = (0..rng.random_range(2..25))
            .map(|_| rng.random_range(0..=255) as u8 as char)
            .collect::<String>();

        // Try and decode it - should not panic.
        let _ = Id::try_from(string.clone());
    }
}

#[test]
fn generated_length_25_always_parses() {
    for _ in 0..1_000 {
        let id = Id::new(25);
        assert_eq!(id.as_str().len(), 25);
        let parsed = Id::from_str(id.as_str()).expect("generated id must parse");
        assert_eq!(parsed, id);
    }
}

#[test]
fn tiny_lengths_do_not_panic() {
    // Degenerate lengths: a body of zero or one characters plus the check
    // character, built under the same rules.
    let id0 = Id::new(0);
    assert_eq!(id0.as_str().len(), 1);
    let id1 = Id::new(1);
    assert_eq!(id1.as_str().len(), 1);
    let id2 = Id::new(2);
    assert_eq!(id2.as_str().len(), 2);
    let id3 = Id::new(3);
    assert_eq!(id3.as_str().len(), 3);
}

#[test]
fn generated_ids_use_explicit_rng() {
    let mut rng = rand::rng();
    for len in [4_usize, 5, 10, 25] {
        let id = Id::new_with_rng(len, &mut rng);
        assert_eq!(id.as_str().len(), len);
        let parsed = Id::from_str(id.as_str()).expect("generated id must parse");
        assert_eq!(parsed.as_str(), id.as_str());
    }
}
