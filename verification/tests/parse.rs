//! Parsing, validation and error behaviour.

use human_friendly_ids::alphabet::{calculate_check_char, normalize_string, validate_char};
use human_friendly_ids::{Id, IdError};

#[test]
fn test_decode() {
    let test_string = String::from("wcfytxww4opin4jmjjes4ccfd");
    let decoded = Id::try_from(test_string).expect("Failed to decode UploadId");
    assert_eq!(
        decoded.as_str(),
        "wcfytxww4opin4jmjjes4ccfd",
        "decoded value should be equal to input string"
    );
}

#[test]
fn test_invalid_chars_error() {
    let id = "abc123".to_string();
    let result = Id::try_from(id);
    assert!(result.is_err());
    let err = result.expect_err("Should fail due to invalid characters");
    assert_eq!(err.message(), "Invalid check bit");
}

#[test]
fn test_invalid_check_bit_error() {
    let invalid_id = String::from("abbsyhbbb4tyxnnmrtjx4crom");
    let result = Id::try_from(invalid_id);
    assert!(result.is_err());
    let err = result.expect_err("Should fail due to invalid check-bit");
    assert_eq!(err.message(), "Invalid check bit");
}

#[test]
fn test_too_short_error() {
    let invalid_id = String::from("aa");
    let result = Id::try_from(invalid_id);
    assert!(result.is_err());
    let err = result.expect_err("Should fail due to invalid check-bit");
    assert_eq!(err.message(), "ID length too short, minimum 3 characters");
}

#[test]
fn test_weird_unicode() {
    let invalid_id = String::from("🦀🦀🦀");
    let result = Id::try_from(invalid_id);
    assert!(result.is_err());
    let err = result.expect_err("Should fail due to invalid characters");
    assert_eq!(err.message(), "Invalid character in ID");
}

#[test]
fn test_invalid_chars() {
    let invalid_id = String::from("¡¢£¤¥¦§¨©ª«¬®¯°±²³´µ¶·¸¹º»¼½¾¿gg");
    let result = Id::try_from(invalid_id);
    assert!(result.is_err());
    let err = result.expect_err("Should fail due to invalid characters");
    assert_eq!(err.message(), "Invalid character in ID");
}

#[test]
fn boundary_length_three_is_too_short() {
    assert_eq!(Id::from_str("abc"), Err(IdError::TooShort));
    assert_eq!(Id::from_str(""), Err(IdError::TooShort));
    assert_eq!(Id::from_str("ab"), Err(IdError::TooShort));
}

#[test]
fn boundary_length_four_with_correct_check_parses() {
    // body "abc" has rank sum 0 + 1 + 2 = 3, so its check character is 'd'.
    let id = Id::from_str("abcd").expect("length-four identifier with correct check");
    assert_eq!(id.as_str(), "abcd");
}

#[test]
fn boundary_length_four_with_wrong_check_fails() {
    assert_eq!(Id::from_str("abca"), Err(IdError::InvalidCheckBit));
}

#[test]
fn normalization_is_idempotent_on_samples() {
    let samples = [
        "9qg6G8B2Z5SIl170O",
        "Il717il",
        "rnmrnmrn",
        "vuuvvnwvvwv",
        "already normal",
        "RNVVrnvv",
        "🦀 mixed ¡ input 0O1l7",
        "",
    ];
    for s in samples {
        let once = normalize_string(s);
        let twice = normalize_string(&once);
        assert_eq!(once, twice);
    }
}

#[test]
fn normalization_folds_confusables() {
    assert_eq!(normalize_string("0oO0OooO"), "oooooooo");
    assert_eq!(normalize_string("Il717il"), "iiiiiii");
    assert_eq!(normalize_string("5s25zs5"), "sssssss");
    assert_eq!(normalize_string("6G6GGG6"), "bbbbbbb");
    assert_eq!(normalize_string("rnmrnmrn"), "mmmmm");
    assert_eq!(normalize_string("vuuvvnwvvwv"), "wwvnwwwv");
}

#[test]
fn checksum_is_deterministic_and_order_insensitive() {
    // Identical bodies always give identical check characters.
    assert_eq!(calculate_check_char("abc"), calculate_check_char("abc"));
    // Anagram bodies give the same check character: the rank sum carries no
    // positional weighting.
    assert_eq!(calculate_check_char("abc").unwrap(), 'd');
    assert_eq!(calculate_check_char("cab").unwrap(), 'd');
    assert_eq!(calculate_check_char("bca").unwrap(), 'd');
}

#[test]
fn checksum_rejects_invalid_characters() {
    assert_eq!(calculate_check_char("ab!"), Err(IdError::InvalidCharacter));
    assert_eq!(calculate_check_char("🦀"), Err(IdError::InvalidCharacter));
}

#[test]
fn validate_char_accepts_only_the_check_alphabet() {
    for c in [
        'a', 'b', 'c', 'd', 'e', 'f', 'h', 'i', 'j', 'k', 'm', 'n', 'o', 'p', 'r', 's', 't', 'w',
        'x', 'y', '3', '4', 'v',
    ] {
        assert_eq!(validate_char(c), Ok(()));
    }
    for c in ['g', 'l', 'q', 'u', 'z', '0', '1', '2', '5', '6', '7', '8', '9', 'A', '!', 'é'] {
        assert_eq!(validate_char(c), Err(IdError::InvalidCharacter));
    }
}

#[test]
fn parsed_identifiers_compare_by_normalized_string() {
    let a = Id::from_str("ABCD").expect("uppercase input normalizes and parses");
    let b = Id::from_str("abcd").expect("lowercase input parses");
    assert_eq!(a, b);
    assert_eq!(a.as_str(), "abcd");
}

#[test]
fn lowercasing_is_full_unicode() {
    // U+212A (the Kelvin sign) lowercases to the ASCII 'k', which is in the
    // alphabet, so an identifier written with it decodes.
    assert_eq!(normalize_string("\u{212A}\u{212A}\u{212A}"), "kkk");
    let id = Id::from_str("\u{212A}\u{212A}\u{212A}e").expect("kelvin signs fold to 'k'");
    assert_eq!(id.as_str(), "kkke");
    // A cased non-ASCII letter is lowercased before validation rejects it.
    assert_eq!(normalize_string("À"), "à");
    assert_eq!(Id::from_str("ÀBCD"), Err(IdError::InvalidCharacter));
}

#[test]
fn conversions_preserve_the_canonical_string() {
    let id = Id::from_str("abcd").unwrap();
    let s: String = id.clone().into();
    assert_eq!(s, "abcd");
    let reparsed: Id = "ABCD".parse().expect("parse through FromStr");
    assert_eq!(reparsed, id);
}

#[test]
fn error_messages_are_fixed() {
    assert_eq!(IdError::InvalidCharacter.message(), "Invalid character in ID");
    assert_eq!(
        IdError::TooShort.message(),
        "ID length too short, minimum 3 characters"
    );
    assert_eq!(IdError::InvalidCheckBit.message(), "Invalid check bit");
}
