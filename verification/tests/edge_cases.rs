//! Confusable-heavy inputs: each case computes the check character of the
//! normalized input, appends it to the raw input, and decodes the result.

use human_friendly_ids::alphabet::{calculate_check_char, normalize_string};
use human_friendly_ids::Id;

#[test]
fn snapshot_lut() {
    // A body of one character has that character's rank as its sum, so its
    // check character is the character itself: this pins down the whole
    // rank table.
    for c in [
        'a', 'b', 'c', 'd', 'e', 'f', 'h', 'i', 'j', 'k', 'm', 'n', 'o', 'p', 'r', 's', 't', 'w',
        'x', 'y', '3', '4', 'v',
    ] {
        let body = c.to_string();
        assert_eq!(calculate_check_char(&body), Ok(c));
    }
}

#[test]
fn edge_case_1() {
    let id = String::from("9qg6G8B2Z5SIl170O");
    let check = calculate_check_char(&normalize_string(&id));
    let formatted_id = Id::from_str(&format!("{}{}", id, check.clone().unwrap())).unwrap();
    assert_eq!(check.unwrap(), 'e');
    assert_eq!(formatted_id.as_str(), "bbbbbbbssssiiiiooe");
}

#[test]
fn edge_case_2() {
    let id = String::from("Il717il");
    let check = calculate_check_char(&normalize_string(&id));
    let formatted_id = Id::from_str(&format!("{}{}", id, check.clone().unwrap())).unwrap();
    assert_eq!(check.unwrap(), 'd');
    assert_eq!(formatted_id.as_str(), "iiiiiiid");
}

#[test]
fn edge_case_3() {
    let id = String::from("5s25zs5");
    let check = calculate_check_char(&normalize_string(&id));
    let formatted_id = Id::from_str(&format!("{}{}", id, check.clone().unwrap())).unwrap();
    assert_eq!(check.unwrap(), 'p');
    assert_eq!(formatted_id.as_str(), "sssssssp");
}

#[test]
fn edge_case_4() {
    let id = String::from("6G6GGG6");
    let check = calculate_check_char(&normalize_string(&id));
    let formatted_id = Id::from_str(&format!("{}{}", id, check.clone().unwrap())).unwrap();
    assert_eq!(check.unwrap(), 'i');
    assert_eq!(formatted_id.as_str(), "bbbbbbbi");
}

#[test]
fn edge_case_5() {
    let id = String::from("0oO0OooO");
    let check = calculate_check_char(&normalize_string(&id));
    let formatted_id = Id::from_str(&format!("{}{}", id, check.clone().unwrap())).unwrap();
    assert_eq!(check.unwrap(), 'e');
    assert_eq!(formatted_id.as_str(), "ooooooooe");
}

#[test]
fn edge_case_6() {
    let id = String::from("rnmrnmrn");
    let check = calculate_check_char(&normalize_string(&id));
    let formatted_id = Id::from_str(&format!("{}{}", id, check.clone().unwrap())).unwrap();
    assert_eq!(check.unwrap(), 'e');
    assert_eq!(formatted_id.as_str(), "mmmmme");
}

#[test]
fn edge_case_7() {
    let id = String::from("vuuvvnwvvwv");
    let check = calculate_check_char(&normalize_string(&id));
    let formatted_id = Id::from_str(&format!("{}{}", id, check.clone().unwrap())).unwrap();
    assert_eq!(check.unwrap(), 'c');
    assert_eq!(formatted_id.as_str(), "wwvnwwwvc");
}

#[test]
fn edge_case_8() {
    // audibly ambiguous id.
    let id = String::from("bbbpbpb");
    let check = calculate_check_char(&normalize_string(&id));
    let formatted_id = Id::from_str(&format!("{}{}", id, check.clone().unwrap())).unwrap();
    assert_eq!(check.unwrap(), 'j');
    assert_eq!(formatted_id.as_str(), "bbbpbpbj");
}
