//! The identifier allocator and the decimal rendering it relies on.

use djlib::allocator::{next_id, pick_id};
use djlib::strings::dec_str;
use djlib::Error;

#[test]
fn dec_str_renders_decimal() {
    assert_eq!(dec_str(0), "0");
    assert_eq!(dec_str(7), "7");
    assert_eq!(dec_str(100), "100");
    assert_eq!(dec_str(43970339), "43970339");
    assert_eq!(dec_str(u32::MAX), "4294967295");
}

#[test]
fn pick_id_takes_first_usable_candidate() {
    let existing = vec!["150".to_string(), "9000".to_string()];
    // 42 is reserved, 150 is taken; 151 is the first usable candidate.
    let candidates = vec![42, 150, 151, 152];
    assert_eq!(pick_id(&candidates, &existing), Ok(151));
}

#[test]
fn pick_id_rejects_reserved_values() {
    let existing: Vec<String> = vec![];
    let candidates = vec![0, 1, 99];
    assert_eq!(pick_id(&candidates, &existing), Err(Error::AllocationExhausted));
}

#[test]
fn pick_id_exhausts_on_collisions() {
    let existing = vec!["150".to_string()];
    let candidates = vec![150, 150];
    assert_eq!(pick_id(&candidates, &existing), Err(Error::AllocationExhausted));
}

#[test]
fn next_id_avoids_used_identifiers() {
    let existing = vec!["150".to_string(), "151".to_string()];
    // Drawing 64 random 32-bit values virtually never exhausts here.
    let id = next_id(&existing).unwrap();
    assert!(id >= 100);
    assert!(!existing.contains(&dec_str(id)));
}
