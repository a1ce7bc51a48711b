//! The core operations exercised against an in-memory library: lookup,
//! tagging, playlists, and the change counter.

use djlib::{Content, Library};

/// A library holding the track the lookups search for, and the content
/// record resolved from it.
fn library_content() -> (Library, Content) {
    let mut library = Library::new(1000);
    library.add_content(
        "43970339".to_string(),
        "7a - 124.9 - sunset boulevard [918205852].aiff".to_string(),
        "/Users/dj/Music/Sets".to_string(),
        3,
    );
    library.add_tag("201".to_string(), "eatmos".to_string());
    library.add_tag("202".to_string(), "vocals".to_string());
    let content = library.content("918205852").unwrap();
    (library, content)
}

fn content_tag_names(library: &Library, content: &Content) -> Vec<String> {
    let tags = library.content_tags(content);
    tags.iter().map(|t| t.Name.to_owned()).collect::<Vec<_>>()
}

#[test]
fn test_find_content() {
    let (_library, content) = library_content();
    assert_eq!(content.ID, "43970339");
}

#[test]
fn test_playlist_create() {
    let (mut library, _content) = library_content();
    library.playlist_create("2026").unwrap();
}

#[test]
fn test_playlist_add() {
    let (mut library, content) = library_content();
    library.playlist_create("Oefenen").unwrap();
    library.playlist_add("Oefenen", &content);
}

#[test]
fn test_content_tags() {
    let (mut library, content) = library_content();
    library.clear_tags(&content);
    let names = content_tag_names(&library, &content);
    let empty: Vec<String> = vec![];
    assert_eq!(empty, names);
    library.tag_content(&content, "eatmos");
    let names = content_tag_names(&library, &content);
    assert_eq!(vec!["eatmos"], names);
    library.untag_content(&content, "eatmos");
    let names = content_tag_names(&library, &content);
    assert_eq!(empty, names);
}

#[test]
fn find_content_case_insensitive_substring() {
    let (library, _content) = library_content();
    let found = library.filepath("users/dj/music").unwrap();
    assert_eq!(found.ID, "43970339");
    let found = library.content("918205852").unwrap();
    assert_eq!(found.FileNameL, "7a - 124.9 - sunset boulevard [918205852].aiff");
    assert_eq!(found.Rating, 3);
}

#[test]
fn find_content_not_found() {
    let (library, _content) = library_content();
    assert_eq!(library.content("000000000").unwrap_err(), djlib::Error::NotFound);
    assert_eq!(library.filepath("/nowhere").unwrap_err(), djlib::Error::NotFound);
}

#[test]
fn find_content_first_of_many() {
    let mut library = Library::new(0);
    library.add_content(
        "1".to_string(),
        "alpha [555].aiff".to_string(),
        "/Music/A".to_string(),
        0,
    );
    library.add_content(
        "2".to_string(),
        "beta [555].aiff".to_string(),
        "/Music/B".to_string(),
        0,
    );
    // Several rows match; the first row wins.
    assert_eq!(library.content("555").unwrap().ID, "1");
    assert_eq!(library.filepath("/music").unwrap().ID, "1");
}

#[test]
fn sequence_allocator_run() {
    let mut library = Library::new(500);
    let mut seen = Vec::new();
    for _ in 0..5 {
        seen.push(library.next_usn());
    }
    assert_eq!(seen, vec![501, 502, 503, 504, 505]);
    assert_eq!(library.current_usn(), 505);
}

#[test]
fn tag_twice_is_idempotent() {
    let (mut library, content) = library_content();
    let before = library.current_usn();
    let first = library.tag_content(&content, "eatmos");
    let second = library.tag_content(&content, "eatmos");
    assert_eq!(first, Some(before + 1));
    assert_eq!(second, None);
    assert_eq!(library.current_usn(), before + 1);
    assert_eq!(content_tag_names(&library, &content), vec!["eatmos"]);
}

#[test]
fn tag_returns_fresh_sequence_number() {
    let (mut library, content) = library_content();
    assert!(!library.tag_exists(&content, "eatmos"));
    let s = library.tag_content(&content, "eatmos").unwrap();
    assert_eq!(s, 1001);
    assert!(library.tag_exists(&content, "eatmos"));
    assert_eq!(content_tag_names(&library, &content), vec!["eatmos"]);
    library.untag_content(&content, "eatmos");
    let empty: Vec<String> = vec![];
    assert_eq!(content_tag_names(&library, &content), empty);
}

#[test]
fn tag_unknown_name_is_no_op() {
    let (mut library, content) = library_content();
    let before = library.current_usn();
    // "dub" is not in the vocabulary: nothing is written, nothing allocated.
    assert_eq!(library.tag_content(&content, "dub"), None);
    assert_eq!(library.current_usn(), before);
}

#[test]
fn untag_absent_is_no_op() {
    let (mut library, content) = library_content();
    library.tag_content(&content, "eatmos");
    let before = library.current_usn();
    let listed = content_tag_names(&library, &content);
    // "vocals" is in the vocabulary but not associated: nothing changes.
    library.untag_content(&content, "vocals");
    assert_eq!(library.current_usn(), before);
    assert_eq!(content_tag_names(&library, &content), listed);
}

#[test]
fn list_tags_sorted_by_name() {
    let (mut library, content) = library_content();
    library.add_tag("203".to_string(), "ambient".to_string());
    library.tag_content(&content, "vocals");
    library.tag_content(&content, "eatmos");
    library.tag_content(&content, "ambient");
    assert_eq!(content_tag_names(&library, &content), vec!["ambient", "eatmos", "vocals"]);
    library.clear_tags(&content);
    let empty: Vec<String> = vec![];
    assert_eq!(content_tag_names(&library, &content), empty);
}

#[test]
fn create_playlist_twice_is_idempotent() {
    let (mut library, _content) = library_content();
    let before = library.current_usn();
    let first = library.playlist_create("2026").unwrap();
    let second = library.playlist_create("2026").unwrap();
    assert_eq!(first, Some(before + 1));
    assert_eq!(second, None);
    assert_eq!(library.current_usn(), before + 1);
}

#[test]
fn add_to_playlist_twice_is_idempotent() {
    let (mut library, content) = library_content();
    library.playlist_create("Oefenen").unwrap();
    let before = library.current_usn();
    let first = library.playlist_add("Oefenen", &content);
    let second = library.playlist_add("Oefenen", &content);
    assert_eq!(first, Some(before + 1));
    assert_eq!(second, None);
    assert_eq!(library.current_usn(), before + 1);
}

#[test]
fn add_to_missing_playlist_is_no_op() {
    let (mut library, content) = library_content();
    let before = library.current_usn();
    assert_eq!(library.playlist_add("Onbekend", &content), None);
    assert_eq!(library.current_usn(), before);
}

#[test]
fn rate_content_updates_rating_only() {
    let (mut library, content) = library_content();
    let before = library.current_usn();
    library.rate_content(&content, 5);
    // Rating is not synchronized state: the counter does not move.
    assert_eq!(library.current_usn(), before);
    assert_eq!(library.content("918205852").unwrap().Rating, 5);
}
