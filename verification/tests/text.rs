use arena_common::text::{
    chars_of, contains_ignoring_case, contains_text, same_text, text_ends_with,
};

#[test]
fn phrase_is_found_wherever_it_stands() {
    assert!(contains_text("aiarena.net", "aiarena.net"));
    assert!(contains_text("www.aiarena.net", "aiarena.net"));
    assert!(contains_text("aiarena.net.example", "aiarena.net"));
    assert!(contains_text("xaiarena.netx", "aiarena.net"));
    assert!(contains_text("aaab", "aab"));
}

#[test]
fn phrase_is_missed_where_it_does_not_stand() {
    assert!(!contains_text("aiarena.ne", "aiarena.net"));
    assert!(!contains_text("aiarena-net", "aiarena.net"));
    assert!(!contains_text("", "a"));
    assert!(!contains_text("ab", "abc"));
    assert!(!contains_text("AIARENA.NET", "aiarena.net"));
}

#[test]
fn empty_phrase_is_found_everywhere() {
    assert!(contains_text("", ""));
    assert!(contains_text("abc", ""));
}

#[test]
fn search_counts_characters_not_bytes() {
    assert!(contains_text("\u{e9}t\u{e9} aiarena.net", "aiarena.net"));
    assert!(contains_text("na\u{ef}ve", "\u{ef}v"));
    assert!(!contains_text("na\u{ef}ve", "iv"));
    assert_eq!(chars_of("\u{e9}t\u{e9}"), vec!['\u{e9}', 't', '\u{e9}']);
    assert!(chars_of("").is_empty());
}

#[test]
fn letter_case_of_the_text_is_ignored() {
    assert!(contains_ignoring_case("Result With This Match Already Exists", "match already"));
    assert!(contains_ignoring_case("ABC", "abc"));
    assert!(contains_ignoring_case("\u{c9}T\u{c9}", "\u{e9}t\u{e9}"));
    assert!(!contains_ignoring_case("abc", "ABC"));
    assert!(!contains_ignoring_case("ABD", "abc"));
}

#[test]
fn endings_are_told() {
    assert!(text_ends_with("www.aiarena.net", ".aiarena.net"));
    assert!(text_ends_with("aiarena.net", "aiarena.net"));
    assert!(text_ends_with("abc", ""));
    assert!(text_ends_with("", ""));
    assert!(!text_ends_with("aiarena.net", ".aiarena.net"));
    assert!(!text_ends_with("aiarena.net.example", "aiarena.net"));
    assert!(!text_ends_with("", "a"));
}

#[test]
fn same_texts_are_told() {
    assert!(same_text("", ""));
    assert!(same_text("aiarena.net", "aiarena.net"));
    assert!(!same_text("aiarena.net", "aiarena.ne"));
    assert!(!same_text("aiarena.net", "aiarena.nex"));
    assert!(!same_text("a", ""));
}
