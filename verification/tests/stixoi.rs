use nd_lyrics::providers::stixoi::{
    artist_matches, extract_json_object, extract_song_ids, normalize, resolve_rsc_reference,
    strip_parens, title_equal,
};

fn check_artist_matches(artist: &str, credits: &[&str], expected: bool) {
    assert_eq!(
        artist_matches(artist, credits),
        expected,
        "{artist:?} against {credits:?}"
    );
}

fn check_song_ids(body: &str, expected: &[&str]) {
    let actual = extract_song_ids(body).unwrap();
    let expected: Vec<String> = expected.iter().map(|s| s.to_string()).collect();
    assert_eq!(actual, expected);
}

fn check_resolve_rsc_reference(body: &str, value: &str, expected: Option<&str>) {
    assert_eq!(resolve_rsc_reference(body, value).as_deref(), expected);
}

fn check_extract_json_object(haystack: &str, anchor: &str, expected: Option<&str>) {
    assert_eq!(extract_json_object(haystack, anchor), expected);
}

#[test]
fn an_artist_matches_regardless_of_word_order() {
    check_artist_matches("Δήμητρα Γαλάνη", &["Γαλάνη Δήμητρα"], true);
}

#[test]
fn a_doubled_consonant_spelling_variant_still_matches() {
    check_artist_matches("Νατάσσα Μποφίλιου", &["Μποφίλιου Νατάσα"], true);
}

#[test]
fn an_unrelated_artist_does_not_match() {
    check_artist_matches("Νατάσσα Μποφίλιου", &["Ρουβάς Σάκης"], false);
}

#[test]
fn song_ids_are_extracted_from_rsc_chunk() {
    check_song_ids(
        r#"1:["$","a",null,{"href":"/songs/101","children":"Song A"}]
2:["$","a",null,{"href":"/songs/202","children":"Song B"}]"#,
        &["101", "202"],
    );
}

#[test]
fn song_ids_are_deduplicated() {
    check_song_ids(
        r#"{"href":"/songs/5"} ... {"href":"/songs/5"} ... {"href":"/songs/9"}"#,
        &["5", "9"],
    );
}

#[test]
fn song_ids_ignore_unrelated_links() {
    check_song_ids(
        r#"{"href":"/artists/9"} {"href":"/songs/42"} {"href":"/about"}"#,
        &["42"],
    );
}

#[test]
fn song_ids_empty_for_no_results() {
    check_song_ids(r#"1:{"results":[],"count":0}"#, &[]);
}

#[test]
fn an_rsc_reference_is_resolved_from_its_chunk() {
    check_resolve_rsc_reference(
        "50:Td,Line 1\nLine 2\ntrailer",
        "$50",
        Some("Line 1\nLine 2"),
    );
}

#[test]
fn an_rsc_reference_chunk_id_can_be_hex() {
    check_resolve_rsc_reference("4f:T5,hello\ntrailer", "$4f", Some("hello"));
}

#[test]
fn a_chunk_marker_is_only_matched_at_the_start_of_a_line() {
    check_resolve_rsc_reference("x50:Td,not this one\n", "$50", None);
}

#[test]
fn a_plain_lyrics_value_is_not_treated_as_a_reference() {
    check_resolve_rsc_reference("50:Td,Line 1\nLine 2\n", "Πρώτη γραμμή", None);
}

#[test]
fn a_missing_chunk_resolves_to_nothing() {
    check_resolve_rsc_reference("no chunks here", "$50", None);
}

#[test]
fn extract_json_object_finds_the_object_after_the_anchor() {
    check_extract_json_object(
        r#"prefix "song":{"id":70,"title":"A","nested":{"x":1}} suffix"#,
        r#""song":{"id":70"#,
        Some(r#"{"id":70,"title":"A","nested":{"x":1}}"#),
    );
}

#[test]
fn extract_json_object_ignores_braces_inside_strings() {
    check_extract_json_object(
        r#""song":{"id":1,"lyrics":"a {b} \"c\" }","ok":true}"#,
        r#""song":{"id":1"#,
        Some(r#"{"id":1,"lyrics":"a {b} \"c\" }","ok":true}"#),
    );
}

#[test]
fn extract_json_object_none_when_the_anchor_is_missing() {
    check_extract_json_object("nothing here", r#""song":{"id":9"#, None);
}

#[test]
fn test_strip_parens() {
    assert_eq!(strip_parens("Αγάπη (Live)"), "Αγάπη");
    assert_eq!(strip_parens("Song [Remix] (2020)"), "Song");
    assert_eq!(strip_parens("  spaced   out  "), "spaced out");
    assert_eq!(strip_parens("No parens"), "No parens");
}

#[test]
fn test_normalize_greek_accents() {
    assert_eq!(normalize("Αγάπη"), normalize("ΑΓΑΠΗ"));
    assert_eq!(normalize("Της δικαιοσύνης!"), "τησδικαιοσυνησ");
}

#[test]
fn test_title_equal_ignores_accents_and_punctuation() {
    assert!(title_equal("Αγάπη", "ΑΓΑΠΗ"));
    assert!(title_equal("Της δικαιοσύνης, ήλιε", "Της δικαιοσυνης ηλιε"));
    assert!(!title_equal("Αγάπη", "Αγάπη μου"));
    assert!(!title_equal("", "anything"));
}

#[test]
fn test_artist_matches_surname_first() {
    let credits = vec!["Νταλάρας Γιώργος"];
    assert!(artist_matches("Γιώργος Νταλάρας", &credits));
    assert!(artist_matches("Νταλάρας", &credits));
    assert!(!artist_matches("Μητροπάνος", &credits));
    assert!(!artist_matches("", &credits));
}

#[test]
fn test_artist_matches_across_credit_kinds() {
    let credits = vec!["Theodorakis Mikis", "Elytis Odysseas"];
    assert!(artist_matches("Mikis Theodorakis", &credits));
    assert!(artist_matches("Odysseas Elytis", &credits));
}

#[test]
fn test_extract_json_object_simple() {
    let s = r#"prefix "song":{"id":70,"title":"A","nested":{"x":1}} suffix"#;
    let obj = extract_json_object(s, r#""song":{"id":70"#).unwrap();
    assert_eq!(obj, r#"{"id":70,"title":"A","nested":{"x":1}}"#);
}

#[test]
fn test_extract_json_object_braces_in_string() {
    let s = r#""song":{"id":1,"lyrics":"a {b} \"c\" }","ok":true}"#;
    let obj = extract_json_object(s, r#""song":{"id":1"#).unwrap();
    assert_eq!(obj, r#"{"id":1,"lyrics":"a {b} \"c\" }","ok":true}"#);
}

#[test]
fn test_extract_json_object_missing_anchor() {
    assert_eq!(
        extract_json_object("nothing here", r#""song":{"id":9"#),
        None
    );
}
