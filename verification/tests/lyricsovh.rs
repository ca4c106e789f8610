use nd_lyrics::ext::{Artist, TrackInfo};
use nd_lyrics::providers::error::ProviderError;
use nd_lyrics::providers::lyricsovh::{search_url, LyricsOvh, DEFAULT_BASE_URL};

fn check_url(base_url: &str, artist: &str, title: &str, expected: &str) {
    assert_eq!(
        search_url(base_url, artist, title),
        expected,
        "{artist:?} - {title:?} on {base_url}"
    );
}

#[test]
fn a_search_names_the_artist_and_the_title_in_the_path() {
    check_url(
        DEFAULT_BASE_URL,
        "The Beatles",
        "Hey Jude",
        "https://api.lyrics.ovh/v1/The%20Beatles/Hey%20Jude",
    );
}

#[test]
fn a_name_can_never_open_a_path_segment_of_its_own() {
    check_url(
        DEFAULT_BASE_URL,
        "AC/DC",
        "Back in Black",
        "https://api.lyrics.ovh/v1/AC%2FDC/Back%20in%20Black",
    );
    check_url(
        DEFAULT_BASE_URL,
        "../../etc",
        "passwd",
        "https://api.lyrics.ovh/v1/%2E%2E%2F%2E%2E%2Fetc/passwd",
    );
}

#[test]
fn a_name_outside_ascii_travels_as_utf8() {
    check_url(
        DEFAULT_BASE_URL,
        "Björk",
        "Hyperballad",
        "https://api.lyrics.ovh/v1/Bj%C3%B6rk/Hyperballad",
    );
}

#[test]
fn a_self_hosted_mirror_keeps_the_same_path() {
    check_url(
        "http://localhost:8080",
        "Artist",
        "Title",
        "http://localhost:8080/v1/Artist/Title",
    );
}


#[test]
fn a_track_is_looked_up_by_its_first_artist() {
    let ovh = LyricsOvh { base_url: DEFAULT_BASE_URL.to_string() };
    let track = TrackInfo {
        title: "Hey Jude".to_string(),
        artists: vec![Artist { name: "The Beatles".to_string() }],
        ..Default::default()
    };
    assert_eq!(
        ovh.lookup_url(&track).unwrap(),
        "https://api.lyrics.ovh/v1/The%20Beatles/Hey%20Jude"
    );
    let no_artist = TrackInfo { artists: vec![], ..track };
    assert_eq!(
        ovh.lookup_url(&no_artist),
        Err(ProviderError::Other("track has no artist".to_string()))
    );
}
