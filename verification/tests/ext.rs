use nd_lyrics::ext::{TrackInfo, TrackInfoExt};

fn track(title: &str) -> TrackInfo {
    TrackInfo {
        title: title.to_string(),
        ..Default::default()
    }
}

fn check_clean_title(input: &str, expected: &str) {
    assert_eq!(track(input).clean_title(), expected, "title {input:?}");
}

#[test]
fn a_clean_title_drops_bracketed_segments() {
    check_clean_title("Song (Live)", "Song");
    check_clean_title("Song [Remastered 2020]", "Song");
    check_clean_title("Song {Deluxe}", "Song");
    check_clean_title("Song (feat. Artist [Live])", "Song");
    check_clean_title("Song [Remix] (2020)", "Song");
}

#[test]
fn a_clean_title_drops_dash_suffixes() {
    check_clean_title("Song - Remastered 2011", "Song");
    check_clean_title("Song - Live - 2011 Remaster", "Song");
    check_clean_title("Song \u{2013} Live", "Song");
    check_clean_title("Song \u{2014} Live", "Song");
    check_clean_title("Song (Live) - Remastered", "Song");
}

#[test]
fn a_clean_title_keeps_dashes_inside_words() {
    check_clean_title("Song-Title", "Song-Title");
    check_clean_title("Song -Title", "Song -Title");
}

#[test]
fn a_clean_title_collapses_whitespace() {
    check_clean_title("Song   (Live)   Version", "Song Version");
}

#[test]
fn a_clean_title_leaves_plain_titles_untouched() {
    check_clean_title("Song Title", "Song Title");
    check_clean_title("", "");
}

