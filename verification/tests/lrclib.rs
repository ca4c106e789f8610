use nd_lyrics::config::PluginConfig;
use nd_lyrics::ext::{Artist, TrackInfo};
use nd_lyrics::providers::error::ProviderError;
use nd_lyrics::providers::lrclib::{pick_kinds, pick_text, preferred_over_plain, Lrclib, LrclibRecord};
use nd_lyrics::types::{Lyrics, LyricsKind};

fn make_config(priority: Vec<LyricsKind>) -> PluginConfig {
    PluginConfig {
        lyrics_type_priority: priority,
        ..Default::default()
    }
}

#[test]
fn test_pick_text_synced_priority() {
    let cfg = make_config(vec![LyricsKind::Lrc, LyricsKind::Plain]);
    let record = LrclibRecord {
        synced_lyrics: Some("[00:00.00] Hello".to_string()),
        plain_lyrics: Some("Hello".to_string()),
        lyricsfile: None,
        duration: Some(180_000),
        instrumental: false,
    };

    let result = pick_text(record, &cfg);
    assert_eq!(result, Some(Lyrics::Lrc("[00:00.00] Hello".to_string())));
}

#[test]
fn test_pick_text_falls_back_to_plain() {
    let cfg = make_config(vec![LyricsKind::Lrc, LyricsKind::Plain]);
    let record = LrclibRecord {
        synced_lyrics: None,
        plain_lyrics: Some("Hello".to_string()),
        lyricsfile: None,
        duration: Some(180_000),
        instrumental: false,
    };

    let result = pick_text(record, &cfg);
    assert_eq!(result, Some(Lyrics::Plain("Hello".to_string())));
}

#[test]
fn test_pick_text_skips_empty_synced() {
    let cfg = make_config(vec![LyricsKind::Lrc, LyricsKind::Plain]);
    let record = LrclibRecord {
        synced_lyrics: Some("   ".to_string()), // whitespace only
        plain_lyrics: Some("Hello".to_string()),
        lyricsfile: None,
        duration: Some(180_000),
        instrumental: false,
    };

    let result = pick_text(record, &cfg);
    assert_eq!(result, Some(Lyrics::Plain("Hello".to_string())));
}

#[test]
fn test_pick_text_instrumental() {
    let cfg = make_config(vec![LyricsKind::Lrc, LyricsKind::Plain]);
    let record = LrclibRecord {
        synced_lyrics: None,
        plain_lyrics: None,
        lyricsfile: None,
        duration: Some(180_000),
        instrumental: true,
    };

    let result = pick_text(record, &cfg);
    assert_eq!(result, Some(Lyrics::Instrumental));
}

#[test]
fn test_pick_text_lyricsfile_priority() {
    let cfg = make_config(vec![LyricsKind::Lyricsfile, LyricsKind::Lrc]);
    let record = LrclibRecord {
        synced_lyrics: Some("[00:00.00] Hello".to_string()),
        plain_lyrics: None,
        lyricsfile: Some("version: 1.0\nlines: []".to_string()),
        duration: Some(180_000),
        instrumental: false,
    };

    let result = pick_text(record, &cfg);
    assert_eq!(
        result,
        Some(Lyrics::Lyricsfile("version: 1.0\nlines: []".to_string()))
    );
}

#[test]
fn test_pick_text_no_lyrics_available() {
    let cfg = make_config(vec![LyricsKind::Lrc, LyricsKind::Plain]);
    let record = LrclibRecord {
        synced_lyrics: None,
        plain_lyrics: None,
        lyricsfile: None,
        duration: Some(180_000),
        instrumental: false,
    };

    let result = pick_text(record, &cfg);
    assert_eq!(result, None);
}

#[test]
fn test_preferred_over_plain_synced_above_plain() {
    let cfg = make_config(vec![
        LyricsKind::Lyricsfile,
        LyricsKind::Lrc,
        LyricsKind::Plain,
    ]);
    assert_eq!(
        preferred_over_plain(&cfg),
        vec![LyricsKind::Lyricsfile, LyricsKind::Lrc]
    );
}

#[test]
fn test_preferred_over_plain_plain_first_is_empty() {
    let cfg = make_config(vec![LyricsKind::Plain, LyricsKind::Lrc]);
    assert_eq!(preferred_over_plain(&cfg), Vec::<LyricsKind>::new());
}

#[test]
fn test_preferred_over_plain_only_counts_above_plain() {
    let cfg = make_config(vec![
        LyricsKind::Lyricsfile,
        LyricsKind::Plain,
        LyricsKind::Lrc,
    ]);
    assert_eq!(preferred_over_plain(&cfg), vec![LyricsKind::Lyricsfile]);
}

#[test]
fn test_preferred_over_plain_no_plain_in_config() {
    let cfg = make_config(vec![LyricsKind::Lrc, LyricsKind::Lyricsfile]);
    assert_eq!(
        preferred_over_plain(&cfg),
        vec![LyricsKind::Lrc, LyricsKind::Lyricsfile]
    );
}

#[test]
fn test_pick_kinds_ignores_instrumental_flag() {
    let record = LrclibRecord {
        synced_lyrics: Some("[00:00.00] Hello".to_string()),
        plain_lyrics: Some("Hello".to_string()),
        lyricsfile: None,
        duration: Some(180_000),
        instrumental: true,
    };

    let result = pick_kinds(record, &[LyricsKind::Lrc]);
    assert_eq!(result, Some(Lyrics::Lrc("[00:00.00] Hello".to_string())));
}

#[test]
fn test_pick_kinds_skips_plain_when_not_in_order() {
    let record = LrclibRecord {
        synced_lyrics: None,
        plain_lyrics: Some("Hello".to_string()),
        lyricsfile: None,
        duration: Some(180_000),
        instrumental: false,
    };

    let result = pick_kinds(record, &[LyricsKind::Lrc, LyricsKind::Lyricsfile]);
    assert_eq!(result, None);
}


#[test]
fn a_track_is_looked_up_by_metadata_then_by_text() {
    let lrclib = Lrclib { base_url: "https://lrclib.test".to_string() };
    let track = TrackInfo {
        title: "Song".to_string(),
        album: "Album".to_string(),
        artists: vec![Artist { name: "A".to_string() }, Artist { name: "B".to_string() }],
        duration_ms: 180_499,
        ..Default::default()
    };
    let (get, search) = lrclib.track_requests(&track).unwrap();
    assert_eq!(
        get.url().unwrap(),
        "https://lrclib.test/api/get?artist_name=A+B&track_name=Song&album_name=Album&duration=180"
    );
    assert_eq!(search.url().unwrap(), "https://lrclib.test/api/search?q=A+Song");
    let no_artist = TrackInfo { artists: vec![], ..track };
    assert_eq!(
        lrclib.track_requests(&no_artist).err(),
        Some(ProviderError::Other("missing artist".to_string()))
    );
}

fn search_record(synced: Option<&str>, plain: Option<&str>, duration: Option<u64>) -> LrclibRecord {
    LrclibRecord {
        synced_lyrics: synced.map(str::to_string),
        plain_lyrics: plain.map(str::to_string),
        lyricsfile: None,
        duration,
        instrumental: false,
    }
}

#[test]
fn search_outcome_takes_the_first_matching_record() {
    let cfg = make_config(vec![LyricsKind::Lrc, LyricsKind::Plain]);
    let records = vec![
        search_record(Some("[00:01.00] far"), None, Some(200_000)),
        search_record(None, None, Some(180_000)),
        search_record(Some("[00:01.00] near"), None, Some(181_500)),
        search_record(Some("[00:01.00] later"), None, Some(180_000)),
    ];
    let got = nd_lyrics::providers::lrclib::search_outcome(records, 180_000, None, &[], &cfg);
    assert_eq!(got, Some(Lyrics::Lrc("[00:01.00] near".to_string())));
}

#[test]
fn search_outcome_keeps_the_plain_fallback_when_nothing_preferred_is_found() {
    let cfg = make_config(vec![LyricsKind::Lrc, LyricsKind::Plain]);
    let preferred = preferred_over_plain(&cfg);
    let records = vec![search_record(None, Some("only plain"), Some(180_000))];
    let fallback = Some(Lyrics::Plain("kept".to_string()));
    let got = nd_lyrics::providers::lrclib::search_outcome(records, 180_000, fallback, &preferred, &cfg);
    assert_eq!(got, Some(Lyrics::Plain("kept".to_string())));
}

#[test]
fn search_outcome_with_a_fallback_finds_preferred_lyrics() {
    let cfg = make_config(vec![LyricsKind::Lrc, LyricsKind::Plain]);
    let preferred = preferred_over_plain(&cfg);
    let records = vec![
        search_record(None, Some("plain"), Some(180_000)),
        search_record(Some("[00:02.00] synced"), Some("plain"), Some(179_000)),
    ];
    let fallback = Some(Lyrics::Plain("kept".to_string()));
    let got = nd_lyrics::providers::lrclib::search_outcome(records, 180_000, fallback, &preferred, &cfg);
    assert_eq!(got, Some(Lyrics::Lrc("[00:02.00] synced".to_string())));
}

#[test]
fn search_outcome_of_no_records_is_nothing() {
    let cfg = make_config(vec![LyricsKind::Lrc]);
    let got = nd_lyrics::providers::lrclib::search_outcome(Vec::new(), 180_000, None, &[], &cfg);
    assert_eq!(got, None);
}
