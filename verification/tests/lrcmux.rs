use nd_lyrics::providers::lrcmux::{build_elrc, build_lrc, read_status, restrict_sources, Line, Word};

fn word(text: &str, start: i64, end: i64) -> Word {
    Word {
        text: text.into(),
        start,
        end: Some(end),
    }
}

#[test]
fn test_sources_are_unrestricted_when_unset_or_complete() {
    assert_eq!(restrict_sources(None), None);
    assert_eq!(restrict_sources(Some("")), None);
    assert_eq!(restrict_sources(Some(" , ")), None);
    assert_eq!(
        restrict_sources(Some("genius,kugou,musixmatch,netease,ytmusic")),
        None
    );
    assert_eq!(
        restrict_sources(Some("ytmusic,netease,musixmatch,kugou,genius,future")),
        None
    );
}

#[test]
fn test_sources_restrict_when_a_source_is_deselected() {
    assert_eq!(
        restrict_sources(Some("genius,kugou,musixmatch,netease")),
        Some("genius,kugou,musixmatch,netease".to_string())
    );
    assert_eq!(
        restrict_sources(Some(" musixmatch , kugou ")),
        Some("musixmatch,kugou".to_string())
    );
}

#[test]
fn test_elrc_output() {
    let lines = vec![Line {
        text: "hello world".into(),
        start: Some(1000),
        end: Some(3000),
        words: Some(vec![word("hello", 1000, 2000), word("world", 2000, 3000)]),
    }];
    assert_eq!(
        build_elrc(&lines),
        "[00:01.00]<00:01.00>hello<00:02.00>world<00:03.00>"
    );
}

#[test]
fn test_elrc_ends_on_the_last_word_not_on_the_line() {
    let lines = vec![Line {
        text: "Yeah".into(),
        start: Some(14075),
        end: Some(27672),
        words: Some(vec![word("Yeah", 14075, 14252)]),
    }];
    assert_eq!(build_elrc(&lines), "[00:14.08]<00:14.08>Yeah<00:14.25>");
}

#[test]
fn test_elrc_falls_back_to_the_line_end_when_the_last_word_has_none() {
    let lines = vec![Line {
        text: "hello".into(),
        start: Some(1000),
        end: Some(3000),
        words: Some(vec![Word {
            text: "hello".into(),
            start: 1000,
            end: None,
        }]),
    }];
    assert_eq!(build_elrc(&lines), "[00:01.00]<00:01.00>hello<00:03.00>");
}

#[test]
fn test_elrc_falls_back_to_the_next_word_before_the_line_end() {
    let lines = vec![Line {
        text: "hello world".into(),
        start: Some(1000),
        end: Some(9000),
        words: Some(vec![
            Word {
                text: "hello ".into(),
                start: 1000,
                end: None,
            },
            word("world", 2000, 3000),
        ]),
    }];
    assert_eq!(
        build_elrc(&lines),
        "[00:01.00]<00:01.00>hello <00:02.00>world<00:03.00>"
    );
}

#[test]
fn test_lrc_output() {
    let lines = vec![
        Line {
            text: "first".into(),
            start: Some(1000),
            end: None,
            words: None,
        },
        Line {
            text: "second".into(),
            start: Some(2500),
            end: None,
            words: None,
        },
    ];
    assert_eq!(build_lrc(&lines), "[00:01.00] first\n[00:02.50] second");
}

#[test]
fn test_build_is_empty_when_no_line_has_timings() {
    let lines = vec![Line {
        text: "plain".into(),
        start: None,
        end: None,
        words: None,
    }];
    assert!(build_elrc(&lines).is_empty());
    assert!(build_lrc(&lines).is_empty());
}


fn mux(sources: Option<&str>) -> nd_lyrics::providers::lrcmux::LrcMux {
    nd_lyrics::providers::lrcmux::LrcMux {
        base_url: "https://mux.test".to_string(),
        sources: sources.map(|s| s.to_string()),
    }
}

fn mux_track() -> nd_lyrics::ext::TrackInfo {
    nd_lyrics::ext::TrackInfo {
        title: "Song Title".to_string(),
        album: "The Album".to_string(),
        artists: vec![nd_lyrics::ext::Artist { name: "An Artist".to_string() }],
        duration_ms: 215_500,
        ..Default::default()
    }
}

#[test]
fn a_lookup_names_the_track_and_its_rounded_duration() {
    let url = mux(None).get_request(&mux_track()).unwrap().url().unwrap();
    assert_eq!(
        url,
        "https://mux.test/get?artist=An+Artist&title=Song+Title&album=The+Album&duration=216"
    );
    let url = mux(Some("genius,kugou")).get_request(&mux_track()).unwrap().url().unwrap();
    assert_eq!(
        url,
        "https://mux.test/get?artist=An+Artist&title=Song+Title&album=The+Album&duration=216&sources=genius%2Ckugou"
    );
}

#[test]
fn a_lookup_needs_an_artist() {
    let mut t = mux_track();
    t.artists.clear();
    match mux(None).get_request(&t) {
        Err(nd_lyrics::providers::error::ProviderError::Other(m)) => assert_eq!(m, "missing artist"),
        _ => panic!("a track without artist cannot be looked up"),
    }
}

#[test]
fn lookup_statuses_are_read() {
    assert_eq!(read_status(200), Ok(true));
    assert_eq!(read_status(404), Ok(false));
    assert!(matches!(
        read_status(500),
        Err(nd_lyrics::providers::error::ProviderError::Other(m)) if m == "lrcmux: returned unexpected status 500"
    ));
}
