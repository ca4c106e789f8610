use nd_lyrics::providers::netease::{strip_metadata, LyricContent};

#[test]
fn test_strip_metadata_removes_json_lines() {
    let input = "{\"t\":0,\"c\":[{\"tx\":\"foo: \"}]}\n{\"t\":1000,\"c\":[{\"tx\":\"bar: \"}]}\n[00:28.15]foo\n[00:32.38]bar";
    assert_eq!(strip_metadata(input), "[00:28.15]foo\n[00:32.38]bar");
}

#[test]
fn test_strip_metadata_keeps_plain_lyrics() {
    let input = "Hello\nWorld";
    assert_eq!(strip_metadata(input), "Hello\nWorld");
}

#[test]
fn test_strip_metadata_empty() {
    assert_eq!(strip_metadata(""), "");
}

#[test]
fn test_lyric_content_text_blank_is_none() {
    let content = Some(LyricContent {
        lyric: Some("   \n  ".to_string()),
    });
    assert_eq!(LyricContent::text(&content), None);
}

#[test]
fn test_lyric_content_text_missing_is_none() {
    assert_eq!(LyricContent::text(&None), None);
    assert_eq!(
        LyricContent::text(&Some(LyricContent { lyric: None })),
        None
    );
}

#[test]
fn test_lyric_content_text_trims() {
    let content = Some(LyricContent {
        lyric: Some("  [00:01.00]hi  ".to_string()),
    });
    assert_eq!(LyricContent::text(&content), Some("[00:01.00]hi"));
}


#[test]
fn enhanced_lyrics_with_word_times_past_i64_are_picked() {
    let answer = nd_lyrics::providers::netease::LyricsResponse {
        lrc: Some(LyricContent { lyric: Some("[00:01.00]plain lrc".to_string()) }),
        yrc: Some(LyricContent {
            lyric: Some("[5000000000000000000,1](5000000000000000000,5000000000000000000,0)hi".to_string()),
        }),
        pure_music: false,
    };
    let cfg = nd_lyrics::config::PluginConfig {
        lyrics_type_priority: vec![nd_lyrics::types::LyricsKind::Elrc, nd_lyrics::types::LyricsKind::Lrc],
        ..Default::default()
    };
    let got = nd_lyrics::providers::netease::pick_lyrics(&answer, &cfg);
    assert_eq!(
        got,
        Some(nd_lyrics::types::Lyrics::Elrc(
            "[83333333333333:20.00]<83333333333333:20.00>hi<166666666666666:40.00>".to_string()
        ))
    );
}
