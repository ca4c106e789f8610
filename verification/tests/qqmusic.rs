use nd_lyrics::providers::error::ProviderError;
use nd_lyrics::providers::qqmusic::{
    check_code, find_song, lyric_param, parse_song, pick_lyrics, random_search_id, search_id_from,
    search_param, search_query, Common, Song, SongItem,
};
use nd_lyrics::types::{Lyrics, LyricsKind};

fn bohemian() -> SongItem {
    SongItem {
        id: Some(7239095),
        title: Some("Bohemian Rhapsody".to_string()),
        singers: Some(vec![
            Some("Queen".to_string()),
            Some("David Bowie".to_string()),
            Some("".to_string()),
        ]),
        album_name: Some("A Night At The Opera".to_string()),
        interval: Some(354),
    }
}

#[test]
fn test_common_identifies_the_android_lite_client() {
    let common = Common::new();
    assert_eq!(common.ct, 11);
    assert_eq!(common.tme_app_id, "qqmusiclight");
    assert_eq!(common.cv, "1003006");
}

#[test]
fn test_random_search_id_is_numeric() {
    let id = random_search_id();
    assert!(id.chars().all(|c| c.is_ascii_digit()));
    assert!(id.parse::<u64>().is_ok());
}

#[test]
fn test_parse_song_joins_singers_and_reads_album() {
    let song = parse_song(&bohemian()).unwrap();
    assert_eq!(song.id, 7239095);
    assert_eq!(song.title, "Bohemian Rhapsody");
    assert_eq!(song.artist, "Queen/David Bowie");
    assert_eq!(song.album, "A Night At The Opera");
    assert_eq!(song.interval_secs, 354);
}

#[test]
fn test_parse_song_without_id_is_skipped() {
    let item = SongItem {
        id: None,
        title: Some("No id".to_string()),
        singers: None,
        album_name: None,
        interval: Some(100),
    };
    assert!(parse_song(&item).is_none());
}

#[test]
fn test_lyric_param_base64_encodes_names() {
    let param = lyric_param(&Song {
        id: 7239095,
        title: "Bohemian Rhapsody".to_string(),
        artist: "Queen".to_string(),
        album: "A Night At The Opera".to_string(),
        interval_secs: 354,
    });
    assert_eq!(param.singer_name, "UXVlZW4=");
    assert_eq!(param.song_id, 7239095);
    assert_eq!(param.type_, 0);
    assert_eq!(param.album_name, "QSBOaWdodCBBdCBUaGUgT3BlcmE=");
    assert_eq!(param.crypt, 1);
    assert_eq!(param.ct, 19);
    assert_eq!(param.cv, 2111);
    assert_eq!(param.qrc, 1);
    assert_eq!(param.interval, 354);
}

#[test]
fn names_are_encoded_as_utf8_before_base64() {
    let param = lyric_param(&Song {
        id: 1,
        title: "ab".to_string(),
        artist: "Björk".to_string(),
        album: String::new(),
        interval_secs: 0,
    });
    assert_eq!(param.singer_name, "QmrDtnJr");
    assert_eq!(param.song_name, "YWI=");
    assert_eq!(param.album_name, "");
}

#[test]
fn a_parsed_song_without_singers_or_album_has_empty_names() {
    let item = SongItem {
        id: Some(5),
        title: None,
        singers: None,
        album_name: None,
        interval: None,
    };
    let song = parse_song(&item).unwrap();
    assert_eq!(song.artist, "");
    assert_eq!(song.title, "");
    assert_eq!(song.album, "");
    assert_eq!(song.interval_secs, 0);
}

#[test]
fn the_first_song_within_the_tolerance_is_chosen() {
    let mut far = bohemian();
    far.interval = Some(300);
    far.id = Some(1);
    let items = vec![far, bohemian()];
    let song = find_song(&items, 355_000, 2_000).unwrap();
    assert_eq!(song.id, 7239095);
    assert!(find_song(&items, 400_000, 2_000).is_none());
    let mut no_id = bohemian();
    no_id.id = None;
    assert!(find_song(&[no_id, bohemian()], 354_000, 0).is_none());
    assert!(find_song(&[], 354_000, 0).is_none());
}

#[test]
fn a_search_id_is_built_from_the_random_number() {
    assert_eq!(search_id_from(0), "18014398509481984");
    assert_eq!(search_id_from(0x1234_5678_9abc_def0), "25540409618940536");
}

#[test]
fn a_search_asks_for_the_first_page_of_five() {
    let q = search_query("Song", "Artist");
    assert_eq!(q, "Song Artist");
    let p = search_param("1".to_string(), q);
    assert_eq!(p.query, "Song Artist");
    assert_eq!(p.remoteplace, "search.android.keyboard");
    assert_eq!(p.num_per_page, 5);
    assert_eq!(p.page_num, 1);
    assert_eq!(p.grp, 1);
}

fn message(r: Result<(), ProviderError>) -> String {
    match r {
        Err(ProviderError::Other(m)) => m,
        other => panic!("expected an error, got {other:?}"),
    }
}

#[test]
fn gateway_codes_other_than_zero_fail() {
    assert!(check_code(Some(0), "m", "f", "gateway").is_ok());
    assert_eq!(
        message(check_code(Some(2001), "m", "f", "gateway")),
        "m.f rejected the client identity (gateway error code 2001), the 'comm' block or request headers are stale"
    );
    assert_eq!(
        message(check_code(Some(-3), "m", "f", "module")),
        "m.f returned module error code -3"
    );
    assert_eq!(
        message(check_code(None, "m", "f", "module")),
        "m.f response missing module 'code' field"
    );
}

#[test]
fn qq_lyrics_follow_the_configured_order() {
    let order = [LyricsKind::Elrc, LyricsKind::Lrc];
    let qrc = Some(("[00:01.00]<00:01.00>a".to_string(), "[00:01.00]a".to_string()));
    assert_eq!(
        pick_lyrics(&order, "xml", qrc.clone()),
        Some(Lyrics::Elrc("[00:01.00]<00:01.00>a".to_string()))
    );
    assert_eq!(
        pick_lyrics(&[LyricsKind::Lrc], "xml", qrc),
        Some(Lyrics::Lrc("[00:01.00]a".to_string()))
    );
    assert_eq!(
        pick_lyrics(&order, "[00:01.00]words", None),
        Some(Lyrics::Lrc("[00:01.00]words".to_string()))
    );
    assert_eq!(pick_lyrics(&[LyricsKind::Plain], "[00:01.00]words", None), None);
    assert_eq!(pick_lyrics(&order, "   ", None), None);
    assert_eq!(
        pick_lyrics(&order, "[00:01.00]Instrumental", None),
        Some(Lyrics::Instrumental)
    );
}
