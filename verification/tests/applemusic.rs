use nd_lyrics::providers::applemusic::{
    duration_diff, lyrics_request, storefront_cache_key, Song, SongAttributes,
    STOREFRONT_CACHE_PREFIX,
};

fn check_lyrics_url(
    storefront: &str,
    translation_language: Option<&str>,
    script: Option<&str>,
    expected: &str,
) {
    let url = lyrics_request(storefront, "123", translation_language, script)
        .url()
        .unwrap();

    assert_eq!(
        url, expected,
        "{storefront} with {translation_language:?} and {script:?}"
    );
}

fn song_with_duration(duration_in_millis: Option<u64>) -> Song {
    Song {
        id: "1".into(),
        attributes: SongAttributes {
            duration_in_millis,
            has_lyrics: Some(true),
        },
    }
}

#[test]
fn a_lyrics_request_without_extras_is_a_bare_url() {
    check_lyrics_url(
        "us",
        None,
        None,
        "https://amp-api.music.apple.com/v1/catalog/us/songs/123/syllable-lyrics",
    );
}

#[test]
fn a_translation_asks_for_the_localizations_extension() {
    check_lyrics_url(
        "us",
        Some("en-US"),
        None,
        "https://amp-api.music.apple.com/v1/catalog/us/songs/123/syllable-lyrics\
         ?extend=ttmlLocalizations&l%5Blyrics%5D=en-US",
    );
}

#[test]
fn a_romanization_asks_for_the_script_instead() {
    check_lyrics_url(
        "us",
        None,
        Some("und-Latn"),
        "https://amp-api.music.apple.com/v1/catalog/us/songs/123/syllable-lyrics\
         ?extend=ttmlLocalizations&l%5Bscript%5D=und-Latn",
    );
}

#[test]
fn a_translation_and_a_romanization_travel_together() {
    check_lyrics_url(
        "gb",
        Some("es-ES"),
        Some("und-Latn"),
        "https://amp-api.music.apple.com/v1/catalog/gb/songs/123/syllable-lyrics\
         ?extend=ttmlLocalizations&l%5Blyrics%5D=es-ES&l%5Bscript%5D=und-Latn",
    );
}

#[test]
fn test_storefront_cache_key_is_stable_and_prefixed() {
    let key = storefront_cache_key("token-abc");
    assert!(key.starts_with(STOREFRONT_CACHE_PREFIX));
    assert_eq!(key, storefront_cache_key("token-abc"));
}

#[test]
fn test_storefront_cache_key_differs_per_token() {
    assert_ne!(
        storefront_cache_key("token-abc"),
        storefront_cache_key("token-xyz")
    );
}

#[test]
fn test_duration_diff_within_and_beyond_tolerance() {
    let target = 200_000;
    let tolerance_ms = 3_000;

    let close = song_with_duration(Some(201_500));
    assert!(duration_diff(&close, target) <= tolerance_ms);

    let far = song_with_duration(Some(260_000));
    assert!(duration_diff(&far, target) > tolerance_ms);

    let unknown = song_with_duration(None);
    assert!(duration_diff(&unknown, target) > tolerance_ms);
}


#[test]
fn test_build_lyrics_url_plain() {
    assert_eq!(
        lyrics_request("us", "123", None, None).url().unwrap(),
        "https://amp-api.music.apple.com/v1/catalog/us/songs/123/syllable-lyrics"
    );
}

#[test]
fn test_build_lyrics_url_translation() {
    assert_eq!(
        lyrics_request("us", "123", Some("en-US"), None).url().unwrap(),
        "https://amp-api.music.apple.com/v1/catalog/us/songs/123/syllable-lyrics\
         ?extend=ttmlLocalizations&l%5Blyrics%5D=en-US"
    );
}

#[test]
fn test_build_lyrics_url_script() {
    assert_eq!(
        lyrics_request("us", "123", None, Some("und-Latn")).url().unwrap(),
        "https://amp-api.music.apple.com/v1/catalog/us/songs/123/syllable-lyrics\
         ?extend=ttmlLocalizations&l%5Bscript%5D=und-Latn"
    );
}

#[test]
fn test_build_lyrics_url_translation_and_script() {
    assert_eq!(
        lyrics_request("gb", "123", Some("es-ES"), Some("und-Latn")).url().unwrap(),
        "https://amp-api.music.apple.com/v1/catalog/gb/songs/123/syllable-lyrics\
         ?extend=ttmlLocalizations&l%5Blyrics%5D=es-ES&l%5Bscript%5D=und-Latn"
    );
}

fn provider(token: Option<&str>) -> nd_lyrics::providers::applemusic::AppleMusic {
    nd_lyrics::providers::applemusic::AppleMusic {
        media_user_token: token.map(str::to_string),
        storefront: None,
        include_translations: false,
        translation_language: None,
        romanize: false,
    }
}

#[test]
fn a_media_user_token_is_required() {
    let err = provider(None).required_token().unwrap_err();
    assert_eq!(
        err,
        nd_lyrics::providers::error::ProviderError::Other(
            nd_lyrics::providers::applemusic::MISSING_TOKEN_MESSAGE.to_string()
        )
    );
    assert_eq!(provider(Some("tok")).required_token().unwrap(), "tok");
}

#[test]
fn a_rejected_developer_token_is_refreshed_once() {
    use_after_lookup_cases();
}

fn use_after_lookup_cases() {
    let first = nd_lyrics::providers::applemusic::after_lookup(
        false,
        Err(nd_lyrics::providers::applemusic::LookupError::Unauthorized),
    );
    assert!(matches!(first, nd_lyrics::providers::applemusic::LookupNext::RefreshAndRetry));
    let second = nd_lyrics::providers::applemusic::after_lookup(
        true,
        Err(nd_lyrics::providers::applemusic::LookupError::Unauthorized),
    );
    match second {
        nd_lyrics::providers::applemusic::LookupNext::Done(Err(e)) => assert_eq!(
            e,
            nd_lyrics::providers::error::ProviderError::Other(
                nd_lyrics::providers::applemusic::REFRESH_FAILED_MESSAGE.to_string()
            )
        ),
        _ => panic!("expected the refresh to fail"),
    }
}

#[test]
fn a_lookup_answer_or_fatal_error_ends_the_search() {
    let found = nd_lyrics::providers::applemusic::after_lookup(
        false,
        Ok(Some(nd_lyrics::types::Lyrics::Plain("la".to_string()))),
    );
    match found {
        nd_lyrics::providers::applemusic::LookupNext::Done(Ok(Some(l))) => {
            assert_eq!(l, nd_lyrics::types::Lyrics::Plain("la".to_string()))
        }
        _ => panic!("expected the lyrics"),
    }
    let fatal = nd_lyrics::providers::applemusic::after_lookup(
        true,
        Err(nd_lyrics::providers::applemusic::LookupError::Fatal(
            nd_lyrics::providers::error::ProviderError::Other("boom".to_string()),
        )),
    );
    match fatal {
        nd_lyrics::providers::applemusic::LookupNext::Done(Err(e)) => {
            assert_eq!(e, nd_lyrics::providers::error::ProviderError::Other("boom".to_string()))
        }
        _ => panic!("expected the error"),
    }
}
