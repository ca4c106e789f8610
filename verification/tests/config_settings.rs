use nd_lyrics::config::host::{parse_i64_verdict as parse_i64, I64Parse};
use nd_lyrics::config::providers::{resolve_list, ProviderEntry, ProviderMode, ProviderParams};
use nd_lyrics::config::ttl::{classify_ttl, TtlClamp, MAX_CACHE_TTL, MIN_CACHE_TTL};
use nd_lyrics::config::{normalize_extension, parse_lyrics_formats};
use nd_lyrics::types::LyricsKind;

fn entry(name: &str, params: &[(&str, &str)]) -> ProviderEntry {
    ProviderEntry {
        name: name.to_string(),
        params: ProviderParams::from_pairs(
            params
                .iter()
                .map(|(k, v)| (k.to_string(), v.to_string()))
                .collect(),
        ),
    }
}

fn parse_providers(raw: &str) -> Vec<ProviderEntry> {
    resolve_list(Some(raw.to_string()))
}

#[test]
fn test_parse_i64_overflow_saturates() {
    assert_eq!(
        parse_i64("10000000000000000000000000"),
        I64Parse::Saturated(i64::MAX)
    );
    assert_eq!(
        parse_i64("-10000000000000000000000000"),
        I64Parse::Saturated(i64::MIN)
    );
}

#[test]
fn test_parse_i64_garbage_is_invalid() {
    assert_eq!(parse_i64("abc"), I64Parse::Invalid);
    assert_eq!(parse_i64(""), I64Parse::Invalid);
    assert_eq!(parse_i64("12x"), I64Parse::Invalid);
}

#[test]
fn test_classify_ttl_below_min() {
    assert_eq!(classify_ttl(0), TtlClamp::BelowMin);
    assert_eq!(classify_ttl(-100), TtlClamp::BelowMin);
}

#[test]
fn test_classify_ttl_above_max() {
    assert_eq!(classify_ttl(i64::MAX), TtlClamp::AboveMax);
    assert_eq!(classify_ttl(MAX_CACHE_TTL + 1), TtlClamp::AboveMax);
}

#[test]
fn test_classify_ttl_in_range() {
    assert_eq!(classify_ttl(336), TtlClamp::InRange);
    assert_eq!(classify_ttl(MIN_CACHE_TTL), TtlClamp::InRange);
    assert_eq!(classify_ttl(MAX_CACHE_TTL), TtlClamp::InRange);
}

#[test]
fn test_max_ttl_seconds_fit_go_duration() {
    let max_seconds = MAX_CACHE_TTL.saturating_mul(3600);
    assert!(max_seconds.checked_mul(1_000_000_000).is_some());
}

#[test]
fn test_provider_mode_from_slug() {
    assert_eq!(
        ProviderMode::from_slug("priority"),
        Some(ProviderMode::Priority)
    );
    assert_eq!(
        ProviderMode::from_slug(" Rotation "),
        Some(ProviderMode::Rotation)
    );
    assert_eq!(ProviderMode::from_slug("foo"), None);
}

#[test]
fn test_provider_mode_default_is_priority() {
    assert_eq!(ProviderMode::default(), ProviderMode::Priority);
}

#[test]
fn test_parse_lyrics_formats_ordered() {
    assert_eq!(
        parse_lyrics_formats("ttml,lyricsfile,elrc,lrc,srt,plain"),
        vec![
            LyricsKind::Ttml,
            LyricsKind::Lyricsfile,
            LyricsKind::Elrc,
            LyricsKind::Lrc,
            LyricsKind::Srt,
            LyricsKind::Plain,
        ]
    );
}

#[test]
fn test_parse_lyrics_formats_whitespace_and_case() {
    assert_eq!(
        parse_lyrics_formats(" LRC , Plain "),
        vec![LyricsKind::Lrc, LyricsKind::Plain]
    );
}

#[test]
fn test_parse_lyrics_formats_dedup_and_skips_unknown() {
    assert_eq!(parse_lyrics_formats("lrc,bogus,lrc"), vec![LyricsKind::Lrc]);
}

#[test]
fn config_test_parse_lyrics_formats_excludes_instrumental() {
    assert_eq!(
        parse_lyrics_formats("instrumental,plain"),
        vec![LyricsKind::Plain]
    );
}

#[test]
fn config_test_parse_lyrics_formats_empty() {
    assert_eq!(parse_lyrics_formats(""), Vec::<LyricsKind>::new());
}

#[test]
fn test_normalize_extension() {
    assert_eq!(normalize_extension("lrc"), "lrc");
    assert_eq!(normalize_extension(".lrc"), "lrc");
    assert_eq!(normalize_extension("...lrc"), "lrc");
    assert_eq!(normalize_extension("  .txt  "), "txt");
    assert_eq!(normalize_extension("."), "");
}

#[test]
fn test_cache_id_is_stable() {
    let e = entry("applemusic", &[("mediaUserToken", "abc")]);
    assert_eq!(e.cache_id(), e.cache_id());
}

#[test]
fn test_cache_id_differs_by_name_and_params() {
    assert_ne!(
        entry("lrclib", &[]).cache_id(),
        entry("kugou", &[]).cache_id()
    );
    assert_ne!(
        entry("lrclib", &[("baseUrl", "http://a")]).cache_id(),
        entry("lrclib", &[("baseUrl", "http://b")]).cache_id()
    );
    assert_ne!(
        entry("lrclib", &[]).cache_id(),
        entry("lrclib", &[("baseUrl", "http://a")]).cache_id()
    );
}

#[test]
fn test_display_name_with_param() {
    let e = entry("lrclib", &[("baseUrl", "http://localhost:7592")]);
    assert_eq!(e.display_name(), "lrclib(baseUrl=http://localhost:7592)");
}

#[test]
fn test_display_name_redacts_sensitive_params() {
    let e = entry(
        "applemusic",
        &[("mediaUserToken", "abc"), ("storefront", "gb")],
    );
    assert_eq!(
        e.display_name(),
        "applemusic(mediaUserToken=***, storefront=gb)"
    );
}

#[test]
fn test_display_name_without_param() {
    let e = entry("lrclib", &[]);
    assert_eq!(e.display_name(), "lrclib");
}

#[test]
fn test_parse_providers_json_basic() {
    assert_eq!(
        parse_providers(r#"[{"provider":"lrclib"},{"provider":"lyrics.ovh"}]"#),
        vec![entry("lrclib", &[]), entry("lyrics.ovh", &[])]
    );
}

#[test]
fn test_parse_providers_json_with_base_url() {
    assert_eq!(
        parse_providers(r#"[{"provider":"lrclib","baseUrl":"http://localhost:7592"}]"#),
        vec![entry("lrclib", &[("baseUrl", "http://localhost:7592")])]
    );
}

#[test]
fn test_parse_providers_json_blank_base_url_is_none() {
    assert_eq!(
        parse_providers(r#"[{"provider":"lrclib","baseUrl":"   "}]"#),
        vec![entry("lrclib", &[])]
    );
}

#[test]
fn test_parse_providers_json_named_params() {
    assert_eq!(
        parse_providers(
            r#"[{"provider":"applemusic","mediaUserToken":" abc ","storefront":"gb","baseUrl":""}]"#
        ),
        vec![entry(
            "applemusic",
            &[("mediaUserToken", "abc"), ("storefront", "gb")]
        )]
    );
}

#[test]
fn test_parse_providers_json_bool_and_number_params() {
    assert_eq!(
        parse_providers(
            r#"[{"provider":"applemusic","mediaUserToken":"abc","includeTranslations":true,"storefront":""}]"#
        ),
        vec![entry(
            "applemusic",
            &[("includeTranslations", "true"), ("mediaUserToken", "abc")]
        )]
    );
}

#[test]
fn test_parse_providers_json_skips_empty_provider_and_dedups() {
    assert_eq!(
        parse_providers(
            r#"[{"provider":""},{"provider":"kugou"},{"provider":"kugou"},{"provider":"netease"}]"#
        ),
        vec![entry("kugou", &[]), entry("netease", &[])]
    );
}

#[test]
fn test_parse_providers_json_invalid_is_empty() {
    assert_eq!(parse_providers("not json"), Vec::<ProviderEntry>::new());
}

#[test]
fn test_parse_providers_json_empty_array() {
    assert_eq!(parse_providers("[]"), Vec::<ProviderEntry>::new());
}
