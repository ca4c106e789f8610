use nd_lyrics::config::host::{parse_bool, parse_i32, parse_i64};
use nd_lyrics::config::providers::{parse_providers, ProviderEntry, ProviderParams};
use nd_lyrics::config::ttl::{TypeCacheTtls, MAX_CACHE_TTL};
use nd_lyrics::config::{normalize_extension, parse_lyrics_formats, PluginConfig};
use nd_lyrics::types::LyricsKind;
use std::collections::HashSet;

const DEFAULT_LYRICS_FORMATS: [LyricsKind; 2] = [LyricsKind::Lrc, LyricsKind::Plain];

fn check_bool(raw: &str, expected: Option<bool>) {
    assert_eq!(parse_bool(raw), expected, "boolean from {raw:?}");
}

fn check_i64(raw: &str, expected: Option<i64>) {
    assert_eq!(parse_i64(raw), expected, "integer from {raw:?}");
}

fn check_i32(raw: &str, expected: Option<i32>) {
    assert_eq!(parse_i32(raw), expected, "32-bit integer from {raw:?}");
}

fn entry(name: &str, params: &[(&str, &str)]) -> ProviderEntry {
    ProviderEntry {
        name: name.to_string(),
        params: ProviderParams::from_pairs(
            params
                .iter()
                .map(|(k, v)| (k.to_string(), v.to_string()))
                .collect(),
        ),
    }
}

fn check_providers(raw: &str, expected: Option<Vec<ProviderEntry>>) {
    assert_eq!(parse_providers(raw), expected, "providers from {raw}");
}

#[test]
fn parse_bool_accepts_valid_values() {
    for (raw, expected) in [
        ("true", true),
        (" True ", true),
        ("1", true),
        ("false", false),
        ("FALSE", false),
        ("0", false),
    ] {
        check_bool(raw, Some(expected));
    }
}

#[test]
fn parse_bool_rejects_invalid_values() {
    for raw in ["yes", "no", "abc", "", "  "] {
        check_bool(raw, None);
    }
}

#[test]
fn parse_i64_accepts_valid_values() {
    for (raw, expected) in [("336", 336), (" 24 ", 24), ("\t-5\n", -5)] {
        check_i64(raw, Some(expected));
    }

    check_i64(&i64::MAX.to_string(), Some(i64::MAX));
    check_i64(&i64::MIN.to_string(), Some(i64::MIN));
}

#[test]
fn parse_i64_saturates_on_overflow() {
    check_i64("10000000000000000000000000", Some(i64::MAX));
    check_i64("-10000000000000000000000000", Some(i64::MIN));
}

#[test]
fn parse_i32_accepts_valid_values() {
    for (raw, expected) in [(" 42 ", 42), ("-7", -7)] {
        check_i32(raw, Some(expected));
    }

    check_i32(&i32::MAX.to_string(), Some(i32::MAX));
    check_i32(&i32::MIN.to_string(), Some(i32::MIN));
}

#[test]
fn parse_i32_rejects_values_outside_range() {
    for raw in [
        (i32::MAX as i64 + 1).to_string(),
        (i32::MIN as i64 - 1).to_string(),
        "10000000000000000000000000".to_string(),
    ] {
        check_i32(&raw, None);
    }

    check_i32(&i32::MAX.to_string(), Some(i32::MAX));
    check_i32(&i32::MIN.to_string(), Some(i32::MIN));
}

#[test]
fn parse_integer_rejects_invalid_values() {
    for raw in ["abc", "", "  ", "12x", "1.5"] {
        check_i64(raw, None);
        check_i32(raw, None);
    }
}

#[test]
fn test_max_ttl_fits_go_duration() {
    let max_seconds = MAX_CACHE_TTL.saturating_mul(3600);
    assert!(max_seconds.checked_mul(1_000_000_000).is_some());
}

#[test]
fn test_default_ttls_favour_synced_formats() {
    let ttls = TypeCacheTtls::default();

    assert!(ttls.ttml > ttls.lrc);
    assert!(ttls.elrc > ttls.lrc);
    assert!(ttls.lrc > ttls.plain);
}

#[test]
fn test_default_matches_the_load_time_fallback() {
    let cfg = PluginConfig::default();

    assert_eq!(cfg.lyrics_type_priority, DEFAULT_LYRICS_FORMATS);
    assert!(cfg.wants(LyricsKind::Lrc));
    assert!(!cfg.wants(LyricsKind::Ttml));
}

#[test]
fn test_per_type_cache_ttl_defaults_to_off() {
    assert!(!PluginConfig::default().per_type_cache_ttl);
}

#[test]
fn test_cache_ttl_uses_global_when_per_type_off() {
    let cfg = PluginConfig {
        per_type_cache_ttl: false,
        cache_ttl_hours: 168,
        ..PluginConfig::default()
    };

    assert_eq!(cfg.cache_ttl_hours_for(LyricsKind::Ttml), 168);
    assert_eq!(cfg.cache_ttl_hours_for(LyricsKind::Plain), 168);
}

#[test]
fn test_cache_ttl_uses_type_ttls_when_per_type_on() {
    let cfg = PluginConfig {
        per_type_cache_ttl: true,
        cache_ttl_hours: 168,
        type_cache_ttl_hours: TypeCacheTtls {
            plain: 1,
            lrc: 2,
            elrc: 3,
            ttml: 4,
            srt: 5,
            lyricsfile: 6,
            instrumental: 7,
        },
        ..PluginConfig::default()
    };

    assert_eq!(cfg.cache_ttl_hours_for(LyricsKind::Plain), 1);
    assert_eq!(cfg.cache_ttl_hours_for(LyricsKind::Lrc), 2);
    assert_eq!(cfg.cache_ttl_hours_for(LyricsKind::Elrc), 3);
    assert_eq!(cfg.cache_ttl_hours_for(LyricsKind::Ttml), 4);
    assert_eq!(cfg.cache_ttl_hours_for(LyricsKind::Srt), 5);
    assert_eq!(cfg.cache_ttl_hours_for(LyricsKind::Lyricsfile), 6);
    assert_eq!(cfg.cache_ttl_hours_for(LyricsKind::Instrumental), 7);
}

#[test]
fn test_parse_lyrics_formats_preserves_order() {
    assert_eq!(
        parse_lyrics_formats("ttml,lyricsfile,elrc,lrc,srt,plain"),
        vec![
            LyricsKind::Ttml,
            LyricsKind::Lyricsfile,
            LyricsKind::Elrc,
            LyricsKind::Lrc,
            LyricsKind::Srt,
            LyricsKind::Plain,
        ]
    );
}

#[test]
fn test_parse_lyrics_formats_trims_and_ignores_case() {
    assert_eq!(
        parse_lyrics_formats(" LRC , Plain "),
        vec![LyricsKind::Lrc, LyricsKind::Plain]
    );
}

#[test]
fn test_parse_lyrics_formats_dedups_and_skips_unknown() {
    assert_eq!(parse_lyrics_formats("lrc,bogus,lrc"), vec![LyricsKind::Lrc]);
}

#[test]
fn mod_test_parse_lyrics_formats_excludes_instrumental() {
    assert_eq!(
        parse_lyrics_formats("instrumental,plain"),
        vec![LyricsKind::Plain]
    );
}

#[test]
fn mod_test_parse_lyrics_formats_empty() {
    assert_eq!(parse_lyrics_formats(""), Vec::<LyricsKind>::new());
}

#[test]
fn test_normalize_extension_strips_dots_and_whitespace() {
    assert_eq!(normalize_extension("lrc"), "lrc");
    assert_eq!(normalize_extension(".lrc"), "lrc");
    assert_eq!(normalize_extension("...lrc"), "lrc");
    assert_eq!(normalize_extension("  .txt  "), "txt");
    assert_eq!(normalize_extension("."), "");
}

#[test]
fn test_normalize_extension_strips_path_separators() {
    for raw in ["txt/../../evil", "../../etc/passwd", r"txt\..\evil", "a:b"] {
        let ext = normalize_extension(raw);
        assert!(
            !ext.contains(['/', '\\', ':']),
            "{raw:?} left separators in {ext:?}"
        );
    }

    assert_eq!(normalize_extension("///"), "");
}

#[test]
fn providers_that_differ_have_different_ids() {
    let entries = [
        entry("lrclib", &[]),
        entry("kugou", &[]),
        entry("lrclib", &[("baseUrl", "http://a")]),
        entry("lrclib", &[("baseUrl", "http://b")]),
        entry("lrclib", &[("baseUrl", "http://a"), ("timeout", "30")]),
    ];
    let ids: Vec<String> = entries.iter().map(ProviderEntry::cache_id).collect();
    let unique: HashSet<&String> = ids.iter().collect();

    assert_eq!(unique.len(), ids.len(), "cache ids collided: {ids:?}");
}

#[test]
fn providers_are_parsed() {
    check_providers(
        r#"[{"provider":"lrclib"},{"provider":"lyrics.ovh"}]"#,
        Some(vec![entry("lrclib", &[]), entry("lyrics.ovh", &[])]),
    );
}

#[test]
fn provider_parameters_are_parsed() {
    check_providers(
        r#"[{"provider":"applemusic","mediaUserToken":" abc ","storefront":"gb"}]"#,
        Some(vec![entry(
            "applemusic",
            &[("mediaUserToken", "abc"), ("storefront", "gb")],
        )]),
    );
}

#[test]
fn array_params_are_joined_with_commas() {
    check_providers(
        r#"[{"provider":"lrcmux","sources":["lrclib"," kugou ",""]}]"#,
        Some(vec![entry("lrcmux", &[("sources", "lrclib,kugou")])]),
    );
}

#[test]
fn blank_params_are_ignored() {
    check_providers(
        r#"[{"provider":"lrclib","baseUrl":"   ","storefront":"","sources":[]}]"#,
        Some(vec![entry("lrclib", &[])]),
    );
}

#[test]
fn a_provider_without_a_name_is_skipped() {
    check_providers(
        r#"[{"provider":""},{"provider":"  "},{"baseUrl":"http://a"},{"provider":"kugou"}]"#,
        Some(vec![entry("kugou", &[])]),
    );
}

#[test]
fn two_equal_providers_are_deduplicated() {
    check_providers(
        r#"[{"provider":"kugou"},{"provider":"kugou"},{"provider":"netease"}]"#,
        Some(vec![entry("kugou", &[]), entry("netease", &[])]),
    );
}

#[test]
fn two_providers_with_different_params_are_kept() {
    check_providers(
        r#"[{"provider":"lrclib","baseUrl":"http://a"},{"provider":"lrclib","baseUrl":"http://b"}]"#,
        Some(vec![
            entry("lrclib", &[("baseUrl", "http://a")]),
            entry("lrclib", &[("baseUrl", "http://b")]),
        ]),
    );
}

#[test]
fn invalid_provider_list_json_is_rejected() {
    for raw in ["not json", "", "{}", r#"{"provider":"lrclib"}"#, "[1,2]"] {
        check_providers(raw, None);
    }
}

#[test]
fn an_empty_provider_list_is_valid() {
    check_providers("[]", Some(Vec::new()));
}
