use nd_lyrics::cache::{cache_key, compress, decode_entry, decompress, entry_bytes, negative_cache_key};
use nd_lyrics::config::PluginConfig;
use nd_lyrics::types::Lyrics;
use nd_lyrics::types::LyricsKind;

#[test]
fn test_cache_key_lrc() {
    assert_eq!(cache_key("abc123", LyricsKind::Lrc), "lrc:abc123");
}

#[test]
fn test_cache_key_elrc() {
    assert_eq!(cache_key("abc123", LyricsKind::Elrc), "elrc:abc123");
}

#[test]
fn test_cache_key_plain() {
    assert_eq!(cache_key("abc123", LyricsKind::Plain), "plain:abc123");
}

#[test]
fn test_cache_key_instrumental() {
    assert_eq!(
        cache_key("abc123", LyricsKind::Instrumental),
        "instrumental:abc123"
    );
}

#[test]
fn test_negative_cache_key() {
    assert_eq!(
        negative_cache_key("abc123", "deadbeef"),
        "miss:deadbeef:abc123"
    );
}

#[test]
fn test_compress_decompress_roundtrip() {
    let text = "[00:12.34] Hello, world!\n[00:15.67] Testing...";
    let compressed = compress(text.as_bytes()).expect("compression failed");
    let decompressed = decompress(&compressed).expect("decompression failed");

    assert_eq!(decompressed, text);
}

#[test]
fn test_compress_decompress_empty() {
    let compressed = compress(&[]).expect("compression of empty failed");
    let decompressed = decompress(&compressed).expect("decompression of empty failed");

    assert_eq!(decompressed, "");
}

#[test]
fn test_compress_decompress_large_payload() {
    let text = "Lorem ipsum ".repeat(8_000);
    let compressed = compress(text.as_bytes()).expect("compression failed");

    assert!(
        compressed.len() < text.len(),
        "compressed payload should be smaller"
    );

    let decompressed = decompress(&compressed).expect("decompression failed");
    assert_eq!(decompressed, text);
}

#[test]
fn test_decompress_invalid_deflate_data() {
    let garbage = vec![0xFF, 0xFE, 0xFD, 0xFC];
    let result = decompress(&garbage);

    assert!(result.is_err());
}

#[test]
fn test_decompress_valid_deflate_but_invalid_utf8() {
    let invalid_utf8: &[u8] = &[0x80, 0x81, 0x82];
    let compressed = compress(invalid_utf8).expect("compression failed");
    let result = decompress(&compressed);

    assert!(result.is_err());
}


#[test]
fn every_kind_of_a_track_has_its_own_key() {
    let kinds = [
        LyricsKind::Plain,
        LyricsKind::Lrc,
        LyricsKind::Elrc,
        LyricsKind::Ttml,
        LyricsKind::Srt,
        LyricsKind::Lyricsfile,
        LyricsKind::Instrumental,
    ];
    for a in kinds {
        for b in kinds {
            assert_eq!(cache_key("t1", a) == cache_key("t1", b), a == b);
        }
        assert_ne!(cache_key("t1", a), negative_cache_key("t1", "p"));
    }
}

#[test]
fn every_kind_is_named_by_its_slug() {
    for k in [
        LyricsKind::Plain,
        LyricsKind::Lrc,
        LyricsKind::Elrc,
        LyricsKind::Ttml,
        LyricsKind::Srt,
        LyricsKind::Lyricsfile,
        LyricsKind::Instrumental,
    ] {
        assert_eq!(LyricsKind::from_slug(k.slug()), Some(k));
    }
}

#[test]
fn a_cache_entry_reads_back_as_its_lyrics() {
    let cfg = PluginConfig::default();
    let lrc = Lyrics::Lrc("[00:01.00]Hello\n[00:02.00]World".to_string());
    let bytes = entry_bytes(&lrc, &cfg).unwrap();
    assert_eq!(decode_entry(LyricsKind::Lrc, &bytes), Some(lrc));
    let bytes = entry_bytes(&Lyrics::Instrumental, &cfg).unwrap();
    assert_eq!(bytes, vec![1u8]);
    assert_eq!(decode_entry(LyricsKind::Instrumental, &bytes), Some(Lyrics::Instrumental));
    assert_eq!(decode_entry(LyricsKind::Instrumental, &[2u8]), None);
    assert_eq!(decode_entry(LyricsKind::Plain, &[0xffu8, 0x00]), None);
}
