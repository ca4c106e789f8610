use nd_lyrics::providers::kugou::{download_plan, Candidate};
use nd_lyrics::types::LyricsKind;
use nd_lyrics::format::lrc::format_timestamp;
use nd_lyrics::providers::krc::{convert, to_enhanced_lrc};

fn check(krc: &str, expected: &str) {
    assert_eq!(convert(krc), expected);
}

#[test]
fn krc_test_format_timestamp() {
    assert_eq!(format_timestamp(0), "00:00.00");
    assert_eq!(format_timestamp(736), "00:00.74");
    assert_eq!(format_timestamp(5890), "00:05.89");
    assert_eq!(format_timestamp(65_000), "01:05.00");
}

#[test]
fn test_convert_word_timing() {
    let krc = "[0,5890]<0,736,0>foo<736,736,0>bar<1472,736,0>baz";
    assert_eq!(
        convert(krc),
        "[00:00.00]<00:00.00>foo<00:00.74>bar<00:01.47>baz<00:02.21>"
    );
}

#[test]
fn test_convert_multiple_lines_and_offsets() {
    let krc = "[5890,5900]<0,1180,0>foo<1180,1180,0>：\n[11790,5900]<0,1180,0>bar";
    assert_eq!(
        convert(krc),
        "[00:05.89]<00:05.89>foo<00:07.07>：<00:08.25>\n[00:11.79]<00:11.79>bar<00:12.97>"
    );
}

#[test]
fn krc_test_convert_closes_last_word() {
    let krc = "[0,1000]<0,500,0>hi";
    assert_eq!(convert(krc), "[00:00.00]<00:00.00>hi<00:00.50>");
}

#[test]
fn test_convert_skips_metadata_lines() {
    let krc = "[ti:Song]\n[ar:Artist]\n[offset:0]\n[0,1000]<0,500,0>hi";
    assert_eq!(convert(krc), "[00:00.00]<00:00.00>hi<00:00.50>");
}

#[test]
fn krc_test_convert_empty() {
    assert_eq!(convert(""), "");
}

#[test]
fn krc_test_decrypt_rejects_non_krc() {
    assert!(to_enhanced_lrc(b"not a krc payload").is_err());
}

#[test]
fn krc_line_to_elrc() {
    check(
        "[0,5890]<0,736,0>foo<736,736,0>bar<1472,736,0>baz",
        "[00:00.00]<00:00.00>foo<00:00.74>bar<00:01.47>baz<00:02.21>",
    );
}

#[test]
fn krc_multiple_lines_to_elrc() {
    check(
        "[5890,5900]<0,1180,0>foo<1180,1180,0>：\n[11790,5900]<0,1180,0>bar",
        "[00:05.89]<00:05.89>foo<00:07.07>：<00:08.25>\n[00:11.79]<00:11.79>bar<00:12.97>",
    );
}

#[test]
fn krc_last_word_is_closed() {
    check("[0,1000]<0,500,0>hi", "[00:00.00]<00:00.00>hi<00:00.50>");
}

#[test]
fn converts_mid_line_pause_on_space() {
    check(
        "[129364,6000]<0,464,0>foo <5592,360,0>bar",
        "[02:09.36]<02:09.36>foo<02:09.83> <02:14.96>bar<02:15.32>",
    );
}

#[test]
fn krc_empty_check() {
    assert_eq!(convert(""), "");
}

#[test]
fn downloads_follow_the_configured_kinds() {
    let with_krc = Candidate { id: "1".into(), accesskey: "k".into(), krctype: 1 };
    let without = Candidate { id: "1".into(), accesskey: "k".into(), krctype: 0 };
    let order = [LyricsKind::Elrc, LyricsKind::Plain, LyricsKind::Lrc];
    assert_eq!(download_plan(&order, &with_krc), vec!["krc", "lrc"]);
    assert_eq!(download_plan(&order, &without), vec!["lrc"]);
    assert_eq!(download_plan(&[LyricsKind::Plain], &with_krc), Vec::<&str>::new());
}

#[test]
fn download_bytes_decodes_standard_base64() {
    let bytes = nd_lyrics::providers::kugou::download_bytes("aGVsbG8=").unwrap();
    assert_eq!(bytes, b"hello".to_vec());
}

#[test]
fn download_bytes_refuses_what_is_not_canonical_base64() {
    assert!(nd_lyrics::providers::kugou::download_bytes("aGVsbG8").is_err());
    assert!(nd_lyrics::providers::kugou::download_bytes("a*b=").is_err());
}

#[test]
fn krc_word_times_past_i64_are_read_as_u64() {
    check(
        "[9999999999999999000,1]<0,500,0>hi",
        "[166666666666666:39.00]<166666666666666:39.00>hi<166666666666666:39.50>",
    );
}

#[test]
fn an_lrc_download_that_is_not_utf8_says_why() {
    let detail = String::from_utf8(vec![b'a', 0xff]).unwrap_err().to_string();
    let err = nd_lyrics::providers::kugou::lrc_lyrics(vec![b'a', 0xff]).unwrap_err();
    assert_eq!(
        err,
        nd_lyrics::providers::error::ProviderError::Other(format!(
            "lyrics content is not valid UTF-8: {detail}"
        ))
    );
}

#[test]
fn an_lrc_download_gives_its_lyrics() {
    let got = nd_lyrics::providers::kugou::download_lyrics("lrc", b"[00:01.00]la".to_vec()).unwrap();
    assert_eq!(got, Some(nd_lyrics::types::Lyrics::Lrc("[00:01.00]la".to_string())));
    let blank = nd_lyrics::providers::kugou::download_lyrics("lrc", b"  \n".to_vec()).unwrap();
    assert_eq!(blank, None);
}

#[test]
fn a_krc_download_that_does_not_decode_gives_nothing() {
    let got = nd_lyrics::providers::kugou::download_lyrics("krc", b"not krc".to_vec()).unwrap();
    assert_eq!(got, None);
}
