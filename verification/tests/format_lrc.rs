use nd_lyrics::format::lrc::{is_instrumental, is_synced, sanitize, strip_word_tags, WordText};

#[test]
fn test_no_tags_borrows_input() {
    assert!(matches!(strip_word_tags("plain text"), WordText::Borrowed(_)));
}

#[test]
fn test_strips_word_timing_tags() {
    assert_eq!(
        strip_word_tags("<00:00.00>Hello <00:00.50>world").as_str(),
        "Hello world"
    );
}

#[test]
fn test_keeps_non_digit_angle_brackets() {
    assert_eq!(strip_word_tags("a <b> c").as_str(), "a <b> c");
}

#[test]
fn test_unclosed_digit_bracket_is_kept() {
    assert_eq!(strip_word_tags("I <3 it").as_str(), "I <3 it");
}

#[test]
fn test_tag_at_end_without_close_is_kept() {
    assert_eq!(strip_word_tags("done <12:34").as_str(), "done <12:34");
}

#[test]
fn lrc_test_metadata_tags_stripped() {
    let input = "[ar:Artist Name]\n[al:Album]\n[ti:Song Title]\n[00:10.00] Hello";
    assert_eq!(sanitize(input), "[00:10.00] Hello");
}

#[test]
fn lrc_test_offset_tag_kept() {
    let input = "[offset:-500]\n[ar:Artist]\n[00:10.00] Hello";
    assert_eq!(sanitize(input), "[offset:-500]\n[00:10.00] Hello");
}

#[test]
fn lrc_test_standalone_bracket_without_colon_stripped() {
    let input = "[SomethingWithoutColon]\n[00:10.00] Hello";
    assert_eq!(sanitize(input), "[00:10.00] Hello");
}

#[test]
fn lrc_test_regular_lyric_lines_kept() {
    let input = "[00:10.00] Hello world\n[00:15.00] Foo bar";
    assert_eq!(
        sanitize(input),
        "[00:10.00] Hello world\n[00:15.00] Foo bar"
    );
}

#[test]
fn lrc_test_empty_input() {
    assert_eq!(sanitize(""), "");
}

#[test]
fn test_short_gap_blank_line_dropped() {
    let input = "[00:44.95]A song in every breath\n[00:47.60]\n[00:48.36]Sing me";
    assert_eq!(
        sanitize(input),
        "[00:44.95]A song in every breath\n[00:48.36]Sing me"
    );
}

#[test]
fn test_long_gap_blank_line_kept() {
    let input = "[00:44.95]A song\n[00:47.60]\n[00:55.00]Sing me";
    assert_eq!(
        sanitize(input),
        "[00:44.95]A song\n[00:47.60]\n[00:55.00]Sing me"
    );
}

#[test]
fn test_trailing_blank_line_dropped() {
    let input = "[00:44.95]Last line\n[00:47.60]";
    assert_eq!(sanitize(input), "[00:44.95]Last line");
}

#[test]
fn lrc_test_first_time_tag_title_pattern_at_under_5s_is_filtered() {
    let input = "[00:01.00] Artist - Title\n[00:05.00] First verse";
    assert_eq!(sanitize(input), "[00:05.00] First verse");
}

#[test]
fn lrc_test_first_time_tag_no_dash_is_kept() {
    let input = "[00:01.00] First verse";
    assert_eq!(sanitize(input), "[00:01.00] First verse");
}

#[test]
fn lrc_test_first_time_tag_title_pattern_at_exactly_5s_is_kept() {
    let input = "[00:05.00] Artist - Title\n[00:10.00] Hello";
    assert_eq!(
        sanitize(input),
        "[00:05.00] Artist - Title\n[00:10.00] Hello"
    );
}

#[test]
fn lrc_test_second_time_tag_title_pattern_is_kept() {
    let input = "[00:01.00] First verse\n[00:03.00] Artist - Title";
    assert_eq!(
        sanitize(input),
        "[00:01.00] First verse\n[00:03.00] Artist - Title"
    );
}

#[test]
fn lrc_test_non_tagged_credit_line_filtered() {
    let input = "Lyrics by: Someone\n[00:05.00] Hello";
    assert_eq!(sanitize(input), "[00:05.00] Hello");
}

#[test]
fn lrc_test_time_tagged_credit_line_filtered() {
    let input = "[00:01.00] Lyrics by: Someone\n[00:05.00] Hello";
    assert_eq!(sanitize(input), "[00:05.00] Hello");
}

#[test]
fn lrc_test_credit_with_fullwidth_colon_filtered() {
    let input = "Written by\u{FF1A} Someone\n[00:05.00] Hello";
    assert_eq!(sanitize(input), "[00:05.00] Hello");
}

#[test]
fn lrc_test_multiple_credits_filtered() {
    let input =
        "[00:01.00] Music by: Composer\n[00:02.00] Arranged by: Arranger\n[00:10.00] Verse";
    assert_eq!(sanitize(input), "[00:10.00] Verse");
}

#[test]
fn lrc_test_credit_prefix_case_insensitive() {
    let input = "LYRICS BY: Someone\n[00:05.00] Hello";
    assert_eq!(sanitize(input), "[00:05.00] Hello");
}

#[test]
fn test_chinese_credit_lines_filtered() {
    let input = "[00:00.000] 作词 : Freddie Mercury\n[00:00.000] 作曲 : Freddie Mercury\n[00:06.600]He's a fairy feller";
    assert_eq!(sanitize(input), "[00:06.600]He's a fairy feller");
}

#[test]
fn test_chinese_credit_no_space_before_colon_filtered() {
    let input = "[00:00.000]作词:Freddie Mercury\n[00:01.000]作曲:Freddie Mercury\n[00:06.600]He's a fairy feller";
    assert_eq!(sanitize(input), "[00:06.600]He's a fairy feller");
}

#[test]
fn test_chinese_arranger_credit_filtered() {
    let input = "[00:02.000]编曲 : Queen\n[00:06.600]He's a fairy feller";
    assert_eq!(sanitize(input), "[00:06.600]He's a fairy feller");
}

#[test]
fn test_netease_credit_block_filtered() {
    // NetEase preamble example
    let input = "[00:00.000] 作词 : Freddie Mercury\n[00:00.000] 作曲 : Freddie Mercury\n[00:01.000]作曲 : Freddie Mercury\n[00:02.000]编曲 : Queen\n[00:06.600]He's a fairy feller\n[00:20.860]Ah ah the fairy folk have gathered\n[00:22.590]Round the new moon's shine";
    assert_eq!(
        sanitize(input),
        "[00:06.600]He's a fairy feller\n[00:20.860]Ah ah the fairy folk have gathered\n[00:22.590]Round the new moon's shine"
    );
}

#[test]
fn test_enhanced_lrc_title_line_filtered() {
    let input = "[00:00.00]<00:00.00>Artist <00:00.50>- <00:01.00>Title\n[00:06.00]<00:06.00>First <00:06.50>line";
    assert_eq!(sanitize(input), "[00:06.00]<00:06.00>First <00:06.50>line");
}

#[test]
fn test_enhanced_lrc_credit_line_filtered() {
    let input = "[00:01.00]<00:01.00>Composed <00:01.50>by<00:02.00>: <00:02.50>Someone\n[00:06.00]<00:06.00>Hello";
    assert_eq!(sanitize(input), "[00:06.00]<00:06.00>Hello");
}

#[test]
fn test_enhanced_lrc_word_tags_preserved_in_output() {
    let input = "[00:06.00]<00:06.00>Hello <00:06.50>world";
    assert_eq!(sanitize(input), "[00:06.00]<00:06.00>Hello <00:06.50>world");
}

#[test]
fn test_space_before_colon_english_credit_filtered() {
    let input = "Written by : Someone\n[00:05.00] Hello";
    assert_eq!(sanitize(input), "[00:05.00] Hello");

    let input = "[ar:Artist]\n[al:Album]\n[offset:500]\n[00:00.50] Artist - Title\n[00:10.00] Lyrics by: Someone\n[00:15.00] Hello\n[00:20.00] World";
    assert_eq!(
        sanitize(input),
        "[offset:500]\n[00:15.00] Hello\n[00:20.00] World"
    );
}

#[test]
fn test_detects_plain_instrumental() {
    assert!(is_instrumental("Instrumental"));
}

#[test]
fn test_detects_chinese_instrumental() {
    assert!(is_instrumental("[00:01.00]纯音乐，请欣赏"));
}

#[test]
fn test_detects_no_lyrics() {
    assert!(is_instrumental("[00:00.00]No Lyrics"));
}

#[test]
fn test_metadata_lines_do_not_count() {
    let input = "[ar:test]\n[ti:test]\n[offset:0]\n[00:01.00]纯音乐，请欣赏\n";

    assert!(is_instrumental(input));
}

#[test]
fn test_more_than_three_timed_lines_is_not_instrumental() {
    let input = "[00:01.00]纯音乐，请欣赏\n[00:02.00]...\n[00:03.00]...\n[00:04.00]...\n";

    assert!(!is_instrumental(input));
}

#[test]
fn test_non_timed_lines_do_not_count() {
    let input = "hello\nworld\n[00:01.00]instrumental\n";

    assert!(is_instrumental(input));
}

#[test]
fn lrc_test_bom_is_handled() {
    let input = "\u{feff}[00:01.00]纯音乐";

    assert!(is_instrumental(input));

    let input = "\u{feff}[00:01.00]Hello";

    assert!(is_synced(input));
}

#[test]
fn test_regular_lyrics_not_detected() {
    let input = "[00:01.00]Hello\n[00:05.00]World\n";

    assert!(!is_instrumental(input));
}

#[test]
fn test_offset_tag_is_not_counted_as_timed_line() {
    let input = "[offset:0]\n[00:01.00]instrumental\n";

    assert!(is_instrumental(input));
}

#[test]
fn test_real_synced_lrc_is_synced() {
    let input = "[00:01.00]Hello\n[00:05.00]World\n";

    assert!(is_synced(input));
}

#[test]
fn test_metadata_tags_before_timed_line_is_synced() {
    let input = "[ar:Artist]\n[al:Album]\n[ti:Title]\n[00:01.00]Hello\n";

    assert!(is_synced(input));
}

#[test]
fn test_plain_multiline_text_is_not_synced() {
    let input = "Hello\nWorld\n";

    assert!(!is_synced(input));
}

#[test]
fn test_bracketed_non_time_label_is_not_synced() {
    let input = "[Verse 1]\nHello\nWorld\n";

    assert!(!is_synced(input));
}

#[test]
fn test_empty_input_is_not_synced() {
    assert!(!is_synced(""));
}
