use nd_lyrics::sanitize::{sanitize_lrc, strip_section_labels};


#[test]
fn sanitize_test_metadata_tags_stripped() {
    let input = "[ar:Artist Name]\n[al:Album]\n[ti:Song Title]\n[00:10.00] Hello";
    assert_eq!(sanitize_lrc(input), "[00:10.00] Hello");
}

#[test]
fn sanitize_test_offset_tag_kept() {
    let input = "[offset:-500]\n[ar:Artist]\n[00:10.00] Hello";
    assert_eq!(sanitize_lrc(input), "[offset:-500]\n[00:10.00] Hello");
}

#[test]
fn sanitize_test_standalone_bracket_without_colon_stripped() {
    let input = "[SomethingWithoutColon]\n[00:10.00] Hello";
    assert_eq!(sanitize_lrc(input), "[00:10.00] Hello");
}

#[test]
fn sanitize_test_regular_lyric_lines_kept() {
    let input = "[00:10.00] Hello world\n[00:15.00] Foo bar";
    assert_eq!(
        sanitize_lrc(input),
        "[00:10.00] Hello world\n[00:15.00] Foo bar"
    );
}

#[test]
fn sanitize_test_empty_input() {
    assert_eq!(sanitize_lrc(""), "");
}

#[test]
fn sanitize_test_first_time_tag_title_pattern_at_under_5s_is_filtered() {
    let input = "[00:01.00] Artist - Title\n[00:05.00] First verse";
    assert_eq!(sanitize_lrc(input), "[00:05.00] First verse");
}

#[test]
fn sanitize_test_first_time_tag_no_dash_is_kept() {
    let input = "[00:01.00] First verse";
    assert_eq!(sanitize_lrc(input), "[00:01.00] First verse");
}

#[test]
fn sanitize_test_first_time_tag_title_pattern_at_exactly_5s_is_kept() {
    let input = "[00:05.00] Artist - Title\n[00:10.00] Hello";
    assert_eq!(
        sanitize_lrc(input),
        "[00:05.00] Artist - Title\n[00:10.00] Hello"
    );
}

#[test]
fn sanitize_test_second_time_tag_title_pattern_is_kept() {
    let input = "[00:01.00] First verse\n[00:03.00] Artist - Title";
    assert_eq!(
        sanitize_lrc(input),
        "[00:01.00] First verse\n[00:03.00] Artist - Title"
    );
}

#[test]
fn sanitize_test_non_tagged_credit_line_filtered() {
    let input = "Lyrics by: Someone\n[00:05.00] Hello";
    assert_eq!(sanitize_lrc(input), "[00:05.00] Hello");
}

#[test]
fn sanitize_test_time_tagged_credit_line_filtered() {
    let input = "[00:01.00] Lyrics by: Someone\n[00:05.00] Hello";
    assert_eq!(sanitize_lrc(input), "[00:05.00] Hello");
}

#[test]
fn sanitize_test_credit_with_fullwidth_colon_filtered() {
    let input = "Written by\u{FF1A} Someone\n[00:05.00] Hello";
    assert_eq!(sanitize_lrc(input), "[00:05.00] Hello");
}

#[test]
fn sanitize_test_multiple_credits_filtered() {
    let input =
        "[00:01.00] Music by: Composer\n[00:02.00] Arranged by: Arranger\n[00:10.00] Verse";
    assert_eq!(sanitize_lrc(input), "[00:10.00] Verse");
}

#[test]
fn sanitize_test_credit_prefix_case_insensitive() {
    let input = "LYRICS BY: Someone\n[00:05.00] Hello";
    assert_eq!(sanitize_lrc(input), "[00:05.00] Hello");
}

#[test]
fn test_mixed_metadata_credits_and_lyrics() {
    let input = "[ar:Artist]\n[al:Album]\n[offset:500]\n[00:00.50] Artist - Title\n[00:10.00] Lyrics by: Someone\n[00:15.00] Hello\n[00:20.00] World";
    assert_eq!(
        sanitize_lrc(input),
        "[offset:500]\n[00:15.00] Hello\n[00:20.00] World"
    );
}

#[test]
fn test_basic_removal() {
    let input = "[Verse 1]\nHello there\n[Chorus]\nWe will rock you";
    let expected = "Hello there\nWe will rock you";
    assert_eq!(strip_section_labels(input), expected);
}

#[test]
fn test_variants_and_suffixes() {
    let input =
        "[Verse 2]\n[Pre-Chorus: Lead]\n[Hook - Artist]\n[Chorus 3x]\n[Outro (Fade)]";
    let expected = "";
    assert_eq!(strip_section_labels(input), expected);
}

#[test]
fn test_lrc_format_preserves_timestamps() {
    let input = "[00:10.00][Verse 1]First line\n[00:15.00][Chorus]Second line";
    let expected = "[00:10.00]First line\n[00:15.00]Second line";
    assert_eq!(strip_section_labels(input), expected);
}

#[test]
fn test_case_insensitivity() {
    let input = "[VERSE 1]\nHello\n[chorus]\nRock you";
    let expected = "Hello\nRock you";
    assert_eq!(strip_section_labels(input), expected);
}

#[test]
fn test_word_boundary_safety() {
    let input = "[00:10.00]Breaking the [Chains]\n[Outrageous] behavior";
    let expected = "[00:10.00]Breaking the [Chains]\n[Outrageous] behavior";
    assert_eq!(strip_section_labels(input), expected);
}

#[test]
fn test_mid_line_labels() {
    let input = "[Chorus] We will [Chorus] rock you";
    let expected = "We will rock you";
    assert_eq!(strip_section_labels(input), expected);
}

#[test]
fn test_hyphenated_variants() {
    let input =
        "[Pre-Chorus]\nLet's go\n[Pre Chorus]\nLet's go again\n[Prechorus]\nOne more time";
    let expected = "Let's go\nLet's go again\nOne more time";
    assert_eq!(strip_section_labels(input), expected);
}

#[test]
fn test_ad_lib_variant() {
    let input = "[Ad-lib] Ooh yeah\n[Adlib] Aah";
    let expected = "Ooh yeah\nAah";
    assert_eq!(strip_section_labels(input), expected);
}
