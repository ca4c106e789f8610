use nd_lyrics::format::ttml::sync_level;
use nd_lyrics::types::SyncLevel;


fn check(doc: &str, expected: SyncLevel) {
    assert_eq!(sync_level(doc), expected, "{doc}");
}

#[test]
fn the_itunes_timing_attribute_determines_the_level() {
    check(
        r#"<tt xmlns:itunes="http://music.apple.com/lyric-ttml-internal" itunes:timing="Word" xml:lang="en"><body></body></tt>"#,
        SyncLevel::Word,
    );
    check(
        r#"<tt itunes:timing="Line"><body><div><p>Hello</p></div></body></tt>"#,
        SyncLevel::Line,
    );
    check(
        r#"<tt itunes:timing="None"><body><div><p>Hello</p></div></body></tt>"#,
        SyncLevel::Plain,
    );
    check(r#"<tt ITUNES:TIMING='word'></tt>"#, SyncLevel::Word);
}

#[test]
fn the_itunes_timing_attribute_wins_over_the_markup() {
    check(
        "<tt itunes:timing=\"Line\"><body><div><p begin=\"1.0\" end=\"2.0\"><span>Hello</span></p></div></body></tt>",
        SyncLevel::Line,
    );
}

#[test]
fn an_unknown_itunes_timing_attribute_falls_back_to_the_markup() {
    check(
        r#"<tt itunes:timing="Bogus"><body><div><p begin="1.0">Hi</p></div></body></tt>"#,
        SyncLevel::Line,
    );
}

#[test]
fn timed_spans_are_word_synced() {
    check(
        "<tt xmlns:itunes=\"http://music.apple.com/lyrics\"><body><div><p begin=\"00:00:11.011\" end=\"00:00:13.643\"><span begin=\"00:00:11.011\" end=\"00:00:11.397\">Say </span></p></div></body></tt>",
        SyncLevel::Word,
    );
}

#[test]
fn timed_paragraphs_are_line_synced() {
    check(
        r#"<tt><body><div><p begin="45.452" end="49.551">Sleep well</p></div></body></tt>"#,
        SyncLevel::Line,
    );
    check(
        "<tt><body><div><p begin = '1.0'>Hi</p></div></body></tt>",
        SyncLevel::Line,
    );
}

#[test]
fn untimed_translation_spans_do_not_count_as_words() {
    check(
        "<tt><body><div><p begin=\"1.0\" end=\"2.0\">Hello<span ttm:role=\"x-translation\" xml:lang=\"es\">Hola</span></p></div></body></tt>",
        SyncLevel::Line,
    );
}

#[test]
fn no_timings_is_plain() {
    check(
        r#"<tt><body><div><p>I don't know what to do</p></div></body></tt>"#,
        SyncLevel::Plain,
    );
    check("", SyncLevel::Plain);
}
