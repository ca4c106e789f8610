use nd_lyrics::format::lyricsfile::sync_level;
use nd_lyrics::types::SyncLevel;


fn check(doc: &str, expected: SyncLevel) {
    assert_eq!(sync_level(doc), expected, "{doc}");
}

#[test]
fn no_timed_lines_is_plain() {
    check(
        "version: '1.0'\nmetadata:\n  title: Some Song\nplain: |-\n  First line\n  Second line\n",
        SyncLevel::Plain,
    );
    check(
        "version: '1.0'\nmetadata:\n  title: Creep\nlines: []\nplain: |-\n  When you were here before\n",
        SyncLevel::Plain,
    );
    check(
        "lines:\n- text: First line\n- text: Second line\n",
        SyncLevel::Plain,
    );
    check("", SyncLevel::Plain);
}

#[test]
fn lines_with_a_start_are_line_synced() {
    check(
        "version: '1.0'\nmetadata:\n  title: Some Song\nlines:\n- text: First line\n  start_ms: 8340\n  end_ms: 12080\nplain: |-\n  First line\n",
        SyncLevel::Line,
    );
}

#[test]
fn lines_with_words_are_word_synced() {
    check(
        "version: \"1.0\"\nlines:\n  - text: Just a smile\n    words:\n      - text: \"Just \"\n        start_ms: 6070\n    start_ms: 6070\n    end_ms: 10880\nplain: |-\n  Just a smile\n",
        SyncLevel::Word,
    );
    check(
        "lines:\n  - text: Hi\n    words: [{text: Hi, start_ms: 10}]\n",
        SyncLevel::Word,
    );
}

#[test]
fn an_empty_words_list_is_only_line_synced() {
    check(
        "lines:\n  - text: \"\"\n    words: []\n    start_ms: 117410\n",
        SyncLevel::Line,
    );
}

#[test]
fn a_single_line_with_words_is_word_synced() {
    check(
        "lines:\n  - text: \"\"\n    words: []\n    start_ms: 0\n  - text: Hello\n    words:\n      - text: Hello\n        start_ms: 100\n    start_ms: 100\n",
        SyncLevel::Word,
    );
}
