use nd_lyrics::config::PluginConfig;
use nd_lyrics::ext::TrackInfo;
use nd_lyrics::types::LyricsKind;
use nd_lyrics::writing::{
    join_path, process_template, replace_padded_variable, resolve_custom_path,
    sanitize_path_segment, write_target, WriteError, WriteTarget,
};

struct Fixture {
    track: TrackInfo,
    kind: LyricsKind,
    ext: &'static str,
}

fn track() -> Fixture {
    Fixture {
        track: TrackInfo {
            id: "123".to_string(),
            title: "Test Song".to_string(),
            album: "Test Album".to_string(),
            artist: "Test Artist".to_string(),
            album_artist: "Test Album Artist".to_string(),
            track_number: 1,
            disc_number: 1,
            ..Default::default()
        },
        kind: LyricsKind::Lrc,
        ext: "lrc",
    }
}

impl Fixture {
    fn title(mut self, title: &str) -> Fixture {
        self.track.title = title.to_string();
        self
    }

    fn artist(mut self, artist: &str) -> Fixture {
        self.track.artist = artist.to_string();
        self
    }

    fn album(mut self, album: &str) -> Fixture {
        self.track.album = album.to_string();
        self
    }

    fn track_number(mut self, number: i32) -> Fixture {
        self.track.track_number = number;
        self
    }

    fn disc_number(mut self, number: i32) -> Fixture {
        self.track.disc_number = number;
        self
    }

    fn plain_text(mut self) -> Fixture {
        self.kind = LyricsKind::Plain;
        self.ext = "txt";
        self
    }

    fn check(&self, template: &str, expected: &str) {
        let path = process_template(template, &self.track, self.kind, self.ext);
        assert_eq!(path, expected, "{template}");
    }
}

#[test]
fn variables_are_filled_in_and_the_extension_appended() {
    track().check(
        "lyrics/{type}/{track:artist}/{track:title}",
        "lyrics/lrc/Test Artist/Test Song.lrc",
    );
}

#[test]
fn extensions_are_not_repeated() {
    track().check("lyrics/{track:title}.lrc", "lyrics/Test Song.lrc");
    track().check("lyrics/{track:title}.backup", "lyrics/Test Song.backup.lrc");
    track().check(
        "lyrics/{track:title}.backup.txt",
        "lyrics/Test Song.backup.txt.lrc",
    );
    track().check("lyrics/{track:title}.txt", "lyrics/Test Song.txt.lrc");
}

#[test]
fn both_slashes_separate_directories() {
    track().check(
        r"lyrics\{type}/{track:artist}\{track:title}",
        "lyrics/lrc/Test Artist/Test Song.lrc",
    );
    track().check(
        "lyrics///{type}//{track:artist}/{track:title}",
        "lyrics/lrc/Test Artist/Test Song.lrc",
    );
}

#[test]
fn a_name_that_cannot_be_built_falls_back_to_unknown() {
    track().check("///", "unknown.lrc");
    track().check(
        "lyrics///{type}//{track:artist}/",
        "lyrics/lrc/Test Artist/unknown.lrc",
    );
    track()
        .plain_text()
        .title("")
        .artist("")
        .check("{track:artist}/{track:title}", "unknown/unknown.txt");
    track()
        .plain_text()
        .title("???")
        .artist("***")
        .check("{track:artist}/{track:title}", "unknown/unknown.txt");
}

#[test]
fn dots_inside_a_name_are_kept() {
    track().artist("U2").album("Achtung.Baby").check(
        "{track:artist}/{track:album}/{track:title}",
        "U2/Achtung.Baby/Test Song.lrc",
    );
}

#[test]
fn dots_around_a_name_are_not_kept() {
    track()
        .plain_text()
        .artist(".The Artist.")
        .title("  ..Hidden Song..  ")
        .check("{track:artist}/{track:title}", "The Artist/Hidden Song.txt");
}

#[test]
fn it_is_not_possible_to_exit_a_directory() {
    track()
        .plain_text()
        .title("../../../etc/passwd")
        .check("lyrics/{track:title}", "lyrics/_.._.._etc_passwd.txt");

    track()
        .plain_text()
        .check("../../{track:title}", "unknown/unknown/Test Song.txt");
}

#[test]
fn unicode_and_emoji_are_left_intact() {
    track().artist("Björk").title("大丈夫 🎵").check(
        "lyrics/{track:artist}/{track:title}",
        "lyrics/Björk/大丈夫 🎵.lrc",
    );
}

#[test]
fn a_variable_that_is_not_recognized_stays_as_is() {
    track()
        .plain_text()
        .check("lyrics/{track:titel}", "lyrics/{track_titel}.txt");
    track()
        .plain_text()
        .check("lyrics/{ track:title }", "lyrics/{ track_title }.txt");
}

#[test]
fn numbers_can_be_padded_by_the_template() {
    let track = track().plain_text().disc_number(1).track_number(5);

    track.check(
        "lyrics/Disc {track:disc_number}/{track:track_number} - {track:title}",
        "lyrics/Disc 1/5 - Test Song.txt",
    );
    track.check(
        "lyrics/Disc {track:disc_number:2}/{track:track_number:2} - {track:title}",
        "lyrics/Disc 01/05 - Test Song.txt",
    );
}

fn check_padded(template: &str, value: &str, expected: &str) {
    let replaced = replace_padded_variable(template, "track:track_number", value);
    assert_eq!(replaced, expected, "{template}");
}

#[test]
fn a_bare_variable_takes_the_value_as_is() {
    check_padded("{track:track_number}", "5", "5");
}

#[test]
fn a_width_pads_the_value_with_zeros() {
    check_padded("{track:track_number:2}", "5", "05");
    check_padded("{track:track_number:3}", "12", "012");
}

#[test]
fn a_width_that_is_not_a_number_is_ignored() {
    check_padded("{track:track_number:abc}", "5", "5");
}

fn check_segment(name: &str, expected: &str) {
    assert_eq!(sanitize_path_segment(name), expected, "{name}");
}

#[test]
fn regular_names_are_kept() {
    check_segment("Hello World", "Hello World");
}

#[test]
fn invalid_path_characters_become_underscores() {
    check_segment("AC/DC", "AC_DC");
    check_segment("A:B|C?D*E", "A_B_C_D_E");
    check_segment("<Track>", "_Track_");
}

#[test]
fn a_run_of_invalid_characters_becomes_a_single_underscore() {
    check_segment("Song ??? Title", "Song _ Title");
    check_segment("Song//Title", "Song_Title");
}

#[test]
fn surrounding_spaces_and_dots_are_trimmed() {
    check_segment("  *test*  ", "_test_");
    check_segment("...file...", "file");
    check_segment(" . _ mixed _ . ", "_ mixed _");
}

#[test]
fn underscores_the_name_came_with_are_kept() {
    check_segment("_song_", "_song_");
    check_segment("_intro_", "_intro_");
    check_segment("__init__", "__init__");
    check_segment(" _spaces_and_underscores_ ", "_spaces_and_underscores_");
}

#[test]
fn a_name_with_nothing_left_becomes_unknown() {
    check_segment("", "unknown");
    check_segment("???", "unknown");
    check_segment("...", "unknown");
    check_segment("   ", "unknown");
    check_segment("___", "unknown");
    check_segment(". _ .", "unknown");
}

#[test]
fn control_characters_become_underscores() {
    check_segment("a\tb\u{7}c", "a_b_c");
}

#[test]
fn a_variable_without_a_closing_brace_leaves_the_rest_alone() {
    check_padded("x{track:track_number:2", "5", "x{track:track_number:2");
    check_padded("{track:track_number}-{track:track_number:", "7", "7-{track:track_number:");
}

#[test]
fn a_width_may_carry_a_plus_sign() {
    check_padded("{track:track_number:+3}", "7", "007");
    check_padded("{track:track_number:-3}", "7", "7");
}

#[test]
fn a_negative_number_is_padded_as_text() {
    let t = track().disc_number(-2);
    t.check("{track:disc_number:3}", "0-2.lrc");
}

#[test]
fn a_name_that_only_resembles_the_extension_still_gets_it() {
    let t = track().title("x");
    t.check("{track:title}", "x.lrc");
    t.check("{type}", "lrc.lrc");
    assert_eq!(process_template("a", &t.track, LyricsKind::Plain, ""), "a.");
}

#[test]
fn paths_join_with_one_slash() {
    assert_eq!(join_path("/music", "a/b.lrc"), "/music/a/b.lrc");
    assert_eq!(join_path("/music/", "a/b.lrc"), "/music/a/b.lrc");
    assert_eq!(join_path("", "a.lrc"), "a.lrc");
    assert_eq!(join_path("/music", "/abs.lrc"), "/abs.lrc");
}

#[test]
fn a_custom_path_lies_under_the_library() {
    let mut cfg = PluginConfig::default();
    cfg.write_to_specific_folder_template = "{track:artist}/{track:title}".to_string();
    let t = track();
    assert_eq!(
        resolve_custom_path(&cfg, "/music", &t.track, LyricsKind::Lrc),
        "/music/Test Artist/Test Song.lrc"
    );
    assert_eq!(
        resolve_custom_path(&cfg, "/music", &t.track, LyricsKind::Ttml),
        "/music/Test Artist/Test Song.ttml"
    );
}

#[test]
fn the_write_target_follows_the_configuration() {
    let mut cfg = PluginConfig::default();
    let mut t = track().track;
    assert_eq!(write_target(&cfg, &t), Err(WriteError::EmptyTrackPath));
    t.path = "a/b.flac".to_string();
    assert_eq!(write_target(&cfg, &t), Ok(WriteTarget::Sidecar));
    cfg.write_to_specific_folder = true;
    assert_eq!(write_target(&cfg, &t), Err(WriteError::MissingLibraryId));
    cfg.write_to_specific_folder_library_id = Some(3);
    assert_eq!(write_target(&cfg, &t), Ok(WriteTarget::Library(3)));
    assert_eq!(
        WriteError::MissingLibraryId.message(),
        "a library ID is required when write to custom path is enabled"
    );
    assert_eq!(WriteError::EmptyTrackPath.message(), "track path is empty");
}
