//! KuGou: the song search, the lyrics search and download, and how the
//! downloads become lyrics.
use vstd::prelude::*;
use vstd::utf8::{decode_utf8, valid_utf8};
use crate::config::providers::ProviderParams;
use crate::format::lrc::is_instrumental;
use crate::providers::error::ProviderError;
use crate::providers::http::Http;
use crate::providers::qqmusic::base64_text;
use crate::providers::krc::{krc_enhanced, krc_text, krc_times_fit, to_enhanced_lrc};
use crate::text::{chars_of, push_all, string_of, trim, trim_vec};
use crate::types::{Lyrics, LyricsKind, lyrics_kind, lyrics_text};

verus! {

pub const SONG_SEARCH_URL: &'static str = "http://mobilecdn.kugou.com/api/v3/search/song";
pub const LYRICS_SEARCH_URL: &'static str = "http://lyrics.kugou.com/search";
pub const DOWNLOAD_URL: &'static str = "https://lyrics.kugou.com/download";
/// The language KuGou gives instrumental tracks ("pure music").
pub const PURE_MUSIC: &'static str = "纯音乐";

/// A song of the search's answer; its duration in seconds.
#[derive(Debug, Clone, PartialEq, Eq)]
pub struct SongInfo {
    pub hash: String,
    pub duration: Option<u64>,
    pub language: Option<String>,
}

/// A lyrics candidate of the lyrics search.
#[derive(Debug, Clone, PartialEq, Eq)]
pub struct Candidate {
    pub id: String,
    pub accesskey: String,
    pub krctype: i64,
}

/// The KuGou provider; it takes no parameters.
pub struct Kugou;

impl Kugou {
    pub fn create(_params: &ProviderParams) -> (r: Kugou) {
        Kugou
    }

    pub fn supported_kinds(&self) -> (r: Vec<LyricsKind>)
        ensures
            r@ == seq![LyricsKind::Lrc, LyricsKind::Elrc],
    {
        let mut v: Vec<LyricsKind> = Vec::new();
        v.push(LyricsKind::Lrc);
        v.push(LyricsKind::Elrc);
        assert(v@ =~= seq![LyricsKind::Lrc, LyricsKind::Elrc]);
        v
    }
}

/// A song's duration, in seconds, is within the tolerance of the target.
pub open spec fn secs_match(secs: u64, target_ms: u64, tolerance_ms: u64) -> bool {
    let ms = secs * 1000;
    (if ms >= target_ms {
        ms - target_ms
    } else {
        target_ms - ms
    }) <= tolerance_ms
}

/// The first song whose duration is within the tolerance.
pub open spec fn matching_song(songs: Seq<SongInfo>, target_ms: u64, tolerance_ms: u64) -> Option<int>
    decreases songs.len(),
{
    if songs.len() == 0 {
        None
    } else if songs[0].duration matches Some(d) && secs_match(d, target_ms, tolerance_ms) {
        Some(0)
    } else {
        match matching_song(songs.drop_first(), target_ms, tolerance_ms) {
            Some(i) => Some(i + 1),
            None => None,
        }
    }
}

/// A KuGou duration is in whole seconds: a song is close to the track when
/// its duration, times a thousand, is within the tolerance of the track's
/// duration in milliseconds.
pub open spec fn close_in_ms(song: SongInfo, target_ms: u64, tolerance_ms: u64) -> bool {
    song.duration matches Some(d) && -(tolerance_ms as int) <= d * 1000 - target_ms <= tolerance_ms
}

/// The song matched is the first close one, and there is one exactly when
/// some song is close.
pub proof fn the_first_close_song_is_matched(songs: Seq<SongInfo>, target_ms: u64, tolerance_ms: u64)
    ensures
        match matching_song(songs, target_ms, tolerance_ms) {
            Some(i) => 0 <= i < songs.len() && close_in_ms(songs[i], target_ms, tolerance_ms)
                && forall|j: int| 0 <= j < i ==> !close_in_ms(#[trigger] songs[j], target_ms, tolerance_ms),
            None => forall|j: int| 0 <= j < songs.len() ==> !close_in_ms(#[trigger] songs[j], target_ms, tolerance_ms),
        },
    decreases songs.len(),
{
    if songs.len() > 0 {
        let t = songs.drop_first();
        the_first_close_song_is_matched(t, target_ms, tolerance_ms);
        assert forall|j: int| 0 < j < songs.len() implies #[trigger] songs[j] == t[j - 1] by {}
        if songs[0].duration matches Some(d) && secs_match(d, target_ms, tolerance_ms) {
        } else {
            assert(!close_in_ms(songs[0], target_ms, tolerance_ms));
            match matching_song(t, target_ms, tolerance_ms) {
                Some(i) => {
                    assert(songs[i + 1] == t[i]);
                    assert forall|j: int| 0 <= j < i + 1 implies !close_in_ms(#[trigger] songs[j], target_ms, tolerance_ms) by {
                        if j > 0 {
                            assert(songs[j] == t[j - 1]);
                        }
                    }
                },
                None => {
                    assert forall|j: int| 0 <= j < songs.len() implies !close_in_ms(#[trigger] songs[j], target_ms, tolerance_ms) by {
                        if j > 0 {
                            assert(songs[j] == t[j - 1]);
                        }
                    }
                },
            }
        }
    }
}

pub fn find_song(songs: &[SongInfo], target_ms: u64, tolerance_ms: u64) -> (r: Option<usize>)
    ensures
        match r {
            Some(i) => matching_song(songs@, target_ms, tolerance_ms) == Some(i as int),
            None => matching_song(songs@, target_ms, tolerance_ms) is None,
        },
{
    let ghost sv = songs@;
    assert(sv.skip(0) =~= sv);
    let mut i: usize = 0;
    while i < songs.len()
        invariant
            i <= songs@.len(),
            sv == songs@,
            matching_song(sv, target_ms, tolerance_ms) == match matching_song(sv.skip(i as int), target_ms, tolerance_ms) {
                Some(j) => Some(j + i),
                None => None,
            },
        decreases songs.len() - i,
    {
        proof {
            let t = sv.skip(i as int);
            assert(t[0] == sv[i as int]);
            assert(t.drop_first() =~= sv.skip(i + 1));
        }
        match songs[i].duration {
            Some(d) => {
                let ms: u128 = d as u128 * 1000;
                let diff: u128 = if ms >= target_ms as u128 {
                    ms - target_ms as u128
                } else {
                    target_ms as u128 - ms
                };
                if diff <= tolerance_ms as u128 {
                    return Some(i);
                }
            },
            None => {},
        }
        i = i + 1;
    }
    None
}

/// Whether KuGou marks the song as instrumental.
pub fn is_pure_music(song: &SongInfo) -> (r: bool)
    ensures
        r == (song.language matches Some(l) && l@ == PURE_MUSIC@),
{
    match &song.language {
        Some(l) => crate::format::lrc::seq_equal(chars_of(l.as_str()).as_slice(), chars_of(PURE_MUSIC).as_slice()),
        None => false,
    }
}

/// The lyrics search's first candidate, when the search succeeded.
pub fn first_candidate(status: u32, candidates: Vec<Candidate>) -> (r: Option<Candidate>)
    ensures
        status != 200 ==> r is None,
        status == 200 ==> (if candidates@.len() > 0 { r == Some(candidates@[0]) } else { r is None }),
{
    if status != 200 || candidates.len() == 0 {
        return None;
    }
    let mut c = candidates;
    Some(c.swap_remove(0))
}

fn text(s: &str) -> (r: String)
    ensures
        r@ == s@,
{
    string_of(chars_of(s).as_slice())
}

/// The search keyword: the title, a space, the first artist.
pub fn search_keyword(title: &str, first_artist: &str) -> (r: String)
    ensures
        r@ == title@ + " "@ + first_artist@,
{
    let mut out = chars_of(title);
    out.push(' ');
    push_all(&mut out, chars_of(first_artist).as_slice());
    proof {
        reveal_strlit(" ");
    }
    string_of(out.as_slice())
}

pub fn song_search_request(keyword: &str) -> (r: Http)
    ensures
        r.well_formed(),
        r@.base_url == SONG_SEARCH_URL@,
        r@.params == seq![
            ("format"@, "json"@),
            ("keyword"@, keyword@),
            ("page"@, "1"@),
            ("pagesize"@, "10"@),
            ("showtype"@, "1"@),
        ],
{
    let r = Http::get(text(SONG_SEARCH_URL)).param("format", text("json")).param("keyword", text(keyword)).param(
        "page",
        text("1"),
    ).param("pagesize", text("10")).param("showtype", text("1"));
    let r = r.browser();
    assert(r@.params =~= seq![
        ("format"@, "json"@),
        ("keyword"@, keyword@),
        ("page"@, "1"@),
        ("pagesize"@, "10"@),
        ("showtype"@, "1"@),
    ]);
    r
}

pub fn lyrics_search_request(hash: &str, duration: Option<u64>) -> (r: Http)
    ensures
        r.well_formed(),
        r@.base_url == LYRICS_SEARCH_URL@,
        r@.params == seq![
            ("ver"@, "1"@),
            ("man"@, "yes"@),
            ("client"@, "mobi"@),
            ("keyword"@, ""@),
            ("duration"@, crate::num::digits(match duration { Some(d) => d as nat, None => 0 })),
            ("hash"@, hash@),
            ("album_audio_id"@, ""@),
        ],
{
    let d = match duration {
        Some(d) => d,
        None => 0,
    };
    let r = Http::get(text(LYRICS_SEARCH_URL)).param("ver", text("1")).param("man", text("yes")).param(
        "client",
        text("mobi"),
    ).param("keyword", text("")).param("duration", string_of(crate::num::digits_of(d).as_slice())).param(
        "hash",
        text(hash),
    ).param("album_audio_id", text(""));
    let r = r.browser();
    assert(r@.params =~= seq![
        ("ver"@, "1"@),
        ("man"@, "yes"@),
        ("client"@, "mobi"@),
        ("keyword"@, ""@),
        ("duration"@, crate::num::digits(match duration { Some(d) => d as nat, None => 0 })),
        ("hash"@, hash@),
        ("album_audio_id"@, ""@),
    ]);
    r
}

pub fn download_request(id: &str, accesskey: &str, fmt: &str) -> (r: Http)
    ensures
        r.well_formed(),
        r@.base_url == DOWNLOAD_URL@,
        r@.params == seq![
            ("ver"@, "1"@),
            ("client"@, "pc"@),
            ("id"@, id@),
            ("accesskey"@, accesskey@),
            ("fmt"@, fmt@),
            ("charset"@, "utf8"@),
        ],
{
    let r = Http::get(text(DOWNLOAD_URL)).param("ver", text("1")).param("client", text("pc")).param(
        "id",
        text(id),
    ).param("accesskey", text(accesskey)).param("fmt", text(fmt)).param("charset", text("utf8"));
    let r = r.browser();
    assert(r@.params =~= seq![
        ("ver"@, "1"@),
        ("client"@, "pc"@),
        ("id"@, id@),
        ("accesskey"@, accesskey@),
        ("fmt"@, fmt@),
        ("charset"@, "utf8"@),
    ]);
    r
}

/// Calls `base64::engine::general_purpose::STANDARD.decode`. That engine
/// requires canonical padding and no trailing bits, so it accepts exactly
/// the texts that its encoder makes, and gives back the bytes encoded.
#[verifier::external_body]
fn decode_base64(s: &str) -> (r: Option<Vec<u8>>)
    ensures
        match r {
            Some(b) => base64_text(b@) == s@,
            None => forall|b: Seq<u8>| #[trigger] base64_text(b) != s@,
        },
{
    base64::Engine::decode(&base64::engine::general_purpose::STANDARD, s).ok()
}

/// The bytes of a download's content, which is standard base64.
pub fn download_bytes(content: &str) -> (r: Result<Vec<u8>, ProviderError>)
    ensures
        match r {
            Ok(b) => base64_text(b@) == content@,
            Err(e) => e is Other && forall|b: Seq<u8>| #[trigger] base64_text(b) != content@,
        },
{
    match decode_base64(content) {
        Some(b) => Ok(b),
        None => Err(ProviderError::other(text("failed to decode lyrics content"))),
    }
}

/// The downloads to try for the first `n` configured kinds, in order: `krc`
/// for enhanced LRC when the candidate has KRC lyrics, `lrc` for LRC.
pub open spec fn plan_of(order: Seq<LyricsKind>, has_krc: bool, n: int) -> Seq<Seq<char>>
    decreases n,
{
    if n <= 0 {
        seq![]
    } else {
        let prev = plan_of(order, has_krc, n - 1);
        match order[n - 1] {
            LyricsKind::Elrc => if has_krc {
                prev.push("krc"@)
            } else {
                prev
            },
            LyricsKind::Lrc => prev.push("lrc"@),
            _ => prev,
        }
    }
}

/// The formats to download for a candidate, in the order of the configured
/// kinds; the first download that gives lyrics ends the search.
pub fn download_plan(order: &[LyricsKind], candidate: &Candidate) -> (r: Vec<&'static str>)
    ensures
        r@.map_values(|f: &'static str| f@) == plan_of(order@, candidate.krctype != 0, order@.len() as int),
{
    let mut out: Vec<&'static str> = Vec::new();
    let mut i: usize = 0;
    while i < order.len()
        invariant
            i <= order@.len(),
            out@.map_values(|f: &'static str| f@) == plan_of(order@, candidate.krctype != 0, i as int),
        decreases order.len() - i,
    {
        let ghost before = out@;
        match order[i] {
            LyricsKind::Elrc => {
                if candidate.krctype != 0 {
                    out.push("krc");
                    assert(out@.map_values(|f: &'static str| f@) =~= before.map_values(|f: &'static str| f@).push("krc"@));
                }
            },
            LyricsKind::Lrc => {
                out.push("lrc");
                assert(out@.map_values(|f: &'static str| f@) =~= before.map_values(|f: &'static str| f@).push("lrc"@));
            },
            _ => {},
        }
        i = i + 1;
    }
    out
}

/// The enhanced LRC of a KRC download, when it decodes and is not blank.
pub fn krc_lyrics(bytes: &[u8]) -> (r: Option<Lyrics>)
    ensures
        match krc_text(bytes@) {
            Ok(t) => if krc_times_fit(t) && trim(krc_enhanced(t)).len() > 0 {
                r matches Some(l) && lyrics_kind(l) == LyricsKind::Elrc && lyrics_text(l) == Some(krc_enhanced(t))
            } else {
                r is None
            },
            Err(_) => r is None,
        },
{
    match to_enhanced_lrc(bytes) {
        Ok(elrc) => {
            if trim_vec(chars_of(elrc.as_str()).as_slice()).len() > 0 {
                Some(Lyrics::Elrc(elrc))
            } else {
                None
            }
        },
        Err(_) => None,
    }
}

/// The start of the error for an LRC download that is not UTF-8.
pub const NOT_UTF8_MESSAGE: &'static str = "lyrics content is not valid UTF-8";

/// What an LRC download comes to: an instrumental track when it says so,
/// its lyrics when they are not blank, an error when it is not UTF-8.
pub fn lrc_lyrics(bytes: Vec<u8>) -> (r: Result<Option<Lyrics>, ProviderError>)
    ensures
        !valid_utf8(bytes@) ==> (r matches Err(ProviderError::Other(m)) && m@ == NOT_UTF8_MESSAGE@
            + ": "@ + crate::cache::utf8_error_text(bytes@)),
        valid_utf8(bytes@) ==> ({
            let t = decode_utf8(bytes@);
            if crate::format::lrc::instrumental_spec(t) {
                r matches Ok(Some(l)) && l is Instrumental
            } else if trim(t).len() > 0 {
                r matches Ok(Some(l)) && lyrics_kind(l) == LyricsKind::Lrc && lyrics_text(l) == Some(t)
            } else {
                r matches Ok(None)
            }
        }),
{
    let ghost raw = bytes@;
    let lrc = match crate::cache::string_from_utf8(bytes) {
        Ok(s) => s,
        Err(detail) => {
            let mut m = chars_of(NOT_UTF8_MESSAGE);
            push_all(&mut m, chars_of(": ").as_slice());
            push_all(&mut m, chars_of(detail.as_str()).as_slice());
            proof {
                assert(m@ =~= NOT_UTF8_MESSAGE@ + ": "@ + crate::cache::utf8_error_text(raw));
            }
            return Err(ProviderError::other(string_of(m.as_slice())));
        },
    };
    if is_instrumental(lrc.as_str()) {
        return Ok(Some(Lyrics::Instrumental));
    }
    if trim_vec(chars_of(lrc.as_str()).as_slice()).len() > 0 {
        return Ok(Some(Lyrics::Lrc(lrc)));
    }
    Ok(None)
}

/// What a KRC download gives: its enhanced LRC, when it decodes, its times
/// fit and it is not blank.
pub open spec fn krc_pick(b: Seq<u8>) -> Option<Seq<char>> {
    match krc_text(b) {
        Ok(t) => if krc_times_fit(t) && trim(krc_enhanced(t)).len() > 0 {
            Some(krc_enhanced(t))
        } else {
            None
        },
        Err(_) => None,
    }
}

/// What an LRC download gives, or the error's message when it is not UTF-8.
pub open spec fn lrc_pick(b: Seq<u8>) -> Result<Option<(LyricsKind, Option<Seq<char>>)>, Seq<char>> {
    if !valid_utf8(b) {
        Err(NOT_UTF8_MESSAGE@ + ": "@ + crate::cache::utf8_error_text(b))
    } else {
        let t = decode_utf8(b);
        if crate::format::lrc::instrumental_spec(t) {
            Ok(Some((LyricsKind::Instrumental, None)))
        } else if trim(t).len() > 0 {
            Ok(Some((LyricsKind::Lrc, Some(t))))
        } else {
            Ok(None)
        }
    }
}

/// What the download of a format gives: `krc` as enhanced LRC (nothing when
/// it does not decode), any other as LRC.
pub open spec fn download_result(fmt: Seq<char>, b: Seq<u8>) -> Result<
    Option<(LyricsKind, Option<Seq<char>>)>,
    Seq<char>,
> {
    if fmt == "krc"@ {
        Ok(
            match krc_pick(b) {
                Some(t) => Some((LyricsKind::Elrc, Some(t))),
                None => None,
            },
        )
    } else {
        lrc_pick(b)
    }
}

/// A provider's answer as kinds, texts and error messages.
pub open spec fn answer_view(r: Result<Option<Lyrics>, ProviderError>) -> Result<
    Option<(LyricsKind, Option<Seq<char>>)>,
    Seq<char>,
> {
    match r {
        Ok(Some(l)) => Ok(Some((lyrics_kind(l), lyrics_text(l)))),
        Ok(None) => Ok(None),
        Err(ProviderError::Other(m)) => Err(m@),
        Err(_) => Err(seq![]),
    }
}

/// What a download of format `fmt` holding `bytes` comes to; the search
/// stops at the first download that gives lyrics or fails.
pub fn download_lyrics(fmt: &str, bytes: Vec<u8>) -> (r: Result<Option<Lyrics>, ProviderError>)
    ensures
        answer_view(r) == download_result(fmt@, bytes@),
        r is Err ==> r matches Err(ProviderError::Other(_)),
{
    proof {
        reveal_strlit("krc");
    }
    if crate::format::lrc::seq_equal(chars_of(fmt).as_slice(), chars_of("krc").as_slice()) {
        match krc_lyrics(bytes.as_slice()) {
            Some(l) => Ok(Some(l)),
            None => Ok(None),
        }
    } else {
        lrc_lyrics(bytes)
    }
}

} // verus!
