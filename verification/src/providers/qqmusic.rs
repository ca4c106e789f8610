//! The QQ Music provider, as the QQ Music Lite Android client speaks to its
//! gateway: the client identity and request parameters, the search id, the
//! reading of search results and response codes, and the choice of lyrics.
use vstd::prelude::*;
use vstd::utf8::encode_utf8;
use crate::config::providers::ProviderParams;
use crate::format::lrc::{instrumental_spec, is_instrumental};
use crate::num::{digits, digits_of};
use crate::providers::error::ProviderError;
use crate::providers::kugou::secs_match;
use crate::text::{chars_of, join, join_exec, push_all, string_of, trim, trim_vec, views};
use crate::types::{Lyrics, LyricsKind, lyrics_kind, lyrics_text};

verus! {

/// The gateway every request goes to.
pub const ENDPOINT: &'static str = "https://u.y.qq.com/cgi-bin/musicu.fcg";

/// The user agent of the client this provider speaks as.
pub const CLIENT_USER_AGENT: &'static str = "okhttp/3.14.9";

pub const SEARCH_MODULE: &'static str = "music.search.SearchCgiService";

pub const SEARCH_METHOD: &'static str = "DoSearchForQQMusicLite";

pub const LYRIC_MODULE: &'static str = "music.musichallSong.PlayLyricInfo";

pub const LYRIC_METHOD: &'static str = "GetPlayLyricInfo";

/// The client identity sent with every request: `ct` 11 with the
/// `qqmusiclight` app id marks the Android Lite client.
#[derive(Debug, Clone, PartialEq, Eq)]
pub struct Common {
    pub ct: u32,
    pub cv: &'static str,
    pub v: &'static str,
    pub os_ver: &'static str,
    pub phonetype: &'static str,
    pub rom: &'static str,
    pub tme_app_id: &'static str,
    pub nettype: &'static str,
    pub udid: &'static str,
}

impl Common {
    pub fn new() -> (r: Common)
        ensures
            r.ct == 11,
            r.cv@ == "1003006"@,
            r.v@ == "1003006"@,
            r.os_ver@ == "15"@,
            r.phonetype@ == "24122RKC7C"@,
            r.rom@ == "Redmi/miro/miro:15/AE3A.240806.005/OS2.0.105.0.VOMCNXM:user/release-keys"@,
            r.tme_app_id@ == "qqmusiclight"@,
            r.nettype@ == "NETWORK_WIFI"@,
            r.udid@ == "0"@,
    {
        Common {
            ct: 11,
            cv: "1003006",
            v: "1003006",
            os_ver: "15",
            phonetype: "24122RKC7C",
            rom: "Redmi/miro/miro:15/AE3A.240806.005/OS2.0.105.0.VOMCNXM:user/release-keys",
            tme_app_id: "qqmusiclight",
            nettype: "NETWORK_WIFI",
            udid: "0",
        }
    }
}

/// The parameters of a song search.
#[derive(Debug, Clone, PartialEq, Eq)]
pub struct SearchParam {
    pub search_id: String,
    pub remoteplace: &'static str,
    pub query: String,
    pub search_type: u32,
    pub num_per_page: u32,
    pub page_num: u32,
    pub highlight: u32,
    pub nqc_flag: u32,
    pub page_id: u32,
    pub grp: u32,
}

/// The parameters of a lyrics request: the song id, cross-checked against
/// its base64-encoded title, artist and album and its duration in seconds.
#[derive(Debug, Clone, PartialEq, Eq)]
pub struct LyricParam {
    pub album_name: String,
    pub crypt: u32,
    pub ct: u32,
    pub cv: u32,
    pub interval: u64,
    pub lrc_t: u32,
    pub qrc: u32,
    pub qrc_t: u32,
    pub roma: u32,
    pub roma_t: u32,
    pub singer_name: String,
    pub song_id: u64,
    pub song_name: String,
    pub trans: u32,
    pub trans_t: u32,
    pub type_: u32,
}

/// A song of a search result, as far as the lyrics request needs it.
#[derive(Debug, Clone, PartialEq, Eq)]
pub struct Song {
    pub id: u64,
    pub title: String,
    pub artist: String,
    pub album: String,
    pub interval_secs: u64,
}

/// A search result item as the response writes it: each field when it is
/// there with the right type; a singer's name when it is a string.
#[derive(Debug, Clone, PartialEq, Eq)]
pub struct SongItem {
    pub id: Option<u64>,
    pub title: Option<String>,
    pub singers: Option<Vec<Option<String>>>,
    pub album_name: Option<String>,
    pub interval: Option<u64>,
}

pub struct QQMusic;

impl QQMusic {
    pub fn create(_params: &ProviderParams) -> (r: QQMusic) {
        QQMusic
    }

    pub fn supported_kinds(&self) -> (r: Vec<LyricsKind>)
        ensures
            r@ == seq![LyricsKind::Lrc, LyricsKind::Elrc],
    {
        let mut v: Vec<LyricsKind> = Vec::new();
        v.push(LyricsKind::Lrc);
        v.push(LyricsKind::Elrc);
        assert(v@ =~= seq![LyricsKind::Lrc, LyricsKind::Elrc]);
        v
    }
}

// ---------------------------------------------------------------------------
// Base64
/// A base64 digit of the standard alphabet.
pub open spec fn b64_digit(v: int) -> char {
    if v < 26 {
        (65 + v) as char
    } else if v < 52 {
        (97 + v - 26) as char
    } else if v < 62 {
        (48 + v - 52) as char
    } else if v == 62 {
        '+'
    } else {
        '/'
    }
}

/// Standard base64 with padding: each three bytes become four digits, and a
/// last one or two bytes become two or three digits and `=` up to four.
pub open spec fn base64_text(b: Seq<u8>) -> Seq<char>
    decreases b.len(),
{
    if b.len() == 0 {
        seq![]
    } else {
        let x = b[0] as int;
        let y = if b.len() > 1 { b[1] as int } else { 0 };
        let z = if b.len() > 2 { b[2] as int } else { 0 };
        if b.len() == 1 {
            seq![b64_digit(x / 4), b64_digit((x % 4) * 16), '=', '=']
        } else if b.len() == 2 {
            seq![b64_digit(x / 4), b64_digit((x % 4) * 16 + y / 16), b64_digit((y % 16) * 4), '=']
        } else {
            seq![
                b64_digit(x / 4),
                b64_digit((x % 4) * 16 + y / 16),
                b64_digit((y % 16) * 4 + z / 64),
                b64_digit(z % 64),
            ] + base64_text(b.skip(3))
        }
    }
}

/// Calls `base64::engine::general_purpose::STANDARD.encode`, which writes
/// bytes in the standard alphabet with padding, as `base64_text` states.
#[verifier::external_body]
fn encode_base64(bytes: &[u8]) -> (r: String)
    ensures
        r@ == base64_text(bytes@),
{
    base64::Engine::encode(&base64::engine::general_purpose::STANDARD, bytes)
}

// ---------------------------------------------------------------------------
// Requests
/// The search query: the title, a space, the first artist.
pub fn search_query(title: &str, first_artist: &str) -> (r: String)
    ensures
        r@ == title@ + " "@ + first_artist@,
{
    let mut out = chars_of(title);
    out.push(' ');
    push_all(&mut out, chars_of(first_artist).as_slice());
    proof {
        reveal_strlit(" ");
    }
    string_of(out.as_slice())
}

/// The parameters of a search for `query`: the first page of five songs.
pub fn search_param(search_id: String, query: String) -> (r: SearchParam)
    ensures
        r.search_id == search_id,
        r.query == query,
        r.remoteplace@ == "search.android.keyboard"@,
        r.search_type == 0 && r.num_per_page == 5 && r.page_num == 1 && r.highlight == 0,
        r.nqc_flag == 0 && r.page_id == 1 && r.grp == 1,
{
    SearchParam {
        search_id,
        remoteplace: "search.android.keyboard",
        query,
        search_type: 0,
        num_per_page: 5,
        page_num: 1,
        highlight: 0,
        nqc_flag: 0,
        page_id: 1,
        grp: 1,
    }
}

/// The parameters of the lyrics request for `song`: QRC lyrics, encrypted,
/// without translation or romanization.
pub fn lyric_param(song: &Song) -> (r: LyricParam)
    ensures
        r.album_name@ == base64_text(encode_utf8(song.album@)),
        r.singer_name@ == base64_text(encode_utf8(song.artist@)),
        r.song_name@ == base64_text(encode_utf8(song.title@)),
        r.song_id == song.id,
        r.interval == song.interval_secs,
        r.crypt == 1 && r.ct == 19 && r.cv == 2111 && r.qrc == 1,
        r.lrc_t == 0 && r.qrc_t == 0 && r.roma == 0 && r.roma_t == 0,
        r.trans == 0 && r.trans_t == 0 && r.type_ == 0,
{
    LyricParam {
        album_name: encode_base64(song.album.as_str().as_bytes()),
        crypt: 1,
        ct: 19,
        cv: 2111,
        interval: song.interval_secs,
        lrc_t: 0,
        qrc: 1,
        qrc_t: 0,
        roma: 0,
        roma_t: 0,
        singer_name: encode_base64(song.artist.as_str().as_bytes()),
        song_id: song.id,
        song_name: encode_base64(song.title.as_str().as_bytes()),
        trans: 0,
        trans_t: 0,
        type_: 0,
    }
}

/// The search id a random number gives: a prefix from 1 to 20 times 2^54,
/// plus 22 bits of it times 2^32, plus a part below 86,400,000.
pub open spec fn search_id_value(rnd: u64) -> nat {
    let prefix = (rnd % 20) + 1;
    let middle = (rnd / 256) % 4_194_304;
    let low = (rnd / 4_294_967_296) % 86_400_000;
    (prefix * 18_014_398_509_481_984 + middle * 4_294_967_296 + low) as nat
}

/// The search id of a random number, in decimal.
pub fn search_id_from(rnd: u64) -> (r: String)
    ensures
        r@ == digits(search_id_value(rnd)),
{
    let prefix = (rnd % 20) + 1;
    let middle = (rnd >> 8) % 4_194_304;
    let low = (rnd >> 32) % 86_400_000;
    assert(rnd >> 8 == rnd / 256) by (bit_vector);
    assert(rnd >> 32 == rnd / 4_294_967_296) by (bit_vector);
    let v = prefix * 18_014_398_509_481_984 + middle * 4_294_967_296 + low;
    string_of(digits_of(v).as_slice())
}

/// Calls `getrandom::fill` for eight bytes and reads them as a
/// little-endian number; `None` when the system has no randomness to give.
/// Nothing is claimed of the number.
#[verifier::external_body]
fn random_u64() -> (r: Option<u64>) {
    let mut bytes = [0u8; 8];
    match getrandom::fill(&mut bytes) {
        Ok(()) => Some(u64::from_le_bytes(bytes)),
        Err(_) => None,
    }
}

/// The number a search id is made from when no randomness is to be had.
pub const FALLBACK_RANDOM: u64 = 0x1234_5678_9abc_def0;

/// A fresh search id: the id of a random number, or of a fixed one when the
/// system gives no randomness.
pub fn random_search_id() -> (r: String)
    ensures
        exists|rnd: u64| r@ == digits(#[trigger] search_id_value(rnd)),
{
    let rnd = match random_u64() {
        Some(v) => v,
        None => FALLBACK_RANDOM,
    };
    let r = search_id_from(rnd);
    assert(r@ == digits(search_id_value(rnd)));
    r
}

// ---------------------------------------------------------------------------
// Responses
pub open spec fn named(singers: Seq<Option<String>>) -> Seq<Seq<char>>
    decreases singers.len(),
{
    if singers.len() == 0 {
        seq![]
    } else {
        let prev = named(singers.drop_last());
        match singers.last() {
            Some(n) => if n@.len() > 0 {
                prev.push(n@)
            } else {
                prev
            },
            None => prev,
        }
    }
}

/// The singers' names of an item: the non-empty ones, joined by `/`.
pub open spec fn artist_of(item: SongItem) -> Seq<char> {
    match item.singers {
        Some(s) => join(named(s@), "/"@),
        None => seq![],
    }
}

/// The song a search item describes, or none when it has no id.
pub fn parse_song(item: &SongItem) -> (r: Option<Song>)
    ensures
        match r {
            Some(s) => item.id == Some(s.id) && s.artist@ == artist_of(*item) && s.title@ == (
            match &item.title {
                Some(t) => t@,
                None => seq![],
            }) && s.album@ == (match &item.album_name {
                Some(a) => a@,
                None => seq![],
            }) && s.interval_secs == (match item.interval {
                Some(i) => i,
                None => 0,
            }),
            None => item.id is None,
        },
{
    let id = match item.id {
        Some(id) => id,
        None => return None,
    };
    let artist = match &item.singers {
        Some(singers) => {
            let mut names: Vec<Vec<char>> = Vec::new();
            let mut i: usize = 0;
            while i < singers.len()
                invariant
                    i <= singers@.len(),
                    views(names@) == named(singers@.take(i as int)),
                decreases singers.len() - i,
            {
                assert(singers@.take(i + 1).drop_last() =~= singers@.take(i as int));
                match &singers[i] {
                    Some(n) => {
                        if n.as_str().unicode_len() > 0 {
                            let ghost before = views(names@);
                            let c = chars_of(n.as_str());
                            names.push(c);
                            assert(views(names@) =~= before.push(c@));
                        }
                    },
                    None => {},
                }
                i = i + 1;
            }
            assert(singers@.take(singers@.len() as int) =~= singers@);
            proof {
                reveal_strlit("/");
            }
            string_of(join_exec(&names, chars_of("/").as_slice()).as_slice())
        },
        None => string_of(Vec::new().as_slice()),
    };
    let title = match &item.title {
        Some(t) => string_of(chars_of(t.as_str()).as_slice()),
        None => string_of(Vec::new().as_slice()),
    };
    let album = match &item.album_name {
        Some(a) => string_of(chars_of(a.as_str()).as_slice()),
        None => string_of(Vec::new().as_slice()),
    };
    let interval_secs = match item.interval {
        Some(i) => i,
        None => 0,
    };
    Some(Song { id, title, artist, album, interval_secs })
}

/// The first item whose duration is within the tolerance of the track's.
pub open spec fn matching_item(items: Seq<SongItem>, target_ms: u64, tolerance_ms: u64) -> Option<
    int,
>
    decreases items.len(),
{
    if items.len() == 0 {
        None
    } else if items[0].interval matches Some(d) && secs_match(d, target_ms, tolerance_ms) {
        Some(0)
    } else {
        match matching_item(items.drop_first(), target_ms, tolerance_ms) {
            Some(i) => Some(i + 1),
            None => None,
        }
    }
}

/// The song of the first item whose duration is within the tolerance; none
/// when no item matches, or the one that does has no id.
pub fn find_song(items: &[SongItem], target_ms: u64, tolerance_ms: u64) -> (r: Option<Song>)
    ensures
        match matching_item(items@, target_ms, tolerance_ms) {
            None => r is None,
            Some(i) => 0 <= i < items@.len() && match r {
                Some(s) => items@[i].id == Some(s.id) && s.artist@ == artist_of(items@[i]),
                None => items@[i].id is None,
            },
        },
{
    let ghost sv = items@;
    assert(sv.skip(0) =~= sv);
    let mut i: usize = 0;
    while i < items.len()
        invariant
            i <= items@.len(),
            sv == items@,
            matching_item(sv, target_ms, tolerance_ms) == match matching_item(
                sv.skip(i as int),
                target_ms,
                tolerance_ms,
            ) {
                Some(j) => Some(j + i),
                None => None,
            },
        decreases items.len() - i,
    {
        proof {
            let t = sv.skip(i as int);
            assert(t[0] == sv[i as int]);
            assert(t.drop_first() =~= sv.skip(i + 1));
        }
        match items[i].interval {
            Some(d) => {
                let ms: u128 = d as u128 * 1000;
                let diff: u128 = if ms >= target_ms as u128 {
                    ms - target_ms as u128
                } else {
                    target_ms as u128 - ms
                };
                if diff <= tolerance_ms as u128 {
                    return parse_song(&items[i]);
                }
            },
            None => {},
        }
        i = i + 1;
    }
    None
}

/// The error a gateway code stands for, at a level (`gateway` or `module`)
/// of the answer to `module.method`: none for 0.
pub open spec fn code_error(code: Option<i64>, call: Seq<char>, level: Seq<char>) -> Option<
    Seq<char>,
> {
    match code {
        Some(0) => None,
        Some(2001) => Some(
            call + " rejected the client identity ("@ + level
                + " error code 2001), the 'comm' block or request headers are stale"@,
        ),
        Some(c) => Some(call + " returned "@ + level + " error code "@ + crate::num::decimal(
            c as int,
        )),
        None => Some(call + " response missing "@ + level + " 'code' field"@),
    }
}

/// Checks a code of the gateway's answer to `module.method`: 0 passes; 2001
/// says the client identity is stale; any other code, or none, fails.
pub fn check_code(code: Option<i64>, module: &str, method: &str, level: &str) -> (r: Result<
    (),
    ProviderError,
>)
    ensures
        match code_error(code, module@ + "."@ + method@, level@) {
            None => r is Ok,
            Some(m) => r matches Err(ProviderError::Other(msg)) && msg@ == m,
        },
{
    let mut call = chars_of(module);
    call.push('.');
    push_all(&mut call, chars_of(method).as_slice());
    proof {
        reveal_strlit(".");
        assert(call@ =~= module@ + "."@ + method@);
    }
    let lv = chars_of(level);
    let mut out = call;
    match code {
        Some(0) => return Ok(()),
        Some(2001) => {
            push_all(&mut out, chars_of(" rejected the client identity (").as_slice());
            push_all(&mut out, lv.as_slice());
            push_all(
                &mut out,
                chars_of(" error code 2001), the 'comm' block or request headers are stale").as_slice(),
            );
        },
        Some(c) => {
            push_all(&mut out, chars_of(" returned ").as_slice());
            push_all(&mut out, lv.as_slice());
            push_all(&mut out, chars_of(" error code ").as_slice());
            push_all(&mut out, crate::num::decimal_exec(c).as_slice());
        },
        None => {
            push_all(&mut out, chars_of(" response missing ").as_slice());
            push_all(&mut out, lv.as_slice());
            push_all(&mut out, chars_of(" 'code' field").as_slice());
        },
    }
    Err(ProviderError::other(string_of(out.as_slice())))
}

// ---------------------------------------------------------------------------
// Lyrics
/// The lyrics the lyric content gives under the first `n` kinds of the
/// order: enhanced LRC from QRC content, or LRC (the content itself when it
/// is not QRC), whichever comes first and is not blank. `qrc` holds the
/// enhanced LRC and LRC renderings of QRC content.
pub open spec fn qq_pick(content: Seq<char>, qrc: Option<(Seq<char>, Seq<char>)>, order: Seq<
    LyricsKind,
>, n: int) -> Option<(LyricsKind, Seq<char>)>
    decreases n,
{
    if n <= 0 {
        None
    } else {
        let prev = qq_pick(content, qrc, order, n - 1);
        if prev is Some {
            prev
        } else {
            match order[n - 1] {
                LyricsKind::Elrc => match qrc {
                    Some((e, _)) => if trim(e).len() > 0 {
                        Some((LyricsKind::Elrc, e))
                    } else {
                        None
                    },
                    None => None,
                },
                LyricsKind::Lrc => {
                    let t = match qrc {
                        Some((_, l)) => l,
                        None => content,
                    };
                    if trim(t).len() > 0 {
                        Some((LyricsKind::Lrc, t))
                    } else {
                        None
                    }
                },
                _ => None,
            }
        }
    }
}

pub proof fn lemma_qq_pick_stable(
    content: Seq<char>,
    qrc: Option<(Seq<char>, Seq<char>)>,
    order: Seq<LyricsKind>,
    i: int,
    n: int,
)
    requires
        0 <= i <= n,
        qq_pick(content, qrc, order, i) is Some,
    ensures
        qq_pick(content, qrc, order, n) == qq_pick(content, qrc, order, i),
    decreases n - i,
{
    if n > i {
        lemma_qq_pick_stable(content, qrc, order, i, n - 1);
    }
}

pub open spec fn qrc_views(qrc: Option<(String, String)>) -> Option<(Seq<char>, Seq<char>)> {
    match qrc {
        Some((e, l)) => Some((e@, l@)),
        None => None,
    }
}

/// The lyrics of a song's lyric content: plain LRC content that says it is
/// an instrumental gives instrumental lyrics; otherwise the first kind of
/// the order it can give. `qrc` holds the enhanced LRC and LRC renderings of
/// the content when it is QRC.
pub fn pick_lyrics(order: &[LyricsKind], content: &str, qrc: Option<(String, String)>) -> (r:
    Option<Lyrics>)
    ensures
        (qrc is None && instrumental_spec(content@)) ==> (r matches Some(l) && l is Instrumental),
        !(qrc is None && instrumental_spec(content@)) ==> match qq_pick(
            content@,
            qrc_views(qrc),
            order@,
            order@.len() as int,
        ) {
            Some((k, t)) => (r matches Some(l) && lyrics_kind(l) == k && lyrics_text(l) == Some(t)),
            None => r is None,
        },
{
    if qrc.is_none() && is_instrumental(content) {
        return Some(Lyrics::Instrumental);
    }
    let ghost q = qrc_views(qrc);
    let mut i: usize = 0;
    while i < order.len()
        invariant
            i <= order@.len(),
            q == qrc_views(qrc),
            !(qrc is None && instrumental_spec(content@)),
            qq_pick(content@, q, order@, i as int) is None,
        decreases order.len() - i,
    {
        match order[i] {
            LyricsKind::Elrc => {
                match &qrc {
                    Some((e, _)) => {
                        if trim_vec(chars_of(e.as_str()).as_slice()).len() > 0 {
                            proof {
                                assert(qq_pick(content@, q, order@, i + 1) == Some((LyricsKind::Elrc, e@)));
                                lemma_qq_pick_stable(content@, q, order@, i + 1, order@.len() as int);
                            }
                            return Some(Lyrics::Elrc(string_of(chars_of(e.as_str()).as_slice())));
                        }
                    },
                    None => {},
                }
            },
            LyricsKind::Lrc => {
                let t: &str = match &qrc {
                    Some((_, l)) => l.as_str(),
                    None => content,
                };
                if trim_vec(chars_of(t).as_slice()).len() > 0 {
                    proof {
                        assert(qq_pick(content@, q, order@, i + 1) == Some((LyricsKind::Lrc, t@)));
                        lemma_qq_pick_stable(content@, q, order@, i + 1, order@.len() as int);
                    }
                    return Some(Lyrics::Lrc(string_of(chars_of(t).as_slice())));
                }
            },
            _ => {},
        }
        i = i + 1;
    }
    None
}

} // verus!
