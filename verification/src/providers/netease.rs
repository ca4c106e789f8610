//! NetEase Cloud Music: the song search, the lyrics request and how its
//! answer becomes lyrics.
use vstd::prelude::*;
use crate::config::PluginConfig;
use crate::config::providers::ProviderParams;
use crate::ext::{TrackInfo, TrackInfoExt, durations_match};
use crate::format::lrc::{is_synced, synced_spec};
use crate::providers::http::{Http, set_header, USER_AGENT, BROWSER_USER_AGENT};
use crate::providers::yrc::{to_enhanced_lrc_checked, yrc_enhanced, yrc_times_fit};
use crate::text::{
    chars_of, join, join_exec, lead_ws, lines, lines_exec, push_all, string_of, trim,
    trim_bounds, trim_start, trim_vec, views,
};
use crate::types::{Lyrics, LyricsKind, lyrics_kind, lyrics_text};

verus! {

pub const SEARCH_URL: &'static str = "https://music.163.com/api/search/get";
pub const LYRICS_URL: &'static str = "https://music.163.com/api/song/lyric/v1";
pub const REFERER: &'static str = "https://music.163.com";

/// A song of the search's answer.
#[derive(Debug, Clone, PartialEq, Eq)]
pub struct Song {
    pub id: u64,
    pub duration_ms: Option<u64>,
}

/// A lyrics field of the answer.
#[derive(Debug, Clone, PartialEq, Eq)]
pub struct LyricContent {
    pub lyric: Option<String>,
}

/// The lyrics answer.
#[derive(Debug, Clone, PartialEq, Eq)]
pub struct LyricsResponse {
    pub lrc: Option<LyricContent>,
    pub yrc: Option<LyricContent>,
    pub pure_music: bool,
}

/// A lyrics field's text, trimmed, when it has any.
pub open spec fn content_text(content: Option<LyricContent>) -> Option<Seq<char>> {
    match content {
        Some(c) => match c.lyric {
            Some(s) => if trim(s@).len() > 0 {
                Some(trim(s@))
            } else {
                None
            },
            None => None,
        },
        None => None,
    }
}

impl LyricContent {
    pub fn text(content: &Option<LyricContent>) -> (r: Option<&str>)
        ensures
            match r {
                Some(t) => content_text(*content) == Some(t@),
                None => content_text(*content) is None,
            },
    {
        match content {
            Some(c) => match &c.lyric {
                Some(s) => {
                    let chars = chars_of(s.as_str());
                    let (a, b) = trim_bounds(chars.as_slice());
                    if a == b {
                        None
                    } else {
                        Some(s.as_str().substring_char(a, b))
                    }
                },
                None => None,
            },
            None => None,
        }
    }
}

pub open spec fn is_metadata_line(line: Seq<char>) -> bool {
    trim_start(line).len() > 0 && trim_start(line)[0] == '{'
}

pub open spec fn kept_lyric_lines(ls: Seq<Seq<char>>, n: int) -> Seq<Seq<char>>
    decreases n,
{
    if n <= 0 {
        seq![]
    } else if is_metadata_line(ls[n - 1]) {
        kept_lyric_lines(ls, n - 1)
    } else {
        kept_lyric_lines(ls, n - 1).push(ls[n - 1])
    }
}

/// The lyric without its JSON metadata lines.
pub open spec fn without_metadata(s: Seq<char>) -> Seq<char> {
    join(kept_lyric_lines(lines(s), lines(s).len() as int), "\n"@)
}

pub fn strip_metadata(lyric: &str) -> (r: String)
    ensures
        r@ == without_metadata(lyric@),
{
    let ls = lines_exec(chars_of(lyric).as_slice());
    let ghost lv = views(ls@);
    assert(lv =~= ls@.map_values(|l: Vec<char>| l@));
    let mut out: Vec<Vec<char>> = Vec::new();
    let mut i: usize = 0;
    while i < ls.len()
        invariant
            i <= ls@.len() == lv.len(),
            lv == views(ls@),
            views(out@) == kept_lyric_lines(lv, i as int),
        decreases ls.len() - i,
    {
        assert(lv[i as int] == ls@[i as int]@);
        let a = lead_ws(ls[i].as_slice(), 0);
        assert(ls@[i as int]@.skip(0) =~= ls@[i as int]@);
        if !(a < ls[i].len() && ls[i][a] == '{') {
            let ghost before = views(out@);
            out.push(crate::text::copy_range(ls[i].as_slice(), 0, ls[i].len()));
            assert(views(out@) =~= before.push(lv[i as int]));
        }
        i = i + 1;
    }
    string_of(join_exec(&out, chars_of("\n").as_slice()).as_slice())
}

/// The first song of the answer whose duration is within the tolerance.
pub open spec fn found_song(songs: Seq<Song>, target_ms: u64, tolerance_ms: u64) -> Option<int>
    decreases songs.len(),
{
    if songs.len() == 0 {
        None
    } else if songs[0].duration_ms matches Some(d) && durations_match(d, target_ms, tolerance_ms) {
        Some(0)
    } else {
        match found_song(songs.drop_first(), target_ms, tolerance_ms) {
            Some(i) => Some(i + 1),
            None => None,
        }
    }
}

pub fn find_song(songs: &[Song], target_ms: u64, tolerance_ms: u64) -> (r: Option<usize>)
    ensures
        match r {
            Some(i) => found_song(songs@, target_ms, tolerance_ms) == Some(i as int),
            None => found_song(songs@, target_ms, tolerance_ms) is None,
        },
{
    let ghost sv = songs@;
    assert(sv.skip(0) =~= sv);
    let mut i: usize = 0;
    while i < songs.len()
        invariant
            i <= songs@.len(),
            sv == songs@,
            found_song(sv, target_ms, tolerance_ms) == match found_song(sv.skip(i as int), target_ms, tolerance_ms) {
                Some(j) => Some(j + i),
                None => None,
            },
        decreases songs.len() - i,
    {
        proof {
            let t = sv.skip(i as int);
            assert(t[0] == sv[i as int]);
            assert(t.drop_first() =~= sv.skip(i + 1));
        }
        match songs[i].duration_ms {
            Some(d) => {
                let diff = if d >= target_ms {
                    d - target_ms
                } else {
                    target_ms - d
                };
                if diff <= tolerance_ms {
                    return Some(i);
                }
            },
            None => {},
        }
        i = i + 1;
    }
    None
}

/// The search text: the first artist, a space, and the title.
pub fn search_query(track: &TrackInfo) -> (r: String)
    requires
        track.artists@.len() > 0,
    ensures
        r@ == track.artists@[0].name@ + " "@ + track.title@,
{
    let mut out = chars_of(track.artists[0].name.as_str());
    out.push(' ');
    push_all(&mut out, chars_of(track.title.as_str()).as_slice());
    proof {
        reveal_strlit(" ");
    }
    string_of(out.as_slice())
}

/// A request as NetEase's web player sends it: a browser's user agent and
/// the site as referer.
fn as_web_player(request: Http) -> (r: Http)
    requires
        request.well_formed(),
    ensures
        r.well_formed(),
        r@.headers == set_header(
            set_header(request@.headers, "User-Agent"@, BROWSER_USER_AGENT@),
            "Referer"@,
            REFERER@,
        ),
        r@.method == request@.method && r@.base_url == request@.base_url && r@.params
            == request@.params && r@.body == request@.body,
{
    request.browser().header("Referer", string_of(chars_of(REFERER).as_slice()))
}

fn text(s: &str) -> (r: String)
    ensures
        r@ == s@,
{
    string_of(chars_of(s).as_slice())
}

/// The song search: the query as `s`, songs (`type` 1), five of them from
/// the first.
pub fn search_request(query: &str) -> (r: Http)
    ensures
        r.well_formed(),
        r@.method == "GET"@,
        r@.base_url == SEARCH_URL@,
        r@.params == seq![("s"@, query@), ("type"@, "1"@), ("limit"@, "5"@), ("offset"@, "0"@)],
{
    let r = Http::get(text(SEARCH_URL)).param("s", text(query)).param("type", text("1")).param(
        "limit",
        text("5"),
    ).param("offset", text("0"));
    let r = as_web_player(r);
    assert(r@.params =~= seq![("s"@, query@), ("type"@, "1"@), ("limit"@, "5"@), ("offset"@, "0"@)]);
    r
}

/// The lyrics request of a song: LRC and word-timed YRC lyrics.
pub fn lyrics_request(song_id: u64) -> (r: Http)
    ensures
        r.well_formed(),
        r@.method == "GET"@,
        r@.base_url == LYRICS_URL@,
        r@.params == seq![
            ("id"@, crate::num::digits(song_id as nat)),
            ("lv"@, "-1"@),
            ("kv"@, "-1"@),
            ("tv"@, "-1"@),
            ("yv"@, "1"@),
        ],
{
    let id = string_of(crate::num::digits_of(song_id).as_slice());
    let r = Http::get(text(LYRICS_URL)).param("id", id).param("lv", text("-1")).param(
        "kv",
        text("-1"),
    ).param("tv", text("-1")).param("yv", text("1"));
    let r = as_web_player(r);
    assert(r@.params =~= seq![
        ("id"@, crate::num::digits(song_id as nat)),
        ("lv"@, "-1"@),
        ("kv"@, "-1"@),
        ("tv"@, "-1"@),
        ("yv"@, "1"@),
    ]);
    r
}

/// The NetEase provider; it takes no parameters.
pub struct NetEase;

impl NetEase {
    pub fn create(_params: &ProviderParams) -> (r: NetEase) {
        NetEase
    }

    /// LRC and enhanced LRC; the plain lyrics NetEase sometimes puts in its
    /// LRC field are a fault on its side and not offered.
    pub fn supported_kinds(&self) -> (r: Vec<LyricsKind>)
        ensures
            r@ == seq![LyricsKind::Lrc, LyricsKind::Elrc],
    {
        let mut v: Vec<LyricsKind> = Vec::new();
        v.push(LyricsKind::Lrc);
        v.push(LyricsKind::Elrc);
        assert(v@ =~= seq![LyricsKind::Lrc, LyricsKind::Elrc]);
        v
    }
}

/// The lyrics an answer gives for the first `n` kinds of the order.
pub open spec fn netease_pick(a: LyricsResponse, order: Seq<LyricsKind>, n: int) -> Option<
    (LyricsKind, Seq<char>),
>
    decreases n,
{
    if n <= 0 {
        None
    } else {
        let prev = netease_pick(a, order, n - 1);
        if prev is Some {
            prev
        } else {
            let lrc = match content_text(a.lrc) {
                Some(t) => Some(without_metadata(t)),
                None => None,
            };
            match order[n - 1] {
                LyricsKind::Elrc => match content_text(a.yrc) {
                    Some(raw) => if yrc_times_fit(raw) && trim(yrc_enhanced(raw)).len() > 0 {
                        Some((LyricsKind::Elrc, yrc_enhanced(raw)))
                    } else {
                        None
                    },
                    None => None,
                },
                LyricsKind::Lrc => match lrc {
                    Some(t) => if synced_spec(t) {
                        Some((LyricsKind::Lrc, t))
                    } else {
                        None
                    },
                    None => None,
                },
                LyricsKind::Plain => match lrc {
                    Some(t) => if !synced_spec(t) {
                        Some((LyricsKind::Plain, t))
                    } else {
                        None
                    },
                    None => None,
                },
                _ => None,
            }
        }
    }
}

pub proof fn lemma_netease_pick_stable(a: LyricsResponse, order: Seq<LyricsKind>, i: int, n: int)
    requires
        0 <= i <= n,
        netease_pick(a, order, i) is Some,
    ensures
        netease_pick(a, order, n) == netease_pick(a, order, i),
    decreases n - i,
{
    if n > i {
        lemma_netease_pick_stable(a, order, i, n - 1);
    }
}

proof fn lemma_split_pieces_no_newline(s: Seq<char>)
    ensures
        forall|k: int, j: int|
            0 <= k < crate::text::split_char(s, '\n').len() && 0 <= j < crate::text::split_char(
                s,
                '\n',
            )[k].len() ==> #[trigger] crate::text::split_char(s, '\n')[k][j] != '\n',
    decreases s.len(),
{
    crate::text::lemma_index_of(s, '\n');
    let sp = crate::text::split_char(s, '\n');
    match crate::text::index_of(s, '\n') {
        None => {},
        Some(i) => {
            lemma_split_pieces_no_newline(s.skip(i + 1));
            let rest = crate::text::split_char(s.skip(i + 1), '\n');
            assert forall|k: int, j: int| 0 <= k < sp.len() && 0 <= j < sp[k].len() implies #[trigger] sp[k][j] != '\n' by {
                if k > 0 {
                    assert(sp[k] == rest[k - 1]);
                }
            }
        },
    }
}

/// Each line of a text is a `\n`-separated piece of it, or that piece
/// without a final carriage return.
proof fn lemma_lines_are_pieces(s: Seq<char>)
    ensures
        lines(s).len() <= crate::text::split_char(s, '\n').len(),
        forall|k: int|
            0 <= k < lines(s).len() ==> #[trigger] lines(s)[k] == crate::text::split_char(s, '\n')[k]
                || lines(s)[k] == crate::text::strip_cr(crate::text::split_char(s, '\n')[k]),
    decreases s.len(),
{
    let sp = crate::text::split_char(s, '\n');
    if s.len() > 0 {
        match crate::text::index_of(s, '\n') {
            None => {},
            Some(i) => {
                crate::text::lemma_index_of(s, '\n');
                lemma_lines_are_pieces(s.skip(i + 1));
                let rest = lines(s.skip(i + 1));
                assert forall|k: int| 0 <= k < lines(s).len() implies #[trigger] lines(s)[k] == sp[k]
                    || lines(s)[k] == crate::text::strip_cr(sp[k]) by {
                    if k > 0 {
                        assert(lines(s)[k] == rest[k - 1]);
                        assert(sp[k] == crate::text::split_char(s.skip(i + 1), '\n')[k - 1]);
                    }
                }
            },
        }
    }
}

proof fn lemma_split_concat(x: Seq<char>, y: Seq<char>)
    ensures
        crate::text::split_char(x + seq!['\n'] + y, '\n') == crate::text::split_char(x, '\n')
            + crate::text::split_char(y, '\n'),
    decreases x.len(),
{
    let c = x + seq!['\n'] + y;
    crate::text::lemma_index_of(x, '\n');
    match crate::text::index_of(x, '\n') {
        None => {
            assert forall|j: int| 0 <= j < x.len() implies #[trigger] c[j] != '\n' by {
                assert(c[j] == x[j]);
            }
            assert(c[x.len() as int] == '\n');
            crate::text::lemma_index_of_unique(c, '\n', x.len() as int);
            assert(c.take(x.len() as int) =~= x);
            assert(c.skip(x.len() as int + 1) =~= y);
        },
        Some(i) => {
            assert forall|j: int| 0 <= j < i implies #[trigger] c[j] != '\n' by {
                assert(c[j] == x[j]);
            }
            assert(c[i] == x[i]);
            crate::text::lemma_index_of_unique(c, '\n', i);
            assert(c.take(i) =~= x.take(i));
            assert(c.skip(i + 1) =~= x.skip(i + 1) + seq!['\n'] + y);
            lemma_split_concat(x.skip(i + 1), y);
            assert(seq![x.take(i)] + (crate::text::split_char(x.skip(i + 1), '\n')
                + crate::text::split_char(y, '\n')) =~= seq![x.take(i)] + crate::text::split_char(
                x.skip(i + 1),
                '\n',
            ) + crate::text::split_char(y, '\n'));
        },
    }
}

proof fn lemma_split_join(ls: Seq<Seq<char>>)
    requires
        ls.len() > 0,
        forall|k: int, j: int| 0 <= k < ls.len() && 0 <= j < ls[k].len() ==> #[trigger] ls[k][j] != '\n',
    ensures
        crate::text::split_char(join(ls, "\n"@), '\n') == ls,
    decreases ls.len(),
{
    reveal_strlit("\n");
    assert("\n"@ =~= seq!['\n']);
    let last = ls.last();
    crate::text::lemma_index_of(last, '\n');
    if let Some(i) = crate::text::index_of(last, '\n') {
        assert(ls[ls.len() - 1][i] != '\n');
    }
    if ls.len() > 1 {
        let p = ls.drop_last();
        assert forall|k: int, j: int| 0 <= k < p.len() && 0 <= j < p[k].len() implies #[trigger] p[k][j] != '\n' by {
            assert(p[k] == ls[k]);
        }
        lemma_split_join(p);
        lemma_split_concat(join(p, "\n"@), last);
        assert(p + seq![last] =~= ls);
    }
}

proof fn lemma_meta_ignores_cr(y: Seq<char>)
    ensures
        is_metadata_line(crate::text::strip_cr(y)) ==> is_metadata_line(y),
{
    let z = crate::text::strip_cr(y);
    if is_metadata_line(z) && z != y {
        assert(y =~= z.push('\r'));
        crate::text::lemma_lead_bound(z, crate::text::ws_pred());
        let a = crate::text::lead(z, crate::text::ws_pred());
        assert(a < z.len());
        assert(z.skip(a as int)[0] == z[a as int]);
        assert forall|j: int| 0 <= j < a implies crate::text::ws_pred()(#[trigger] y[j]) by {
            assert(y[j] == z[j]);
        }
        assert(y[a as int] == z[a as int]);
        crate::text::lemma_lead_unique(y, crate::text::ws_pred(), a as int);
        assert(y.skip(a as int)[0] == y[a as int]);
    }
}

proof fn lemma_kept_lines(ls: Seq<Seq<char>>, n: int)
    requires
        0 <= n <= ls.len(),
    ensures
        forall|k: int|
            0 <= k < kept_lyric_lines(ls, n).len() ==> !is_metadata_line(#[trigger] kept_lyric_lines(ls, n)[k])
                && exists|m: int| 0 <= m < n && ls[m] == kept_lyric_lines(ls, n)[k],
    decreases n,
{
    if n > 0 {
        lemma_kept_lines(ls, n - 1);
        let prev = kept_lyric_lines(ls, n - 1);
        if !is_metadata_line(ls[n - 1]) {
            assert forall|k: int| 0 <= k < kept_lyric_lines(ls, n).len() implies !is_metadata_line(
                #[trigger] kept_lyric_lines(ls, n)[k],
            ) && exists|m: int| 0 <= m < n && ls[m] == kept_lyric_lines(ls, n)[k] by {
                if k < prev.len() {
                    assert(kept_lyric_lines(ls, n)[k] == prev[k]);
                } else {
                    assert(ls[n - 1] == kept_lyric_lines(ls, n)[k]);
                }
            }
        }
    }
}

/// No line of the text opens (after whitespace) with `{`.
pub open spec fn no_metadata_text(t: Seq<char>) -> bool {
    forall|k: int| 0 <= k < lines(t).len() ==> !(crate::text::trim_start(#[trigger] lines(t)[k]).len() > 0
        && crate::text::trim_start(lines(t)[k])[0] == '{')
}

/// Text with its JSON metadata lines removed has none left: no line of it
/// opens (after whitespace) with `{`.
pub proof fn metadata_lines_are_gone(s: Seq<char>)
    ensures
        no_metadata_text(without_metadata(s)),
{
    let ls = lines(s);
    let kept = kept_lyric_lines(ls, ls.len() as int);
    let t = without_metadata(s);
    lemma_kept_lines(ls, ls.len() as int);
    lemma_lines_are_pieces(s);
    lemma_split_pieces_no_newline(s);
    lemma_lines_are_pieces(t);
    if kept.len() > 0 {
        assert forall|k: int, j: int| 0 <= k < kept.len() && 0 <= j < kept[k].len() implies #[trigger] kept[k][j] != '\n' by {
            let m = choose|m: int| 0 <= m < ls.len() && ls[m] == kept[k];
            let sp = crate::text::split_char(s, '\n');
            if ls[m] == sp[m] {
                assert(sp[m][j] != '\n');
            } else {
                assert(ls[m] == crate::text::strip_cr(sp[m]));
                assert(ls[m][j] == sp[m][j]);
                assert(sp[m][j] != '\n');
            }
        }
        lemma_split_join(kept);
        assert forall|k: int| 0 <= k < lines(t).len() implies !(crate::text::trim_start(
            #[trigger] lines(t)[k],
        ).len() > 0 && crate::text::trim_start(lines(t)[k])[0] == '{') by {
            assert(!is_metadata_line(kept[k]));
            lemma_meta_ignores_cr(kept[k]);
        }
    } else {
        assert(t == Seq::<char>::empty());
        assert(lines(t).len() == 0);
    }
}

/// The LRC or plain lyrics picked from a NetEase answer hold no JSON
/// metadata line: no line of them opens (after whitespace) with `{`.
pub proof fn picked_lyrics_hold_no_metadata(a: LyricsResponse, order: Seq<LyricsKind>, n: int)
    requires
        0 <= n <= order.len(),
    ensures
        netease_pick(a, order, n) is Some && ((netease_pick(a, order, n)->0).0 == LyricsKind::Lrc
            || (netease_pick(a, order, n)->0).0 == LyricsKind::Plain) ==> no_metadata_text(
            (netease_pick(a, order, n)->0).1,
        ),
    decreases n,
{
    if n > 0 {
        picked_lyrics_hold_no_metadata(a, order, n - 1);
        if let Some(c) = content_text(a.lrc) {
            metadata_lines_are_gone(c);
        }
    }
}

/// LRC is picked only when the lyrics are synced and plain lyrics only when
/// they are not; enhanced LRC comes only from word-timed (YRC) lyrics.
pub proof fn picked_kinds_match_the_timing(a: LyricsResponse, order: Seq<LyricsKind>, n: int)
    requires
        0 <= n <= order.len(),
    ensures
        netease_pick(a, order, n) is Some && (netease_pick(a, order, n)->0).0 == LyricsKind::Lrc
            ==> synced_spec((netease_pick(a, order, n)->0).1),
        netease_pick(a, order, n) is Some && (netease_pick(a, order, n)->0).0 == LyricsKind::Plain
            ==> !synced_spec((netease_pick(a, order, n)->0).1),
        netease_pick(a, order, n) is Some && (netease_pick(a, order, n)->0).0 == LyricsKind::Elrc
            ==> content_text(a.yrc) is Some,
    decreases n,
{
    if n > 0 {
        picked_kinds_match_the_timing(a, order, n - 1);
    }
}

/// The lyrics an answer gives: an instrumental track as such, else the
/// first configured kind it holds.
pub fn pick_lyrics(a: &LyricsResponse, cfg: &PluginConfig) -> (r: Option<Lyrics>)
    ensures
        a.pure_music ==> (r matches Some(l) && l is Instrumental),
        !a.pure_music ==> match netease_pick(*a, cfg.lyrics_type_priority@, cfg.lyrics_type_priority@.len() as int) {
            Some((k, t)) => (r matches Some(l) && lyrics_kind(l) == k && lyrics_text(l) == Some(t)),
            None => r is None,
        },
{
    if a.pure_music {
        return Some(Lyrics::Instrumental);
    }
    let lrc: Option<String> = match LyricContent::text(&a.lrc) {
        Some(t) => Some(strip_metadata(t)),
        None => None,
    };
    let order = &cfg.lyrics_type_priority;
    let mut i: usize = 0;
    while i < order.len()
        invariant
            i <= order@.len(),
            order@ == cfg.lyrics_type_priority@,
            !a.pure_music,
            match lrc {
                Some(t) => content_text(a.lrc) matches Some(c) && t@ == without_metadata(c),
                None => content_text(a.lrc) is None,
            },
            netease_pick(*a, order@, i as int) is None,
        decreases order.len() - i,
    {
        match order[i] {
            LyricsKind::Elrc => {
                match LyricContent::text(&a.yrc) {
                    Some(raw) => {
                        match to_enhanced_lrc_checked(raw) {
                            Some(elrc) => {
                                if trim_vec(chars_of(elrc.as_str()).as_slice()).len() > 0 {
                                    proof {
                                        assert(netease_pick(*a, order@, i + 1) == Some((LyricsKind::Elrc, elrc@)));
                                        lemma_netease_pick_stable(*a, order@, i + 1, order@.len() as int);
                                    }
                                    return Some(Lyrics::Elrc(elrc));
                                }
                            },
                            None => {},
                        }
                    },
                    None => {},
                }
            },
            LyricsKind::Lrc => {
                match &lrc {
                    Some(t) => {
                        if is_synced(t.as_str()) {
                            let out = text(t.as_str());
                            proof {
                                assert(netease_pick(*a, order@, i + 1) == Some((LyricsKind::Lrc, t@)));
                                lemma_netease_pick_stable(*a, order@, i + 1, order@.len() as int);
                            }
                            return Some(Lyrics::Lrc(out));
                        }
                    },
                    None => {},
                }
            },
            LyricsKind::Plain => {
                match &lrc {
                    Some(t) => {
                        if !is_synced(t.as_str()) {
                            let out = text(t.as_str());
                            proof {
                                assert(netease_pick(*a, order@, i + 1) == Some((LyricsKind::Plain, t@)));
                                lemma_netease_pick_stable(*a, order@, i + 1, order@.len() as int);
                            }
                            return Some(Lyrics::Plain(out));
                        }
                    },
                    None => {},
                }
            },
            _ => {},
        }
        i = i + 1;
    }
    None
}

} // verus!
