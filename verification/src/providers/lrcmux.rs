//! The lrcmux aggregator: its parameters, its query, and how its timed lines
//! become enhanced LRC, LRC or plain lyrics.
use vstd::prelude::*;
use crate::config::PluginConfig;
use crate::config::providers::ProviderParams;
use crate::format::elrc::{Word as TimedWord, WordV, render_line, rendered, word_view, words_view};
use crate::format::lrc::{format_timestamp, timestamp};
use crate::text::{chars_of, join, join_exec, push_all, split_char, split_char_exec, string_of, trim, trim_vec, views};
use crate::types::{Lyrics, LyricsKind, lyrics_kind, lyrics_text};
use crate::ext::TrackInfo;
use crate::providers::error::ProviderError;
use crate::providers::http::Http;
use crate::num::{decimal, decimal_exec, digits, digits_of};

verus! {

pub const DEFAULT_BASE_URL: &'static str = "https://api.lrcmux.dev";

/// The sources lrcmux knows.
pub open spec fn known_sources() -> Seq<Seq<char>> {
    seq!["genius"@, "kugou"@, "musixmatch"@, "netease"@, "ytmusic"@]
}

pub fn known_source(i: usize) -> (r: &'static str)
    requires
        i < 5,
    ensures
        r@ == known_sources()[i as int],
{
    match i {
        0 => "genius",
        1 => "kugou",
        2 => "musixmatch",
        3 => "netease",
        _ => "ytmusic",
    }
}

/// The non-empty trimmed names among the first `n` comma-separated parts.
pub open spec fn picked_sources(parts: Seq<Seq<char>>, n: int) -> Seq<Seq<char>>
    decreases n,
{
    if n <= 0 {
        seq![]
    } else {
        let prev = picked_sources(parts, n - 1);
        if trim(parts[n - 1]).len() > 0 {
            prev.push(trim(parts[n - 1]))
        } else {
            prev
        }
    }
}

/// The `sources` parameter lrcmux is sent: the picked sources, unless none
/// is picked or every known source is.
pub open spec fn restricted(configured: Option<Seq<char>>) -> Option<Seq<char>> {
    match configured {
        None => None,
        Some(c) => {
            let parts = split_char(c, ',');
            let picked = picked_sources(parts, parts.len() as int);
            if picked.len() == 0 || forall|i: int| 0 <= i < 5 ==> picked.contains(
                #[trigger] known_sources()[i],
            ) {
                None
            } else {
                Some(join(picked, ","@))
            }
        },
    }
}

fn contains_text(v: &Vec<Vec<char>>, t: &str) -> (r: bool)
    ensures
        r == views(v@).contains(t@),
{
    let tc = chars_of(t);
    let mut i: usize = 0;
    while i < v.len()
        invariant
            i <= v@.len(),
            tc@ == t@,
            forall|j: int| 0 <= j < i ==> v@[j]@ != t@,
        decreases v.len() - i,
    {
        if crate::format::lrc::seq_equal(v[i].as_slice(), tc.as_slice()) {
            assert(views(v@)[i as int] == t@);
            return true;
        }
        i = i + 1;
    }
    assert(!views(v@).contains(t@)) by {
        if views(v@).contains(t@) {
            let q = choose|q: int| 0 <= q < views(v@).len() && views(v@)[q] == t@;
            assert(v@[q]@ == t@);
        }
    }
    false
}

pub fn restrict_sources(configured: Option<&str>) -> (r: Option<String>)
    ensures
        match r {
            Some(s) => restricted(
                match configured {
                    Some(c) => Some(c@),
                    None => None,
                },
            ) == Some(s@),
            None => restricted(
                match configured {
                    Some(c) => Some(c@),
                    None => None,
                },
            ) is None,
        },
{
    let c = match configured {
        Some(c) => c,
        None => return None,
    };
    let parts = split_char_exec(chars_of(c).as_slice(), ',');
    let ghost pv = views(parts@);
    let mut picked: Vec<Vec<char>> = Vec::new();
    let mut i: usize = 0;
    while i < parts.len()
        invariant
            i <= parts@.len(),
            pv == views(parts@),
            pv.len() == parts@.len(),
            views(picked@) == picked_sources(pv, i as int),
        decreases parts.len() - i,
    {
        assert(pv[i as int] == parts@[i as int]@);
        let t = trim_vec(parts[i].as_slice());
        if t.len() > 0 {
            let ghost before = views(picked@);
            picked.push(t);
            assert(views(picked@) =~= before.push(trim(pv[i as int])));
        }
        i = i + 1;
    }
    if picked.len() == 0 {
        return None;
    }
    let mut all = true;
    let mut k: usize = 0;
    while k < 5
        invariant
            k <= 5,
            all == forall|j: int| 0 <= j < k ==> views(picked@).contains(#[trigger] known_sources()[j]),
        decreases 5 - k,
    {
        if !contains_text(&picked, known_source(k)) {
            all = false;
        }
        k = k + 1;
    }
    if all {
        return None;
    }
    Some(string_of(join_exec(&picked, chars_of(",").as_slice()).as_slice()))
}

/// The lrcmux provider as configured.
pub struct LrcMux {
    pub base_url: String,
    pub sources: Option<String>,
}

impl LrcMux {
    pub fn create(params: &ProviderParams) -> (r: LrcMux)
        ensures
            r.base_url@ == match params.view_get("baseUrl"@) {
                Some(v) => v,
                None => DEFAULT_BASE_URL@,
            },
            match r.sources {
                Some(s) => restricted(params.view_get("sources"@)) == Some(s@),
                None => restricted(params.view_get("sources"@)) is None,
            },
    {
        let base_url = match params.get("baseUrl") {
            Some(v) => string_of(chars_of(v).as_slice()),
            None => string_of(chars_of(DEFAULT_BASE_URL).as_slice()),
        };
        LrcMux { base_url, sources: restrict_sources(params.get("sources")) }
    }

    /// The kinds of lyrics lrcmux serves.
    pub fn supported_kinds(&self) -> (r: Vec<LyricsKind>)
        ensures
            r@ == seq![LyricsKind::Elrc, LyricsKind::Lrc, LyricsKind::Plain],
    {
        let mut v: Vec<LyricsKind> = Vec::new();
        v.push(LyricsKind::Elrc);
        v.push(LyricsKind::Lrc);
        v.push(LyricsKind::Plain);
        assert(v@ =~= seq![LyricsKind::Elrc, LyricsKind::Lrc, LyricsKind::Plain]);
        v
    }

    /// The parameters shown in the logs.
    pub fn log_params(&self) -> (r: Vec<(&'static str, String)>)
        ensures
            r@.len() == if self.sources is Some { 2int } else { 1int },
            r@[0].0@ == "baseUrl"@ && r@[0].1@ == self.base_url@,
            self.sources matches Some(s) ==> r@[1].0@ == "sources"@ && r@[1].1@ == s@,
    {
        let mut v: Vec<(&'static str, String)> = Vec::new();
        v.push(("baseUrl", string_of(chars_of(self.base_url.as_str()).as_slice())));
        match &self.sources {
            Some(s) => {
                v.push(("sources", string_of(chars_of(s.as_str()).as_slice())));
            },
            None => {},
        }
        v
    }
}

/// A track's duration in whole seconds, rounded to the nearest.
pub open spec fn rounded_secs(ms: u64) -> nat {
    ((ms + 500) / 1000) as nat
}

impl LrcMux {
    /// The lookup of a track: `GET <base>/get` with its first artist, title,
    /// album and duration in whole seconds, and the sources when they are
    /// restricted; an error when the track has no artist.
    pub fn get_request(&self, track: &TrackInfo) -> (r: Result<Http, ProviderError>)
        ensures
            track.artists@.len() == 0 ==> (r matches Err(ProviderError::Other(m)) && m@
                == "missing artist"@),
            track.artists@.len() > 0 ==> (r matches Ok(h) && h.well_formed() && h@.method == "GET"@
                && h@.base_url == self.base_url@ + "/get"@ && h@.params == seq![
                ("artist"@, track.artists@[0].name@),
                ("title"@, track.title@),
                ("album"@, track.album@),
                ("duration"@, digits(rounded_secs(track.duration_ms))),
            ] + match self.sources {
                Some(src) => seq![("sources"@, src@)],
                None => seq![],
            }),
    {
        if track.artists.len() == 0 {
            return Err(ProviderError::other(string_of(chars_of("missing artist").as_slice())));
        }
        let artist = string_of(chars_of(track.artists[0].name.as_str()).as_slice());
        let secs: u64 = track.duration_ms / 1000 + if track.duration_ms % 1000 >= 500 {
            1u64
        } else {
            0u64
        };
        assert(secs == (track.duration_ms + 500) / 1000);
        let mut url = chars_of(self.base_url.as_str());
        push_all(&mut url, chars_of("/get").as_slice());
        let r = Http::get(string_of(url.as_slice())).param("artist", artist).param(
            "title",
            string_of(chars_of(track.title.as_str()).as_slice()),
        ).param("album", string_of(chars_of(track.album.as_str()).as_slice())).param(
            "duration",
            string_of(digits_of(secs).as_slice()),
        );
        match &self.sources {
            Some(src) => {
                let r2 = r.param("sources", string_of(chars_of(src.as_str()).as_slice()));
                assert(r2@.params =~= seq![
                    ("artist"@, track.artists@[0].name@),
                    ("title"@, track.title@),
                    ("album"@, track.album@),
                    ("duration"@, digits(rounded_secs(track.duration_ms))),
                ] + seq![("sources"@, src@)]);
                Ok(r2)
            },
            None => {
                assert(r@.params =~= seq![
                    ("artist"@, track.artists@[0].name@),
                    ("title"@, track.title@),
                    ("album"@, track.album@),
                    ("duration"@, digits(rounded_secs(track.duration_ms))),
                ] + Seq::<(Seq<char>, Seq<char>)>::empty());
                Ok(r)
            },
        }
    }
}

/// What a status of the lookup means: 200 an answer to read, 404 no lyrics,
/// any other an error.
pub fn read_status(status: i32) -> (r: Result<bool, ProviderError>)
    ensures
        status == 200 ==> r == Ok::<bool, ProviderError>(true),
        status == 404 ==> r == Ok::<bool, ProviderError>(false),
        status != 200 && status != 404 ==> (r matches Err(ProviderError::Other(m)) && m@
            == "lrcmux: returned unexpected status "@ + decimal(status as int)),
{
    if status == 200 {
        Ok(true)
    } else if status == 404 {
        Ok(false)
    } else {
        let mut out = chars_of("lrcmux: returned unexpected status ");
        push_all(&mut out, decimal_exec(status as i64).as_slice());
        Err(ProviderError::other(string_of(out.as_slice())))
    }
}

/// How finely lrcmux timed the lines it answered with.
#[derive(Debug, Clone, Copy, PartialEq, Eq, Structural)]
pub enum SyncLevel {
    Word,
    Line,
    /// Not timed at all (`none` in the answer).
    Unsynced,
}

/// A timed word of an answer; the end may be missing.
#[derive(Debug, Clone)]
pub struct Word {
    pub text: String,
    pub start: i64,
    pub end: Option<i64>,
}

/// A line of an answer.
#[derive(Debug, Clone)]
pub struct Line {
    pub text: String,
    pub start: Option<i64>,
    pub end: Option<i64>,
    pub words: Option<Vec<Word>>,
}

/// What lrcmux answered.
#[derive(Debug, Clone)]
pub struct MuxAnswer {
    pub level: SyncLevel,
    pub instrumental: bool,
    pub lines: Vec<Line>,
}

/// A word's end: its own, else the next word's start, else the line's end,
/// else its start.
pub open spec fn word_end(line_end: Option<i64>, ws: Seq<Word>, i: int) -> i64 {
    match ws[i].end {
        Some(e) => e,
        None => if i + 1 < ws.len() {
            ws[i + 1].start
        } else {
            match line_end {
                Some(e) => e,
                None => ws[i].start,
            }
        },
    }
}

pub open spec fn timed_words_of(line_end: Option<i64>, ws: Seq<Word>) -> Seq<WordV> {
    Seq::new(ws.len(), |i: int| (ws[i].text@, ws[i].start as int, word_end(line_end, ws, i) as int))
}

pub fn timed_words(line: &Line, words: &[Word]) -> (r: Vec<TimedWord>)
    ensures
        words_view(r@) == timed_words_of(line.end, words@),
{
    let mut out: Vec<TimedWord> = Vec::new();
    let mut i: usize = 0;
    while i < words.len()
        invariant
            i <= words@.len(),
            words_view(out@) == timed_words_of(line.end, words@).take(i as int),
        decreases words.len() - i,
    {
        let w = &words[i];
        let end = match w.end {
            Some(e) => e,
            None => if i + 1 < words.len() {
                words[i + 1].start
            } else {
                match line.end {
                    Some(e) => e,
                    None => w.start,
                }
            },
        };
        let tw = TimedWord::new(w.text.as_str(), w.start, end);
        let ghost before = out@;
        out.push(tw);
        assert(words_view(out@) =~= words_view(before).push(word_view(tw)));
        assert(timed_words_of(line.end, words@).take(i + 1) =~= timed_words_of(line.end, words@).take(
            i as int,
        ).push(word_view(tw)));
        i = i + 1;
    }
    assert(timed_words_of(line.end, words@).take(words@.len() as int) =~= timed_words_of(
        line.end,
        words@,
    ));
    out
}

/// The rendered lines among the first `n` that have a start and words.
pub open spec fn elrc_lines(ls: Seq<Line>, n: int) -> Seq<Seq<char>>
    decreases n,
{
    if n <= 0 {
        seq![]
    } else {
        let prev = elrc_lines(ls, n - 1);
        let l = ls[n - 1];
        match (l.start, l.words) {
            (Some(s), Some(ws)) => match rendered(s as int, timed_words_of(l.end, ws@)) {
                Some(r) => prev.push(r),
                None => prev,
            },
            _ => prev,
        }
    }
}

pub fn build_elrc(lines: &[Line]) -> (r: String)
    ensures
        r@ == join(elrc_lines(lines@, lines@.len() as int), "\n"@),
{
    let mut out: Vec<Vec<char>> = Vec::new();
    let mut i: usize = 0;
    while i < lines.len()
        invariant
            i <= lines@.len(),
            views(out@) == elrc_lines(lines@, i as int),
        decreases lines.len() - i,
    {
        let l = &lines[i];
        match (l.start, &l.words) {
            (Some(s), Some(ws)) => {
                let tw = timed_words(l, ws.as_slice());
                match render_line(s, tw.as_slice()) {
                    Some(r) => {
                        let ghost before = views(out@);
                        out.push(chars_of(r.as_str()));
                        assert(views(out@) =~= before.push(r@));
                    },
                    None => {},
                }
            },
            _ => {},
        }
        i = i + 1;
    }
    string_of(join_exec(&out, chars_of("\n").as_slice()).as_slice())
}

/// The lines among the first `n` that have a start, as `[mm:ss.cc] text`.
pub open spec fn lrc_lines(ls: Seq<Line>, n: int) -> Seq<Seq<char>>
    decreases n,
{
    if n <= 0 {
        seq![]
    } else {
        let prev = lrc_lines(ls, n - 1);
        match ls[n - 1].start {
            Some(s) => prev.push(
                "["@ + timestamp(if s < 0 { 0 } else { s as nat }) + "] "@ + ls[n - 1].text@,
            ),
            None => prev,
        }
    }
}

pub fn build_lrc(lines: &[Line]) -> (r: String)
    ensures
        r@ == join(lrc_lines(lines@, lines@.len() as int), "\n"@),
{
    let mut out: Vec<Vec<char>> = Vec::new();
    let mut i: usize = 0;
    while i < lines.len()
        invariant
            i <= lines@.len(),
            views(out@) == lrc_lines(lines@, i as int),
        decreases lines.len() - i,
    {
        let l = &lines[i];
        match l.start {
            Some(s) => {
                let mut t = chars_of("[");
                push_all(&mut t, chars_of(format_timestamp(s).as_str()).as_slice());
                push_all(&mut t, chars_of("] ").as_slice());
                push_all(&mut t, chars_of(l.text.as_str()).as_slice());
                let ghost before = views(out@);
                out.push(t);
                assert(views(out@) =~= before.push(t@));
            },
            None => {},
        }
        i = i + 1;
    }
    string_of(join_exec(&out, chars_of("\n").as_slice()).as_slice())
}

pub open spec fn plain_of(ls: Seq<Line>) -> Seq<char> {
    join(ls.map_values(|l: Line| l.text@), "\n"@)
}

fn build_plain(lines: &[Line]) -> (r: String)
    ensures
        r@ == plain_of(lines@),
{
    let mut out: Vec<Vec<char>> = Vec::new();
    let mut i: usize = 0;
    while i < lines.len()
        invariant
            i <= lines@.len(),
            views(out@) == lines@.map_values(|l: Line| l.text@).take(i as int),
        decreases lines.len() - i,
    {
        let ghost before = views(out@);
        out.push(chars_of(lines[i].text.as_str()));
        assert(views(out@) =~= before.push(lines@[i as int].text@));
        assert(lines@.map_values(|l: Line| l.text@).take(i + 1) =~= before.push(
            lines@[i as int].text@,
        ));
        i = i + 1;
    }
    assert(lines@.map_values(|l: Line| l.text@).take(lines@.len() as int) =~= lines@.map_values(
        |l: Line| l.text@,
    ));
    string_of(join_exec(&out, chars_of("\n").as_slice()).as_slice())
}

/// The lyrics an answer gives for the first `n` kinds of the configured
/// order: the first kind the answer can give, skipping kinds its timing
/// cannot give and timed kinds that come out empty.
pub open spec fn picked(a: MuxAnswer, order: Seq<LyricsKind>, n: int) -> Option<(LyricsKind, Seq<char>)>
    decreases n,
{
    if n <= 0 {
        None
    } else {
        let prev = picked(a, order, n - 1);
        if prev is Some {
            prev
        } else {
            match order[n - 1] {
                LyricsKind::Elrc => {
                    let t = join(elrc_lines(a.lines@, a.lines@.len() as int), "\n"@);
                    if a.level == SyncLevel::Word && t.len() > 0 {
                        Some((LyricsKind::Elrc, t))
                    } else {
                        None
                    }
                },
                LyricsKind::Lrc => {
                    let t = join(lrc_lines(a.lines@, a.lines@.len() as int), "\n"@);
                    if a.level != SyncLevel::Unsynced && t.len() > 0 {
                        Some((LyricsKind::Lrc, t))
                    } else {
                        None
                    }
                },
                LyricsKind::Plain => Some((LyricsKind::Plain, plain_of(a.lines@))),
                _ => None,
            }
        }
    }
}

pub proof fn lemma_picked_stable(a: MuxAnswer, order: Seq<LyricsKind>, i: int, n: int)
    requires
        0 <= i <= n,
        picked(a, order, i) is Some,
    ensures
        picked(a, order, n) == picked(a, order, i),
    decreases n - i,
{
    if n > i {
        lemma_picked_stable(a, order, i, n - 1);
    }
}

proof fn lemma_lrc_lines_shape(ls: Seq<Line>, n: int)
    requires
        0 <= n <= ls.len(),
    ensures
        forall|j: int| 0 <= j < lrc_lines(ls, n).len() ==> (#[trigger] lrc_lines(ls, n)[j]).len() > 0
            && lrc_lines(ls, n)[j][0] == '[',
        (exists|k: int| 0 <= k < n && (#[trigger] ls[k]).start is Some) ==> lrc_lines(ls, n).len() > 0,
    decreases n,
{
    reveal_strlit("[");
    if n > 0 {
        lemma_lrc_lines_shape(ls, n - 1);
        let prev = lrc_lines(ls, n - 1);
        if let Some(st) = ls[n - 1].start {
            let e = "["@ + timestamp(if st < 0 { 0 } else { st as nat }) + "] "@ + ls[n - 1].text@;
            assert(e[0] == '[');
            assert forall|j: int| 0 <= j < lrc_lines(ls, n).len() implies (#[trigger] lrc_lines(ls, n)[j]).len() > 0
                && lrc_lines(ls, n)[j][0] == '[' by {
                if j < prev.len() {
                    assert(lrc_lines(ls, n)[j] == prev[j]);
                }
            }
        } else {
            if exists|k: int| 0 <= k < n && (#[trigger] ls[k]).start is Some {
                let k = choose|k: int| 0 <= k < n && (#[trigger] ls[k]).start is Some;
                assert(k < n - 1);
            }
        }
    }
}

proof fn lemma_join_head(ls: Seq<Seq<char>>, sep: Seq<char>)
    requires
        ls.len() > 0,
        ls[0].len() > 0,
    ensures
        join(ls, sep).len() > 0,
        join(ls, sep)[0] == ls[0][0],
    decreases ls.len(),
{
    if ls.len() > 1 {
        lemma_join_head(ls.drop_last(), sep);
        let j = join(ls.drop_last(), sep);
        assert((j + sep + ls.last())[0] == j[0]);
    }
}

proof fn lemma_picked_before_lrc(a: MuxAnswer, order: Seq<LyricsKind>, n: int)
    requires
        0 <= n <= order.len(),
        forall|j: int| 0 <= j < n ==> #[trigger] order[j] != LyricsKind::Plain && order[j] != LyricsKind::Elrc,
    ensures
        picked(a, order, n) is None || picked(a, order, n) == Some(
            (LyricsKind::Lrc, join(lrc_lines(a.lines@, a.lines@.len() as int), "\n"@)),
        ),
    decreases n,
{
    if n > 0 {
        lemma_picked_before_lrc(a, order, n - 1);
    }
}

/// An answer timed by line or by word gives LRC: when LRC comes before
/// plain and enhanced LRC in the configured order and some line of the
/// answer has a start time, the lyrics picked are LRC, made of time-tagged
/// lines.
pub proof fn timed_answers_give_lrc(a: MuxAnswer, order: Seq<LyricsKind>, i: int)
    requires
        a.level != SyncLevel::Unsynced,
        exists|k: int| 0 <= k < a.lines@.len() && (#[trigger] a.lines@[k]).start is Some,
        0 <= i < order.len(),
        order[i] == LyricsKind::Lrc,
        forall|j: int| 0 <= j < i ==> #[trigger] order[j] != LyricsKind::Plain && order[j] != LyricsKind::Elrc,
    ensures
        picked(a, order, order.len() as int) matches Some((k, t)) && k == LyricsKind::Lrc && t.len()
            > 0 && t[0] == '[',
{
    let ls = a.lines@;
    lemma_lrc_lines_shape(ls, ls.len() as int);
    let l = lrc_lines(ls, ls.len() as int);
    assert(l[0].len() > 0 && l[0][0] == '[');
    lemma_join_head(l, "\n"@);
    lemma_picked_before_lrc(a, order, i);
    assert(picked(a, order, i + 1) == Some((LyricsKind::Lrc, join(l, "\n"@))));
    lemma_picked_stable(a, order, i + 1, order.len() as int);
}

/// Enhanced LRC comes only from an answer timed word by word, LRC never
/// from an untimed one, and an answer always has plain lyrics to give when
/// the configuration asks for them.
pub proof fn lyrics_kinds_follow_the_timing(a: MuxAnswer, order: Seq<LyricsKind>, n: int)
    requires
        0 <= n <= order.len(),
    ensures
        picked(a, order, n) is Some && (picked(a, order, n)->0).0 == LyricsKind::Elrc ==> a.level
            == SyncLevel::Word,
        picked(a, order, n) is Some && (picked(a, order, n)->0).0 == LyricsKind::Lrc ==> a.level
            != SyncLevel::Unsynced,
        (exists|j: int| 0 <= j < n && #[trigger] order[j] == LyricsKind::Plain) ==> picked(a, order, n) is Some,
    decreases n,
{
    if n > 0 {
        lyrics_kinds_follow_the_timing(a, order, n - 1);
        if exists|j: int| 0 <= j < n && #[trigger] order[j] == LyricsKind::Plain {
            let j = choose|j: int| 0 <= j < n && #[trigger] order[j] == LyricsKind::Plain;
            if j < n - 1 {
                assert(exists|j2: int| 0 <= j2 < n - 1 && #[trigger] order[j2] == LyricsKind::Plain);
            }
        }
    }
}

/// The lyrics an answer gives: an instrumental track as such, else the
/// first configured kind it can give.
pub fn pick_lyrics(a: &MuxAnswer, cfg: &PluginConfig) -> (r: Option<Lyrics>)
    ensures
        a.instrumental ==> (r matches Some(l) && l is Instrumental),
        !a.instrumental ==> match picked(*a, cfg.lyrics_type_priority@, cfg.lyrics_type_priority@.len() as int) {
            Some((k, t)) => (r matches Some(l) && lyrics_kind(l) == k && lyrics_text(l) == Some(t)),
            None => r is None,
        },
{
    if a.instrumental {
        return Some(Lyrics::Instrumental);
    }
    let order = &cfg.lyrics_type_priority;
    let mut i: usize = 0;
    while i < order.len()
        invariant
            i <= order@.len(),
            order@ == cfg.lyrics_type_priority@,
            !a.instrumental,
            picked(*a, order@, i as int) is None,
        decreases order.len() - i,
    {
        match order[i] {
            LyricsKind::Elrc => {
                if a.level == SyncLevel::Word {
                    let t = build_elrc(a.lines.as_slice());
                    if chars_of(t.as_str()).len() > 0 {
                        proof {
                            assert(order@[i as int] == LyricsKind::Elrc);
                            assert(picked(*a, order@, i + 1) == Some((LyricsKind::Elrc, t@)));
                            lemma_picked_stable(*a, order@, i + 1, order@.len() as int);
                        }
                        return Some(Lyrics::Elrc(t));
                    }
                }
            },
            LyricsKind::Lrc => {
                if a.level != SyncLevel::Unsynced {
                    let t = build_lrc(a.lines.as_slice());
                    if chars_of(t.as_str()).len() > 0 {
                        proof {
                            assert(order@[i as int] == LyricsKind::Lrc);
                            assert(picked(*a, order@, i + 1) == Some((LyricsKind::Lrc, t@)));
                            lemma_picked_stable(*a, order@, i + 1, order@.len() as int);
                        }
                        return Some(Lyrics::Lrc(t));
                    }
                }
            },
            LyricsKind::Plain => {
                let p = build_plain(a.lines.as_slice());
                proof {
                    assert(order@[i as int] == LyricsKind::Plain);
                    assert(picked(*a, order@, i + 1) == Some((LyricsKind::Plain, plain_of(a.lines@))));
                    lemma_picked_stable(*a, order@, i + 1, order@.len() as int);
                }
                return Some(Lyrics::Plain(p));
            },
            _ => {},
        }
        i = i + 1;
    }
    None
}

} // verus!
