//! The track a search is for, and what the providers read of it.
use vstd::prelude::*;
use crate::text::{chars_of, join, join_exec, push_all, split_ws, string_of, trim, trim_vec, views, words};

verus! {

/// A credited artist.
#[derive(Debug, Clone, PartialEq, Eq)]
pub struct Artist {
    pub name: String,
}

/// A track as the host describes it; its duration in milliseconds.
#[derive(Debug, Clone, PartialEq, Eq)]
pub struct TrackInfo {
    pub id: String,
    pub title: String,
    pub artist: String,
    pub album: String,
    pub album_artist: String,
    pub artists: Vec<Artist>,
    pub duration_ms: u64,
    pub track_number: i32,
    pub disc_number: i32,
    pub path: String,
    pub library_id: i32,
}

impl Default for TrackInfo {
    fn default() -> (r: Self)
        ensures
            r.id@.len() == 0 && r.title@.len() == 0 && r.artist@.len() == 0 && r.album@.len() == 0
                && r.album_artist@.len() == 0 && r.artists@.len() == 0 && r.duration_ms == 0
                && r.track_number == 0 && r.disc_number == 0 && r.path@.len() == 0
                && r.library_id == 0,
    {
        TrackInfo {
            id: string_of(Vec::new().as_slice()),
            title: string_of(Vec::new().as_slice()),
            artist: string_of(Vec::new().as_slice()),
            album: string_of(Vec::new().as_slice()),
            album_artist: string_of(Vec::new().as_slice()),
            artists: Vec::new(),
            duration_ms: 0,
            track_number: 0,
            disc_number: 0,
            path: string_of(Vec::new().as_slice()),
            library_id: 0,
        }
    }
}

/// A track's name for the logs: "artist - title", or whichever of the two
/// is there, or its id.
pub open spec fn label_of(t: TrackInfo) -> Seq<char> {
    let a = trim(t.artist@);
    let ti = trim(t.title@);
    if a.len() == 0 && ti.len() == 0 {
        t.id@
    } else if a.len() == 0 {
        ti
    } else if ti.len() == 0 {
        a
    } else {
        a + " - "@ + ti
    }
}

pub open spec fn is_open_bracket(c: char) -> bool {
    c == '(' || c == '[' || c == '{'
}

pub open spec fn is_close_bracket(c: char) -> bool {
    c == ')' || c == ']' || c == '}'
}

/// The characters of the first `n` of a title that stand outside brackets,
/// and the bracket depth reached (a closing bracket never takes it below 0).
pub open spec fn unbracketed(s: Seq<char>, n: int) -> (Seq<char>, nat)
    decreases n,
{
    if n <= 0 {
        (seq![], 0)
    } else {
        let (out, d) = unbracketed(s, n - 1);
        let c = s[n - 1];
        if is_open_bracket(c) {
            (out, d + 1)
        } else if is_close_bracket(c) {
            (out, if d > 0 {
                (d - 1) as nat
            } else {
                0
            })
        } else if d == 0 {
            (out.push(c), d)
        } else {
            (out, d)
        }
    }
}

/// A word that is a dash: `-` or one of U+2010, U+2012 to U+2015.
pub open spec fn is_dash_word(w: Seq<char>) -> bool {
    w == seq!['-'] || w == seq!['\u{2010}'] || w == seq!['\u{2012}'] || w == seq!['\u{2013}']
        || w == seq!['\u{2014}'] || w == seq!['\u{2015}']
}

/// The number of words before the first dash.
pub open spec fn words_before_dash(ws: Seq<Seq<char>>) -> nat
    decreases ws.len(),
{
    if ws.len() == 0 || is_dash_word(ws[0]) {
        0
    } else {
        1 + words_before_dash(ws.drop_first())
    }
}

/// A title without bracketed parts and without what follows a dash, its
/// words joined by single spaces.
pub open spec fn cleaned_title(title: Seq<char>) -> Seq<char> {
    let ws = words(unbracketed(title, title.len() as int).0);
    join(ws.take(words_before_dash(ws) as int), " "@)
}

/// Whether two durations differ by at most the tolerance.
pub open spec fn durations_match(a: u64, b: u64, tolerance: u64) -> bool {
    (if a >= b {
        a - b
    } else {
        b - a
    }) <= tolerance
}

/// What the providers read of a track.
pub trait TrackInfoExt {
    fn label(&self) -> String;

    fn has_artist(&self) -> bool;

    fn first_artist(&self) -> Option<&str>;

    fn all_artists(&self) -> String;

    fn duration(&self) -> u64;

    fn clean_title(&self) -> String;

    fn matches_duration(&self, other_ms: u64, tolerance_ms: u64) -> bool;
}

fn is_dash_word_exec(w: &[char]) -> (r: bool)
    ensures
        r == is_dash_word(w@),
{
    if w.len() != 1 {
        return false;
    }
    let c = w[0];
    let r = c == '-' || c == '\u{2010}' || c == '\u{2012}' || c == '\u{2013}' || c == '\u{2014}'
        || c == '\u{2015}';
    assert(w@ =~= seq![c]);
    r
}

impl TrackInfoExt for TrackInfo {
    fn label(&self) -> (r: String)
        ensures
            r@ == label_of(*self),
    {
        let a = trim_vec(chars_of(self.artist.as_str()).as_slice());
        let t = trim_vec(chars_of(self.title.as_str()).as_slice());
        if a.len() == 0 && t.len() == 0 {
            string_of(chars_of(self.id.as_str()).as_slice())
        } else if a.len() == 0 {
            string_of(t.as_slice())
        } else if t.len() == 0 {
            string_of(a.as_slice())
        } else {
            let mut out = a;
            push_all(&mut out, chars_of(" - ").as_slice());
            push_all(&mut out, t.as_slice());
            string_of(out.as_slice())
        }
    }

    fn has_artist(&self) -> (r: bool)
        ensures
            r == (self.artists@.len() > 0),
    {
        self.artists.len() > 0
    }

    fn first_artist(&self) -> (r: Option<&str>)
        ensures
            match r {
                Some(n) => self.artists@.len() > 0 && n@ == self.artists@[0].name@,
                None => self.artists@.len() == 0,
            },
    {
        if self.artists.len() > 0 {
            Some(self.artists[0].name.as_str())
        } else {
            None
        }
    }

    fn all_artists(&self) -> (r: String)
        ensures
            r@ == join(self.artists@.map_values(|a: Artist| a.name@), " "@),
    {
        let mut names: Vec<Vec<char>> = Vec::new();
        let mut i: usize = 0;
        while i < self.artists.len()
            invariant
                i <= self.artists@.len(),
                views(names@) == self.artists@.map_values(|a: Artist| a.name@).take(i as int),
            decreases self.artists.len() - i,
        {
            let ghost before = views(names@);
            names.push(chars_of(self.artists[i].name.as_str()));
            assert(views(names@) =~= before.push(self.artists@[i as int].name@));
            assert(self.artists@.map_values(|a: Artist| a.name@).take(i + 1) =~= before.push(
                self.artists@[i as int].name@,
            ));
            i = i + 1;
        }
        assert(self.artists@.map_values(|a: Artist| a.name@).take(self.artists@.len() as int)
            =~= self.artists@.map_values(|a: Artist| a.name@));
        string_of(join_exec(&names, chars_of(" ").as_slice()).as_slice())
    }

    fn duration(&self) -> (r: u64)
        ensures
            r == self.duration_ms,
    {
        self.duration_ms
    }

    fn clean_title(&self) -> (r: String)
        ensures
            r@ == cleaned_title(self.title@),
    {
        let s = chars_of(self.title.as_str());
        let mut out: Vec<char> = Vec::new();
        let mut depth: u64 = 0;
        let mut i: usize = 0;
        while i < s.len()
            invariant
                i <= s@.len(),
                s@ == self.title@,
                depth <= i,
                (out@, depth as nat) == unbracketed(s@, i as int),
            decreases s.len() - i,
        {
            let c = s[i];
            if c == '(' || c == '[' || c == '{' {
                depth = depth + 1;
            } else if c == ')' || c == ']' || c == '}' {
                if depth > 0 {
                    depth = depth - 1;
                }
            } else if depth == 0 {
                out.push(c);
            }
            i = i + 1;
        }
        let ws = split_ws(out.as_slice());
        let ghost wv = views(ws@);
        assert(wv.skip(0) =~= wv);
        let mut k: usize = 0;
        while k < ws.len() && !is_dash_word_exec(ws[k].as_slice())
            invariant
                k <= ws@.len(),
                wv == views(ws@),
                words_before_dash(wv) == k + words_before_dash(wv.skip(k as int)),
            decreases ws.len() - k,
        {
            proof {
                let t = wv.skip(k as int);
                assert(t[0] == ws@[k as int]@);
                assert(t.drop_first() =~= wv.skip(k + 1));
            }
            k = k + 1;
        }
        proof {
            let t = wv.skip(k as int);
            if k < ws@.len() {
                assert(t[0] == ws@[k as int]@);
            }
            assert(words_before_dash(t) == 0);
        }
        let mut kept: Vec<Vec<char>> = Vec::new();
        let mut j: usize = 0;
        while j < k
            invariant
                j <= k <= ws@.len(),
                wv == views(ws@),
                views(kept@) == wv.take(j as int),
            decreases k - j,
        {
            let ghost before = views(kept@);
            kept.push(copy_word(&ws[j]));
            assert(views(kept@) =~= before.push(wv[j as int]));
            assert(wv.take(j + 1) =~= wv.take(j as int).push(wv[j as int]));
            j = j + 1;
        }
        string_of(join_exec(&kept, chars_of(" ").as_slice()).as_slice())
    }

    fn matches_duration(&self, other_ms: u64, tolerance_ms: u64) -> (r: bool)
        ensures
            r == durations_match(other_ms, self.duration_ms, tolerance_ms),
    {
        let diff = if other_ms >= self.duration_ms {
            other_ms - self.duration_ms
        } else {
            self.duration_ms - other_ms
        };
        diff <= tolerance_ms
    }
}

fn copy_word(w: &Vec<char>) -> (r: Vec<char>)
    ensures
        r@ == w@,
{
    crate::text::copy_range(w.as_slice(), 0, w.len())
}

} // verus!
