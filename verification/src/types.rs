//! Lyrics, their kinds and their synchronization levels.
use vstd::prelude::*;
use crate::text::{chars_of, string_of, to_ascii_lower, trim, trim_vec};
use crate::format::lrc::seq_equal;
use crate::config::PluginConfig;

verus! {

#[derive(Clone, Copy, Debug, PartialEq, Eq, Structural)]
pub enum LyricsKind {
    Plain,
    Lrc,
    Elrc,
    Ttml,
    Srt,
    Lyricsfile,
    Instrumental,
}

/// How finely lyrics are timed.
#[derive(Clone, Copy, Debug, PartialEq, Eq, Structural)]
pub enum SyncLevel {
    Plain,
    Line,
    Word,
}

pub open spec fn kind_slug(k: LyricsKind) -> Seq<char> {
    match k {
        LyricsKind::Plain => "plain"@,
        LyricsKind::Lrc => "lrc"@,
        LyricsKind::Elrc => "elrc"@,
        LyricsKind::Ttml => "ttml"@,
        LyricsKind::Srt => "srt"@,
        LyricsKind::Lyricsfile => "lyricsfile"@,
        LyricsKind::Instrumental => "instrumental"@,
    }
}

/// The kind whose slug is the text trimmed and ASCII-lowercased.
pub open spec fn slug_kind(s: Seq<char>) -> Option<LyricsKind> {
    let key = crate::text::lower_ascii_seq(trim(s));
    if key == "plain"@ {
        Some(LyricsKind::Plain)
    } else if key == "lrc"@ {
        Some(LyricsKind::Lrc)
    } else if key == "elrc"@ {
        Some(LyricsKind::Elrc)
    } else if key == "ttml"@ {
        Some(LyricsKind::Ttml)
    } else if key == "srt"@ {
        Some(LyricsKind::Srt)
    } else if key == "lyricsfile"@ {
        Some(LyricsKind::Lyricsfile)
    } else if key == "instrumental"@ {
        Some(LyricsKind::Instrumental)
    } else {
        None
    }
}

/// A kind's slug names that kind again: `from_slug` undoes `slug`.
pub proof fn slugs_name_their_kind(k: LyricsKind)
    ensures
        slug_kind(kind_slug(k)) == Some(k),
{
    reveal_strlit("plain");
    reveal_strlit("lrc");
    reveal_strlit("elrc");
    reveal_strlit("ttml");
    reveal_strlit("srt");
    reveal_strlit("lyricsfile");
    reveal_strlit("instrumental");
    let s = kind_slug(k);
    assert(!crate::text::is_ws(s[0]));
    assert(!crate::text::is_ws(s.last()));
    assert(crate::text::lead(s, crate::text::ws_pred()) == 0);
    assert(trim(s) =~= s) by {
        assert(s.skip(0) =~= s);
        assert(crate::text::trail(s, crate::text::ws_pred()) == 0);
    }
    assert(crate::text::lower_ascii_seq(s) =~= s);
}

pub open spec fn level_rank(l: SyncLevel) -> nat {
    match l {
        SyncLevel::Word => 0,
        SyncLevel::Line => 1,
        SyncLevel::Plain => 2,
    }
}

pub open spec fn level_slug(l: SyncLevel) -> Seq<char> {
    match l {
        SyncLevel::Word => "word-by-word"@,
        SyncLevel::Line => "line-by-line"@,
        SyncLevel::Plain => "plain"@,
    }
}

/// The finest level lyrics of a kind can be timed at.
pub open spec fn kind_max_level(k: LyricsKind) -> SyncLevel {
    match k {
        LyricsKind::Elrc | LyricsKind::Ttml | LyricsKind::Lyricsfile => SyncLevel::Word,
        LyricsKind::Lrc | LyricsKind::Srt => SyncLevel::Line,
        LyricsKind::Plain | LyricsKind::Instrumental => SyncLevel::Plain,
    }
}

impl LyricsKind {
    pub fn slug(&self) -> (r: &'static str)
        ensures
            r@ == kind_slug(*self),
    {
        match self {
            LyricsKind::Plain => "plain",
            LyricsKind::Lrc => "lrc",
            LyricsKind::Elrc => "elrc",
            LyricsKind::Ttml => "ttml",
            LyricsKind::Srt => "srt",
            LyricsKind::Lyricsfile => "lyricsfile",
            LyricsKind::Instrumental => "instrumental",
        }
    }

    /// The kind named by a slug, with surrounding whitespace and ASCII case
    /// ignored.
    pub fn from_slug(slug: &str) -> (r: Option<LyricsKind>)
        ensures
            r == slug_kind(slug@),
    {
        let chars = chars_of(slug);
        let t = trim_vec(chars.as_slice());
        let key = lower_vec(t.as_slice());
        let k = key.as_slice();
        if seq_equal(k, chars_of("plain").as_slice()) {
            Some(LyricsKind::Plain)
        } else if seq_equal(k, chars_of("lrc").as_slice()) {
            Some(LyricsKind::Lrc)
        } else if seq_equal(k, chars_of("elrc").as_slice()) {
            Some(LyricsKind::Elrc)
        } else if seq_equal(k, chars_of("ttml").as_slice()) {
            Some(LyricsKind::Ttml)
        } else if seq_equal(k, chars_of("srt").as_slice()) {
            Some(LyricsKind::Srt)
        } else if seq_equal(k, chars_of("lyricsfile").as_slice()) {
            Some(LyricsKind::Lyricsfile)
        } else if seq_equal(k, chars_of("instrumental").as_slice()) {
            Some(LyricsKind::Instrumental)
        } else {
            None
        }
    }

    /// The finest level lyrics of this kind can be timed at.
    pub fn max_sync_level(&self) -> (r: SyncLevel)
        ensures
            r == kind_max_level(*self),
    {
        match self {
            LyricsKind::Elrc | LyricsKind::Ttml | LyricsKind::Lyricsfile => SyncLevel::Word,
            LyricsKind::Lrc | LyricsKind::Srt => SyncLevel::Line,
            LyricsKind::Plain | LyricsKind::Instrumental => SyncLevel::Plain,
        }
    }
}

/// ASCII-lowercases every character.
pub fn lower_vec(s: &[char]) -> (r: Vec<char>)
    ensures
        r@ == crate::text::lower_ascii_seq(s@),
{
    let mut r: Vec<char> = Vec::new();
    let mut i: usize = 0;
    while i < s.len()
        invariant
            i <= s@.len(),
            r@ == crate::text::lower_ascii_seq(s@.take(i as int)),
        decreases s.len() - i,
    {
        r.push(to_ascii_lower(s[i]));
        assert(crate::text::lower_ascii_seq(s@.take(i + 1)) =~= crate::text::lower_ascii_seq(
            s@.take(i as int),
        ).push(crate::text::ascii_lower(s@[i as int])));
        i = i + 1;
    }
    assert(s@.take(s@.len() as int) =~= s@);
    r
}

impl SyncLevel {
    /// Position in the order of preference: word-synced first.
    pub fn rank(&self) -> (r: usize)
        ensures
            r == level_rank(*self),
    {
        match self {
            SyncLevel::Word => 0,
            SyncLevel::Line => 1,
            SyncLevel::Plain => 2,
        }
    }

    pub fn from_rank(rank: usize) -> (r: Option<SyncLevel>)
        ensures
            r matches Some(l) ==> level_rank(l) == rank,
            r is None <==> rank > 2,
    {
        match rank {
            0 => Some(SyncLevel::Word),
            1 => Some(SyncLevel::Line),
            2 => Some(SyncLevel::Plain),
            _ => None,
        }
    }

    pub fn slug(&self) -> (r: &'static str)
        ensures
            r@ == level_slug(*self),
    {
        match self {
            SyncLevel::Word => "word-by-word",
            SyncLevel::Line => "line-by-line",
            SyncLevel::Plain => "plain",
        }
    }
}

/// Lyrics of each kind, with their text; instrumental tracks have none.
#[derive(PartialEq, Debug)]
pub enum Lyrics {
    Plain(String),
    Lrc(String),
    Elrc(String),
    Ttml(String),
    Srt(String),
    Lyricsfile(String),
    Instrumental,
}

/// A text of lyrics as the host receives it: its language and the text.
#[derive(Debug, Clone, PartialEq, Eq)]
pub struct LyricsText {
    pub lang: String,
    pub text: String,
}

/// The text lyrics carry, if any.
pub open spec fn lyrics_text(l: Lyrics) -> Option<Seq<char>> {
    match l {
        Lyrics::Plain(s) => Some(s@),
        Lyrics::Lrc(s) => Some(s@),
        Lyrics::Elrc(s) => Some(s@),
        Lyrics::Ttml(s) => Some(s@),
        Lyrics::Srt(s) => Some(s@),
        Lyrics::Lyricsfile(s) => Some(s@),
        Lyrics::Instrumental => None,
    }
}

pub open spec fn lyrics_kind(l: Lyrics) -> LyricsKind {
    match l {
        Lyrics::Plain(_) => LyricsKind::Plain,
        Lyrics::Lrc(_) => LyricsKind::Lrc,
        Lyrics::Elrc(_) => LyricsKind::Elrc,
        Lyrics::Ttml(_) => LyricsKind::Ttml,
        Lyrics::Srt(_) => LyricsKind::Srt,
        Lyrics::Lyricsfile(_) => LyricsKind::Lyricsfile,
        Lyrics::Instrumental => LyricsKind::Instrumental,
    }
}

/// The text of lyrics as they are sanitized: LRC and enhanced LRC are
/// sanitized, and LRC, enhanced LRC and plain lyrics lose their section
/// labels when asked to; other kinds are kept as they are.
pub open spec fn sanitized_text(kind: LyricsKind, s: Seq<char>, strip_labels: bool) -> Seq<char> {
    match kind {
        LyricsKind::Lrc | LyricsKind::Elrc => if strip_labels {
            crate::format::labels_stripped(crate::format::lrc::sanitized(s))
        } else {
            crate::format::lrc::sanitized(s)
        },
        LyricsKind::Plain => if strip_labels {
            crate::format::labels_stripped(s)
        } else {
            s
        },
        _ => s,
    }
}

impl Lyrics {
    pub fn kind(&self) -> (r: LyricsKind)
        ensures
            r == lyrics_kind(*self),
    {
        match self {
            Lyrics::Plain(_) => LyricsKind::Plain,
            Lyrics::Lrc(_) => LyricsKind::Lrc,
            Lyrics::Elrc(_) => LyricsKind::Elrc,
            Lyrics::Ttml(_) => LyricsKind::Ttml,
            Lyrics::Srt(_) => LyricsKind::Srt,
            Lyrics::Lyricsfile(_) => LyricsKind::Lyricsfile,
            Lyrics::Instrumental => LyricsKind::Instrumental,
        }
    }

    /// The text to hand out: the lyrics' own, or the configured text for an
    /// instrumental track.
    pub fn text<'a>(&'a self, cfg: &'a PluginConfig) -> (r: &'a str)
        ensures
            r@ == match lyrics_text(*self) {
                Some(s) => s,
                None => cfg.instrumental_text@,
            },
    {
        match self {
            Lyrics::Plain(s) => s.as_str(),
            Lyrics::Lrc(s) => s.as_str(),
            Lyrics::Elrc(s) => s.as_str(),
            Lyrics::Ttml(s) => s.as_str(),
            Lyrics::Srt(s) => s.as_str(),
            Lyrics::Lyricsfile(s) => s.as_str(),
            Lyrics::Instrumental => cfg.instrumental_text.as_str(),
        }
    }

    /// The answer handed to the host: one text, in no particular language
    /// (`xxx`).
    pub fn to_response(&self, cfg: &PluginConfig) -> (r: Vec<LyricsText>)
        ensures
            r@.len() == 1,
            r@[0].lang@ == "xxx"@,
            r@[0].text@ == match lyrics_text(*self) {
                Some(s) => s,
                None => cfg.instrumental_text@,
            },
    {
        let mut v: Vec<LyricsText> = Vec::new();
        v.push(
            LyricsText {
                lang: string_of(chars_of("xxx").as_slice()),
                text: string_of(chars_of(self.text(cfg)).as_slice()),
            },
        );
        v
    }

    /// Sanitizes the text in place (see [`sanitized_text`]).
    pub fn sanitize(&mut self, cfg: &PluginConfig)
        ensures
            lyrics_kind(*final(self)) == lyrics_kind(*old(self)),
            match lyrics_text(*old(self)) {
                Some(s) => lyrics_text(*final(self)) == Some(
                    sanitized_text(lyrics_kind(*old(self)), s, cfg.strip_section_labels),
                ),
                None => lyrics_text(*final(self)) is None,
            },
    {
        let strip = cfg.strip_section_labels;
        let next = match &*self {
            Lyrics::Lrc(s) => {
                let t = crate::format::lrc::sanitize(s.as_str());
                Some(
                    Lyrics::Lrc(
                        if strip {
                            crate::format::strip_section_labels(t.as_str())
                        } else {
                            t
                        },
                    ),
                )
            },
            Lyrics::Elrc(s) => {
                let t = crate::format::lrc::sanitize(s.as_str());
                Some(
                    Lyrics::Elrc(
                        if strip {
                            crate::format::strip_section_labels(t.as_str())
                        } else {
                            t
                        },
                    ),
                )
            },
            Lyrics::Plain(s) => {
                if strip {
                    Some(Lyrics::Plain(crate::format::strip_section_labels(s.as_str())))
                } else {
                    None
                }
            },
            _ => None,
        };
        match next {
            Some(l) => {
                *self = l;
            },
            None => {},
        }
    }

    /// Whether the lyrics hold no text but whitespace; instrumental lyrics
    /// never count as empty.
    pub fn is_empty(&self) -> (r: bool)
        ensures
            r == match lyrics_text(*self) {
                Some(s) => trim(s).len() == 0,
                None => false,
            },
    {
        match self {
            Lyrics::Plain(s) | Lyrics::Lrc(s) | Lyrics::Elrc(s) | Lyrics::Ttml(s) | Lyrics::Srt(s)
            | Lyrics::Lyricsfile(s) => trim_vec(chars_of(s.as_str()).as_slice()).len() == 0,
            Lyrics::Instrumental => false,
        }
    }
}

/// How finely lyrics are timed: TTML and Lyricsfile documents say so
/// themselves, enhanced LRC is word-synced, LRC and SRT line-synced.
pub open spec fn lyrics_level(l: Lyrics) -> SyncLevel {
    match l {
        Lyrics::Ttml(s) => crate::format::ttml::ttml_level(s@),
        Lyrics::Lyricsfile(s) => crate::format::lyricsfile::lyricsfile_level(s@),
        Lyrics::Elrc(_) => SyncLevel::Word,
        Lyrics::Lrc(_) | Lyrics::Srt(_) => SyncLevel::Line,
        Lyrics::Plain(_) | Lyrics::Instrumental => SyncLevel::Plain,
    }
}

impl Lyrics {
    pub fn sync_level(&self) -> (r: SyncLevel)
        ensures
            r == lyrics_level(*self),
    {
        match self {
            Lyrics::Ttml(s) => crate::format::ttml::sync_level(s.as_str()),
            Lyrics::Lyricsfile(s) => crate::format::lyricsfile::sync_level(s.as_str()),
            Lyrics::Elrc(_) => SyncLevel::Word,
            Lyrics::Lrc(_) | Lyrics::Srt(_) => SyncLevel::Line,
            Lyrics::Plain(_) | Lyrics::Instrumental => SyncLevel::Plain,
        }
    }

    /// Whether the text masks words with asterisks.
    pub fn is_censored(&self) -> (r: bool)
        ensures
            r == match lyrics_text(*self) {
                Some(s) => crate::format::censor::censored(s),
                None => false,
            },
    {
        match self {
            Lyrics::Plain(s) | Lyrics::Lrc(s) | Lyrics::Elrc(s) | Lyrics::Ttml(s) | Lyrics::Srt(s)
            | Lyrics::Lyricsfile(s) => crate::format::censor::is_censored(s.as_str()),
            Lyrics::Instrumental => false,
        }
    }
}

/// Sanitizing with section labels stripped is stripping the labels of the
/// text as it is otherwise sanitized: plain lyrics are exactly what
/// `strip_section_labels` makes of them (and are left as they are when
/// labels are kept); LRC and enhanced LRC are sanitized and then lose their
/// labels; other kinds are never touched.
pub proof fn sanitizing_strips_labels_when_asked(s: Seq<char>)
    ensures
        sanitized_text(LyricsKind::Plain, s, true) == crate::format::labels_stripped(s),
        sanitized_text(LyricsKind::Plain, s, false) == s,
        sanitized_text(LyricsKind::Lrc, s, true) == crate::format::labels_stripped(
            crate::format::lrc::sanitized(s),
        ),
        sanitized_text(LyricsKind::Elrc, s, true) == crate::format::labels_stripped(
            crate::format::lrc::sanitized(s),
        ),
        sanitized_text(LyricsKind::Lrc, s, false) == crate::format::lrc::sanitized(s),
        sanitized_text(LyricsKind::Elrc, s, false) == crate::format::lrc::sanitized(s),
        forall|b: bool| sanitized_text(LyricsKind::Ttml, s, b) == s && sanitized_text(LyricsKind::Lyricsfile, s, b) == s
            && sanitized_text(LyricsKind::Srt, s, b) == s,
{
}

} // verus!
