//! The synchronization level of a TTML document: the `itunes:timing`
//! attribute when it names a level, otherwise timed `<span>` (word) or `<p>`
//! (line) elements.
use vstd::prelude::*;
use crate::pattern::{captures, is_match, re_captures, re_matches};
use crate::text::{chars_of, lower_ascii_seq};
use crate::types::{lower_vec, SyncLevel};
use crate::format::lrc::seq_equal;

verus! {

pub const ITUNES_TIMING_PATTERN: &'static str = r#"(?i)\bitunes:timing\s*=\s*["']\s*([a-z]+)\s*["']"#;

pub const TIMED_SPAN_PATTERN: &'static str = r#"(?i)<span\b[^>]*\bbegin\s*=\s*["']"#;

pub const TIMED_PARAGRAPH_PATTERN: &'static str = r#"(?i)<p\b[^>]*\bbegin\s*=\s*["']"#;

/// The value of the first `itunes:timing` attribute, if any.
pub open spec fn itunes_timing_value(doc: Seq<char>) -> Option<Seq<char>> {
    match re_captures(ITUNES_TIMING_PATTERN@, doc) {
        Some(g) => if g.len() > 1 {
            g[1]
        } else {
            None
        },
        None => None,
    }
}

/// The level an `itunes:timing` value names, ASCII case ignored.
pub open spec fn timing_level(value: Seq<char>) -> Option<SyncLevel> {
    let v = lower_ascii_seq(value);
    if v == "word"@ {
        Some(SyncLevel::Word)
    } else if v == "line"@ {
        Some(SyncLevel::Line)
    } else if v == "none"@ {
        Some(SyncLevel::Plain)
    } else {
        None
    }
}

pub open spec fn ttml_level(doc: Seq<char>) -> SyncLevel {
    match itunes_timing_value(doc) {
        Some(v) if timing_level(v) is Some => timing_level(v)->0,
        _ => if re_matches(TIMED_SPAN_PATTERN@, doc) {
            SyncLevel::Word
        } else if re_matches(TIMED_PARAGRAPH_PATTERN@, doc) {
            SyncLevel::Line
        } else {
            SyncLevel::Plain
        },
    }
}

/// The level an `itunes:timing` value names.
pub fn timing_level_exec(value: &[char]) -> (r: Option<SyncLevel>)
    ensures
        r == timing_level(value@),
{
    let v = lower_vec(value);
    let word = chars_of("word");
    let line = chars_of("line");
    let none = chars_of("none");
    if seq_equal(v.as_slice(), word.as_slice()) {
        Some(SyncLevel::Word)
    } else if seq_equal(v.as_slice(), line.as_slice()) {
        Some(SyncLevel::Line)
    } else if seq_equal(v.as_slice(), none.as_slice()) {
        Some(SyncLevel::Plain)
    } else {
        None
    }
}

/// The level named by the document's `itunes:timing` attribute, if it names one.
pub fn itunes_timing(doc: &str) -> (r: Option<SyncLevel>)
    ensures
        r == match itunes_timing_value(doc@) {
            Some(v) => timing_level(v),
            None => None,
        },
{
    let caps = captures(ITUNES_TIMING_PATTERN, doc);
    match caps {
        Some(g) => {
            if g.len() > 1 {
                match &g[1] {
                    Some(v) => {
                        let c = chars_of(v.as_str());
                        timing_level_exec(c.as_slice())
                    },
                    None => None,
                }
            } else {
                None
            }
        },
        None => None,
    }
}

/// The level a TTML document is timed at.
pub fn sync_level(doc: &str) -> (r: SyncLevel)
    ensures
        r == ttml_level(doc@),
{
    if let Some(level) = itunes_timing(doc) {
        return level;
    }
    if is_match(TIMED_SPAN_PATTERN, doc) {
        SyncLevel::Word
    } else if is_match(TIMED_PARAGRAPH_PATTERN, doc) {
        SyncLevel::Line
    } else {
        SyncLevel::Plain
    }
}

} // verus!
