//! NetEase's YRC lyrics: lines `[start,duration]` of words
//! `(start,duration,0)text`, every time absolute; metadata lines are JSON
//! objects and are skipped.
use vstd::prelude::*;
use crate::providers::timed::{enhanced, times_fit, to_enhanced_checked};
use crate::text::string_of;

verus! {

pub const YRC_LINE_PATTERN: &'static str = r"^\[(\d+),\d+\](.*)$";
pub const YRC_WORD_PATTERN: &'static str = r"\((\d+),(\d+),-?\d+\)([^(]*)";

pub open spec fn yrc_enhanced(s: Seq<char>) -> Seq<char> {
    enhanced(s, YRC_LINE_PATTERN@, YRC_WORD_PATTERN@, false)
}

pub open spec fn yrc_times_fit(s: Seq<char>) -> bool {
    times_fit(s, YRC_LINE_PATTERN@, YRC_WORD_PATTERN@, false)
}

/// Renders a YRC text as enhanced LRC.
pub fn to_enhanced_lrc(yrc: &str) -> (r: String)
    requires
        yrc_times_fit(yrc@),
    ensures
        r@ == yrc_enhanced(yrc@),
{
    match to_enhanced_checked(yrc, YRC_LINE_PATTERN, YRC_WORD_PATTERN, false) {
        Some(s) => s,
        None => string_of(Vec::new().as_slice()),
    }
}

/// Renders a YRC text as enhanced LRC, or `None` when a word's end time
/// does not fit in a `u64`.
pub fn to_enhanced_lrc_checked(yrc: &str) -> (r: Option<String>)
    ensures
        match r {
            Some(s) => yrc_times_fit(yrc@) && s@ == yrc_enhanced(yrc@),
            None => !yrc_times_fit(yrc@),
        },
{
    match to_enhanced_checked(yrc, YRC_LINE_PATTERN, YRC_WORD_PATTERN, false) {
        Some(_) => Some(to_enhanced_lrc(yrc)),
        None => None,
    }
}

} // verus!
