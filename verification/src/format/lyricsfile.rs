//! The synchronization level of a YAML Lyricsfile, read line by line.
use vstd::prelude::*;
use crate::text::{
    chars_of, copy_range, lines, lines_exec, starts_with, starts_with_exec, trim, trim_vec, views,
};
use crate::types::SyncLevel;

verus! {

/// A line that starts a top-level key: not indented, not a list item, not blank.
pub open spec fn is_top_level_key(line: Seq<char>) -> bool {
    !(line.len() > 0 && (line[0] == ' ' || line[0] == '\t' || line[0] == '-')) && trim(line).len()
        > 0
}

/// The text without any number of leading "- ".
pub open spec fn strip_dashes(s: Seq<char>) -> Seq<char>
    decreases s.len(),
{
    if starts_with(s, "- "@) && s.len() >= 2 {
        strip_dashes(s.skip(2))
    } else {
        s
    }
}

/// The trimmed value of a `words:` key, if the line holds one.
pub open spec fn words_value(trimmed: Seq<char>) -> Option<Seq<char>> {
    let s = strip_dashes(trimmed);
    if starts_with(s, "words:"@) {
        Some(trim(s.skip(6)))
    } else {
        None
    }
}

/// The reader's state: level so far, inside `lines:`, expecting a word item,
/// and the level decided early, if any.
pub struct ScanState {
    pub level: SyncLevel,
    pub in_lines: bool,
    pub expecting_word: bool,
    pub decided: Option<SyncLevel>,
}

pub open spec fn scan_step(st: ScanState, line: Seq<char>) -> ScanState {
    if st.decided is Some {
        st
    } else if is_top_level_key(line) {
        ScanState { in_lines: starts_with(line, "lines:"@), expecting_word: false, ..st }
    } else if !st.in_lines || trim(line).len() == 0 {
        st
    } else {
        let trimmed = trim(line);
        if st.expecting_word && trimmed[0] == '-' {
            ScanState { decided: Some(SyncLevel::Word), ..st }
        } else {
            let st2 = ScanState { expecting_word: false, ..st };
            match words_value(trimmed) {
                Some(v) => if v.len() == 0 {
                    ScanState { expecting_word: true, ..st2 }
                } else if v == "[]"@ {
                    st2
                } else {
                    ScanState { decided: Some(SyncLevel::Word), ..st2 }
                },
                None => if starts_with(strip_dashes(trimmed), "start_ms:"@) {
                    ScanState { level: SyncLevel::Line, ..st2 }
                } else {
                    st2
                },
            }
        }
    }
}

pub open spec fn scan(ls: Seq<Seq<char>>, n: int) -> ScanState
    decreases n,
{
    if n <= 0 {
        ScanState { level: SyncLevel::Plain, in_lines: false, expecting_word: false, decided: None }
    } else {
        scan_step(scan(ls, n - 1), ls[n - 1])
    }
}

/// The level a Lyricsfile is timed at: word when some line's `words` holds
/// items, line when some line has a `start_ms`, plain otherwise.
pub open spec fn lyricsfile_level(doc: Seq<char>) -> SyncLevel {
    let st = scan(lines(doc), lines(doc).len() as int);
    match st.decided {
        Some(l) => l,
        None => st.level,
    }
}

fn strip_dashes_exec(s: &[char]) -> (r: Vec<char>)
    ensures
        r@ == strip_dashes(s@),
{
    let mut pos: usize = 0;
    proof {
        assert(s@.skip(0) =~= s@);
    }
    while pos < s.len() && s.len() - pos >= 2 && s[pos] == '-' && s[pos + 1] == ' '
        invariant
            pos <= s@.len(),
            strip_dashes(s@.skip(pos as int)) == strip_dashes(s@),
        decreases s.len() - pos,
    {
        proof {
            reveal_strlit("- ");
            let t = s@.skip(pos as int);
            assert(t.subrange(0, 2) =~= "- "@);
            assert(t.skip(2) =~= s@.skip(pos + 2));
        }
        pos = pos + 2;
    }
    proof {
        reveal_strlit("- ");
        let t = s@.skip(pos as int);
        if starts_with(t, "- "@) && t.len() >= 2 {
            assert(t.subrange(0, 2)[0] == t[0]);
            assert(t.subrange(0, 2)[1] == t[1]);
            assert(t[0] == s@[pos as int]);
            assert(t[1] == s@[pos + 1]);
        }
    }
    copy_range(s, pos, s.len())
}

fn words_value_exec(trimmed: &[char]) -> (r: Option<Vec<char>>)
    ensures
        match r {
            Some(v) => words_value(trimmed@) == Some(v@),
            None => words_value(trimmed@) is None,
        },
{
    let s = strip_dashes_exec(trimmed);
    let key = chars_of("words:");
    proof {
        reveal_strlit("words:");
    }
    if starts_with_exec(s.as_slice(), key.as_slice()) {
        let rest = copy_range(s.as_slice(), 6, s.len());
        assert(rest@ =~= s@.skip(6));
        Some(trim_vec(rest.as_slice()))
    } else {
        None
    }
}

fn is_top_level_key_exec(line: &[char]) -> (r: bool)
    ensures
        r == is_top_level_key(line@),
{
    if line.len() > 0 && (line[0] == ' ' || line[0] == '\t' || line[0] == '-') {
        return false;
    }
    let t = trim_vec(line);
    t.len() > 0
}

/// One line of the reader.
pub fn scan_step_exec(st: ScanState, line: &[char]) -> (r: ScanState)
    ensures
        r == scan_step(st, line@),
{
    if st.decided.is_some() {
        return st;
    }
    if is_top_level_key_exec(line) {
        let key = chars_of("lines:");
        let in_lines = starts_with_exec(line, key.as_slice());
        return ScanState { in_lines, expecting_word: false, ..st };
    }
    let trimmed = trim_vec(line);
    if !st.in_lines || trimmed.len() == 0 {
        return st;
    }
    if st.expecting_word && trimmed[0] == '-' {
        return ScanState { decided: Some(SyncLevel::Word), ..st };
    }
    let st2 = ScanState { expecting_word: false, ..st };
    match words_value_exec(trimmed.as_slice()) {
        Some(v) => {
            let empty_list = chars_of("[]");
            if v.len() == 0 {
                ScanState { expecting_word: true, ..st2 }
            } else if crate::format::lrc::seq_equal(v.as_slice(), empty_list.as_slice()) {
                st2
            } else {
                ScanState { decided: Some(SyncLevel::Word), ..st2 }
            }
        },
        None => {
            let s = strip_dashes_exec(trimmed.as_slice());
            let key = chars_of("start_ms:");
            if starts_with_exec(s.as_slice(), key.as_slice()) {
                ScanState { level: SyncLevel::Line, ..st2 }
            } else {
                st2
            }
        },
    }
}

/// The level a Lyricsfile is timed at.
pub fn sync_level(doc: &str) -> (r: SyncLevel)
    ensures
        r == lyricsfile_level(doc@),
{
    let chars = chars_of(doc);
    let ls = lines_exec(chars.as_slice());
    let mut st = ScanState {
        level: SyncLevel::Plain,
        in_lines: false,
        expecting_word: false,
        decided: None,
    };
    let mut i: usize = 0;
    while i < ls.len()
        invariant
            i <= ls@.len(),
            views(ls@) == lines(doc@),
            st == scan(lines(doc@), i as int),
        decreases ls.len() - i,
    {
        assert(lines(doc@)[i as int] == ls@[i as int]@);
        st = scan_step_exec(st, ls[i].as_slice());
        i = i + 1;
    }
    match st.decided {
        Some(l) => l,
        None => st.level,
    }
}

} // verus!
