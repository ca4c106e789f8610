//! The single-pass LRC sanitizer: drops metadata tags other than
//! `[offset:...]`, a leading "Artist - Title" header timed under five seconds,
//! and credit lines.
//!
//! A time tag whose parts fail to parse counts those parts as zero; values are
//! held in nanoseconds as in [`crate::format::lrc`].
use vstd::prelude::*;
use crate::format::lrc::{seq_equal, TITLE_HEADER_MAX_NANOS};
use crate::num::{all_digits_exec, dec, dec_saturating, frac9, frac9_exec, sat_u64};
use crate::text::{
    all_digits, ascii_lower, chars_of, contains_seq, copy_range, eq_ignore_ascii_case, find_char,
    index_of, is_digit, join, join_exec, lines, lines_exec, string_of, to_ascii_lower, trim,
    trim_bounds, trim_start, views,
};
use crate::unicode::{alphabetic, is_alphabetic};
use crate::format::{opens_with_bracket, opens_with_bracket_exec, single_spaced, single_spaced_exec, trim_end_vec};
use crate::pattern::{re_remove_all, remove_all};
use crate::text::{trim_end, trim_vec};

verus! {

pub open spec fn digit_or_dot(s: Seq<char>) -> bool {
    forall|i: int| 0 <= i < s.len() ==> is_digit(#[trigger] s[i]) || s[i] == '.'
}

/// The seconds part of a tag as a number of nanoseconds, or zero when it does
/// not parse as a decimal number.
pub open spec fn seconds_or_zero(right: Seq<char>) -> nat {
    match index_of(right, '.') {
        None => 0,
        Some(d) => {
            let ip = right.take(d);
            let fp = right.skip(d + 1);
            if all_digits(ip) && all_digits(fp) && ip.len() + fp.len() > 0 {
                sat_u64(dec(ip)) * 1_000_000_000 + frac9(fp)
            } else {
                0
            }
        },
    }
}

/// The time of a `mm:ss.ff` tag in nanoseconds, or `None` when the bracket
/// content is not shaped like one.
pub open spec fn tag_time(content: Seq<char>) -> Option<int> {
    match index_of(content, ':') {
        None => None,
        Some(c) => {
            let left = content.take(c);
            let right = content.skip(c + 1);
            if all_digits(left) && index_of(right, '.') is Some && digit_or_dot(right) {
                Some((sat_u64(dec(left)) * 60 * 1_000_000_000 + seconds_or_zero(right)) as int)
            } else {
                None
            }
        },
    }
}

pub open spec fn credit_prefixes() -> Seq<Seq<char>> {
    seq![
        "Lyrics by"@,
        "Composed by"@,
        "Produced by"@,
        "Published by"@,
        "Vocals by"@,
        "Background Vocals by"@,
        "Additional Vocal by"@,
        "Mixing Engineer"@,
        "Mastered by"@,
        "Executive Producer"@,
        "Vocal Engineer"@,
        "Vocals Produced by"@,
        "Recorded at"@,
        "Repertoire Owner"@,
        "Written by"@,
        "Arranged by"@,
        "Music by"@,
        "Words by"@,
        "Lyrics"@,
        "Composer"@,
        "Lyricist"@,
        "Arranger"@,
        "Translator"@,
        "Adapted by"@,
    ]
}

/// `text` opens with `prefix` (ASCII case ignored) directly followed by a
/// colon, ASCII or fullwidth.
pub open spec fn credit_match(text: Seq<char>, prefix: Seq<char>) -> bool {
    prefix.len() < text.len() && eq_ignore_ascii_case(text.take(prefix.len() as int), prefix) && (
    text[prefix.len() as int] == ':' || text[prefix.len() as int] == '\u{FF1A}')
}

pub open spec fn is_credit(text: Seq<char>) -> bool {
    let t = trim_start(text);
    exists|i: int|
        0 <= i < credit_prefixes().len() && credit_match(
            t,
            credit_prefixes()[i],
        )
}

/// The text after the leading bracket of a trimmed line, whether that
/// bracket was a tag line to drop, and the new "first time tag seen" flag;
/// `None` when the line is dropped by its tag.
pub open spec fn tag_verdict(t: Seq<char>, seen: bool) -> Option<(Seq<char>, bool)> {
    if t.len() > 0 && t[0] == '[' && index_of(t.drop_first(), ']') is Some {
        let rest = t.drop_first();
        let e = index_of(rest, ']')->0;
        let content = rest.take(e);
        let text = rest.skip(e + 1);
        match tag_time(content) {
            Some(v) => {
                if !seen {
                    if v < TITLE_HEADER_MAX_NANOS && contains_seq(text, " - "@) && exists|i: int|
                        0 <= i < text.len() && alphabetic(text[i]) {
                        None
                    } else {
                        Some((text, true))
                    }
                } else {
                    Some((text, seen))
                }
            },
            None => match index_of(content, ':') {
                Some(c) => if content.take(c) == "offset"@ {
                    Some((text, seen))
                } else {
                    None
                },
                None => None,
            },
        }
    } else {
        Some((t, seen))
    }
}

/// Whether a line is kept, and the new "first time tag seen" flag.
pub open spec fn kept_by(line: Seq<char>, seen: bool) -> (bool, bool) {
    let t = trim(line);
    match tag_verdict(t, seen) {
        None => (false, if t.len() > 0 && t[0] == '[' && index_of(t.drop_first(), ']') is Some
            && tag_time(t.drop_first().take(index_of(t.drop_first(), ']')->0)) is Some {
            true
        } else {
            seen
        }),
        Some((text, s2)) => (!is_credit(text), s2),
    }
}

pub open spec fn header_seen(ls: Seq<Seq<char>>, n: int) -> bool
    decreases n,
{
    if n <= 0 {
        false
    } else {
        kept_by(ls[n - 1], header_seen(ls, n - 1)).1
    }
}

pub open spec fn kept_lines(ls: Seq<Seq<char>>, n: int) -> Seq<Seq<char>>
    decreases n,
{
    if n <= 0 {
        seq![]
    } else {
        let prev = kept_lines(ls, n - 1);
        if kept_by(ls[n - 1], header_seen(ls, n - 1)).0 {
            prev.push(ls[n - 1])
        } else {
            prev
        }
    }
}

pub open spec fn sanitized(s: Seq<char>) -> Seq<char> {
    let ls = lines(s);
    join(kept_lines(ls, ls.len() as int), "\n"@)
}

proof fn lemma_kept_lines_subsequence(ls: Seq<Seq<char>>, n: int)
    requires
        0 <= n <= ls.len(),
    ensures
        crate::text::is_subsequence(kept_lines(ls, n), ls.take(n)),
    decreases n,
{
    if n > 0 {
        lemma_kept_lines_subsequence(ls, n - 1);
        assert(ls.take(n).drop_last() =~= ls.take(n - 1));
        if !kept_by(ls[n - 1], header_seen(ls, n - 1)).0 {
            crate::text::lemma_subsequence_extend(kept_lines(ls, n - 1), ls.take(n));
        } else {
            assert(kept_lines(ls, n).drop_last() =~= kept_lines(ls, n - 1));
            assert(kept_lines(ls, n).last() == ls.take(n).last());
        }
    }
}

/// This sanitizer only drops lines: the lines it keeps are lines of the
/// input, unchanged and in their order.
pub proof fn sanitizer_only_drops_lines(s: Seq<char>)
    ensures
        crate::text::is_subsequence(kept_lines(lines(s), lines(s).len() as int), lines(s)),
{
    let ls = lines(s);
    lemma_kept_lines_subsequence(ls, ls.len() as int);
    assert(ls.take(ls.len() as int) =~= ls);
}

// ---------------------------------------------------------------------------
fn digit_or_dot_exec(right: &[char]) -> (r: bool)
    ensures
        r == digit_or_dot(right@),
{
    let mut k: usize = 0;
    while k < right.len()
        invariant
            k <= right@.len(),
            forall|j: int| 0 <= j < k ==> is_digit(#[trigger] right@[j]) || right@[j] == '.',
        decreases right.len() - k,
    {
        if !crate::num::is_ascii_digit(right[k]) && right[k] != '.' {
            assert(!(is_digit(right@[k as int]) || right@[k as int] == '.'));
            return false;
        }
        k = k + 1;
    }
    true
}

fn tag_time_exec(content: &[char]) -> (r: Option<u128>)
    ensures
        match r {
            Some(v) => tag_time(content@) == Some(v as int),
            None => tag_time(content@) is None,
        },
{
    let n = content.len();
    assert(content@.skip(0) =~= content@);
    let c = match find_char(content, ':', 0) {
        None => return None,
        Some(c) => c,
    };
    let left = copy_range(content, 0, c);
    let right = copy_range(content, c + 1, n);
    assert(right@ =~= content@.skip(c + 1));
    assert(right@.skip(0) =~= right@);
    let dot = find_char(right.as_slice(), '.', 0);
    if !all_digits_exec(left.as_slice()) || dot.is_none() {
        return None;
    }
    if !digit_or_dot_exec(right.as_slice()) {
        return None;
    }
    let d = dot.unwrap();
    let ip = copy_range(right.as_slice(), 0, d);
    let fp = copy_range(right.as_slice(), d + 1, right.len());
    assert(fp@ =~= right@.skip(d + 1));
    let secs: u128 = if all_digits_exec(ip.as_slice()) && all_digits_exec(fp.as_slice()) && ip.len()
        + fp.len() > 0 {
        let s = dec_saturating(ip.as_slice()) as u128;
        let f = frac9_exec(fp.as_slice()) as u128;
        assert(s * 1_000_000_000 + f <= u64::MAX * 1_000_000_000 + 1_000_000_000) by (nonlinear_arith)
            requires
                s <= u64::MAX,
                f < 1_000_000_000,
        ;
        s * 1_000_000_000 + f
    } else {
        0
    };
    let m = dec_saturating(left.as_slice()) as u128;
    assert(m * 60 * 1_000_000_000 + secs <= u128::MAX) by (nonlinear_arith)
        requires
            m <= u64::MAX,
            secs <= u64::MAX * 1_000_000_000 + 1_000_000_000,
    ;
    Some(m * 60 * 1_000_000_000 + secs)
}

/// The credit prefix at `i`.
pub fn credit_prefix(i: usize) -> (r: &'static str)
    requires
        i < 24,
    ensures
        r@ == credit_prefixes()[i as int],
{
    match i {
        0 => "Lyrics by",
        1 => "Composed by",
        2 => "Produced by",
        3 => "Published by",
        4 => "Vocals by",
        5 => "Background Vocals by",
        6 => "Additional Vocal by",
        7 => "Mixing Engineer",
        8 => "Mastered by",
        9 => "Executive Producer",
        10 => "Vocal Engineer",
        11 => "Vocals Produced by",
        12 => "Recorded at",
        13 => "Repertoire Owner",
        14 => "Written by",
        15 => "Arranged by",
        16 => "Music by",
        17 => "Words by",
        18 => "Lyrics",
        19 => "Composer",
        20 => "Lyricist",
        21 => "Arranger",
        22 => "Translator",
        _ => "Adapted by",
    }
}

fn credit_match_exec(text: &[char], prefix: &[char]) -> (r: bool)
    ensures
        r == credit_match(text@, prefix@),
{
    let n = text.len();
    let m = prefix.len();
    if m >= n {
        return false;
    }
    let mut k: usize = 0;
    while k < m
        invariant
            m < n == text@.len(),
            m == prefix@.len(),
            k <= m,
            forall|j: int| 0 <= j < k ==> ascii_lower(text@[j]) == ascii_lower(prefix@[j]),
        decreases m - k,
    {
        if to_ascii_lower(text[k]) != to_ascii_lower(prefix[k]) {
            assert(text@.take(m as int)[k as int] == text@[k as int]);
            return false;
        }
        k = k + 1;
    }
    assert(eq_ignore_ascii_case(text@.take(m as int), prefix@)) by {
        assert forall|j: int| 0 <= j < m implies ascii_lower(#[trigger] text@.take(m as int)[j])
            == ascii_lower(prefix@[j]) by {
            assert(text@.take(m as int)[j] == text@[j]);
        }
    }
    text[m] == ':' || text[m] == '\u{FF1A}'
}

fn is_credit_exec(text: &[char]) -> (r: bool)
    ensures
        r == is_credit(text@),
{
    let (a, _b) = trim_bounds(text);
    let t = copy_range(text, a, text.len());
    let mut i: usize = 0;
    while i < 24
        invariant
            i <= 24,
            t@ == trim_start(text@),
            forall|j: int|
                0 <= j < i ==> !credit_match(t@, #[trigger] credit_prefixes()[j]),
        decreases 24 - i,
    {
        let p = chars_of(credit_prefix(i));
        if credit_match_exec(t.as_slice(), p.as_slice()) {
            return true;
        }
        i = i + 1;
    }
    false
}

fn has_alphabetic(s: &[char]) -> (r: bool)
    ensures
        r == exists|i: int| 0 <= i < s@.len() && alphabetic(s@[i]),
{
    let mut i: usize = 0;
    while i < s.len()
        invariant
            i <= s@.len(),
            forall|j: int| 0 <= j < i ==> !alphabetic(#[trigger] s@[j]),
        decreases s.len() - i,
    {
        if is_alphabetic(s[i]) {
            assert(0 <= i < s@.len() && alphabetic(s@[i as int]));
            return true;
        }
        i = i + 1;
    }
    false
}

/// Whether a line is kept by the sanitizer, and the new state of the
/// "first time tag seen" flag.
pub fn keep_line(line: &[char], seen: bool) -> (r: (bool, bool))
    ensures
        r == kept_by(line@, seen),
{
    let (a, b) = trim_bounds(line);
    let t = copy_range(line, a, b);
    if t.len() > 0 && t[0] == '[' {
        let rest = copy_range(t.as_slice(), 1, t.len());
        assert(rest@ =~= t@.drop_first());
        assert(rest@.skip(0) =~= rest@);
        if let Some(e) = find_char(rest.as_slice(), ']', 0) {
            let content = copy_range(rest.as_slice(), 0, e);
            let text = copy_range(rest.as_slice(), e + 1, rest.len());
            assert(content@ =~= rest@.take(e as int));
            assert(text@ =~= rest@.skip(e + 1));
            match tag_time_exec(content.as_slice()) {
                Some(v) => {
                    if !seen {
                        let dash = chars_of(" - ");
                        if v < TITLE_HEADER_MAX_NANOS && crate::text::contains_exec(
                            text.as_slice(),
                            dash.as_slice(),
                        ) && has_alphabetic(text.as_slice()) {
                            return (false, true);
                        }
                        return (!is_credit_exec(text.as_slice()), true);
                    }
                    return (!is_credit_exec(text.as_slice()), seen);
                },
                None => {
                    assert(content@.skip(0) =~= content@);
                    match find_char(content.as_slice(), ':', 0) {
                        Some(c) => {
                            let key = copy_range(content.as_slice(), 0, c);
                            let offset = chars_of("offset");
                            if seq_equal(key.as_slice(), offset.as_slice()) {
                                return (!is_credit_exec(text.as_slice()), seen);
                            }
                            return (false, seen);
                        },
                        None => {
                            return (false, seen);
                        },
                    }
                },
            }
        }
    }
    (!is_credit_exec(t.as_slice()), seen)
}

/// Sanitizes LRC text in one pass: drops metadata tags other than
/// `[offset:...]`, the first time-tagged line when it is timed under five
/// seconds and reads "Artist - Title", and lines that are credits.
pub fn sanitize_lrc(lrc: &str) -> (r: String)
    ensures
        r@ == sanitized(lrc@),
{
    let chars = chars_of(lrc);
    let ls = lines_exec(chars.as_slice());
    let ghost lsv = views(ls@);
    let mut kept: Vec<Vec<char>> = Vec::new();
    let mut seen = false;
    let mut i: usize = 0;
    while i < ls.len()
        invariant
            i <= ls@.len(),
            lsv == views(ls@),
            lsv.len() == ls@.len(),
            views(kept@) == kept_lines(lsv, i as int),
            seen == header_seen(lsv, i as int),
        decreases ls.len() - i,
    {
        let (keep, next) = keep_line(ls[i].as_slice(), seen);
        assert(lsv[i as int] == ls@[i as int]@);
        if keep {
            let copy = copy_range(ls[i].as_slice(), 0, ls[i].len());
            assert(copy@ =~= ls@[i as int]@);
            kept.push(copy);
            assert(views(kept@) =~= kept_lines(lsv, i as int).push(lsv[i as int]));
        }
        seen = next;
        i = i + 1;
    }
    let nl = chars_of("\n");
    let joined = join_exec(&kept, nl.as_slice());
    string_of(joined.as_slice())
}

/// A bracketed section label, ASCII case ignored, up to its closing bracket.
pub const BRACKETED_LABEL_PATTERN: &'static str = r"(?i)\[(?:verse|pre[- ]?verse|chorus|pre[- ]?chorus|post[- ]?chorus|bridge|hook|refrain|intro|outro|coda|interlude|instrumental|breakdown|solo|drop|chant|skit|ad-?lib|overture|finale|couplet)\b[^\]]*\]";

/// A line with its bracketed labels removed, pairs of spaces made single,
/// and trimmed (on both ends when it opened with a bracket, at its end
/// otherwise).
pub open spec fn unlabelled_line(line: Seq<char>) -> Seq<char> {
    let c = single_spaced(re_remove_all(BRACKETED_LABEL_PATTERN@, line));
    if opens_with_bracket(line) {
        trim(c)
    } else {
        trim_end(c)
    }
}

pub open spec fn unlabelled_lines(ls: Seq<Seq<char>>, n: int) -> Seq<Seq<char>>
    decreases n,
{
    if n <= 0 {
        seq![]
    } else {
        let prev = unlabelled_lines(ls, n - 1);
        let c = unlabelled_line(ls[n - 1]);
        if trim(c).len() > 0 {
            prev.push(c)
        } else {
            prev
        }
    }
}

/// Lyrics with bracketed section labels removed line by line; lines left
/// blank go.
pub open spec fn bracket_labels_stripped(s: Seq<char>) -> Seq<char> {
    join(unlabelled_lines(lines(s), lines(s).len() as int), "\n"@)
}

pub fn strip_section_labels(lyrics: &str) -> (r: String)
    ensures
        r@ == bracket_labels_stripped(lyrics@),
{
    let ls = lines_exec(chars_of(lyrics).as_slice());
    let ghost lv = views(ls@);
    assert(lv =~= ls@.map_values(|l: Vec<char>| l@));
    let mut out: Vec<Vec<char>> = Vec::new();
    let mut i: usize = 0;
    while i < ls.len()
        invariant
            i <= ls@.len() == lv.len(),
            lv == views(ls@),
            views(out@) == unlabelled_lines(lv, i as int),
        decreases ls.len() - i,
    {
        assert(lv[i as int] == ls@[i as int]@);
        let line = string_of(ls[i].as_slice());
        let removed = chars_of(remove_all(BRACKETED_LABEL_PATTERN, line.as_str()).as_str());
        let c = single_spaced_exec(removed.as_slice());
        let cleaned = if opens_with_bracket_exec(ls[i].as_slice()) {
            trim_vec(c.as_slice())
        } else {
            trim_end_vec(c.as_slice())
        };
        if trim_vec(cleaned.as_slice()).len() > 0 {
            let ghost before = views(out@);
            out.push(cleaned);
            assert(views(out@) =~= before.push(cleaned@));
        }
        i = i + 1;
    }
    let nl = chars_of("\n");
    let joined = join_exec(&out, nl.as_slice());
    string_of(joined.as_slice())
}

} // verus!
