//! LRC: line parsing, word-tag stripping, the sanitizer that drops metadata,
//! credits, title headers and noise blank lines, and instrumental/synced
//! detection.
//!
//! A time tag `[mm:ss.ff]` is held as a whole number of nanoseconds: the
//! fraction keeps its first nine digits, and minutes or whole seconds above
//! `u64::MAX` count as `u64::MAX`.
use vstd::prelude::*;
use crate::num::{pad2, push_pad2, all_digits_exec, dec, dec_saturating, frac9, frac9_exec, is_ascii_digit, sat_u64};
use crate::text::{
    is_subsequence, lemma_subsequence_extend, lemma_subsequence_trans,
    all_digits, chars_of, contains_seq, copy_range, eq_ignore_ascii_case, find_char, find_seq,
    index_of, is_digit, is_whitespace, is_ws, join, join_exec, lead, lines, lines_exec, push_all,
    string_of, to_ascii_lower, trim, trim_bounds, trim_start, views, ws_pred, ascii_lower,
    lemma_lead_unique, occurs_at, contains_char, contains_char_exec, strip_cr, trail,
};
use crate::unicode::{alphabetic, is_alphabetic, lowercase, to_lowercase};

verus! {

/// Nanoseconds in a second.
pub const NANOS_PER_SEC: u128 = 1_000_000_000;

/// A leading "Artist - Title" header is only dropped when its time tag is
/// under this many nanoseconds (five seconds).
pub const TITLE_HEADER_MAX_NANOS: u128 = 5_000_000_000;

/// A blank (timestamp-only) line is kept only when the next line starts at
/// least this many nanoseconds (five seconds) later.
pub const BLANK_GAP_MIN_NANOS: u128 = 5_000_000_000;

/// More than this many timed lines means the track has real lyrics.
pub const MAX_INSTRUMENTAL_TIMED_LINES: usize = 3;

pub open spec fn bom_pred() -> spec_fn(char) -> bool {
    |c: char| c == '\u{feff}'
}

/// The line without its leading byte-order marks, then trimmed.
pub open spec fn line_core(line: Seq<char>) -> Seq<char> {
    trim(line.skip(lead(line, bom_pred()) as int))
}

/// The value of a `mm:ss.ff` time tag in nanoseconds, or `None` when the
/// bracket content is not a time tag.
pub open spec fn time_tag(content: Seq<char>) -> Option<int> {
    match index_of(content, ':') {
        None => None,
        Some(c) => {
            let left = content.take(c);
            let right = content.skip(c + 1);
            match index_of(right, '.') {
                None => None,
                Some(d) => {
                    let ip = right.take(d);
                    let fp = right.skip(d + 1);
                    if left.len() > 0 && all_digits(left) && all_digits(ip) && all_digits(fp) && ip.len()
                        + fp.len() > 0 {
                        Some(
                            ((sat_u64(dec(left)) * 60 + sat_u64(dec(ip))) * 1_000_000_000 + frac9(
                                fp,
                            )) as int,
                        )
                    } else {
                        None
                    }
                },
            }
        },
    }
}

/// A line that opens with a bracket: the time tag it holds, if any, and the
/// text after the closing bracket.
pub open spec fn parse_line(line: Seq<char>) -> Option<(Option<int>, Seq<char>)> {
    let t = line_core(line);
    if t.len() > 0 && t[0] == '[' {
        let rest = t.drop_first();
        match index_of(rest, ']') {
            None => None,
            Some(e) => Some((time_tag(rest.take(e)), rest.skip(e + 1))),
        }
    } else {
        None
    }
}

/// `<` followed by a digit up to the next `>` is a word timing tag.
pub open spec fn strip_tags(s: Seq<char>) -> Seq<char>
    decreases s.len(),
{
    match index_of(s, '<') {
        None => s,
        Some(i) => {
            if 0 <= i < s.len() {
                let after = s.skip(i + 1);
                if after.len() > 0 && is_digit(after[0]) && index_of(after, '>') is Some {
                    let j = index_of(after, '>')->0;
                    if 0 <= j < after.len() {
                        s.take(i) + strip_tags(after.skip(j + 1))
                    } else {
                        s
                    }
                } else {
                    s.take(i + 1) + strip_tags(after)
                }
            } else {
                s
            }
        },
    }
}

pub open spec fn line_time(line: Seq<char>) -> Option<int> {
    match parse_line(line) {
        Some((Some(t), _)) => Some(t),
        _ => None,
    }
}

pub open spec fn is_timed_line(line: Seq<char>) -> bool {
    line_time(line) is Some
}

/// A time-tagged line whose text, without word tags, is blank.
pub open spec fn is_blank_timed(line: Seq<char>) -> bool {
    match parse_line(line) {
        Some((Some(_), text)) => trim(strip_tags(text)).len() == 0,
        _ => false,
    }
}

/// Text of the form "Artist - Title".
pub open spec fn is_title_header(text: Seq<char>) -> bool {
    let plain = strip_tags(text);
    contains_seq(plain, " - "@) && exists|i: int| 0 <= i < plain.len() && alphabetic(plain[i])
}

/// The bracket content of a tag line, up to the first `]`.
pub open spec fn tag_content(line: Seq<char>) -> Seq<char> {
    if line.len() > 0 && line[0] == '[' {
        let rest = line.drop_first();
        match index_of(rest, ']') {
            Some(e) => rest.take(e),
            None => rest,
        }
    } else {
        seq![]
    }
}

/// A tag line other than `[offset:...]`.
pub open spec fn is_droppable_metadata(line: Seq<char>) -> bool {
    let content = tag_content(line);
    match index_of(content, ':') {
        Some(c) => content.take(c) != "offset"@,
        None => true,
    }
}

pub open spec fn credit_prefixes() -> Seq<Seq<char>> {
    seq![
        "Lyrics by"@,
        "Composed by"@,
        "Produced by"@,
        "Published by"@,
        "Vocals by"@,
        "Background Vocals by"@,
        "Additional Vocal by"@,
        "Mixing Engineer"@,
        "Mastered by"@,
        "Executive Producer"@,
        "Vocal Engineer"@,
        "Vocals Produced by"@,
        "Recorded at"@,
        "Repertoire Owner"@,
        "Written by"@,
        "Arranged by"@,
        "Music by"@,
        "Words by"@,
        "Lyrics"@,
        "Composer"@,
        "Lyricist"@,
        "Producers"@,
        "Writers"@,
        "Arranger"@,
        "Translator"@,
        "Adapted by"@,
        "作词"@,
        "作曲"@,
        "编曲"@,
        "制作人"@,
        "录音"@,
        "混音"@,
        "母带"@,
        "出品人"@,
        "翻译"@,
    ]
}

pub open spec fn space_pred() -> spec_fn(char) -> bool {
    |c: char| c == ' '
}

/// `plain` opens with `prefix` (ASCII case ignored), then optional spaces and
/// a colon, ASCII or fullwidth.
pub open spec fn credit_match(plain: Seq<char>, prefix: Seq<char>) -> bool {
    prefix.len() <= plain.len() && eq_ignore_ascii_case(plain.take(prefix.len() as int), prefix)
        && {
        let rest = plain.skip(prefix.len() as int);
        let r2 = rest.skip(lead(rest, space_pred()) as int);
        r2.len() > 0 && (r2[0] == ':' || r2[0] == '\u{FF1A}')
    }
}

/// A credit such as "Lyrics by: Someone" (word tags ignored).
pub open spec fn is_credit_line(text: Seq<char>) -> bool {
    let plain = trim_start(strip_tags(text));
    exists|i: int| 0 <= i < credit_prefixes().len() && credit_match(plain, credit_prefixes()[i])
}

/// Whether a line survives the first sanitizing pass, and whether the first
/// time tag has been seen after it.
pub open spec fn keep_line(line: Seq<char>, seen: bool) -> (bool, bool) {
    let trimmed = line_core(line);
    match parse_line(trimmed) {
        Some((Some(secs), text)) => {
            if !seen && secs < TITLE_HEADER_MAX_NANOS && is_title_header(text) {
                (false, true)
            } else {
                (!is_credit_line(text), true)
            }
        },
        Some((None, _)) => (!is_droppable_metadata(trimmed), seen),
        None => (!is_credit_line(trimmed), seen),
    }
}

/// Whether the first time tag has been seen after the first `n` lines.
pub open spec fn seen_after(ls: Seq<Seq<char>>, n: int) -> bool
    decreases n,
{
    if n <= 0 {
        false
    } else {
        keep_line(ls[n - 1], seen_after(ls, n - 1)).1
    }
}

/// The lines among the first `n` that the first pass keeps.
pub open spec fn kept_lines(ls: Seq<Seq<char>>, n: int) -> Seq<Seq<char>>
    decreases n,
{
    if n <= 0 {
        seq![]
    } else {
        let prev = kept_lines(ls, n - 1);
        if keep_line(ls[n - 1], seen_after(ls, n - 1)).0 {
            prev.push(ls[n - 1])
        } else {
            prev
        }
    }
}

/// A blank timed line at `i` survives only when the next line is timed at
/// least five seconds later.
pub open spec fn keep_after_gap(k: Seq<Seq<char>>, i: int) -> bool {
    !is_blank_timed(k[i]) || (i + 1 < k.len() && match (line_time(k[i]), line_time(k[i + 1])) {
        (Some(start), Some(end)) => end - start >= BLANK_GAP_MIN_NANOS,
        _ => false,
    })
}

pub open spec fn gap_filtered(k: Seq<Seq<char>>, n: int) -> Seq<Seq<char>>
    decreases n,
{
    if n <= 0 {
        seq![]
    } else {
        let prev = gap_filtered(k, n - 1);
        if keep_after_gap(k, n - 1) {
            prev.push(k[n - 1])
        } else {
            prev
        }
    }
}

/// The lines of a sanitized LRC text.
pub open spec fn sanitized_lines(s: Seq<char>) -> Seq<Seq<char>> {
    let ls = lines(s);
    let k = kept_lines(ls, ls.len() as int);
    gap_filtered(k, k.len() as int)
}

pub open spec fn sanitized(s: Seq<char>) -> Seq<char> {
    join(sanitized_lines(s), "\n"@)
}

proof fn lemma_kept_lines_subsequence(ls: Seq<Seq<char>>, n: int)
    requires
        0 <= n <= ls.len(),
    ensures
        is_subsequence(kept_lines(ls, n), ls.take(n)),
    decreases n,
{
    if n > 0 {
        lemma_kept_lines_subsequence(ls, n - 1);
        assert(ls.take(n).drop_last() =~= ls.take(n - 1));
        if !keep_line(ls[n - 1], seen_after(ls, n - 1)).0 {
            lemma_subsequence_extend(kept_lines(ls, n - 1), ls.take(n));
        } else {
            assert(kept_lines(ls, n).drop_last() =~= kept_lines(ls, n - 1));
            assert(kept_lines(ls, n).last() == ls.take(n).last());
        }
    }
}

proof fn lemma_gap_filtered_subsequence(k: Seq<Seq<char>>, n: int)
    requires
        0 <= n <= k.len(),
    ensures
        is_subsequence(gap_filtered(k, n), k.take(n)),
    decreases n,
{
    if n > 0 {
        lemma_gap_filtered_subsequence(k, n - 1);
        assert(k.take(n).drop_last() =~= k.take(n - 1));
        if !keep_after_gap(k, n - 1) {
            lemma_subsequence_extend(gap_filtered(k, n - 1), k.take(n));
        } else {
            assert(gap_filtered(k, n).drop_last() =~= gap_filtered(k, n - 1));
            assert(gap_filtered(k, n).last() == k.take(n).last());
        }
    }
}

/// Sanitizing only drops lines: the lines of sanitized lyrics are lines of
/// the input, unchanged and in their order.
pub proof fn sanitizing_only_drops_lines(s: Seq<char>)
    ensures
        is_subsequence(sanitized_lines(s), lines(s)),
{
    let ls = lines(s);
    let k = kept_lines(ls, ls.len() as int);
    lemma_kept_lines_subsequence(ls, ls.len() as int);
    assert(ls.take(ls.len() as int) =~= ls);
    lemma_gap_filtered_subsequence(k, k.len() as int);
    assert(k.take(k.len() as int) =~= k);
    lemma_subsequence_trans(gap_filtered(k, k.len() as int), k, ls);
}

/// Line `i` of the kept lines when it stays: see `keep_after_gap`.
pub open spec fn gap_kept(k: Seq<Seq<char>>) -> spec_fn(int) -> Option<Seq<char>> {
    |i: int| if keep_after_gap(k, i) {
        Some(k[i])
    } else {
        None
    }
}

proof fn lemma_gap_filtered_is_filter(k: Seq<Seq<char>>, n: int)
    requires
        0 <= n <= k.len(),
    ensures
        gap_filtered(k, n) == Seq::new(n as nat, |i: int| i).filter_map(gap_kept(k)),
    decreases n,
{
    if n > 0 {
        lemma_gap_filtered_is_filter(k, n - 1);
        let idx = Seq::new(n as nat, |i: int| i);
        assert(idx.drop_last() =~= Seq::new((n - 1) as nat, |i: int| i));
        assert(idx.last() == n - 1);
        if keep_after_gap(k, n - 1) {
            assert(gap_filtered(k, n) =~= gap_filtered(k, n - 1) + seq![k[n - 1]]);
        }
    }
}

/// What sanitizing keeps, line by line: of the lines that pass the
/// metadata, credit and title-header filter, in order, each one, except a
/// blank timed line (a time tag with nothing but whitespace and word tags
/// after it) that is not followed by a timed line at least five seconds
/// later. The lines kept are joined by `\n`, each as it was in the input.
pub proof fn sanitizing_drops_blank_lines_without_a_pause(s: Seq<char>)
    ensures
        ({
            let ls = lines(s);
            let k = kept_lines(ls, ls.len() as int);
            &&& sanitized_lines(s) == Seq::new(k.len(), |i: int| i).filter_map(gap_kept(k))
            &&& sanitized(s) == join(sanitized_lines(s), "\n"@)
            &&& forall|i: int|
                0 <= i < k.len() ==> (#[trigger] keep_after_gap(k, i) <==> !is_blank_timed(k[i]) || (
                i + 1 < k.len() && line_time(k[i]) is Some && line_time(k[i + 1]) is Some
                    && line_time(k[i + 1])->0 - line_time(k[i])->0 >= BLANK_GAP_MIN_NANOS))
        }),
{
    let ls = lines(s);
    let k = kept_lines(ls, ls.len() as int);
    lemma_gap_filtered_is_filter(k, k.len() as int);
}

pub open spec fn count_timed(ls: Seq<Seq<char>>, n: int) -> nat
    decreases n,
{
    if n <= 0 {
        0
    } else {
        count_timed(ls, n - 1) + if is_timed_line(ls[n - 1]) {
            1nat
        } else {
            0nat
        }
    }
}

pub open spec fn instrumental_markers() -> Seq<Seq<char>> {
    seq!["instrumental"@, "纯音乐"@, "no lyrics"@]
}

/// Whether a lowercased text holds one of the instrumental markers.
pub open spec fn has_marker(lowered: Seq<char>) -> bool {
    exists|i: int| 0 <= i < 3 && contains_seq(lowered, instrumental_markers()[i])
}

// ---------------------------------------------------------------------------
fn skip_boms(s: &[char]) -> (r: usize)
    ensures
        r == lead(s@, bom_pred()),
        r <= s@.len(),
{
    let mut a: usize = 0;
    while a < s.len() && s[a] == '\u{feff}'
        invariant
            a <= s@.len(),
            forall|j: int| 0 <= j < a ==> #[trigger] s@[j] == '\u{feff}',
        decreases s.len() - a,
    {
        a = a + 1;
    }
    proof {
        lemma_lead_unique(s@, bom_pred(), a as int);
    }
    a
}

/// The line without leading byte-order marks, trimmed.
pub fn core_of(line: &[char]) -> (r: Vec<char>)
    ensures
        r@ == line_core(line@),
{
    let a = skip_boms(line);
    let rest = copy_range(line, a, line.len());
    assert(rest@ =~= line@.skip(a as int));
    let (x, y) = trim_bounds(rest.as_slice());
    copy_range(rest.as_slice(), x, y)
}

/// The value of the bracket content as a time tag, in nanoseconds.
pub fn time_tag_exec(content: &[char]) -> (r: Option<u128>)
    ensures
        match r {
            Some(v) => time_tag(content@) == Some(v as int),
            None => time_tag(content@) is None,
        },
{
    let n = content.len();
    assert(content@.skip(0) =~= content@);
    let c = match find_char(content, ':', 0) {
        None => return None,
        Some(c) => c,
    };
    let left = copy_range(content, 0, c);
    let right = copy_range(content, c + 1, n);
    assert(right@ =~= content@.skip(c + 1));
    let d = match find_char(right.as_slice(), '.', 0) {
        None => {
            assert(right@.skip(0) =~= right@);
            return None;
        },
        Some(d) => d,
    };
    assert(right@.skip(0) =~= right@);
    let ip = copy_range(right.as_slice(), 0, d);
    let fp = copy_range(right.as_slice(), d + 1, right.len());
    assert(fp@ =~= right@.skip(d + 1));
    if left.len() > 0 && all_digits_exec(left.as_slice()) && all_digits_exec(ip.as_slice())
        && all_digits_exec(fp.as_slice()) && ip.len() + fp.len() > 0 {
        let m = dec_saturating(left.as_slice()) as u128;
        let s = dec_saturating(ip.as_slice()) as u128;
        let f = frac9_exec(fp.as_slice()) as u128;
        assert((m * 60 + s) * 1_000_000_000 + f <= u128::MAX) by (nonlinear_arith)
            requires
                m <= u64::MAX,
                s <= u64::MAX,
                f < 1_000_000_000,
        ;
        Some((m * 60 + s) * 1_000_000_000 + f)
    } else {
        None
    }
}

/// A parsed line: the time tag it holds, if any, and the text after the tag.
pub struct ParsedLine {
    pub time: Option<u128>,
    pub text: Vec<char>,
}

pub open spec fn parsed_view(p: Option<ParsedLine>) -> Option<(Option<int>, Seq<char>)> {
    match p {
        None => None,
        Some(p) => Some(
            (
                match p.time {
                    Some(t) => Some(t as int),
                    None => None,
                },
                p.text@,
            ),
        ),
    }
}

pub fn parse_line_exec(line: &[char]) -> (r: Option<ParsedLine>)
    ensures
        parsed_view(r) == parse_line(line@),
{
    let t = core_of(line);
    if t.len() > 0 && t[0] == '[' {
        let rest = copy_range(t.as_slice(), 1, t.len());
        assert(rest@ =~= t@.drop_first());
        assert(rest@.skip(0) =~= rest@);
        match find_char(rest.as_slice(), ']', 0) {
            None => None,
            Some(e) => {
                let content = copy_range(rest.as_slice(), 0, e);
                let text = copy_range(rest.as_slice(), e + 1, rest.len());
                assert(content@ =~= rest@.take(e as int));
                assert(text@ =~= rest@.skip(e + 1));
                let time = time_tag_exec(content.as_slice());
                Some(ParsedLine { time, text })
            },
        }
    } else {
        None
    }
}

/// The text with word timing tags (`<` followed by a digit, up to `>`) removed.
pub fn strip_tags_exec(s: &[char]) -> (r: Vec<char>)
    ensures
        r@ == strip_tags(s@),
{
    let mut out: Vec<char> = Vec::new();
    let mut pos: usize = 0;
    let n = s.len();
    assert(s@.skip(0) =~= s@);
    while pos < n
        invariant
            pos <= n == s@.len(),
            out@ + strip_tags(s@.skip(pos as int)) == strip_tags(s@),
        decreases n - pos,
    {
        let ghost t = s@.skip(pos as int);
        match find_char(s, '<', pos) {
            None => {
                let tail = copy_range(s, pos, n);
                assert(tail@ =~= t);
                push_all(&mut out, tail.as_slice());
                assert(s@.skip(n as int) =~= Seq::<char>::empty());
                assert(strip_tags(Seq::<char>::empty()) =~= Seq::<char>::empty()) by {
                    assert(index_of(Seq::<char>::empty(), '<') is None);
                }
                pos = n;
            },
            Some(i) => {
                let ghost k = (i - pos) as int;
                assert(t.skip(k + 1) =~= s@.skip(i + 1));
                let mut closed: Option<usize> = None;
                if i + 1 < n && is_ascii_digit(s[i + 1]) {
                    closed = find_char(s, '>', i + 1);
                }
                proof {
                    let after = t.skip(k + 1);
                    assert(after.len() > 0 ==> after[0] == s@[i + 1]);
                }
                match closed {
                    Some(j) => {
                        let head = copy_range(s, pos, i);
                        assert(head@ =~= t.take(k));
                        push_all(&mut out, head.as_slice());
                        proof {
                            let after = t.skip(k + 1);
                            let jj = (j - (i + 1)) as int;
                            assert(after.skip(jj + 1) =~= s@.skip(j + 1));
                        }
                        pos = j + 1;
                    },
                    None => {
                        let head = copy_range(s, pos, i + 1);
                        assert(head@ =~= t.take(k + 1));
                        push_all(&mut out, head.as_slice());
                        pos = i + 1;
                    },
                }
            },
        }
    }
    assert(s@.skip(n as int) =~= Seq::<char>::empty());
    assert(strip_tags(Seq::<char>::empty()) =~= Seq::<char>::empty()) by {
        assert(index_of(Seq::<char>::empty(), '<') is None);
    }
    assert(out@ + Seq::<char>::empty() =~= out@);
    out
}


/// Whether two character sequences are equal.
pub fn seq_equal(a: &[char], b: &[char]) -> (r: bool)
    ensures
        r == (a@ == b@),
{
    if a.len() != b.len() {
        return false;
    }
    let mut i: usize = 0;
    while i < a.len()
        invariant
            i <= a@.len() == b@.len(),
            forall|j: int| 0 <= j < i ==> a@[j] == b@[j],
        decreases a.len() - i,
    {
        if a[i] != b[i] {
            return false;
        }
        i = i + 1;
    }
    assert(a@ =~= b@);
    true
}

pub fn line_time_exec(line: &[char]) -> (r: Option<u128>)
    ensures
        match r {
            Some(t) => line_time(line@) == Some(t as int),
            None => line_time(line@) is None,
        },
{
    match parse_line_exec(line) {
        Some(p) => p.time,
        None => None,
    }
}

pub fn is_blank_timed_exec(line: &[char]) -> (r: bool)
    ensures
        r == is_blank_timed(line@),
{
    match parse_line_exec(line) {
        Some(p) => {
            if p.time.is_some() {
                let plain = strip_tags_exec(p.text.as_slice());
                let (a, b) = trim_bounds(plain.as_slice());
                a == b
            } else {
                false
            }
        },
        None => false,
    }
}

fn is_title_header_exec(text: &[char]) -> (r: bool)
    ensures
        r == is_title_header(text@),
{
    let plain = strip_tags_exec(text);
    let dash = chars_of(" - ");
    if !crate::text::contains_exec(plain.as_slice(), dash.as_slice()) {
        return false;
    }
    let mut i: usize = 0;
    while i < plain.len()
        invariant
            i <= plain@.len(),
            plain@ == strip_tags(text@),
            contains_seq(plain@, " - "@),
            forall|j: int| 0 <= j < i ==> !alphabetic(#[trigger] plain@[j]),
        decreases plain.len() - i,
    {
        if is_alphabetic(plain[i]) {
            assert(0 <= i < plain@.len() && alphabetic(plain@[i as int]));
            return true;
        }
        i = i + 1;
    }
    false
}

fn is_droppable_metadata_exec(line: &[char]) -> (r: bool)
    ensures
        r == is_droppable_metadata(line@),
{
    let content: Vec<char> = if line.len() > 0 && line[0] == '[' {
        let rest = copy_range(line, 1, line.len());
        assert(rest@ =~= line@.drop_first());
        assert(rest@.skip(0) =~= rest@);
        match find_char(rest.as_slice(), ']', 0) {
            Some(e) => copy_range(rest.as_slice(), 0, e),
            None => rest,
        }
    } else {
        Vec::new()
    };
    assert(content@ =~= tag_content(line@));
    assert(content@.skip(0) =~= content@);
    match find_char(content.as_slice(), ':', 0) {
        Some(c) => {
            let key = copy_range(content.as_slice(), 0, c);
            let offset = chars_of("offset");
            !seq_equal(key.as_slice(), offset.as_slice())
        },
        None => true,
    }
}

/// The credit prefix at `i` in the list above.
pub fn credit_prefix(i: usize) -> (r: &'static str)
    requires
        i < 35,
    ensures
        r@ == credit_prefixes()[i as int],
{
    match i {
        0 => "Lyrics by",
        1 => "Composed by",
        2 => "Produced by",
        3 => "Published by",
        4 => "Vocals by",
        5 => "Background Vocals by",
        6 => "Additional Vocal by",
        7 => "Mixing Engineer",
        8 => "Mastered by",
        9 => "Executive Producer",
        10 => "Vocal Engineer",
        11 => "Vocals Produced by",
        12 => "Recorded at",
        13 => "Repertoire Owner",
        14 => "Written by",
        15 => "Arranged by",
        16 => "Music by",
        17 => "Words by",
        18 => "Lyrics",
        19 => "Composer",
        20 => "Lyricist",
        21 => "Producers",
        22 => "Writers",
        23 => "Arranger",
        24 => "Translator",
        25 => "Adapted by",
        26 => "作词",
        27 => "作曲",
        28 => "编曲",
        29 => "制作人",
        30 => "录音",
        31 => "混音",
        32 => "母带",
        33 => "出品人",
        _ => "翻译",
    }
}

fn credit_match_exec(plain: &[char], prefix: &[char]) -> (r: bool)
    ensures
        r == credit_match(plain@, prefix@),
{
    let n = plain.len();
    let m = prefix.len();
    if m > n {
        return false;
    }
    let mut k: usize = 0;
    while k < m
        invariant
            m <= n == plain@.len(),
            m == prefix@.len(),
            k <= m,
            forall|j: int| 0 <= j < k ==> ascii_lower(plain@[j]) == ascii_lower(prefix@[j]),
        decreases m - k,
    {
        if to_ascii_lower(plain[k]) != to_ascii_lower(prefix[k]) {
            assert(plain@.take(m as int)[k as int] == plain@[k as int]);
            return false;
        }
        k = k + 1;
    }
    assert(eq_ignore_ascii_case(plain@.take(m as int), prefix@)) by {
        assert forall|j: int| 0 <= j < m implies ascii_lower(#[trigger] plain@.take(m as int)[j])
            == ascii_lower(prefix@[j]) by {
            assert(plain@.take(m as int)[j] == plain@[j]);
        }
    }
    let mut j = m;
    while j < n && plain[j] == ' '
        invariant
            m <= j <= n == plain@.len(),
            forall|q: int| m <= q < j ==> #[trigger] plain@[q] == ' ',
        decreases n - j,
    {
        j = j + 1;
    }
    proof {
        let rest = plain@.skip(m as int);
        assert forall|q: int| 0 <= q < j - m implies #[trigger] space_pred()(rest[q]) by {
            assert(rest[q] == plain@[q + m]);
        }
        if j < n {
            assert(rest[j - m] == plain@[j as int]);
        }
        lemma_lead_unique(rest, space_pred(), j - m);
        let r2 = rest.skip(j - m);
        if j < n {
            assert(r2[0] == plain@[j as int]);
        }
    }
    j < n && (plain[j] == ':' || plain[j] == '\u{FF1A}')
}

fn is_credit_line_exec(text: &[char]) -> (r: bool)
    ensures
        r == is_credit_line(text@),
{
    let stripped = strip_tags_exec(text);
    let (a, _b) = trim_bounds(stripped.as_slice());
    let plain = copy_range(stripped.as_slice(), a, stripped.len());
    let mut i: usize = 0;
    while i < 35
        invariant
            i <= 35,
            plain@ == trim_start(strip_tags(text@)),
            forall|j: int| 0 <= j < i ==> !credit_match(plain@, #[trigger] credit_prefixes()[j]),
        decreases 35 - i,
    {
        let p = chars_of(credit_prefix(i));
        if credit_match_exec(plain.as_slice(), p.as_slice()) {
            return true;
        }
        i = i + 1;
    }
    false
}

/// Whether a line survives the first sanitizing pass, and the new state of
/// the "first time tag seen" flag.
pub fn keep_line_exec(line: &[char], seen: bool) -> (r: (bool, bool))
    ensures
        r == keep_line(line@, seen),
{
    let trimmed = core_of(line);
    match parse_line_exec(trimmed.as_slice()) {
        Some(p) => match p.time {
            Some(secs) => {
                if !seen && secs < TITLE_HEADER_MAX_NANOS && is_title_header_exec(p.text.as_slice()) {
                    (false, true)
                } else {
                    (!is_credit_line_exec(p.text.as_slice()), true)
                }
            },
            None => (!is_droppable_metadata_exec(trimmed.as_slice()), seen),
        },
        None => (!is_credit_line_exec(trimmed.as_slice()), seen),
    }
}

/// The lines of `s` that survive both sanitizing passes.
pub fn sanitized_lines_exec(s: &[char]) -> (r: Vec<Vec<char>>)
    ensures
        views(r@) == sanitized_lines(s@),
{
    let ls = lines_exec(s);
    let ghost lsv = views(ls@);
    let mut kept: Vec<Vec<char>> = Vec::new();
    let mut seen = false;
    let mut i: usize = 0;
    while i < ls.len()
        invariant
            i <= ls@.len(),
            lsv == views(ls@),
            lsv.len() == ls@.len(),
            views(kept@) == kept_lines(lsv, i as int),
            seen == seen_after(lsv, i as int),
        decreases ls.len() - i,
    {
        let (keep, next) = keep_line_exec(ls[i].as_slice(), seen);
        assert(lsv[i as int] == ls@[i as int]@);
        if keep {
            let copy = copy_range(ls[i].as_slice(), 0, ls[i].len());
            assert(copy@ =~= ls@[i as int]@);
            kept.push(copy);
            assert(views(kept@) =~= kept_lines(lsv, i as int).push(lsv[i as int]));
        }
        seen = next;
        i = i + 1;
    }
    let ghost kv = views(kept@);
    let mut out: Vec<Vec<char>> = Vec::new();
    let mut i: usize = 0;
    while i < kept.len()
        invariant
            i <= kept@.len(),
            kv == views(kept@),
            kv.len() == kept@.len(),
            views(out@) == gap_filtered(kv, i as int),
        decreases kept.len() - i,
    {
        assert(kv[i as int] == kept@[i as int]@);
        let mut keep = true;
        if is_blank_timed_exec(kept[i].as_slice()) {
            keep = false;
            if i + 1 < kept.len() {
                assert(kv[i + 1] == kept@[i + 1]@);
                let start = line_time_exec(kept[i].as_slice());
                let end = line_time_exec(kept[i + 1].as_slice());
                match (start, end) {
                    (Some(a), Some(b)) => {
                        keep = b >= a && b - a >= BLANK_GAP_MIN_NANOS;
                    },
                    _ => {},
                }
            }
        }
        assert(keep == keep_after_gap(kv, i as int));
        if keep {
            let copy = copy_range(kept[i].as_slice(), 0, kept[i].len());
            assert(copy@ =~= kept@[i as int]@);
            out.push(copy);
            assert(views(out@) =~= gap_filtered(kv, i as int).push(kv[i as int]));
        }
        i = i + 1;
    }
    proof {
        assert(kv =~= kept_lines(lsv, lsv.len() as int));
    }
    out
}

/// Sanitizes an LRC text: drops metadata tags other than `[offset:...]`,
/// credit lines, a leading "Artist - Title" header timed under five seconds,
/// and blank timed lines not followed by a gap of at least five seconds.
pub fn sanitize(lrc: &str) -> (r: String)
    ensures
        r@ == sanitized(lrc@),
{
    let chars = chars_of(lrc);
    let out = sanitized_lines_exec(chars.as_slice());
    let nl = chars_of("\n");
    let joined = join_exec(&out, nl.as_slice());
    string_of(joined.as_slice())
}

/// Some line of the text opens with a time tag.
pub open spec fn synced_spec(s: Seq<char>) -> bool {
    exists|i: int| 0 <= i < lines(s).len() && is_timed_line(#[trigger] lines(s)[i])
}

/// Whether the text has at least one line that opens with a time tag.
pub fn is_synced(lyrics: &str) -> (r: bool)
    ensures
        r == synced_spec(lyrics@),
{
    let chars = chars_of(lyrics);
    let ls = lines_exec(chars.as_slice());
    let mut i: usize = 0;
    while i < ls.len()
        invariant
            i <= ls@.len(),
            views(ls@) == lines(lyrics@),
            forall|j: int| 0 <= j < i ==> !is_timed_line(#[trigger] lines(lyrics@)[j]),
        decreases ls.len() - i,
    {
        assert(lines(lyrics@)[i as int] == ls@[i as int]@);
        if line_time_exec(ls[i].as_slice()).is_some() {
            return true;
        }
        i = i + 1;
    }
    false
}

/// A carriage return at the end of a line changes nothing of it once the
/// byte-order marks are skipped and it is trimmed.
proof fn lemma_core_ignores_cr(y: Seq<char>)
    ensures
        line_core(y.push('\r')) == line_core(y),
{
    let x = y.push('\r');
    crate::text::lemma_lead_bound(y, bom_pred());
    let a = lead(y, bom_pred());
    assert forall|j: int| 0 <= j < a implies bom_pred()(#[trigger] x[j]) by {
        assert(x[j] == y[j]);
    }
    if a < y.len() {
        assert(x[a as int] == y[a as int]);
    }
    lemma_lead_unique(x, bom_pred(), a as int);
    let z = y.skip(a as int);
    assert(x.skip(a as int) =~= z.push('\r'));
    let w = z.push('\r');
    crate::text::lemma_lead_bound(z, crate::text::ws_pred());
    let b = lead(z, crate::text::ws_pred());
    assert forall|j: int| 0 <= j < b implies crate::text::ws_pred()(#[trigger] w[j]) by {
        assert(w[j] == z[j]);
    }
    if b < z.len() {
        assert(w[b as int] == z[b as int]);
        lemma_lead_unique(w, crate::text::ws_pred(), b as int);
        let v = z.skip(b as int);
        assert(w.skip(b as int) =~= v.push('\r'));
        let u = v.push('\r');
        crate::text::lemma_trail_bound(v, crate::text::ws_pred());
        let t = trail(v, crate::text::ws_pred());
        assert(u.drop_last() =~= v);
        assert(trail(u, crate::text::ws_pred()) == 1 + t);
        assert(u.take(u.len() - (1 + t)) =~= v.take(v.len() - t));
    } else {
        assert forall|j: int| 0 <= j < w.len() implies crate::text::ws_pred()(#[trigger] w[j]) by {
            if j < z.len() {
                assert(w[j] == z[j]);
            }
        }
        lemma_lead_unique(w, crate::text::ws_pred(), w.len() as int);
        assert(w.skip(w.len() as int) =~= Seq::<char>::empty());
        assert(z.skip(z.len() as int) =~= Seq::<char>::empty());
    }
}

proof fn lemma_timed_strip_cr(x: Seq<char>)
    ensures
        is_timed_line(strip_cr(x)) == is_timed_line(x),
{
    if x.len() > 0 && x.last() == '\r' {
        assert(x.drop_last().push('\r') =~= x);
        lemma_core_ignores_cr(x.drop_last());
    }
}

/// Some line of the list opens with a time tag.
pub open spec fn any_timed(ls: Seq<Seq<char>>) -> bool {
    exists|i: int| 0 <= i < ls.len() && is_timed_line(#[trigger] ls[i])
}

proof fn lemma_any_timed_cons(x: Seq<char>, ls: Seq<Seq<char>>)
    ensures
        any_timed(seq![x] + ls) == (is_timed_line(x) || any_timed(ls)),
{
    let c = seq![x] + ls;
    if any_timed(c) {
        let i = choose|i: int| 0 <= i < c.len() && is_timed_line(#[trigger] c[i]);
        if i > 0 {
            assert(c[i] == ls[i - 1]);
        }
    }
    if any_timed(ls) {
        let i = choose|i: int| 0 <= i < ls.len() && is_timed_line(#[trigger] ls[i]);
        assert(c[i + 1] == ls[i]);
    }
    assert(c[0] == x);
}

proof fn lemma_synced_join(a: Seq<char>, b: Seq<char>)
    ensures
        any_timed(lines(a + seq!['\n'] + b)) == (any_timed(lines(a)) || any_timed(lines(b))),
    decreases a.len(),
{
    let c = a + seq!['\n'] + b;
    crate::text::lemma_index_of(a, '\n');
    assert(line_core(Seq::<char>::empty()) =~= Seq::<char>::empty()) by {
        assert(lead(Seq::<char>::empty(), bom_pred()) == 0);
        assert(Seq::<char>::empty().skip(0) =~= Seq::<char>::empty());
        assert(lead(Seq::<char>::empty(), crate::text::ws_pred()) == 0);
        assert(trail(Seq::<char>::empty(), crate::text::ws_pred()) == 0);
    }
    assert(!is_timed_line(Seq::<char>::empty()));
    match index_of(a, '\n') {
        None => {
            assert forall|j: int| 0 <= j < a.len() implies #[trigger] c[j] != '\n' by {
                assert(c[j] == a[j]);
            }
            assert(c[a.len() as int] == '\n');
            crate::text::lemma_index_of_unique(c, '\n', a.len() as int);
            assert(c.take(a.len() as int) =~= a);
            assert(c.skip(a.len() as int + 1) =~= b);
            lemma_any_timed_cons(strip_cr(a), lines(b));
            lemma_timed_strip_cr(a);
            if a.len() > 0 {
                assert(lines(a) == seq![a]);
                assert(seq![a] =~= seq![a] + Seq::<Seq<char>>::empty());
                lemma_any_timed_cons(a, Seq::<Seq<char>>::empty());
            } else {
                assert(strip_cr(a) =~= Seq::<char>::empty());
            }
        },
        Some(i) => {
            assert forall|j: int| 0 <= j < i implies #[trigger] c[j] != '\n' by {
                assert(c[j] == a[j]);
            }
            assert(c[i] == a[i]);
            crate::text::lemma_index_of_unique(c, '\n', i);
            assert(c.take(i) =~= a.take(i));
            let rest = a.skip(i + 1);
            assert(c.skip(i + 1) =~= rest + seq!['\n'] + b);
            lemma_synced_join(rest, b);
            lemma_any_timed_cons(strip_cr(a.take(i)), lines(c.skip(i + 1)));
            lemma_any_timed_cons(strip_cr(a.take(i)), lines(rest));
        },
    }
}

/// Two texts joined by a line break are synced exactly when one of them is,
/// and the empty text is not: being synced is a property of single lines.
pub proof fn synced_is_a_property_of_lines(a: Seq<char>, b: Seq<char>)
    ensures
        synced_spec(a + "\n"@ + b) == (synced_spec(a) || synced_spec(b)),
        !synced_spec(Seq::<char>::empty()),
{
    reveal_strlit("\n");
    assert("\n"@ =~= seq!['\n']);
    lemma_synced_join(a, b);
}

/// A metadata tag is no time tag: a line that opens with `[key:value]`
/// whose key is not a number (`[offset:0]`, `[ar:Artist]`) is not a timed
/// line, so it counts neither toward synced lyrics nor toward the timed
/// lines of an instrumental marker.
pub proof fn metadata_tags_are_not_timed(
    line: Seq<char>,
    key: Seq<char>,
    value: Seq<char>,
    rest: Seq<char>,
    i: int,
)
    requires
        line_core(line) == seq!['['] + key + seq![':'] + value + seq![']'] + rest,
        forall|j: int| 0 <= j < key.len() ==> #[trigger] key[j] != ':' && key[j] != ']',
        forall|j: int| 0 <= j < value.len() ==> #[trigger] value[j] != ']',
        0 <= i < key.len() && !is_digit(key[i]),
    ensures
        !is_timed_line(line),
{
    let t = line_core(line);
    let r = t.drop_first();
    let content = key + seq![':'] + value;
    assert(r =~= content + seq![']'] + rest);
    assert forall|j: int| 0 <= j < content.len() implies #[trigger] r[j] != ']' by {
        assert(r[j] == content[j]);
        if j < key.len() {
            assert(content[j] == key[j]);
        } else if j > key.len() {
            assert(content[j] == value[j - key.len() - 1]);
        }
    }
    assert(r[content.len() as int] == ']');
    crate::text::lemma_index_of_unique(r, ']', content.len() as int);
    assert(r.take(content.len() as int) =~= content);
    assert forall|j: int| 0 <= j < key.len() implies #[trigger] content[j] != ':' by {
        assert(content[j] == key[j]);
    }
    assert(content[key.len() as int] == ':');
    crate::text::lemma_index_of_unique(content, ':', key.len() as int);
    assert(content.take(key.len() as int) =~= key);
    assert(!all_digits(key));
}

/// Number of lines of `lyrics` that open with a time tag.
pub fn count_timed_lines(lyrics: &[char]) -> (r: usize)
    ensures
        r == count_timed(lines(lyrics@), lines(lyrics@).len() as int),
{
    let ls = lines_exec(lyrics);
    let mut n: usize = 0;
    let mut i: usize = 0;
    while i < ls.len()
        invariant
            i <= ls@.len(),
            views(ls@) == lines(lyrics@),
            n == count_timed(lines(lyrics@), i as int),
            n <= i,
        decreases ls.len() - i,
    {
        assert(lines(lyrics@)[i as int] == ls@[i as int]@);
        if line_time_exec(ls[i].as_slice()).is_some() {
            n = n + 1;
        }
        i = i + 1;
    }
    n
}

/// The instrumental marker at `i` in the list above.
pub fn instrumental_marker(i: usize) -> (r: &'static str)
    requires
        i < 3,
    ensures
        r@ == instrumental_markers()[i as int],
{
    match i {
        0 => "instrumental",
        1 => "纯音乐",
        _ => "no lyrics",
    }
}

/// Whether a lowercased text holds "instrumental", "纯音乐" or "no lyrics".
pub fn has_instrumental_marker(lowered: &[char]) -> (r: bool)
    ensures
        r == has_marker(lowered@),
{
    let mut i: usize = 0;
    while i < 3
        invariant
            i <= 3,
            forall|j: int| 0 <= j < i ==> !contains_seq(lowered@, #[trigger] instrumental_markers()[j]),
        decreases 3 - i,
    {
        let m = chars_of(instrumental_marker(i));
        if crate::text::contains_exec(lowered, m.as_slice()) {
            return true;
        }
        i = i + 1;
    }
    false
}

/// Whether the text is an instrumental marker: at most three timed lines and,
/// lowercased, one of the instrumental markers.
/// A text that says it is an instrumental: few timed lines, and an
/// instrumental marker.
pub open spec fn instrumental_spec(s: Seq<char>) -> bool {
    count_timed(lines(s), lines(s).len() as int) <= MAX_INSTRUMENTAL_TIMED_LINES && has_marker(
        lowercase(s),
    )
}

pub fn is_instrumental(lyrics: &str) -> (r: bool)
    ensures
        r == instrumental_spec(lyrics@),
{
    let chars = chars_of(lyrics);
    if count_timed_lines(chars.as_slice()) > MAX_INSTRUMENTAL_TIMED_LINES {
        return false;
    }
    let lowered = to_lowercase(lyrics);
    let lc = chars_of(lowered.as_str());
    has_instrumental_marker(lc.as_slice())
}


/// `mm:ss.cc` for a time in milliseconds rounded to the nearest hundredth;
/// minutes are not capped at two digits.
pub open spec fn timestamp(ms: nat) -> Seq<char> {
    let cs = (ms + 5) / 10;
    pad2(cs / 100 / 60) + ":"@ + pad2((cs / 100) % 60) + "."@ + pad2(cs % 100)
}

/// The LRC timestamp `mm:ss.cc` of a time in milliseconds; a negative time
/// renders as zero.
pub fn format_timestamp(ms: i64) -> (r: String)
    ensures
        r@ == timestamp(if ms < 0 { 0 } else { ms as nat }),
{
    let v = format_timestamp_chars(ms);
    string_of(v.as_slice())
}

pub fn format_timestamp_chars(ms: i64) -> (r: Vec<char>)
    ensures
        r@ == timestamp(if ms < 0 { 0 } else { ms as nat }),
{
    format_timestamp_wide(ms as i128)
}

/// The timestamp of a time that may reach past `i64`, up to `u64::MAX`
/// milliseconds; a negative time renders as zero.
pub fn format_timestamp_wide(ms: i128) -> (r: Vec<char>)
    requires
        ms <= u64::MAX,
    ensures
        r@ == timestamp(if ms < 0 { 0 } else { ms as nat }),
{
    let m: u128 = if ms < 0 {
        0
    } else {
        ms as u128
    };
    let cs128 = (m + 5) / 10;
    assert(cs128 <= u64::MAX);
    let cs = cs128 as u64;
    let mut out: Vec<char> = Vec::new();
    push_pad2(&mut out, cs / 100 / 60);
    out.push(':');
    push_pad2(&mut out, (cs / 100) % 60);
    out.push('.');
    push_pad2(&mut out, cs % 100);
    proof {
        reveal_strlit(":");
        reveal_strlit(".");
        let cn: nat = ((m + 5) / 10) as nat;
        assert(out@ =~= pad2(cn / 100 / 60) + ":"@ + pad2((cn / 100) % 60) + "."@ + pad2(cn % 100));
    }
    out
}

/// A text with word tags removed: the input itself when it holds no `<`.
pub enum WordText<'a> {
    Borrowed(&'a str),
    Owned(String),
}

impl<'a> WordText<'a> {
    pub open spec fn view(&self) -> Seq<char> {
        match self {
            WordText::Borrowed(s) => s@,
            WordText::Owned(s) => s@,
        }
    }

    pub fn as_str(&self) -> (r: &str)
        ensures
            r@ == self.view(),
    {
        match self {
            WordText::Borrowed(s) => s,
            WordText::Owned(s) => s.as_str(),
        }
    }
}

/// Removes word timing tags (`<` followed by a digit, up to the next `>`).
pub fn strip_word_tags<'a>(text: &'a str) -> (r: WordText<'a>)
    ensures
        r.view() == strip_tags(text@),
        (r is Borrowed) == !contains_char(text@, '<'),
{
    let chars = chars_of(text);
    if !contains_char_exec(chars.as_slice(), '<') {
        proof {
            crate::text::lemma_index_of(text@, '<');
        }
        return WordText::Borrowed(text);
    }
    let out = strip_tags_exec(chars.as_slice());
    WordText::Owned(string_of(out.as_slice()))
}

} // verus!
