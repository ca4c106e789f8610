//! Lyrics formats, and the removal of section labels such as `[Chorus]`.
pub mod lrc;
pub mod censor;
pub mod lyricsfile;
pub mod ttml;
pub mod elrc;

use vstd::prelude::*;
use crate::format::lrc::{
    BLANK_GAP_MIN_NANOS, is_blank_timed, is_blank_timed_exec, line_core, line_time,
    line_time_exec, core_of, strip_tags, strip_tags_exec,
};
use crate::pattern::{is_match, re_matches};
use crate::text::{
    chars_of, copy_range, find_char, index_of, join, join_exec, lead, lead_ws, lines, lines_exec,
    push_all, string_of, trail, trail_ws, trim, trim_end, trim_start, trim_vec, views, ws_pred,
};

verus! {

/// The names a section label starts with, ASCII case ignored, ending at a
/// word boundary.
pub const SECTION_LABEL_PATTERN: &'static str = r"(?i)^(?:verse|pre[- ]?verse|chorus|pre[- ]?chorus|post[- ]?chorus|bridge|hook|refrain|intro|outro|coda|interlude|instrumental|breakdown|solo|drop|chant|skit|ad-?lib|overture|finale|couplet|coro|pre[- ]?coro|post[- ]?coro|verso|puente|refrán|interludio)\b";

/// Whether the content of a pair of brackets, without word tags and
/// trimmed, is a section label.
pub open spec fn is_label(content: Seq<char>) -> bool {
    re_matches(SECTION_LABEL_PATTERN@, trim(strip_tags(content)))
}

/// A line with each bracketed section label removed; other bracketed text
/// is kept, and so is everything from an unclosed `[` on.
pub open spec fn strip_labels(s: Seq<char>) -> Seq<char>
    decreases s.len(),
{
    match index_of(s, '[') {
        None => s,
        Some(o) => {
            let after = s.skip(o + 1);
            match index_of(after, ']') {
                None => s,
                Some(ci) => if 0 <= o < s.len() && 0 <= ci < after.len() {
                    let close = o + 1 + ci;
                    (if is_label(s.subrange(o + 1, close)) {
                        s.take(o)
                    } else {
                        s.take(close + 1)
                    }) + strip_labels(s.skip(close + 1))
                } else {
                    s
                },
            }
        },
    }
}

/// `str::replace("  ", " ")`: each pair of spaces, left to right, becomes one.
pub open spec fn single_spaced(s: Seq<char>) -> Seq<char>
    decreases s.len(),
{
    if s.len() >= 2 && s[0] == ' ' && s[1] == ' ' {
        seq![' '] + single_spaced(s.skip(2))
    } else if s.len() == 0 {
        s
    } else {
        seq![s[0]] + single_spaced(s.drop_first())
    }
}

pub open spec fn opens_with_bracket(line: Seq<char>) -> bool {
    trim_start(line).len() > 0 && trim_start(line)[0] == '['
}

/// A line after its labels are removed: trimmed on both ends when it opened
/// with a bracket, at its end otherwise.
pub open spec fn cleaned_line(line: Seq<char>) -> Seq<char> {
    let c = single_spaced(strip_labels(line));
    if opens_with_bracket(line) {
        trim(c)
    } else {
        trim_end(c)
    }
}

/// The time tag of a timed line, up to its closing bracket.
pub open spec fn timestamp_part(line: Seq<char>) -> Seq<char> {
    let t = line_core(line);
    match index_of(t, ']') {
        Some(e) => t.take(e + 1),
        None => t,
    }
}

/// Whether the blank lines held back before `next` span a long enough gap
/// to keep one of them.
pub open spec fn gap_warrants(pending: Seq<Seq<char>>, next: Seq<char>) -> bool {
    pending.len() > 0 && match (line_time(pending[0]), line_time(next)) {
        (Some(a), Some(b)) => b - a >= BLANK_GAP_MIN_NANOS,
        _ => false,
    }
}

/// What has been written, the blank timed lines held back, and whether a
/// label was removed among them.
pub type LabelState = (Seq<Seq<char>>, Seq<Seq<char>>, bool);

pub open spec fn label_step(st: LabelState, line: Seq<char>) -> LabelState {
    let (out, pending, run) = st;
    let c = cleaned_line(line);
    if trim(c).len() == 0 {
        st
    } else if is_blank_timed(c) {
        (out, pending.push(timestamp_part(c)), run || !is_blank_timed(line))
    } else if run {
        (
            (if gap_warrants(pending, c) {
                out.push(pending[0])
            } else {
                out
            }).push(c),
            seq![],
            false,
        )
    } else {
        ((out + pending).push(c), seq![], false)
    }
}

pub open spec fn label_fold(ls: Seq<Seq<char>>, n: int) -> LabelState
    decreases n,
{
    if n <= 0 {
        (seq![], seq![], false)
    } else {
        label_step(label_fold(ls, n - 1), ls[n - 1])
    }
}

/// The lines left once section labels are removed: a line that held only
/// labels goes, and blank timed lines next to removed labels go too, except
/// one kept before a gap of five seconds or more.
pub open spec fn labels_stripped_lines(s: Seq<char>) -> Seq<Seq<char>> {
    let ls = lines(s);
    let st = label_fold(ls, ls.len() as int);
    if st.2 {
        st.0
    } else {
        st.0 + st.1
    }
}

pub open spec fn labels_stripped(s: Seq<char>) -> Seq<char> {
    join(labels_stripped_lines(s), "\n"@)
}

fn is_label_exec(content: &[char]) -> (r: bool)
    ensures
        r == is_label(content@),
{
    let plain = trim_vec(strip_tags_exec(content).as_slice());
    let s = string_of(plain.as_slice());
    is_match(SECTION_LABEL_PATTERN, s.as_str())
}

pub fn strip_labels_exec(s: &[char]) -> (r: Vec<char>)
    ensures
        r@ == strip_labels(s@),
{
    let n = s.len();
    let mut out: Vec<char> = Vec::new();
    let mut pos: usize = 0;
    assert(s@.skip(0) =~= s@);
    while pos < n
        invariant
            pos <= n == s@.len(),
            out@ + strip_labels(s@.skip(pos as int)) == strip_labels(s@),
        decreases n - pos,
    {
        let ghost t = s@.skip(pos as int);
        match find_char(s, '[', pos) {
            None => {
                let tail = copy_range(s, pos, n);
                assert(tail@ =~= t);
                push_all(&mut out, tail.as_slice());
                assert(s@.skip(n as int) =~= Seq::<char>::empty());
                assert(strip_labels(Seq::<char>::empty()) =~= Seq::<char>::empty());
                pos = n;
            },
            Some(o) => {
                let ghost k = (o - pos) as int;
                assert(t.skip(k + 1) =~= s@.skip(o + 1));
                match find_char(s, ']', o + 1) {
                    None => {
                        let tail = copy_range(s, pos, n);
                        assert(tail@ =~= t);
                        push_all(&mut out, tail.as_slice());
                        assert(s@.skip(n as int) =~= Seq::<char>::empty());
                        assert(strip_labels(Seq::<char>::empty()) =~= Seq::<char>::empty());
                        pos = n;
                    },
                    Some(c) => {
                        let content = copy_range(s, o + 1, c);
                        proof {
                            let ci = (c - (o + 1)) as int;
                            assert(content@ =~= t.subrange(k + 1, k + 1 + ci));
                            assert(t.skip(k + 1 + ci + 1) =~= s@.skip(c + 1));
                        }
                        if is_label_exec(content.as_slice()) {
                            let head = copy_range(s, pos, o);
                            assert(head@ =~= t.take(k));
                            push_all(&mut out, head.as_slice());
                        } else {
                            let head = copy_range(s, pos, c + 1);
                            assert(head@ =~= t.take(k + 1 + (c - (o + 1)) + 1));
                            push_all(&mut out, head.as_slice());
                        }
                        pos = c + 1;
                    },
                }
            },
        }
    }
    assert(s@.skip(n as int) =~= Seq::<char>::empty());
    assert(strip_labels(Seq::<char>::empty()) =~= Seq::<char>::empty());
    assert(out@ + Seq::<char>::empty() =~= out@);
    out
}

pub fn single_spaced_exec(s: &[char]) -> (r: Vec<char>)
    ensures
        r@ == single_spaced(s@),
{
    let n = s.len();
    let mut out: Vec<char> = Vec::new();
    let mut i: usize = 0;
    assert(s@.skip(0) =~= s@);
    while i < n
        invariant
            i <= n == s@.len(),
            out@ + single_spaced(s@.skip(i as int)) == single_spaced(s@),
        decreases n - i,
    {
        let ghost t = s@.skip(i as int);
        if i + 1 < n && s[i] == ' ' && s[i + 1] == ' ' {
            assert(t.skip(2) =~= s@.skip(i + 2));
            assert(out@.push(' ') + single_spaced(s@.skip(i + 2)) =~= out@ + (seq![' ']
                + single_spaced(t.skip(2))));
            out.push(' ');
            i = i + 2;
        } else {
            assert(t.drop_first() =~= s@.skip(i + 1));
            assert(out@.push(s@[i as int]) + single_spaced(s@.skip(i + 1)) =~= out@ + (seq![
                t[0],
            ] + single_spaced(t.drop_first())));
            out.push(s[i]);
            i = i + 1;
        }
    }
    assert(s@.skip(n as int) =~= Seq::<char>::empty());
    assert(out@ + Seq::<char>::empty() =~= out@);
    out
}

pub fn trim_end_vec(s: &[char]) -> (r: Vec<char>)
    ensures
        r@ == trim_end(s@),
{
    let k = trail_ws(s, s.len());
    assert(s@.take(s@.len() as int) =~= s@);
    copy_range(s, 0, s.len() - k)
}

pub fn opens_with_bracket_exec(line: &[char]) -> (r: bool)
    ensures
        r == opens_with_bracket(line@),
{
    let a = lead_ws(line, 0);
    assert(line@.skip(0) =~= line@);
    a < line.len() && line[a] == '['
}

pub fn cleaned_line_exec(line: &[char]) -> (r: Vec<char>)
    ensures
        r@ == cleaned_line(line@),
{
    let c = single_spaced_exec(strip_labels_exec(line).as_slice());
    if opens_with_bracket_exec(line) {
        trim_vec(c.as_slice())
    } else {
        trim_end_vec(c.as_slice())
    }
}

fn timestamp_part_exec(line: &[char]) -> (r: Vec<char>)
    ensures
        r@ == timestamp_part(line@),
{
    let t = core_of(line);
    match find_char(t.as_slice(), ']', 0) {
        Some(e) => {
            assert(t@.skip(0) =~= t@);
            assert(e < t.len());
            copy_range(t.as_slice(), 0, e + 1)
        },
        None => {
            assert(t@.skip(0) =~= t@);
            t
        },
    }
}

fn gap_warrants_exec(pending: &Vec<Vec<char>>, next: &[char]) -> (r: bool)
    ensures
        r == gap_warrants(views(pending@), next@),
{
    if pending.len() == 0 {
        return false;
    }
    assert(views(pending@)[0] == pending@[0]@);
    match (line_time_exec(pending[0].as_slice()), line_time_exec(next)) {
        (Some(a), Some(b)) => b >= a && b - a >= BLANK_GAP_MIN_NANOS,
        _ => false,
    }
}

/// Removes section labels (`[Verse 1]`, `[Chorus]`, ...) from lyrics.
pub fn strip_section_labels(lyrics: &str) -> (r: String)
    ensures
        r@ == labels_stripped(lyrics@),
{
    let ls = lines_exec(chars_of(lyrics).as_slice());
    let ghost lv = views(ls@);
    assert(lv =~= ls@.map_values(|l: Vec<char>| l@));
    let mut out: Vec<Vec<char>> = Vec::new();
    let mut pending: Vec<Vec<char>> = Vec::new();
    let mut run = false;
    let mut i: usize = 0;
    while i < ls.len()
        invariant
            i <= ls@.len() == lv.len(),
            lv == views(ls@),
            label_fold(lv, i as int) == (views(out@), views(pending@), run),
        decreases ls.len() - i,
    {
        let line = ls[i].as_slice();
        assert(lv[i as int] == line@);
        let cleaned = cleaned_line_exec(line);
        let ghost ob = views(out@);
        let ghost pb = views(pending@);
        if trim_vec(cleaned.as_slice()).len() == 0 {
        } else if is_blank_timed_exec(cleaned.as_slice()) {
            run = run || !is_blank_timed_exec(line);
            pending.push(timestamp_part_exec(cleaned.as_slice()));
            assert(views(pending@) =~= pb.push(timestamp_part(cleaned@)));
        } else if run {
            if gap_warrants_exec(&pending, cleaned.as_slice()) {
                let first = copy_range(pending[0].as_slice(), 0, pending[0].len());
                assert(first@ =~= pb[0]);
                out.push(first);
                assert(views(out@) =~= ob.push(pb[0]));
            }
            let ghost o2 = views(out@);
            out.push(cleaned);
            assert(views(out@) =~= o2.push(cleaned@));
            pending = Vec::new();
            assert(views(pending@) =~= Seq::<Seq<char>>::empty());
            run = false;
        } else {
            let mut j: usize = 0;
            while j < pending.len()
                invariant
                    j <= pending@.len(),
                    pb == views(pending@),
                    views(out@) == ob + pb.take(j as int),
                decreases pending.len() - j,
            {
                let p = copy_range(pending[j].as_slice(), 0, pending[j].len());
                assert(p@ =~= pb[j as int]);
                let ghost o2 = views(out@);
                out.push(p);
                assert(views(out@) =~= o2.push(pb[j as int]));
                assert(pb.take(j + 1) =~= pb.take(j as int).push(pb[j as int]));
                j = j + 1;
            }
            assert(pb.take(pending@.len() as int) =~= pb);
            let ghost o2 = views(out@);
            out.push(cleaned);
            assert(views(out@) =~= o2.push(cleaned@));
            pending = Vec::new();
            assert(views(pending@) =~= Seq::<Seq<char>>::empty());
        }
        i = i + 1;
    }
    assert(lv.len() == lines(lyrics@).len());
    if !run {
        let ghost ob = views(out@);
        let ghost pb = views(pending@);
        let mut j: usize = 0;
        while j < pending.len()
            invariant
                j <= pending@.len(),
                pb == views(pending@),
                views(out@) == ob + pb.take(j as int),
            decreases pending.len() - j,
        {
            let p = copy_range(pending[j].as_slice(), 0, pending[j].len());
            assert(p@ =~= pb[j as int]);
            let ghost o2 = views(out@);
            out.push(p);
            assert(views(out@) =~= o2.push(pb[j as int]));
            assert(pb.take(j + 1) =~= pb.take(j as int).push(pb[j as int]));
            j = j + 1;
        }
        assert(pb.take(pending@.len() as int) =~= pb);
    }
    let sep = chars_of("\n");
    let joined = join_exec(&out, sep.as_slice());
    string_of(joined.as_slice())
}

/// A line's fold depends only on the lines up to it.
proof fn lemma_label_fold_prefix(ls: Seq<Seq<char>>, n: int)
    requires
        0 <= n <= ls.len(),
    ensures
        label_fold(ls, n) == label_fold(ls.take(n), n),
    decreases n,
{
    if n > 0 {
        lemma_label_fold_prefix(ls, n - 1);
        lemma_label_fold_prefix(ls.take(n), n - 1);
        assert(ls.take(n).take(n - 1) =~= ls.take(n - 1));
        assert(ls.take(n)[n - 1] == ls[n - 1]);
    }
}

/// A line that holds nothing but section labels (blank once they are
/// removed) leaves no trace: the lines kept from a text are the same with or
/// without it, wherever it stands.
pub proof fn label_only_lines_leave_no_trace(pre: Seq<Seq<char>>, x: Seq<char>, post: Seq<Seq<char>>)
    requires
        trim(cleaned_line(x)).len() == 0,
    ensures
        label_fold(pre + seq![x] + post, (pre.len() + 1 + post.len()) as int) == label_fold(
            pre + post,
            (pre.len() + post.len()) as int,
        ),
    decreases post.len(),
{
    let a = pre + seq![x] + post;
    let b = pre + post;
    if post.len() == 0 {
        assert(a.drop_last() =~= pre);
        assert(b =~= pre);
        lemma_label_fold_prefix(a, pre.len() as int);
        assert(a.take(pre.len() as int) =~= pre);
        lemma_label_fold_prefix(b, pre.len() as int);
        assert(b.take(pre.len() as int) =~= pre);
        assert(a[pre.len() as int] == x);
    } else {
        let post2 = post.drop_last();
        label_only_lines_leave_no_trace(pre, x, post2);
        let a2 = pre + seq![x] + post2;
        let b2 = pre + post2;
        lemma_label_fold_prefix(a, a.len() - 1);
        lemma_label_fold_prefix(b, b.len() - 1);
        assert(a.take(a.len() - 1) =~= a2);
        assert(b.take(b.len() - 1) =~= b2);
        lemma_label_fold_prefix(a2, a2.len() as int);
        lemma_label_fold_prefix(b2, b2.len() as int);
        assert(a2.take(a2.len() as int) =~= a2);
        assert(b2.take(b2.len() as int) =~= b2);
        assert(a.last() == post.last());
        assert(b.last() == post.last());
    }
}

} // verus!
