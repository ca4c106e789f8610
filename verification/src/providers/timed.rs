//! Word-timed lyrics in the `[start,duration]` line formats of KuGou (KRC)
//! and NetEase (YRC), rendered as enhanced LRC.
use vstd::prelude::*;
use crate::format::elrc::{Tok, WordV, render_toks, rendered, time_in_range, times_in_range, tok_view, toks_view};
use crate::num::{all_digits_exec, dec, dec_checked};
use crate::text::{all_digits, copy_range};
use crate::pattern::{captures, captures_all, group_views, groups_views, re_captures, re_captures_all};
use crate::text::{chars_of, join, join_exec, lines, lines_exec, string_of, trim, trim_vec, views};

verus! {

/// The text of capture group `i`, empty when it took no part in the match.
pub open spec fn group(g: Seq<Option<Seq<char>>>, i: int) -> Seq<char> {
    if 0 <= i < g.len() {
        match g[i] {
            Some(s) => s,
            None => seq![],
        }
    } else {
        seq![]
    }
}

/// `str::parse::<u64>`, or 0 when it fails: an optional `+` and then
/// decimal digits whose value fits in a `u64`.
pub open spec fn u64_or_zero(s: Seq<char>) -> int {
    let d = if s.len() > 0 && s[0] == '+' {
        s.drop_first()
    } else {
        s
    };
    if d.len() > 0 && all_digits(d) && dec(d) <= u64::MAX {
        dec(d) as int
    } else {
        0
    }
}

pub open spec fn in_u64(v: int) -> bool {
    0 <= v <= u64::MAX
}

/// The words of a line's body: each match's text, and its start and end;
/// `relative` words are timed from the line's start, others absolutely.
pub open spec fn line_words(start: int, caps: Seq<Seq<Option<Seq<char>>>>, relative: bool) -> Seq<
    WordV,
> {
    caps.map_values(
        |w: Seq<Option<Seq<char>>>|
            {
                let s = if relative {
                    start + u64_or_zero(group(w, 1))
                } else {
                    u64_or_zero(group(w, 1))
                };
                (group(w, 3), s, s + u64_or_zero(group(w, 2)))
            },
    )
}

pub open spec fn words_fit(ws: Seq<WordV>) -> bool {
    forall|i: int| #![trigger ws[i]] 0 <= i < ws.len() ==> in_u64(ws[i].1) && in_u64(ws[i].2)
}

/// The line's start and words, if the line is a timed line.
pub open spec fn timed_line(line: Seq<char>, line_pat: Seq<char>, word_pat: Seq<char>, relative: bool) -> Option<
    (int, Seq<WordV>),
> {
    match re_captures(line_pat, trim(line)) {
        Some(c) => {
            let start = u64_or_zero(group(c, 1));
            Some((start, line_words(start, re_captures_all(word_pat, group(c, 2)), relative)))
        },
        None => None,
    }
}

/// Every word time of the text fits in a `u64`.
pub open spec fn times_fit(s: Seq<char>, line_pat: Seq<char>, word_pat: Seq<char>, relative: bool) -> bool {
    forall|i: int|
        0 <= i < lines(s).len() ==> match #[trigger] timed_line(lines(s)[i], line_pat, word_pat, relative) {
            Some((_, ws)) => words_fit(ws),
            None => true,
        }
}

/// The rendered lines among the first `n`.
pub open spec fn rendered_lines(ls: Seq<Seq<char>>, n: int, line_pat: Seq<char>, word_pat: Seq<char>, relative: bool) -> Seq<Seq<char>>
    decreases n,
{
    if n <= 0 {
        seq![]
    } else {
        let prev = rendered_lines(ls, n - 1, line_pat, word_pat, relative);
        match timed_line(ls[n - 1], line_pat, word_pat, relative) {
            Some((start, ws)) => match rendered(start, ws) {
                Some(r) => prev.push(r),
                None => prev,
            },
            None => prev,
        }
    }
}

/// The enhanced LRC of a timed text: its timed lines with words, rendered.
pub open spec fn enhanced(s: Seq<char>, line_pat: Seq<char>, word_pat: Seq<char>, relative: bool) -> Seq<char> {
    join(rendered_lines(lines(s), lines(s).len() as int, line_pat, word_pat, relative), "\n"@)
}

/// Reads an integer as `str::parse::<u64>` does, 0 when it fails.
pub fn u64_or_zero_exec(s: &[char]) -> (r: u64)
    ensures
        r == u64_or_zero(s@),
{
    let from: usize = if s.len() > 0 && s[0] == '+' {
        1
    } else {
        0
    };
    let d = copy_range(s, from, s.len());
    proof {
        if from == 1 {
            assert(d@ =~= s@.drop_first());
        } else {
            assert(d@ =~= s@);
        }
    }
    if d.len() == 0 || !all_digits_exec(d.as_slice()) {
        return 0;
    }
    match dec_checked(d.as_slice()) {
        Some(v) => v,
        None => 0,
    }
}

fn group_text(g: &Vec<Option<String>>, i: usize) -> (r: Vec<char>)
    ensures
        r@ == group(group_views(g@), i as int),
{
    if i < g.len() {
        match &g[i] {
            Some(s) => chars_of(s.as_str()),
            None => Vec::new(),
        }
    } else {
        Vec::new()
    }
}

/// The words of a line's body, or `None` when a time does not fit in a
/// `u64`.
fn words_of(start: u64, caps: &Vec<Vec<Option<String>>>, relative: bool) -> (r: Option<Vec<Tok>>)
    ensures
        match r {
            Some(ws) => words_fit(line_words(start as int, groups_views(caps@), relative)) && toks_view(ws@)
                == line_words(start as int, groups_views(caps@), relative),
            None => !words_fit(line_words(start as int, groups_views(caps@), relative)),
        },
{
    let ghost all = line_words(start as int, groups_views(caps@), relative);
    let mut out: Vec<Tok> = Vec::new();
    let mut i: usize = 0;
    while i < caps.len()
        invariant
            i <= caps@.len(),
            all == line_words(start as int, groups_views(caps@), relative),
            all.len() == caps@.len(),
            toks_view(out@) == all.take(i as int),
            words_fit(all.take(i as int)),
        decreases caps.len() - i,
    {
        let w = &caps[i];
        assert(groups_views(caps@)[i as int] == group_views(w@));
        let offset = u64_or_zero_exec(group_text(w, 1).as_slice());
        let dur = u64_or_zero_exec(group_text(w, 2).as_slice());
        let s: u128 = if relative {
            start as u128 + offset as u128
        } else {
            offset as u128
        };
        let e: u128 = s + dur as u128;
        if s > u64::MAX as u128 || e > u64::MAX as u128 {
            assert(all[i as int].1 == s && all[i as int].2 == e);
            assert(!in_u64(all[i as int].1) || !in_u64(all[i as int].2));
            return None;
        }
        let text = group_text(w, 3);
        let word = Tok { text, start: s as i128, end: e as i128 };
        let ghost before = out@;
        out.push(word);
        assert(all[i as int] == tok_view(word));
        assert(toks_view(out@) =~= toks_view(before).push(tok_view(word)));
        assert(all.take(i + 1) =~= all.take(i as int).push(all[i as int]));
        proof {
            let t = all.take(i + 1);
            assert forall|k: int| 0 <= k < t.len() implies in_u64(#[trigger] t[k].1) && in_u64(t[k].2) by {
                if k < i {
                    assert(t[k] == all.take(i as int)[k]);
                }
            }
        }
        i = i + 1;
    }
    assert(all.take(caps@.len() as int) =~= all);
    Some(out)
}

/// Converts a timed text to enhanced LRC, or `None` when a word time does
/// not fit in a `u64`.
pub fn to_enhanced_checked(text: &str, line_pat: &str, word_pat: &str, relative: bool) -> (r: Option<String>)
    ensures
        match r {
            Some(s) => times_fit(text@, line_pat@, word_pat@, relative) && s@ == enhanced(
                text@,
                line_pat@,
                word_pat@,
                relative,
            ),
            None => !times_fit(text@, line_pat@, word_pat@, relative),
        },
{
    let ls = lines_exec(chars_of(text).as_slice());
    let ghost lv = views(ls@);
    assert(lv =~= ls@.map_values(|l: Vec<char>| l@));
    let mut out: Vec<Vec<char>> = Vec::new();
    let mut i: usize = 0;
    while i < ls.len()
        invariant
            i <= ls@.len() == lv.len(),
            lv == views(ls@),
            lv == lines(text@),
            views(out@) == rendered_lines(lv, i as int, line_pat@, word_pat@, relative),
            forall|j: int|
                0 <= j < i ==> match #[trigger] timed_line(lv[j], line_pat@, word_pat@, relative) {
                    Some((_, ws)) => words_fit(ws),
                    None => true,
                },
        decreases ls.len() - i,
    {
        assert(lv[i as int] == ls@[i as int]@);
        let t = string_of(trim_vec(ls[i].as_slice()).as_slice());
        match captures(line_pat, t.as_str()) {
            Some(c) => {
                let start = u64_or_zero_exec(group_text(&c, 1).as_slice());
                let body = string_of(group_text(&c, 2).as_slice());
                let wc = captures_all(word_pat, body.as_str());
                proof {
                    assert(t@ == trim(lv[i as int]));
                    assert(timed_line(lv[i as int], line_pat@, word_pat@, relative) == Some(
                        (start as int, line_words(start as int, groups_views(wc@), relative)),
                    ));
                }
                match words_of(start, &wc, relative) {
                    None => {
                        proof {
                            assert(!times_fit(text@, line_pat@, word_pat@, relative)) by {
                                let q = i as int;
                                assert(0 <= q < lines(text@).len());
                                assert(lines(text@)[q] == lv[q]);
                            }
                        }
                        return None;
                    },
                    Some(ws) => {
                        proof {
                            assert forall|k: int| 0 <= k < toks_view(ws@).len() implies #[trigger] time_in_range(
                                toks_view(ws@)[k].1,
                            ) && time_in_range(toks_view(ws@)[k].2) by {
                                assert(in_u64(toks_view(ws@)[k].1) && in_u64(toks_view(ws@)[k].2));
                            }
                            assert(times_in_range(toks_view(ws@)));
                        }
                        match render_toks(start as i128, &ws) {
                            Some(r) => {
                                let ghost before = views(out@);
                                out.push(chars_of(r.as_str()));
                                assert(views(out@) =~= before.push(r@));
                            },
                            None => {},
                        }
                    },
                }
            },
            None => {},
        }
        i = i + 1;
    }
    let joined = join_exec(&out, chars_of("\n").as_slice());
    Some(string_of(joined.as_slice()))
}

} // verus!
