//! Enhanced LRC lines with word timing tags: `[mm:ss.cc]<mm:ss.cc>word...<mm:ss.cc>`.
//!
//! Durations and gaps are computed exactly, without overflow.
use vstd::prelude::*;
use crate::format::lrc::{format_timestamp_wide, timestamp};
use crate::text::{chars_of, copy_range, push_all, string_of, trail, trim, trim_bounds, ws_pred};

verus! {

/// A separator is held as its own token only after a word lasting at least
/// this many milliseconds...
pub const IMPLAUSIBLE_WORD_MS: i128 = 40;

/// ...when the separator itself lasts at least this many milliseconds.
pub const AUDIBLE_PAUSE_MS: i128 = 150;

/// A timed word of a line.
pub struct Word {
    pub text: String,
    pub start_ms: i64,
    pub end_ms: i64,
}

/// A word as text, start and end.
pub type WordV = (Seq<char>, int, int);

pub open spec fn word_view(w: Word) -> WordV {
    (w.text@, w.start_ms as int, w.end_ms as int)
}

pub open spec fn words_view(ws: Seq<Word>) -> Seq<WordV> {
    ws.map_values(|w: Word| word_view(w))
}

pub open spec fn duration(w: WordV) -> int {
    w.2 - w.1
}

pub open spec fn is_separator(w: WordV) -> bool {
    trim(w.0).len() == 0
}

/// A gap is an audible pause when it is long enough and the word before it is
/// not implausibly short.
pub open spec fn holds_pause(word_ms: int, gap_ms: int) -> bool {
    gap_ms >= AUDIBLE_PAUSE_MS && word_ms >= IMPLAUSIBLE_WORD_MS
}

pub open spec fn fold_step(out: Seq<WordV>, w: WordV) -> Seq<WordV> {
    if is_separator(w) && out.len() > 0 && !holds_pause(duration(out.last()), duration(w)) {
        out.drop_last().push((out.last().0 + w.0, out.last().1, w.2))
    } else {
        out.push(w)
    }
}

/// Whitespace-only tokens folded into the word before them unless they hold
/// a real pause.
pub open spec fn folded(ws: Seq<WordV>, n: int) -> Seq<WordV>
    decreases n,
{
    if n <= 0 {
        seq![]
    } else {
        fold_step(folded(ws, n - 1), ws[n - 1])
    }
}

pub open spec fn trim_end_len(s: Seq<char>) -> int {
    s.len() - trail(s, ws_pred())
}

/// The tokens that word `i` becomes: its trailing whitespace moved onto the
/// pause that follows it, or the word unchanged.
pub open spec fn split_at(ws: Seq<WordV>, i: int) -> Seq<WordV> {
    let w = ws[i];
    let k = trim_end_len(w.0);
    if i + 1 < ws.len() && holds_pause(duration(w), ws[i + 1].1 - w.2) && k > 0 && k < w.0.len() {
        seq![(w.0.take(k), w.1, w.2), (w.0.skip(k), w.2, ws[i + 1].1)]
    } else {
        seq![w]
    }
}

pub open spec fn split_pauses(ws: Seq<WordV>, n: int) -> Seq<WordV>
    decreases n,
{
    if n <= 0 {
        seq![]
    } else {
        split_pauses(ws, n - 1) + split_at(ws, n - 1)
    }
}

pub open spec fn ts(ms: int) -> Seq<char> {
    timestamp(if ms < 0 { 0 } else { ms as nat })
}

pub open spec fn render_tokens(ts_: Seq<WordV>, n: int) -> Seq<char>
    decreases n,
{
    if n <= 0 {
        seq![]
    } else {
        render_tokens(ts_, n - 1) + "<"@ + ts(ts_[n - 1].1) + ">"@ + ts_[n - 1].0
    }
}

/// The rendered line, or `None` when there are no words.
pub open spec fn rendered(line_start: int, ws: Seq<WordV>) -> Option<Seq<char>> {
    let f = folded(ws, ws.len() as int);
    let t = split_pauses(f, f.len() as int);
    if t.len() == 0 {
        None
    } else {
        Some("["@ + ts(line_start) + "]"@ + render_tokens(t, t.len() as int) + "<"@ + ts(t.last().2)
            + ">"@)
    }
}

/// A word held as characters, with exact times: from the range of `i64`
/// up to `u64::MAX` milliseconds.
pub struct Tok {
    pub text: Vec<char>,
    pub start: i128,
    pub end: i128,
}

/// A time a token can hold.
pub open spec fn time_in_range(v: int) -> bool {
    i64::MIN <= v <= u64::MAX
}

pub open spec fn times_in_range(ws: Seq<WordV>) -> bool {
    forall|i: int| #![trigger ws[i]] 0 <= i < ws.len() ==> time_in_range(ws[i].1) && time_in_range(ws[i].2)
}

pub open spec fn tok_view(t: Tok) -> WordV {
    (t.text@, t.start as int, t.end as int)
}

pub open spec fn toks_view(ts_: Seq<Tok>) -> Seq<WordV> {
    ts_.map_values(|t: Tok| tok_view(t))
}

impl Word {
    pub fn new(text: &str, start_ms: i64, end_ms: i64) -> (r: Word)
        ensures
            word_view(r) == (text@, start_ms as int, end_ms as int),
    {
        Word { text: String::from_str(text), start_ms, end_ms }
    }

    pub fn duration(&self) -> (r: i128)
        ensures
            r == duration(word_view(*self)),
    {
        self.end_ms as i128 - self.start_ms as i128
    }

    pub fn is_separator(&self) -> (r: bool)
        ensures
            r == is_separator(word_view(*self)),
    {
        let c = chars_of(self.text.as_str());
        let (a, b) = trim_bounds(c.as_slice());
        a == b
    }
}

pub fn holds_pause_exec(word_ms: i128, gap_ms: i128) -> (r: bool)
    ensures
        r == holds_pause(word_ms as int, gap_ms as int),
{
    gap_ms >= AUDIBLE_PAUSE_MS && word_ms >= IMPLAUSIBLE_WORD_MS
}

fn is_separator_chars(s: &[char]) -> (r: bool)
    ensures
        r == (trim(s@).len() == 0),
{
    let (a, b) = trim_bounds(s);
    a == b
}

/// Folds whitespace-only tokens into the word before them unless they hold a
/// real pause.
pub fn fold_separators(words: &[Tok]) -> (r: Vec<Tok>)
    requires
        times_in_range(toks_view(words@)),
    ensures
        toks_view(r@) == folded(toks_view(words@), words@.len() as int),
        times_in_range(toks_view(r@)),
{
    let ghost wv = toks_view(words@);
    let mut out: Vec<Tok> = Vec::new();
    let mut i: usize = 0;
    while i < words.len()
        invariant
            i <= words@.len(),
            wv == toks_view(words@),
            wv.len() == words@.len(),
            toks_view(out@) == folded(wv, i as int),
            times_in_range(wv),
            times_in_range(toks_view(out@)),
        decreases words.len() - i,
    {
        let w = &words[i];
        assert(wv[i as int] == tok_view(*w));
        let n = out.len();
        let sep = is_separator_chars(w.text.as_slice());
        let mut fold = false;
        if sep && n > 0 {
            let prev = &out[n - 1];
            assert(toks_view(out@)[n - 1] == tok_view(*prev));
            assert(toks_view(out@).len() == n);
            assert(time_in_range(toks_view(out@)[n - 1].1) && time_in_range(toks_view(out@)[n - 1].2));
            assert(time_in_range(wv[i as int].1) && time_in_range(wv[i as int].2));
            let pd = prev.end as i128 - prev.start as i128;
            let wd = w.end as i128 - w.start as i128;
            fold = !holds_pause_exec(pd, wd);
            assert(toks_view(out@).last() == tok_view(out@[n - 1]));
        }
        if fold {
            let prev = out.pop().unwrap();
            let mut text = prev.text;
            push_all(&mut text, w.text.as_slice());
            let merged = Tok { text, start: prev.start, end: w.end };
            proof {
                assert(toks_view(out@) =~= folded(wv, i as int).drop_last());
            }
            out.push(merged);
            proof {
                assert(toks_view(out@) =~= fold_step(folded(wv, i as int), wv[i as int]));
            }
        } else {
            let copy = Tok { text: copy_range(w.text.as_slice(), 0, w.text.len()), start: w.start, end: w.end };
            assert(copy.text@ =~= w.text@);
            out.push(copy);
            proof {
                assert(toks_view(out@) =~= fold_step(folded(wv, i as int), wv[i as int]));
            }
        }
        i = i + 1;
    }
    out
}

/// Splits a word's trailing whitespace onto the pause that follows it.
pub fn split_pauses_exec(words: &[Tok]) -> (r: Vec<Tok>)
    requires
        times_in_range(toks_view(words@)),
    ensures
        toks_view(r@) == split_pauses(toks_view(words@), words@.len() as int),
        times_in_range(toks_view(r@)),
{
    let ghost wv = toks_view(words@);
    let mut out: Vec<Tok> = Vec::new();
    let mut i: usize = 0;
    while i < words.len()
        invariant
            i <= words@.len(),
            wv == toks_view(words@),
            wv.len() == words@.len(),
            toks_view(out@) == split_pauses(wv, i as int),
            times_in_range(wv),
            times_in_range(toks_view(out@)),
        decreases words.len() - i,
    {
        let w = &words[i];
        assert(wv[i as int] == tok_view(*w));
        let mut did_split = false;
        if i + 1 < words.len() {
            let next = &words[i + 1];
            assert(wv[i + 1] == tok_view(*next));
            let wd = w.end as i128 - w.start as i128;
            assert(time_in_range(wv[i as int].1) && time_in_range(wv[i as int].2));
            assert(time_in_range(wv[i + 1].1));
            let gap = next.start as i128 - w.end as i128;
            let k2 = trim_end_cut(w.text.as_slice());
            if holds_pause_exec(wd, gap) && k2 > 0 && k2 < w.text.len() {
                let spoken = copy_range(w.text.as_slice(), 0, k2);
                let space = copy_range(w.text.as_slice(), k2, w.text.len());
                out.push(Tok { text: spoken, start: w.start, end: w.end });
                out.push(Tok { text: space, start: w.end, end: next.start });
                did_split = true;
                proof {
                    assert(space@ =~= w.text@.skip(k2 as int));
                    assert(toks_view(out@) =~= split_pauses(wv, i as int) + split_at(wv, i as int));
                }
            }
        }
        if !did_split {
            let copy = Tok { text: copy_range(w.text.as_slice(), 0, w.text.len()), start: w.start, end: w.end };
            assert(copy.text@ =~= w.text@);
            out.push(copy);
            proof {
                assert(toks_view(out@) =~= split_pauses(wv, i as int) + split_at(wv, i as int));
            }
        }
        i = i + 1;
    }
    out
}

/// Length of the text without its trailing whitespace.
fn trim_end_cut(s: &[char]) -> (r: usize)
    ensures
        r == trim_end_len(s@),
{
    let t = crate::text::trail_ws(s, s.len());
    assert(s@.take(s@.len() as int) =~= s@);
    s.len() - t
}

/// Renders a line of timed words, or nothing when there are no words.
pub fn render_line(line_start_ms: i64, words: &[Word]) -> (r: Option<String>)
    ensures
        match r {
            Some(s) => rendered(line_start_ms as int, words_view(words@)) == Some(s@),
            None => rendered(line_start_ms as int, words_view(words@)) is None,
        },
{
    let mut toks: Vec<Tok> = Vec::new();
    let mut i: usize = 0;
    while i < words.len()
        invariant
            i <= words@.len(),
            toks_view(toks@) == words_view(words@).take(i as int),
        decreases words.len() - i,
    {
        let w = &words[i];
        let c = chars_of(w.text.as_str());
        assert(words_view(words@)[i as int] == word_view(*w));
        let t = Tok { text: c, start: w.start_ms as i128, end: w.end_ms as i128 };
        assert(tok_view(t) == word_view(*w));
        let ghost before = toks@;
        toks.push(t);
        assert(toks_view(toks@) =~= toks_view(before).push(tok_view(t)));
        assert(words_view(words@).take(i + 1) =~= words_view(words@).take(i as int).push(
            words_view(words@)[i as int],
        ));
        i = i + 1;
    }
    assert(words_view(words@).take(words@.len() as int) =~= words_view(words@));
    assert(times_in_range(toks_view(toks@))) by {
        assert forall|k: int| 0 <= k < toks_view(toks@).len() implies time_in_range(
            #[trigger] toks_view(toks@)[k].1,
        ) && time_in_range(toks_view(toks@)[k].2) by {
            assert(toks_view(toks@)[k] == word_view(words@[k]));
        }
    }
    render_toks(line_start_ms as i128, &toks)
}

/// Renders a line of timed tokens, or nothing when there are none.
pub fn render_toks(line_start_ms: i128, toks: &Vec<Tok>) -> (r: Option<String>)
    requires
        time_in_range(line_start_ms as int),
        times_in_range(toks_view(toks@)),
    ensures
        match r {
            Some(s) => rendered(line_start_ms as int, toks_view(toks@)) == Some(s@),
            None => rendered(line_start_ms as int, toks_view(toks@)) is None,
        },
{
    let folded_toks = fold_separators(toks.as_slice());
    let tokens = split_pauses_exec(folded_toks.as_slice());
    let ghost tv = toks_view(tokens@);
    if tokens.len() == 0 {
        return None;
    }
    let mut buf: Vec<char> = Vec::new();
    buf.push('[');
    let head = format_timestamp_wide(line_start_ms);
    push_all(&mut buf, head.as_slice());
    buf.push(']');
    let ghost prefix = buf@;
    proof {
        reveal_strlit("[");
        reveal_strlit("]");
        assert(prefix =~= "["@ + ts(line_start_ms as int) + "]"@);
    }
    let mut j: usize = 0;
    while j < tokens.len()
        invariant
            j <= tokens@.len(),
            tv == toks_view(tokens@),
            tv.len() == tokens@.len(),
            times_in_range(tv),
            buf@ == prefix + render_tokens(tv, j as int),
        decreases tokens.len() - j,
    {
        let t = &tokens[j];
        assert(tv[j as int] == tok_view(*t));
        assert(time_in_range(tv[j as int].1));
        buf.push('<');
        let stamp = format_timestamp_wide(t.start);
        push_all(&mut buf, stamp.as_slice());
        buf.push('>');
        push_all(&mut buf, t.text.as_slice());
        proof {
            reveal_strlit("<");
            reveal_strlit(">");
            assert(buf@ =~= prefix + render_tokens(tv, j + 1));
        }
        j = j + 1;
    }
    let last = tokens.len() - 1;
    assert(tv.last() == tok_view(tokens@[last as int]));
    assert(time_in_range(tv[last as int].2));
    buf.push('<');
    let stamp = format_timestamp_wide(tokens[last].end);
    push_all(&mut buf, stamp.as_slice());
    buf.push('>');
    proof {
        reveal_strlit("<");
        reveal_strlit(">");
        assert(buf@ =~= "["@ + ts(line_start_ms as int) + "]"@ + render_tokens(tv, tv.len() as int)
            + "<"@ + ts(tv.last().2) + ">"@);
    }
    Some(string_of(buf.as_slice()))
}

/// The texts of the tokens, one after the other.
pub open spec fn all_text(ws: Seq<WordV>) -> Seq<char>
    decreases ws.len(),
{
    if ws.len() == 0 {
        seq![]
    } else {
        all_text(ws.drop_last()) + ws.last().0
    }
}

proof fn lemma_all_text_concat(a: Seq<WordV>, b: Seq<WordV>)
    ensures
        all_text(a + b) == all_text(a) + all_text(b),
    decreases b.len(),
{
    if b.len() == 0 {
        assert(a + b =~= a);
        assert(all_text(a) + seq![] =~= all_text(a));
    } else {
        assert((a + b).drop_last() =~= a + b.drop_last());
        lemma_all_text_concat(a, b.drop_last());
        assert(all_text(a) + all_text(b.drop_last()) + b.last().0 =~= all_text(a) + (all_text(
            b.drop_last(),
        ) + b.last().0));
    }
}

proof fn lemma_folded_text(ws: Seq<WordV>, n: int)
    requires
        0 <= n <= ws.len(),
    ensures
        all_text(folded(ws, n)) == all_text(ws.take(n)),
        n > 0 ==> folded(ws, n).len() > 0,
    decreases n,
{
    if n > 0 {
        lemma_folded_text(ws, n - 1);
        let out = folded(ws, n - 1);
        let w = ws[n - 1];
        assert(ws.take(n).drop_last() =~= ws.take(n - 1));
        if is_separator(w) && out.len() > 0 && !holds_pause(duration(out.last()), duration(w)) {
            let m = out.drop_last().push((out.last().0 + w.0, out.last().1, w.2));
            assert(m.drop_last() =~= out.drop_last());
            assert(all_text(out.drop_last()) + (out.last().0 + w.0) =~= all_text(out.drop_last())
                + out.last().0 + w.0);
        } else {
            assert(out.push(w).drop_last() =~= out);
        }
    }
}

proof fn lemma_split_text(f: Seq<WordV>, n: int)
    requires
        0 <= n <= f.len(),
    ensures
        all_text(split_pauses(f, n)) == all_text(f.take(n)),
        split_pauses(f, n).len() >= n,
    decreases n,
{
    if n > 0 {
        lemma_split_text(f, n - 1);
        let piece = split_at(f, n - 1);
        lemma_all_text_concat(split_pauses(f, n - 1), piece);
        assert(f.take(n).drop_last() =~= f.take(n - 1));
        let w = f[n - 1];
        let k = trim_end_len(w.0);
        if n - 1 + 1 < f.len() && holds_pause(duration(w), f[n].1 - w.2) && k > 0 && k < w.0.len() {
            let a = (w.0.take(k), w.1, w.2);
            let b = (w.0.skip(k), w.2, f[n].1);
            assert(piece == seq![a, b]);
            assert(piece.drop_last() =~= seq![a]);
            assert(piece.drop_last().drop_last() =~= Seq::<WordV>::empty());
            assert(all_text(seq![a]) == all_text(Seq::<WordV>::empty()) + a.0);
            assert(all_text(piece) == all_text(seq![a]) + b.0);
            assert(Seq::<char>::empty() + w.0.take(k) + w.0.skip(k) =~= w.0);
            assert(all_text(piece) == w.0);
        } else {
            assert(piece == seq![w]);
            assert(piece.drop_last() =~= Seq::<WordV>::empty());
            assert(Seq::<char>::empty() + w.0 =~= w.0);
            assert(all_text(piece) == all_text(piece.drop_last()) + piece.last().0);
            assert(all_text(Seq::<WordV>::empty()) == Seq::<char>::empty());
            assert(all_text(piece) == w.0);
        }
        assert(split_pauses(f, n) == split_pauses(f, n - 1) + piece);
        assert(f.take(n).last() == w);
        assert(all_text(f.take(n)) == all_text(f.take(n - 1)) + w.0);
    }
}

/// A rendered line keeps the words: it exists exactly when there are words,
/// and its tokens, whatever pauses were folded or split, hold the words'
/// texts one after the other, unchanged.
pub proof fn rendering_keeps_the_words(line_start: int, ws: Seq<WordV>)
    ensures
        rendered(line_start, ws) is None <==> ws.len() == 0,
        ({
            let f = folded(ws, ws.len() as int);
            all_text(split_pauses(f, f.len() as int)) == all_text(ws)
        }),
{
    let f = folded(ws, ws.len() as int);
    lemma_folded_text(ws, ws.len() as int);
    assert(ws.take(ws.len() as int) =~= ws);
    lemma_split_text(f, f.len() as int);
    assert(f.take(f.len() as int) =~= f);
}

} // verus!
