//! Where lyrics files are written: the relative path a folder template
//! gives a track's lyrics, the path segments it is made of, and the
//! joining of paths.
use vstd::prelude::*;
use crate::text::{
    all_digits, chars_of, copy_range, find_char, index_of, is_ws, is_whitespace, lead, lemma_lead_unique,
    lemma_trail_unique, occurs_at, occurs_at_exec, push_all, starts_with, string_of, trail,
};
use crate::num::{all_digits_exec, dec, dec_checked, pad_zeros};
use crate::unicode::{control, is_control};
use crate::num::{decimal, decimal_exec};
use crate::text::{eq_pred, join, join_exec, trail_char, views};
use crate::ext::TrackInfo;
use crate::types::{LyricsKind, kind_slug};
use crate::config::{PluginConfig, extension_of};

verus! {

// ---------------------------------------------------------------------------
// Path segments
/// A character that may not stand in a file or directory name.
pub open spec fn is_reserved(c: char) -> bool {
    c == '/' || c == '\\' || c == ':' || c == '*' || c == '?' || c == '"' || c == '<' || c == '>'
        || c == '|'
}

pub open spec fn invalid_in_name(c: char) -> bool {
    control(c) || is_reserved(c)
}

/// The first `n` characters of a name with each run of invalid characters
/// written as one underscore (none when an underscore of the name itself
/// comes just before), and whether what was written last is an underscore.
pub open spec fn underscored(s: Seq<char>, n: int) -> (Seq<char>, bool)
    decreases n,
{
    if n <= 0 {
        (seq![], false)
    } else {
        let (out, last) = underscored(s, n - 1);
        let c = s[n - 1];
        if invalid_in_name(c) {
            if last {
                (out, true)
            } else {
                (out.push('_'), true)
            }
        } else {
            (out.push(c), c == '_')
        }
    }
}

pub open spec fn ws_or_dot() -> spec_fn(char) -> bool {
    |c: char| is_ws(c) || c == '.'
}

/// A text without whitespace and dots at either end.
pub open spec fn trim_ws_dots(s: Seq<char>) -> Seq<char> {
    let t = s.skip(lead(s, ws_or_dot()) as int);
    t.take(t.len() - trail(t, ws_or_dot()))
}

pub open spec fn all_underscores(s: Seq<char>) -> bool {
    forall|i: int| 0 <= i < s.len() ==> s[i] == '_'
}

/// The name a text gives a path segment: invalid characters become
/// underscores, whitespace and dots at the ends go, and what is left is
/// `unknown` when it is empty or nothing but underscores.
pub open spec fn segment_name(s: Seq<char>) -> Seq<char> {
    let t = trim_ws_dots(underscored(s, s.len() as int).0);
    if t.len() == 0 || all_underscores(t) {
        "unknown"@
    } else {
        t
    }
}

fn is_reserved_exec(c: char) -> (r: bool)
    ensures
        r == is_reserved(c),
{
    c == '/' || c == '\\' || c == ':' || c == '*' || c == '?' || c == '"' || c == '<' || c == '>'
        || c == '|'
}

fn is_ws_or_dot(c: char) -> (r: bool)
    ensures
        r == ws_or_dot()(c),
{
    is_whitespace(c) || c == '.'
}

/// `s` without whitespace and dots at either end.
fn trim_ws_dots_vec(s: &[char]) -> (r: Vec<char>)
    ensures
        r@ == trim_ws_dots(s@),
{
    let n = s.len();
    let mut a: usize = 0;
    while a < n && is_ws_or_dot(s[a])
        invariant
            a <= n == s@.len(),
            forall|j: int| 0 <= j < a ==> #[trigger] ws_or_dot()(s@[j]),
        decreases n - a,
    {
        a = a + 1;
    }
    proof {
        lemma_lead_unique(s@, ws_or_dot(), a as int);
    }
    let mut b: usize = n;
    while b > a && is_ws_or_dot(s[b - 1])
        invariant
            a <= b <= n == s@.len(),
            forall|j: int| b <= j < n ==> #[trigger] ws_or_dot()(s@[j]),
        decreases b,
    {
        b = b - 1;
    }
    proof {
        let t = s@.skip(a as int);
        assert forall|j: int| t.len() - (n - b) <= j < t.len() implies #[trigger] ws_or_dot()(
            t[j],
        ) by {
            assert(t[j] == s@[j + a]);
        }
        if n - b < t.len() {
            assert(t[t.len() - (n - b) - 1] == s@[b - 1]);
        }
        lemma_trail_unique(t, ws_or_dot(), (n - b) as int);
        assert(s@.subrange(a as int, b as int) =~= t.take(t.len() - (n - b)));
    }
    crate::text::copy_range(s, a, b)
}

/// Whether every character of `s` is an underscore.
fn all_underscores_exec(s: &[char]) -> (r: bool)
    ensures
        r == all_underscores(s@),
{
    let mut i: usize = 0;
    while i < s.len()
        invariant
            i <= s@.len(),
            forall|j: int| 0 <= j < i ==> s@[j] == '_',
        decreases s.len() - i,
    {
        if s[i] != '_' {
            return false;
        }
        i = i + 1;
    }
    true
}

/// The name `name` gives a path segment: see `segment_name`.
pub fn sanitize_path_segment(name: &str) -> (r: String)
    ensures
        r@ == segment_name(name@),
{
    string_of(segment_name_vec(chars_of(name).as_slice()).as_slice())
}

fn segment_name_vec(s: &[char]) -> (r: Vec<char>)
    ensures
        r@ == segment_name(s@),
{
    let mut out: Vec<char> = Vec::new();
    let mut last_underscore = false;
    let mut i: usize = 0;
    while i < s.len()
        invariant
            i <= s@.len(),
            (out@, last_underscore) == underscored(s@, i as int),
        decreases s.len() - i,
    {
        let c = s[i];
        if is_control(c) || is_reserved_exec(c) {
            if !last_underscore {
                out.push('_');
                last_underscore = true;
            }
        } else {
            out.push(c);
            last_underscore = c == '_';
        }
        i = i + 1;
    }
    let trimmed = trim_ws_dots_vec(out.as_slice());
    if trimmed.len() == 0 || all_underscores_exec(trimmed.as_slice()) {
        chars_of("unknown")
    } else {
        trimmed
    }
}



/// What replacing invalid characters writes holds no invalid character.
proof fn lemma_underscored_clean(s: Seq<char>, n: int)
    ensures
        forall|i: int|
            0 <= i < underscored(s, n).0.len() ==> !invalid_in_name(#[trigger] underscored(s, n).0[i]),
    decreases n,
{
    if n > 0 {
        lemma_underscored_clean(s, n - 1);
        let (out, last) = underscored(s, n - 1);
        let c = s[n - 1];
        assert(!invalid_in_name('_'));
        assert forall|i: int|
            0 <= i < underscored(s, n).0.len() implies !invalid_in_name(
            #[trigger] underscored(s, n).0[i],
        ) by {
            if i < out.len() {
                assert(underscored(s, n).0[i] == out[i]);
            }
        }
    }
}

/// A text without invalid characters is written as it is.
proof fn lemma_underscored_keeps_valid(s: Seq<char>, n: int)
    requires
        0 <= n <= s.len(),
        forall|i: int| 0 <= i < s.len() ==> !invalid_in_name(#[trigger] s[i]),
    ensures
        underscored(s, n).0 == s.take(n),
    decreases n,
{
    if n > 0 {
        lemma_underscored_keeps_valid(s, n - 1);
        assert(s.take(n) =~= s.take(n - 1).push(s[n - 1]));
    }
}

/// A segment name can neither leave its directory nor reach into another:
/// it is never empty, holds no reserved character (no `/` or `\` among
/// them), and neither starts nor ends with a dot, so it is never `.` or `..`.
pub proof fn segment_name_stays_in_place(s: Seq<char>)
    ensures
        segment_name(s).len() > 0,
        forall|i: int|
            0 <= i < segment_name(s).len() ==> !is_reserved(#[trigger] segment_name(s)[i]),
        segment_name(s)[0] != '.',
        segment_name(s).last() != '.',
{
    let u = underscored(s, s.len() as int).0;
    let a = lead(u, ws_or_dot());
    let t = u.skip(a as int);
    let b = trail(t, ws_or_dot());
    let m = t.take(t.len() - b);
    crate::text::lemma_lead_bound(u, ws_or_dot());
    crate::text::lemma_trail_bound(t, ws_or_dot());
    lemma_underscored_clean(s, s.len() as int);
    if m.len() == 0 || all_underscores(m) {
        reveal_strlit("unknown");
    } else {
        assert forall|i: int| 0 <= i < m.len() implies !is_reserved(#[trigger] m[i]) by {
            assert(m[i] == u[i + a]);
        }
        assert(m[0] == t[0]);
        if b < t.len() {
            assert(!ws_or_dot()(t[t.len() - b - 1]));
        }
        if a < u.len() {
            assert(!ws_or_dot()(u[a as int]));
            assert(t[0] == u[a as int]);
        }
    }
}

/// A sanitized path segment is clean and stays as it is when sanitized
/// again: it holds no control or reserved character, is not made of
/// underscores alone, and has no whitespace or dot at either end.
pub proof fn segment_names_are_clean(s: Seq<char>)
    ensures
        ({
            let n = segment_name(s);
            &&& n.len() > 0
            &&& forall|i: int| 0 <= i < n.len() ==> !invalid_in_name(#[trigger] n[i])
            &&& !all_underscores(n)
            &&& !is_ws(n[0]) && n[0] != '.'
            &&& !is_ws(n.last()) && n.last() != '.'
            &&& segment_name(n) == n
        }),
{
    reveal_strlit("unknown");
    let u = underscored(s, s.len() as int).0;
    let a = lead(u, ws_or_dot());
    let t = u.skip(a as int);
    let b = trail(t, ws_or_dot());
    let m = t.take(t.len() - b);
    crate::text::lemma_lead_bound(u, ws_or_dot());
    crate::text::lemma_trail_bound(t, ws_or_dot());
    lemma_underscored_clean(s, s.len() as int);
    let n = segment_name(s);
    if m.len() == 0 || all_underscores(m) {
        assert(n == "unknown"@);
        assert(n[0] == 'u');
        assert(!all_underscores(n));
    } else {
        assert(n == m);
        assert forall|i: int| 0 <= i < m.len() implies !invalid_in_name(#[trigger] m[i]) by {
            assert(m[i] == u[i + a]);
        }
        assert(m[0] == t[0]);
        if b < t.len() {
            assert(!ws_or_dot()(t[t.len() - b - 1]));
        }
        if a < u.len() {
            assert(!ws_or_dot()(u[a as int]));
            assert(t[0] == u[a as int]);
        }
        assert(m.last() == t[t.len() - b - 1]);
    }
    assert forall|i: int| 0 <= i < n.len() implies !invalid_in_name(#[trigger] n[i]) by {}
    lemma_underscored_keeps_valid(n, n.len() as int);
    assert(n.take(n.len() as int) =~= n);
    let u2 = underscored(n, n.len() as int).0;
    assert(u2 == n);
    assert(!ws_or_dot()(n[0]));
    crate::text::lemma_lead_unique(n, ws_or_dot(), 0);
    assert(n.skip(0) =~= n);
    assert(!ws_or_dot()(n[n.len() - 1]));
    crate::text::lemma_trail_unique(n, ws_or_dot(), 0);
    assert(n.take(n.len() - 0) =~= n);
    assert(trim_ws_dots(u2) == n);
}

// ---------------------------------------------------------------------------
// Template variables
/// `str::replace`: from left to right, each occurrence of `pat` that does not
/// overlap an earlier one is replaced by `rep` (an empty `pat` changes nothing).
pub open spec fn replaced(s: Seq<char>, pat: Seq<char>, rep: Seq<char>) -> Seq<char>
    decreases s.len(),
{
    if s.len() == 0 {
        s
    } else if pat.len() > 0 && starts_with(s, pat) {
        rep + replaced(s.skip(pat.len() as int), pat, rep)
    } else {
        seq![s[0]] + replaced(s.drop_first(), pat, rep)
    }
}

/// `s` with each occurrence of `pat` replaced by `rep`: see `replaced`.
pub fn replace_all(s: &[char], pat: &[char], rep: &[char]) -> (r: Vec<char>)
    ensures
        r@ == replaced(s@, pat@, rep@),
{
    let n = s.len();
    let mut out: Vec<char> = Vec::new();
    let mut i: usize = 0;
    assert(s@.skip(0) =~= s@);
    while i < n
        invariant
            i <= n == s@.len(),
            out@ + replaced(s@.skip(i as int), pat@, rep@) == replaced(s@, pat@, rep@),
        decreases n - i,
    {
        let ghost t = s@.skip(i as int);
        if pat.len() > 0 && occurs_at_exec(s, pat, i) {
            proof {
                assert(t.subrange(0, pat@.len() as int) =~= s@.subrange(i as int, i + pat@.len()));
                assert(t.skip(pat@.len() as int) =~= s@.skip(i + pat@.len()));
                assert(out@ + rep@ + replaced(s@.skip(i + pat@.len()), pat@, rep@) =~= out@ + (
                rep@ + replaced(t.skip(pat@.len() as int), pat@, rep@)));
            }
            push_all(&mut out, rep);
            i = i + pat.len();
        } else {
            proof {
                if pat@.len() > 0 && i + pat@.len() <= n {
                    assert(t.subrange(0, pat@.len() as int) =~= s@.subrange(
                        i as int,
                        i + pat@.len(),
                    ));
                }
                assert(t.drop_first() =~= s@.skip(i + 1));
                assert(out@.push(s@[i as int]) + replaced(s@.skip(i + 1), pat@, rep@) =~= out@ + (
                seq![t[0]] + replaced(t.drop_first(), pat@, rep@)));
            }
            out.push(s[i]);
            i = i + 1;
        }
    }
    proof {
        assert(s@.skip(n as int) =~= Seq::<char>::empty());
        assert(out@ + Seq::<char>::empty() =~= out@);
    }
    out
}

/// `str::parse::<usize>`: an optional `+` and then decimal digits whose value
/// fits in a `usize`.
pub open spec fn usize_value(t: Seq<char>) -> Option<nat> {
    let d = if t.len() > 0 && t[0] == '+' {
        t.drop_first()
    } else {
        t
    };
    if d.len() > 0 && all_digits(d) && dec(d) <= usize::MAX {
        Some(dec(d))
    } else {
        None
    }
}

/// The width a variable's inner text `var:w` asks for; 0 when there is none
/// or it is not a number.
pub open spec fn var_width(inner: Seq<char>, var: Seq<char>) -> nat {
    let p = var.push(':');
    if starts_with(inner, p) {
        match usize_value(inner.skip(p.len() as int)) {
            Some(w) => w,
            None => 0,
        }
    } else {
        0
    }
}

/// Each `{var...}` in `s`, from left to right, replaced by `value`, padded
/// with zeros to the width it names (`{var:3}`); the rest of the text from a
/// `{var` that no `}` closes is left as it is.
pub open spec fn padded(s: Seq<char>, var: Seq<char>, value: Seq<char>) -> Seq<char>
    decreases s.len(),
{
    if s.len() == 0 {
        s
    } else if starts_with(s, seq!['{'] + var) {
        match index_of(s, '}') {
            Some(q) => if 0 < q < s.len() {
                pad_zeros(value, var_width(s.subrange(1, q), var)) + padded(
                    s.skip(q + 1),
                    var,
                    value,
                )
            } else {
                s
            },
            None => s,
        }
    } else {
        seq![s[0]] + padded(s.drop_first(), var, value)
    }
}

/// The value of `t` as `str::parse::<usize>` reads it.
fn parse_usize(t: &[char]) -> (r: Option<usize>)
    ensures
        match r {
            Some(v) => usize_value(t@) == Some(v as nat),
            None => usize_value(t@) is None,
        },
{
    let from: usize = if t.len() > 0 && t[0] == '+' {
        1
    } else {
        0
    };
    let d = copy_range(t, from, t.len());
    proof {
        if from == 1 {
            assert(d@ =~= t@.drop_first());
        } else {
            assert(d@ =~= t@);
        }
    }
    if d.len() == 0 || !all_digits_exec(d.as_slice()) {
        return None;
    }
    match dec_checked(d.as_slice()) {
        Some(v) => {
            if v <= usize::MAX as u64 {
                Some(v as usize)
            } else {
                None
            }
        },
        None => None,
    }
}

/// `value` with zeros in front up to width `w`.
fn pad_zeros_exec(value: &[char], w: usize) -> (r: Vec<char>)
    ensures
        r@ == pad_zeros(value@, w as nat),
{
    let mut out: Vec<char> = Vec::new();
    if value.len() < w {
        let k = w - value.len();
        let mut i: usize = 0;
        while i < k
            invariant
                i <= k,
                out@ == Seq::new(i as nat, |j: int| '0'),
            decreases k - i,
        {
            out.push('0');
            assert(out@ =~= Seq::new((i + 1) as nat, |j: int| '0'));
            i = i + 1;
        }
    }
    push_all(&mut out, value);
    proof {
        if value@.len() >= w {
            assert(out@ =~= value@);
        }
    }
    out
}

/// The width asked for by the inner text of a variable.
fn var_width_exec(inner: &[char], var: &[char]) -> (r: usize)
    ensures
        r as nat == var_width(inner@, var@),
{
    let mut p: Vec<char> = Vec::new();
    push_all(&mut p, var);
    p.push(':');
    assert(p@ =~= var@.push(':'));
    if !occurs_at_exec(inner, p.as_slice(), 0) {
        return 0;
    }
    let rest = copy_range(inner, p.len(), inner.len());
    assert(rest@ =~= inner@.skip(p@.len() as int));
    match parse_usize(rest.as_slice()) {
        Some(w) => w,
        None => 0,
    }
}

/// `s` with each `{var...}` replaced by the padded value: see `padded`.
fn padded_vec(s: &[char], var: &[char], value: &[char]) -> (r: Vec<char>)
    ensures
        r@ == padded(s@, var@, value@),
{
    let n = s.len();
    let mut pre: Vec<char> = Vec::new();
    pre.push('{');
    push_all(&mut pre, var);
    assert(pre@ =~= seq!['{'] + var@);
    let mut out: Vec<char> = Vec::new();
    let mut i: usize = 0;
    assert(s@.skip(0) =~= s@);
    while i < n
        invariant
            i <= n == s@.len(),
            pre@ == seq!['{'] + var@,
            out@ + padded(s@.skip(i as int), var@, value@) == padded(s@, var@, value@),
        decreases n - i,
    {
        let ghost t = s@.skip(i as int);
        if occurs_at_exec(s, pre.as_slice(), i) {
            proof {
                assert(t.subrange(0, pre@.len() as int) =~= s@.subrange(i as int, i + pre@.len()));
                assert(starts_with(t, pre@));
                assert(t[0] == '{');
            }
            match find_char(s, '}', i) {
                Some(q) => {
                    proof {
                        crate::text::lemma_index_of(t, '}');
                        assert(t[q - i] == '}');
                    }
                    let inner = copy_range(s, i + 1, q);
                    let w = var_width_exec(inner.as_slice(), var);
                    let v = pad_zeros_exec(value, w);
                    proof {
                        assert(inner@ =~= t.subrange(1, q - i));
                        assert(t.skip(q - i + 1) =~= s@.skip(q + 1));
                        assert(out@ + v@ + padded(s@.skip(q + 1), var@, value@) =~= out@ + (v@
                            + padded(t.skip(q - i + 1), var@, value@)));
                    }
                    push_all(&mut out, v.as_slice());
                    i = q + 1;
                },
                None => {
                    let rest = copy_range(s, i, n);
                    push_all(&mut out, rest.as_slice());
                    assert(rest@ =~= t);
                    return out;
                },
            }
        } else {
            proof {
                if pre@.len() <= t.len() {
                    assert(t.subrange(0, pre@.len() as int) =~= s@.subrange(
                        i as int,
                        i + pre@.len(),
                    ));
                }
                assert(t.drop_first() =~= s@.skip(i + 1));
                assert(out@.push(s@[i as int]) + padded(s@.skip(i + 1), var@, value@) =~= out@ + (
                seq![t[0]] + padded(t.drop_first(), var@, value@)));
            }
            out.push(s[i]);
            i = i + 1;
        }
    }
    proof {
        assert(s@.skip(n as int) =~= Seq::<char>::empty());
        assert(out@ + Seq::<char>::empty() =~= out@);
    }
    out
}

/// `template` with each `{var_name}` replaced by `value` and each
/// `{var_name:w}` by `value` padded with zeros to width `w`.
pub fn replace_padded_variable(template: &str, var_name: &str, value: &str) -> (r: String)
    ensures
        r@ == padded(template@, var_name@, value@),
{
    let s = chars_of(template);
    let var = chars_of(var_name);
    let v = chars_of(value);
    string_of(padded_vec(s.as_slice(), var.as_slice(), v.as_slice()).as_slice())
}


/// A width pads a number to at least that many characters, with zeros in
/// front of the value, and leaves a value that is long enough as it is.
pub proof fn padding_reaches_the_width(value: Seq<char>, w: nat)
    ensures
        pad_zeros(value, w).len() >= w,
        crate::text::ends_with(pad_zeros(value, w), value),
        forall|i: int| 0 <= i < pad_zeros(value, w).len() - value.len() ==> #[trigger] pad_zeros(value, w)[i] == '0',
        value.len() >= w ==> pad_zeros(value, w) == value,
{
    let p = pad_zeros(value, w);
    assert(p.subrange(p.len() - value.len(), p.len() as int) =~= value);
}

/// Every path a folder template gives ends with the lyrics' extension, so
/// the extension is there whatever the template says.
pub proof fn template_paths_end_with_the_extension(template: Seq<char>, t: TrackInfo, kind: LyricsKind, ext: Seq<char>)
    ensures
        crate::text::ends_with(template_path(template, t, kind, ext), seq!['.'] + ext),
{
    let p = join(template_segments(template, t, kind), seq!['/']);
    let dotted = seq!['.'] + ext;
    if !crate::text::ends_with(p, dotted) {
        let clean = p.take(p.len() - trail(p, eq_pred('.')));
        crate::text::lemma_trail_bound(p, eq_pred('.'));
        let head = if clean.len() == 0 {
            "unknown"@
        } else {
            clean
        };
        let r = head + dotted;
        assert(r.subrange(r.len() - dotted.len(), r.len() as int) =~= dotted);
    }
}

// ---------------------------------------------------------------------------
// Folder templates
pub open spec fn is_sep(c: char) -> bool {
    c == '/' || c == '\\'
}

/// The pieces of the first `n` characters of a template that were closed by
/// a separator, without the empty ones, and the piece still open.
pub open spec fn split_state(s: Seq<char>, n: int) -> (Seq<Seq<char>>, Seq<char>)
    decreases n,
{
    if n <= 0 {
        (seq![], seq![])
    } else {
        let (done, cur) = split_state(s, n - 1);
        let c = s[n - 1];
        if is_sep(c) {
            (
                if cur.len() > 0 {
                    done.push(cur)
                } else {
                    done
                },
                seq![],
            )
        } else {
            (done, cur.push(c))
        }
    }
}

/// The pieces of a template between `/` and `\` separators, without the
/// empty ones.
pub open spec fn components(s: Seq<char>) -> Seq<Seq<char>> {
    let (done, cur) = split_state(s, s.len() as int);
    if cur.len() > 0 {
        done.push(cur)
    } else {
        done
    }
}

/// A template piece with the track's variables filled in: `{type}`,
/// `{track:id}`, `{track:title}`, `{track:album}`, `{track:artist}` and
/// `{track:album_artist}` in that order, then the track and disc numbers,
/// which a width may pad.
pub open spec fn substituted(c: Seq<char>, t: TrackInfo, kind: LyricsKind) -> Seq<char> {
    let a = replaced(c, "{type}"@, kind_slug(kind));
    let b = replaced(a, "{track:id}"@, t.id@);
    let d = replaced(b, "{track:title}"@, t.title@);
    let e = replaced(d, "{track:album}"@, t.album@);
    let f = replaced(e, "{track:artist}"@, t.artist@);
    let g = replaced(f, "{track:album_artist}"@, t.album_artist@);
    let h = padded(g, "track:track_number"@, decimal(t.track_number as int));
    padded(h, "track:disc_number"@, decimal(t.disc_number as int))
}

pub open spec fn piece_names(pieces: Seq<Seq<char>>, t: TrackInfo, kind: LyricsKind) -> Seq<
    Seq<char>,
> {
    pieces.map_values(|c: Seq<char>| segment_name(substituted(c, t, kind)))
}

/// The directories and file name a template gives: one name per piece, and
/// `unknown` for a file name the template leaves open (it ends with a
/// separator) or when there is no piece at all.
pub open spec fn template_segments(template: Seq<char>, t: TrackInfo, kind: LyricsKind) -> Seq<
    Seq<char>,
> {
    let named = piece_names(components(template), t, kind);
    let tail = if template.len() > 0 && is_sep(template.last()) {
        named.push("unknown"@)
    } else {
        named
    };
    if tail.len() == 0 {
        seq!["unknown"@]
    } else {
        tail
    }
}

/// The relative path a folder template gives a track's lyrics: the segments
/// joined by `/`, with `.ext` appended unless the path already ends with it
/// (trailing dots give way to it; a path of dots alone becomes `unknown`).
pub open spec fn template_path(template: Seq<char>, t: TrackInfo, kind: LyricsKind, ext: Seq<
    char,
>) -> Seq<char> {
    let p = join(template_segments(template, t, kind), seq!['/']);
    let dotted = seq!['.'] + ext;
    if crate::text::ends_with(p, dotted) {
        p
    } else {
        let clean = p.take(p.len() - trail(p, eq_pred('.')));
        if clean.len() == 0 {
            "unknown"@ + dotted
        } else {
            clean + dotted
        }
    }
}

/// The pieces of `s` between separators, without the empty ones.
fn components_vec(s: &[char]) -> (r: Vec<Vec<char>>)
    ensures
        views(r@) == components(s@),
{
    let mut done: Vec<Vec<char>> = Vec::new();
    let mut cur: Vec<char> = Vec::new();
    let mut i: usize = 0;
    while i < s.len()
        invariant
            i <= s@.len(),
            (views(done@), cur@) == split_state(s@, i as int),
        decreases s.len() - i,
    {
        let c = s[i];
        if c == '/' || c == '\\' {
            if cur.len() > 0 {
                let ghost before = views(done@);
                done.push(cur);
                assert(views(done@) =~= before.push(split_state(s@, i as int).1));
            }
            cur = Vec::new();
            assert(cur@ =~= Seq::<char>::empty());
        } else {
            cur.push(c);
        }
        i = i + 1;
    }
    if cur.len() > 0 {
        let ghost before = views(done@);
        let ghost last = cur@;
        done.push(cur);
        assert(views(done@) =~= before.push(last));
    }
    done
}

/// A template piece with the track's variables filled in: see `substituted`.
fn substitute(c: &[char], t: &TrackInfo, kind: LyricsKind) -> (r: Vec<char>)
    ensures
        r@ == substituted(c@, *t, kind),
{
    let a = replace_all(c, chars_of("{type}").as_slice(), chars_of(kind.slug()).as_slice());
    let b = replace_all(a.as_slice(), chars_of("{track:id}").as_slice(), chars_of(t.id.as_str()).as_slice());
    let d = replace_all(b.as_slice(), chars_of("{track:title}").as_slice(), chars_of(t.title.as_str()).as_slice());
    let e = replace_all(d.as_slice(), chars_of("{track:album}").as_slice(), chars_of(t.album.as_str()).as_slice());
    let f = replace_all(e.as_slice(), chars_of("{track:artist}").as_slice(), chars_of(t.artist.as_str()).as_slice());
    let g = replace_all(
        f.as_slice(),
        chars_of("{track:album_artist}").as_slice(),
        chars_of(t.album_artist.as_str()).as_slice(),
    );
    let tn = decimal_exec(t.track_number as i64);
    let h = padded_vec(g.as_slice(), chars_of("track:track_number").as_slice(), tn.as_slice());
    let dn = decimal_exec(t.disc_number as i64);
    padded_vec(h.as_slice(), chars_of("track:disc_number").as_slice(), dn.as_slice())
}

/// The relative path the folder template `template` gives the lyrics of
/// `track` of kind `kind`, with extension `ext`: see `template_path`.
pub fn process_template(template: &str, track: &TrackInfo, kind: LyricsKind, ext: &str) -> (r:
    String)
    ensures
        r@ == template_path(template@, *track, kind, ext@),
{
    let t = chars_of(template);
    let pieces = components_vec(t.as_slice());
    let ghost all = components(t@);
    let mut segs: Vec<Vec<char>> = Vec::new();
    let mut i: usize = 0;
    while i < pieces.len()
        invariant
            i <= pieces@.len(),
            views(pieces@) == all,
            views(segs@) == piece_names(all.take(i as int), *track, kind),
        decreases pieces.len() - i,
    {
        let sub = substitute(pieces[i].as_slice(), track, kind);
        let name = segment_name_vec(sub.as_slice());
        let ghost before = views(segs@);
        proof {
            assert(all[i as int] == pieces@[i as int]@);
            assert(all.take(i + 1) =~= all.take(i as int).push(all[i as int]));
        }
        segs.push(name);
        assert(views(segs@) =~= before.push(name@));
        assert(piece_names(all.take(i + 1), *track, kind) =~= piece_names(all.take(i as int), *track, kind).push(name@));
        i = i + 1;
    }
    assert(all.take(pieces@.len() as int) =~= all);
    let n = t.len();
    if n > 0 && (t[n - 1] == '/' || t[n - 1] == '\\') {
        let ghost before = views(segs@);
        segs.push(chars_of("unknown"));
        assert(views(segs@) =~= before.push("unknown"@));
    }
    if segs.len() == 0 {
        segs.push(chars_of("unknown"));
        assert(views(segs@) =~= seq!["unknown"@]);
    }
    let p = join_exec(&segs, chars_of("/").as_slice());
    proof {
        reveal_strlit("/");
        assert("/"@ =~= seq!['/']);
    }
    let mut dotted: Vec<char> = Vec::new();
    dotted.push('.');
    push_all(&mut dotted, chars_of(ext).as_slice());
    assert(dotted@ =~= seq!['.'] + ext@);
    let pl = p.len();
    if dotted.len() <= pl && occurs_at_exec(p.as_slice(), dotted.as_slice(), pl - dotted.len()) {
        return string_of(p.as_slice());
    }
    let k = trail_char(p.as_slice(), pl, '.');
    assert(p@.take(pl as int) =~= p@);
    let clean = copy_range(p.as_slice(), 0, pl - k);
    assert(clean@ =~= p@.take(p@.len() - trail(p@, eq_pred('.'))));
    let mut out = if clean.len() == 0 {
        chars_of("unknown")
    } else {
        clean
    };
    push_all(&mut out, dotted.as_slice());
    string_of(out.as_slice())
}

/// A name that can stand as one piece of a path: not empty, without a
/// control or reserved character, and neither starting nor ending with a dot.
pub open spec fn safe_piece(n: Seq<char>) -> bool {
    &&& n.len() > 0
    &&& forall|i: int| 0 <= i < n.len() ==> !invalid_in_name(#[trigger] n[i])
    &&& n[0] != '.'
    &&& n.last() != '.'
}

/// Pieces joined by `/`: the text starts and ends as the first and last
/// pieces do, and each `/` is followed by the first character of a piece.
proof fn lemma_join_safe(segs: Seq<Seq<char>>)
    requires
        segs.len() > 0,
        forall|k: int| 0 <= k < segs.len() ==> safe_piece(#[trigger] segs[k]),
    ensures
        ({
            let p = join(segs, seq!['/']);
            &&& p.len() > 0
            &&& p[0] == segs[0][0]
            &&& p.last() == segs.last().last()
            &&& forall|i: int|
                0 <= i < p.len() && #[trigger] p[i] == '/' ==> i + 1 < p.len() && p[i + 1] != '.'
                    && p[i + 1] != '/'
            &&& forall|i: int| 0 <= i < p.len() ==> #[trigger] p[i] == '/' || !invalid_in_name(p[i])
        }),
    decreases segs.len(),
{
    let p = join(segs, seq!['/']);
    if segs.len() == 1 {
        assert(p == segs[0]);
        assert forall|i: int| 0 <= i < p.len() && #[trigger] p[i] == '/' implies i + 1 < p.len()
            && p[i + 1] != '.' && p[i + 1] != '/' by {
            assert(!invalid_in_name(segs[0][i]));
        }
        assert forall|i: int| 0 <= i < p.len() implies #[trigger] p[i] == '/' || !invalid_in_name(p[i]) by {
            assert(!invalid_in_name(segs[0][i]));
        }
    } else {
        let prev = segs.drop_last();
        assert forall|k: int| 0 <= k < prev.len() implies safe_piece(#[trigger] prev[k]) by {
            assert(prev[k] == segs[k]);
        }
        lemma_join_safe(prev);
        let q = join(prev, seq!['/']);
        let last = segs.last();
        assert(safe_piece(segs[segs.len() - 1]));
        assert(p == q + seq!['/'] + last);
        assert(prev[0] == segs[0]);
        assert forall|i: int| 0 <= i < p.len() && #[trigger] p[i] == '/' implies i + 1 < p.len()
            && p[i + 1] != '.' && p[i + 1] != '/' by {
            if i < q.len() {
                assert(p[i] == q[i]);
                assert(p[i + 1] == q[i + 1]);
            } else if i == q.len() {
                assert(p[i + 1] == last[0]);
            } else {
                assert(p[i] == last[i - q.len() - 1]);
                assert(!invalid_in_name(last[i - q.len() - 1]));
            }
        }
        assert forall|i: int| 0 <= i < p.len() implies #[trigger] p[i] == '/' || !invalid_in_name(p[i]) by {
            if i < q.len() {
                assert(p[i] == q[i]);
            } else if i > q.len() {
                assert(p[i] == last[i - q.len() - 1]);
            }
        }
    }
}

/// The pieces a template gives are all safe.
proof fn lemma_template_segments_safe(template: Seq<char>, t: TrackInfo, kind: LyricsKind)
    ensures
        template_segments(template, t, kind).len() > 0,
        forall|k: int|
            0 <= k < template_segments(template, t, kind).len() ==> safe_piece(
                #[trigger] template_segments(template, t, kind)[k],
            ),
{
    reveal_strlit("unknown");
    let named = piece_names(components(template), t, kind);
    assert forall|k: int| 0 <= k < named.len() implies safe_piece(#[trigger] named[k]) by {
        segment_names_are_clean(substituted(components(template)[k], t, kind));
    }
    segment_names_are_clean(seq![]);
    assert(segment_name(seq![]) == "unknown"@);
    assert(safe_piece("unknown"@));
}

/// A path a folder template gives can never leave the directory it is
/// written in: it does not start at the root, and no piece of it between
/// `/` separators is empty, `.` or `..` (each piece starts with a character
/// that is neither a dot nor a separator), provided the extension holds no
/// `/`.
pub proof fn template_paths_stay_inside(template: Seq<char>, t: TrackInfo, kind: LyricsKind, ext: Seq<char>)
    requires
        forall|i: int| 0 <= i < ext.len() ==> ext[i] != '/',
    ensures
        ({
            let r = template_path(template, t, kind, ext);
            &&& r.len() > 0
            &&& r[0] != '/' && r[0] != '.'
            &&& forall|i: int|
                0 <= i < r.len() && #[trigger] r[i] == '/' ==> i + 1 < r.len() && r[i + 1] != '.'
                    && r[i + 1] != '/'
        }),
{
    let segs = template_segments(template, t, kind);
    lemma_template_segments_safe(template, t, kind);
    lemma_join_safe(segs);
    let p = join(segs, seq!['/']);
    let dotted = seq!['.'] + ext;
    assert(safe_piece(segs[0]));
    assert(safe_piece(segs[segs.len() - 1]));
    assert(!invalid_in_name(segs[0][0]));
    if !crate::text::ends_with(p, dotted) {
        assert(trail(p, eq_pred('.')) == 0);
        assert(p.take(p.len() - 0) =~= p);
        let r = p + dotted;
        assert forall|i: int| 0 <= i < r.len() && #[trigger] r[i] == '/' implies i + 1 < r.len()
            && r[i + 1] != '.' && r[i + 1] != '/' by {
            if i < p.len() {
                assert(r[i] == p[i]);
                assert(r[i + 1] == p[i + 1]);
            } else if i == p.len() {
                assert(r[i] == '.');
            } else {
                assert(r[i] == ext[i - p.len() - 1]);
            }
        }
        assert(r[0] == p[0]);
    }
}

/// Each name in a path a folder template gives is clean: apart from the
/// `/` separators, the path holds no control or reserved character, provided
/// the extension holds none either.
pub proof fn template_paths_hold_clean_names(template: Seq<char>, t: TrackInfo, kind: LyricsKind, ext: Seq<char>)
    requires
        forall|i: int| 0 <= i < ext.len() ==> !invalid_in_name(#[trigger] ext[i]),
    ensures
        ({
            let r = template_path(template, t, kind, ext);
            forall|i: int| 0 <= i < r.len() ==> #[trigger] r[i] == '/' || !invalid_in_name(r[i])
        }),
{
    reveal_strlit("unknown");
    let segs = template_segments(template, t, kind);
    lemma_template_segments_safe(template, t, kind);
    lemma_join_safe(segs);
    let p = join(segs, seq!['/']);
    let dotted = seq!['.'] + ext;
    let r = template_path(template, t, kind, ext);
    if !crate::text::ends_with(p, dotted) {
        let clean = p.take(p.len() - trail(p, eq_pred('.')));
        crate::text::lemma_trail_bound(p, eq_pred('.'));
        let head = if clean.len() == 0 {
            "unknown"@
        } else {
            clean
        };
        assert(r == head + dotted);
        assert forall|i: int| 0 <= i < r.len() implies #[trigger] r[i] == '/' || !invalid_in_name(r[i]) by {
            if i < head.len() {
                assert(r[i] == head[i]);
                if clean.len() > 0 {
                    assert(head[i] == p[i]);
                }
            } else if i > head.len() {
                assert(r[i] == ext[i - head.len() - 1]);
            }
        }
    }
}

// ---------------------------------------------------------------------------
// What each template variable stands for

proof fn lemma_replaced_absent(s: Seq<char>, pat: Seq<char>, rep: Seq<char>)
    requires
        pat.len() > 0 && pat[0] == '{',
        forall|i: int| 0 <= i < s.len() ==> s[i] != '{',
    ensures
        replaced(s, pat, rep) == s,
    decreases s.len(),
{
    if s.len() > 0 {
        assert(!starts_with(s, pat)) by {
            if starts_with(s, pat) {
                assert(s.subrange(0, pat.len() as int)[0] == s[0]);
            }
        }
        lemma_replaced_absent(s.drop_first(), pat, rep);
        assert(seq![s[0]] + s.drop_first() =~= s);
    }
}

proof fn lemma_padded_absent(s: Seq<char>, var: Seq<char>, value: Seq<char>)
    requires
        forall|i: int| 0 <= i < s.len() ==> s[i] != '{',
    ensures
        padded(s, var, value) == s,
    decreases s.len(),
{
    if s.len() > 0 {
        assert(!starts_with(s, seq!['{'] + var)) by {
            if starts_with(s, seq!['{'] + var) {
                assert(s.subrange(0, (seq!['{'] + var).len() as int)[0] == s[0]);
            }
        }
        lemma_padded_absent(s.drop_first(), var, value);
        assert(seq![s[0]] + s.drop_first() =~= s);
    }
}

proof fn lemma_mismatch(s: Seq<char>, p: Seq<char>, k: int)
    requires
        p.len() > s.len() || (0 <= k < p.len() && k < s.len() && s[k] != p[k]),
    ensures
        !starts_with(s, p),
{
    if starts_with(s, p) {
        assert(s.subrange(0, p.len() as int)[k] == s[k]);
    }
}

/// A piece `{...}` with no other brace is left as it is by a variable it
/// does not start with.
proof fn lemma_other_variable(piece: Seq<char>, pat: Seq<char>, rep: Seq<char>)
    requires
        piece.len() > 0 && piece[0] == '{',
        forall|i: int| 1 <= i < piece.len() ==> piece[i] != '{',
        pat.len() > 0 && pat[0] == '{',
        !starts_with(piece, pat),
    ensures
        replaced(piece, pat, rep) == piece,
{
    let t = piece.drop_first();
    assert forall|i: int| 0 <= i < t.len() implies t[i] != '{' by {
        assert(t[i] == piece[i + 1]);
    }
    lemma_replaced_absent(t, pat, rep);
    assert(seq![piece[0]] + t =~= piece);
}

proof fn lemma_own_variable(piece: Seq<char>, rep: Seq<char>)
    requires
        piece.len() > 0,
    ensures
        replaced(piece, piece, rep) == rep,
{
    assert(piece.subrange(0, piece.len() as int) =~= piece);
    assert(starts_with(piece, piece));
    assert(piece.skip(piece.len() as int) =~= Seq::<char>::empty());
    assert(replaced(Seq::<char>::empty(), piece, rep) == Seq::<char>::empty());
    assert(rep + Seq::<char>::empty() =~= rep);
}

pub open spec fn brace_free(s: Seq<char>) -> bool {
    forall|i: int| 0 <= i < s.len() ==> s[i] != '{'
}

/// A value with no brace passes the later substitutions unchanged.
proof fn lemma_value_stays(v: Seq<char>, t: TrackInfo)
    requires
        brace_free(v),
    ensures
        replaced(v, "{track:id}"@, t.id@) == v,
        replaced(v, "{track:title}"@, t.title@) == v,
        replaced(v, "{track:album}"@, t.album@) == v,
        replaced(v, "{track:artist}"@, t.artist@) == v,
        replaced(v, "{track:album_artist}"@, t.album_artist@) == v,
        padded(v, "track:track_number"@, decimal(t.track_number as int)) == v,
        padded(v, "track:disc_number"@, decimal(t.disc_number as int)) == v,
{
    reveal_strlit("{track:id}");
    reveal_strlit("{track:title}");
    reveal_strlit("{track:album}");
    reveal_strlit("{track:artist}");
    reveal_strlit("{track:album_artist}");
    lemma_replaced_absent(v, "{track:id}"@, t.id@);
    lemma_replaced_absent(v, "{track:title}"@, t.title@);
    lemma_replaced_absent(v, "{track:album}"@, t.album@);
    lemma_replaced_absent(v, "{track:artist}"@, t.artist@);
    lemma_replaced_absent(v, "{track:album_artist}"@, t.album_artist@);
    lemma_padded_absent(v, "track:track_number"@, decimal(t.track_number as int));
    lemma_padded_absent(v, "track:disc_number"@, decimal(t.disc_number as int));
}

/// Each template variable, standing alone in a piece of the template,
/// becomes the value it names: `{type}` the kind's slug, `{track:id}` the
/// track's id, `{track:title}` its title, `{track:album}` its album,
/// `{track:artist}` its artist and `{track:album_artist}` its album artist
/// (for values that hold no `{`, which later substitutions would read).
pub proof fn each_variable_stands_for_its_field(t: TrackInfo, kind: LyricsKind)
    requires
        brace_free(t.id@),
        brace_free(t.title@),
        brace_free(t.album@),
        brace_free(t.artist@),
        brace_free(t.album_artist@),
    ensures
        substituted("{type}"@, t, kind) == kind_slug(kind),
        substituted("{track:id}"@, t, kind) == t.id@,
        substituted("{track:title}"@, t, kind) == t.title@,
        substituted("{track:album}"@, t, kind) == t.album@,
        substituted("{track:artist}"@, t, kind) == t.artist@,
        substituted("{track:album_artist}"@, t, kind) == t.album_artist@,
{
    let ty = "{type}"@;
    let id = "{track:id}"@;
    let ti = "{track:title}"@;
    let al = "{track:album}"@;
    let ar = "{track:artist}"@;
    let aa = "{track:album_artist}"@;
    reveal_strlit("{type}");
    reveal_strlit("{track:id}");
    reveal_strlit("{track:title}");
    reveal_strlit("{track:album}");
    reveal_strlit("{track:artist}");
    reveal_strlit("{track:album_artist}");
    reveal_strlit("plain");
    reveal_strlit("lrc");
    reveal_strlit("elrc");
    reveal_strlit("ttml");
    reveal_strlit("srt");
    reveal_strlit("lyricsfile");
    reveal_strlit("instrumental");
    assert(brace_free(kind_slug(kind)));
    // {type}
    lemma_own_variable(ty, kind_slug(kind));
    lemma_value_stays(kind_slug(kind), t);
    // {track:id}
    lemma_mismatch(id, ty, 2);
    lemma_other_variable(id, ty, kind_slug(kind));
    lemma_own_variable(id, t.id@);
    lemma_value_stays(t.id@, t);
    // {track:title}
    lemma_mismatch(ti, ty, 2);
    lemma_other_variable(ti, ty, kind_slug(kind));
    lemma_mismatch(ti, id, 7);
    lemma_other_variable(ti, id, t.id@);
    lemma_own_variable(ti, t.title@);
    lemma_value_stays(t.title@, t);
    // {track:album}
    lemma_mismatch(al, ty, 2);
    lemma_other_variable(al, ty, kind_slug(kind));
    lemma_mismatch(al, id, 7);
    lemma_other_variable(al, id, t.id@);
    lemma_mismatch(al, ti, 7);
    lemma_other_variable(al, ti, t.title@);
    lemma_own_variable(al, t.album@);
    lemma_value_stays(t.album@, t);
    // {track:artist}
    lemma_mismatch(ar, ty, 2);
    lemma_other_variable(ar, ty, kind_slug(kind));
    lemma_mismatch(ar, id, 7);
    lemma_other_variable(ar, id, t.id@);
    lemma_mismatch(ar, ti, 7);
    lemma_other_variable(ar, ti, t.title@);
    lemma_mismatch(ar, al, 8);
    lemma_other_variable(ar, al, t.album@);
    lemma_own_variable(ar, t.artist@);
    lemma_value_stays(t.artist@, t);
    // {track:album_artist}
    lemma_mismatch(aa, ty, 2);
    lemma_other_variable(aa, ty, kind_slug(kind));
    lemma_mismatch(aa, id, 7);
    lemma_other_variable(aa, id, t.id@);
    lemma_mismatch(aa, ti, 7);
    lemma_other_variable(aa, ti, t.title@);
    lemma_mismatch(aa, al, 12);
    lemma_other_variable(aa, al, t.album@);
    lemma_mismatch(aa, ar, 8);
    lemma_other_variable(aa, ar, t.artist@);
    lemma_own_variable(aa, t.album_artist@);
    lemma_value_stays(t.album_artist@, t);
}

/// A name that a path segment keeps as it is: not empty, without control
/// or reserved characters, not all underscores, and with no whitespace or
/// dot at either end.
pub open spec fn name_clean(v: Seq<char>) -> bool {
    &&& v.len() > 0
    &&& forall|i: int| 0 <= i < v.len() ==> !invalid_in_name(#[trigger] v[i])
    &&& !all_underscores(v)
    &&& !is_ws(v[0]) && v[0] != '.'
    &&& !is_ws(v.last()) && v.last() != '.'
}

proof fn lemma_clean_name_kept(v: Seq<char>)
    requires
        name_clean(v),
    ensures
        segment_name(v) == v,
{
    lemma_underscored_keeps_valid(v, v.len() as int);
    assert(v.take(v.len() as int) =~= v);
    assert(!ws_or_dot()(v[0]));
    crate::text::lemma_lead_unique(v, ws_or_dot(), 0);
    assert(v.skip(0) =~= v);
    assert(!ws_or_dot()(v[v.len() - 1]));
    crate::text::lemma_trail_unique(v, ws_or_dot(), 0);
    assert(v.take(v.len() - 0) =~= v);
}

proof fn lemma_split_no_sep(s: Seq<char>, n: int)
    requires
        0 <= n <= s.len(),
        forall|i: int| 0 <= i < s.len() ==> !is_sep(#[trigger] s[i]),
    ensures
        split_state(s, n) == (Seq::<Seq<char>>::empty(), s.take(n)),
    decreases n,
{
    if n > 0 {
        lemma_split_no_sep(s, n - 1);
        assert(s.take(n) =~= s.take(n - 1).push(s[n - 1]));
    }
}

/// A template that is one piece, without separators, gives one segment.
proof fn lemma_single_piece(piece: Seq<char>, t: TrackInfo, kind: LyricsKind)
    requires
        piece.len() > 0,
        forall|i: int| 0 <= i < piece.len() ==> !is_sep(#[trigger] piece[i]),
    ensures
        template_segments(piece, t, kind) == seq![segment_name(substituted(piece, t, kind))],
{
    lemma_split_no_sep(piece, piece.len() as int);
    assert(piece.take(piece.len() as int) =~= piece);
    assert(components(piece) =~= seq![piece]);
    assert(!is_sep(piece[piece.len() - 1]));
    assert(piece_names(seq![piece], t, kind) =~= seq![segment_name(substituted(piece, t, kind))]);
}

/// A folder template that is a single track variable names a folder (or
/// file) after that field of the track, unchanged when the field is a clean
/// name with no `{`: the album artist for `{track:album_artist}`, the artist
/// for `{track:artist}`, and so on.
pub proof fn a_variable_template_is_named_after_its_field(t: TrackInfo, kind: LyricsKind)
    requires
        brace_free(t.id@),
        brace_free(t.title@),
        brace_free(t.album@),
        brace_free(t.artist@),
        brace_free(t.album_artist@),
    ensures
        name_clean(t.id@) ==> template_segments("{track:id}"@, t, kind) == seq![t.id@],
        name_clean(t.title@) ==> template_segments("{track:title}"@, t, kind) == seq![t.title@],
        name_clean(t.album@) ==> template_segments("{track:album}"@, t, kind) == seq![t.album@],
        name_clean(t.artist@) ==> template_segments("{track:artist}"@, t, kind) == seq![t.artist@],
        name_clean(t.album_artist@) ==> template_segments("{track:album_artist}"@, t, kind) == seq![
            t.album_artist@,
        ],
{
    each_variable_stands_for_its_field(t, kind);
    reveal_strlit("{track:id}");
    reveal_strlit("{track:title}");
    reveal_strlit("{track:album}");
    reveal_strlit("{track:artist}");
    reveal_strlit("{track:album_artist}");
    lemma_single_piece("{track:id}"@, t, kind);
    lemma_single_piece("{track:title}"@, t, kind);
    lemma_single_piece("{track:album}"@, t, kind);
    lemma_single_piece("{track:artist}"@, t, kind);
    lemma_single_piece("{track:album_artist}"@, t, kind);
    if name_clean(t.id@) {
        lemma_clean_name_kept(t.id@);
    }
    if name_clean(t.title@) {
        lemma_clean_name_kept(t.title@);
    }
    if name_clean(t.album@) {
        lemma_clean_name_kept(t.album@);
    }
    if name_clean(t.artist@) {
        lemma_clean_name_kept(t.artist@);
    }
    if name_clean(t.album_artist@) {
        lemma_clean_name_kept(t.album_artist@);
    }
}

// ---------------------------------------------------------------------------
// Paths
/// `PathBuf::push` on Unix: a path that starts with `/` takes the place of
/// the base; otherwise the two are joined by one `/` (none after an empty
/// base or one that already ends with `/`).
pub open spec fn joined(base: Seq<char>, rel: Seq<char>) -> Seq<char> {
    if rel.len() > 0 && rel[0] == '/' {
        rel
    } else if base.len() == 0 || base.last() == '/' {
        base + rel
    } else {
        base + seq!['/'] + rel
    }
}

/// `rel` joined onto `base`: see `joined`.
pub fn join_path(base: &str, rel: &str) -> (r: String)
    ensures
        r@ == joined(base@, rel@),
{
    let b = chars_of(base);
    let r = chars_of(rel);
    if r.len() > 0 && r[0] == '/' {
        return string_of(r.as_slice());
    }
    let mut out = b;
    if out.len() > 0 && out[out.len() - 1] != '/' {
        out.push('/');
    }
    push_all(&mut out, r.as_slice());
    string_of(out.as_slice())
}

/// Where the configuration sends a track's lyrics file.
#[derive(Debug, PartialEq, Eq)]
pub enum WriteTarget {
    /// Into the library with this id, at the path the folder template gives.
    Library(i32),
    /// Beside the track's own file, under the lyrics' extension.
    Sidecar,
}

/// Why a lyrics file has nowhere to go.
#[derive(Debug, PartialEq, Eq)]
pub enum WriteError {
    /// Writing to a folder is on, but no library is chosen for it.
    MissingLibraryId,
    /// The track has no path to put the file beside.
    EmptyTrackPath,
}

impl WriteError {
    /// The error's message.
    pub fn message(&self) -> (r: &'static str)
        ensures
            r@ == match self {
                WriteError::MissingLibraryId => "a library ID is required when write to custom path is enabled"@,
                WriteError::EmptyTrackPath => "track path is empty"@,
            },
    {
        match self {
            WriteError::MissingLibraryId => "a library ID is required when write to custom path is enabled",
            WriteError::EmptyTrackPath => "track path is empty",
        }
    }
}

/// Where a track's lyrics file goes: into the chosen library when writing to
/// a folder is on, else beside the track; an error when the one or the
/// other is missing.
pub fn write_target(cfg: &PluginConfig, track: &TrackInfo) -> (r: Result<WriteTarget, WriteError>)
    ensures
        cfg.write_to_specific_folder ==> match cfg.write_to_specific_folder_library_id {
            Some(id) => r == Ok::<WriteTarget, WriteError>(WriteTarget::Library(id)),
            None => r == Err::<WriteTarget, WriteError>(WriteError::MissingLibraryId),
        },
        !cfg.write_to_specific_folder ==> (r == if track.path@.len() == 0 {
            Err::<WriteTarget, WriteError>(WriteError::EmptyTrackPath)
        } else {
            Ok(WriteTarget::Sidecar)
        }),
{
    if cfg.write_to_specific_folder {
        match cfg.write_to_specific_folder_library_id {
            Some(id) => Ok(WriteTarget::Library(id)),
            None => Err(WriteError::MissingLibraryId),
        }
    } else if track.path.as_str().unicode_len() == 0 {
        Err(WriteError::EmptyTrackPath)
    } else {
        Ok(WriteTarget::Sidecar)
    }
}

/// The file a track's lyrics of kind `kind` are written to in a library
/// mounted at `mount_point`: the path the configured folder template gives,
/// under the kind's configured extension.
pub fn resolve_custom_path(cfg: &PluginConfig, mount_point: &str, track: &TrackInfo, kind: LyricsKind) -> (r: String)
    ensures
        r@ == joined(
            mount_point@,
            template_path(cfg.write_to_specific_folder_template@, *track, kind, extension_of(*cfg, kind)),
        ),
{
    let ext = cfg.extension_for(kind);
    let rel = process_template(cfg.write_to_specific_folder_template.as_str(), track, kind, ext);
    join_path(mount_point, rel.as_str())
}

} // verus!
