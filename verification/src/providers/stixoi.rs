//! stixoi.info, a site of Greek lyrics: matching titles and artists across
//! accents, case and spelling, and reading its React server payloads.
use vstd::prelude::*;
use vstd::utf8::{decode_utf8, encode_utf8, valid_utf8};
use crate::ext::{TrackInfo, TrackInfoExt, cleaned_title, unbracketed};
use crate::pattern::{captures_all, group_views, groups_views, re_captures_all};
use crate::providers::error::ProviderError;
use crate::providers::http::{Http, Response, set_header, BROWSER_USER_AGENT};
use crate::providers::timed::group;
use crate::text::{chars_of, find_char, find_seq, join, join_exec, occurs_at, push_all, split_ws, string_of, trim, trim_vec, views, words};
use crate::unicode::{alphanumeric, char_lowercase, is_alphanumeric, lowercase_of};

verus! {

pub const BASE_URL: &'static str = "https://stixoi.info";

/// How many search results are looked at before giving up.
pub const MAX_PROBE: usize = 8;

pub const SONG_LINK_PATTERN: &'static str = r#""href":"/songs/(\d+)""#;

// ---------------------------------------------------------------------------
// Matching names
/// Greek and Latin letters without their accents; the final sigma as a
/// sigma.
pub open spec fn fold_spec(c: char) -> char {
    if c == 'ά' {
        'α'
    } else if c == 'έ' {
        'ε'
    } else if c == 'ή' {
        'η'
    } else if c == 'ί' || c == 'ϊ' || c == 'ΐ' {
        'ι'
    } else if c == 'ό' {
        'ο'
    } else if c == 'ύ' || c == 'ϋ' || c == 'ΰ' {
        'υ'
    } else if c == 'ώ' {
        'ω'
    } else if c == 'ς' {
        'σ'
    } else if c == 'á' || c == 'à' || c == 'â' || c == 'ä' || c == 'ã' || c == 'å' {
        'a'
    } else if c == 'é' || c == 'è' || c == 'ê' || c == 'ë' {
        'e'
    } else if c == 'í' || c == 'ì' || c == 'î' || c == 'ï' {
        'i'
    } else if c == 'ó' || c == 'ò' || c == 'ô' || c == 'ö' || c == 'õ' {
        'o'
    } else if c == 'ú' || c == 'ù' || c == 'û' || c == 'ü' {
        'u'
    } else if c == 'ñ' {
        'n'
    } else if c == 'ç' {
        'c'
    } else {
        c
    }
}

pub fn fold(c: char) -> (r: char)
    ensures
        r == fold_spec(c),
{
    if c == 'ά' {
        'α'
    } else if c == 'έ' {
        'ε'
    } else if c == 'ή' {
        'η'
    } else if c == 'ί' || c == 'ϊ' || c == 'ΐ' {
        'ι'
    } else if c == 'ό' {
        'ο'
    } else if c == 'ύ' || c == 'ϋ' || c == 'ΰ' {
        'υ'
    } else if c == 'ώ' {
        'ω'
    } else if c == 'ς' {
        'σ'
    } else if c == 'á' || c == 'à' || c == 'â' || c == 'ä' || c == 'ã' || c == 'å' {
        'a'
    } else if c == 'é' || c == 'è' || c == 'ê' || c == 'ë' {
        'e'
    } else if c == 'í' || c == 'ì' || c == 'î' || c == 'ï' {
        'i'
    } else if c == 'ó' || c == 'ò' || c == 'ô' || c == 'ö' || c == 'õ' {
        'o'
    } else if c == 'ú' || c == 'ù' || c == 'û' || c == 'ü' {
        'u'
    } else if c == 'ñ' {
        'n'
    } else if c == 'ç' {
        'c'
    } else {
        c
    }
}

/// A text lowercased character by character and folded.
pub open spec fn lowered(s: Seq<char>) -> Seq<char>
    decreases s.len(),
{
    if s.len() == 0 {
        seq![]
    } else {
        lowered(s.drop_last()) + char_lowercase(s.last()).map_values(|c: char| fold_spec(c))
    }
}

pub open spec fn keep_alnum(s: Seq<char>) -> Seq<char>
    decreases s.len(),
{
    if s.len() == 0 {
        seq![]
    } else if alphanumeric(s.last()) {
        keep_alnum(s.drop_last()).push(s.last())
    } else {
        keep_alnum(s.drop_last())
    }
}

/// A name reduced for comparison: lowercased, folded, letters and digits
/// only.
pub open spec fn normalized(s: Seq<char>) -> Seq<char> {
    keep_alnum(lowered(s))
}

pub open spec fn blank_non_alnum(s: Seq<char>) -> Seq<char> {
    s.map_values(|c: char| if alphanumeric(c) { c } else { ' ' })
}

/// A word with runs of the same character reduced to one.
pub open spec fn collapsed(s: Seq<char>) -> Seq<char>
    decreases s.len(),
{
    if s.len() <= 1 {
        s
    } else if s.last() == s[s.len() - 2] {
        collapsed(s.drop_last())
    } else {
        collapsed(s.drop_last()).push(s.last())
    }
}

/// The words of a name: lowercased, folded, split at anything but letters
/// and digits, with doubled letters made single.
pub open spec fn token_list(s: Seq<char>) -> Seq<Seq<char>> {
    words(blank_non_alnum(lowered(s))).map_values(|w: Seq<char>| collapsed(w))
}

fn lowered_exec(s: &str) -> (r: Vec<char>)
    ensures
        r@ == lowered(s@),
{
    let c = chars_of(s);
    let mut out: Vec<char> = Vec::new();
    let mut i: usize = 0;
    while i < c.len()
        invariant
            i <= c@.len(),
            c@ == s@,
            out@ == lowered(c@.take(i as int)),
        decreases c.len() - i,
    {
        let low = lowercase_of(c[i]);
        let ghost before = out@;
        let mut j: usize = 0;
        while j < low.len()
            invariant
                j <= low@.len(),
                out@ == before + low@.take(j as int).map_values(|x: char| fold_spec(x)),
            decreases low.len() - j,
        {
            out.push(fold(low[j]));
            assert(low@.take(j + 1).map_values(|x: char| fold_spec(x)) =~= low@.take(j as int).map_values(
                |x: char| fold_spec(x),
            ).push(fold_spec(low@[j as int])));
            j = j + 1;
        }
        assert(low@.take(low@.len() as int) =~= low@);
        assert(c@.take(i + 1).drop_last() =~= c@.take(i as int));
        i = i + 1;
    }
    assert(c@.take(c@.len() as int) =~= c@);
    out
}

/// Reduces a name for comparison.
pub fn normalize(s: &str) -> (r: String)
    ensures
        r@ == normalized(s@),
{
    let l = lowered_exec(s);
    let mut out: Vec<char> = Vec::new();
    let mut i: usize = 0;
    while i < l.len()
        invariant
            i <= l@.len(),
            out@ == keep_alnum(l@.take(i as int)),
        decreases l.len() - i,
    {
        assert(l@.take(i + 1).drop_last() =~= l@.take(i as int));
        if is_alphanumeric(l[i]) {
            out.push(l[i]);
        }
        i = i + 1;
    }
    assert(l@.take(l@.len() as int) =~= l@);
    string_of(out.as_slice())
}

fn collapse_exec(s: &[char]) -> (r: Vec<char>)
    ensures
        r@ == collapsed(s@),
{
    let mut out: Vec<char> = Vec::new();
    let mut i: usize = 0;
    while i < s.len()
        invariant
            i <= s@.len(),
            out@ == collapsed(s@.take(i as int)),
        decreases s.len() - i,
    {
        assert(s@.take(i + 1).drop_last() =~= s@.take(i as int));
        if i == 0 || s[i] != s[i - 1] {
            out.push(s[i]);
        }
        i = i + 1;
    }
    assert(s@.take(s@.len() as int) =~= s@);
    out
}

/// Makes runs of the same character single.
pub fn collapse_doubles(s: &str) -> (r: String)
    ensures
        r@ == collapsed(s@),
{
    string_of(collapse_exec(chars_of(s).as_slice()).as_slice())
}

fn tokens_exec(s: &str) -> (r: Vec<Vec<char>>)
    ensures
        views(r@) == token_list(s@),
{
    let l = lowered_exec(s);
    let mut b: Vec<char> = Vec::new();
    let mut i: usize = 0;
    while i < l.len()
        invariant
            i <= l@.len(),
            b@ == blank_non_alnum(l@.take(i as int)),
        decreases l.len() - i,
    {
        b.push(if is_alphanumeric(l[i]) { l[i] } else { ' ' });
        assert(blank_non_alnum(l@.take(i + 1)) =~= blank_non_alnum(l@.take(i as int)).push(
            if alphanumeric(l@[i as int]) { l@[i as int] } else { ' ' },
        ));
        i = i + 1;
    }
    assert(l@.take(l@.len() as int) =~= l@);
    let ws = split_ws(b.as_slice());
    let ghost wv = views(ws@);
    let mut out: Vec<Vec<char>> = Vec::new();
    let mut k: usize = 0;
    while k < ws.len()
        invariant
            k <= ws@.len(),
            wv == views(ws@),
            wv == words(blank_non_alnum(lowered(s@))),
            views(out@) == wv.map_values(|w: Seq<char>| collapsed(w)).take(k as int),
        decreases ws.len() - k,
    {
        let c = collapse_exec(ws[k].as_slice());
        let ghost before = views(out@);
        assert(wv[k as int] == ws@[k as int]@);
        out.push(c);
        assert(views(out@) =~= before.push(c@));
        assert(wv.map_values(|w: Seq<char>| collapsed(w)).take(k + 1) =~= before.push(c@));
        k = k + 1;
    }
    assert(wv.map_values(|w: Seq<char>| collapsed(w)).take(ws@.len() as int) =~= wv.map_values(
        |w: Seq<char>| collapsed(w),
    ));
    out
}

/// The words of a name, as compared.
pub fn tokens(s: &str) -> (r: Vec<String>)
    ensures
        r@.map_values(|t: String| t@) == token_list(s@),
{
    let ts = tokens_exec(s);
    let mut out: Vec<String> = Vec::new();
    let mut i: usize = 0;
    while i < ts.len()
        invariant
            i <= ts@.len(),
            views(ts@) == token_list(s@),
            out@.map_values(|t: String| t@) == views(ts@).take(i as int),
        decreases ts.len() - i,
    {
        let t = string_of(ts[i].as_slice());
        let ghost before = out@;
        out.push(t);
        assert(out@.map_values(|t: String| t@) =~= before.map_values(|t: String| t@).push(t@));
        assert(views(ts@).take(i + 1) =~= views(ts@).take(i as int).push(ts@[i as int]@));
        i = i + 1;
    }
    assert(views(ts@).take(ts@.len() as int) =~= views(ts@));
    out
}

/// Two titles are the same once reduced, and not empty.
pub open spec fn titles_equal(a: Seq<char>, b: Seq<char>) -> bool {
    normalized(a).len() > 0 && normalized(a) == normalized(b)
}

pub fn title_equal(a: &str, b: &str) -> (r: bool)
    ensures
        r == titles_equal(a@, b@),
{
    let na = normalize(a);
    let nb = normalize(b);
    let ca = chars_of(na.as_str());
    ca.len() > 0 && crate::format::lrc::seq_equal(ca.as_slice(), chars_of(nb.as_str()).as_slice())
}

/// An artist is credited when some credit holds every word of the artist's
/// name, in any order.
pub open spec fn artist_credited(artist: Seq<char>, credits: Seq<Seq<char>>) -> bool {
    token_list(artist).len() > 0 && exists|c: int|
        0 <= c < credits.len() && #[trigger] credit_holds(token_list(artist), credits[c])
}

/// Every word wanted is among the credit's words.
pub open spec fn credit_holds(want: Seq<Seq<char>>, credit: Seq<char>) -> bool {
    forall|t: int| 0 <= t < want.len() ==> token_list(credit).contains(#[trigger] want[t])
}

fn contains_token(have: &Vec<Vec<char>>, t: &Vec<char>) -> (r: bool)
    ensures
        r == views(have@).contains(t@),
{
    let mut i: usize = 0;
    while i < have.len()
        invariant
            i <= have@.len(),
            forall|j: int| 0 <= j < i ==> have@[j]@ != t@,
        decreases have.len() - i,
    {
        if crate::format::lrc::seq_equal(have[i].as_slice(), t.as_slice()) {
            assert(views(have@)[i as int] == t@);
            return true;
        }
        i = i + 1;
    }
    assert(!views(have@).contains(t@)) by {
        if views(have@).contains(t@) {
            let q = choose|q: int| 0 <= q < views(have@).len() && views(have@)[q] == t@;
            assert(have@[q]@ == t@);
        }
    }
    false
}

pub fn artist_matches(artist: &str, credits: &[&str]) -> (r: bool)
    ensures
        r == artist_credited(artist@, credits@.map_values(|c: &str| c@)),
{
    let want = tokens_exec(artist);
    let ghost cv = credits@.map_values(|c: &str| c@);
    if want.len() == 0 {
        return false;
    }
    let mut c: usize = 0;
    while c < credits.len()
        invariant
            c <= credits@.len(),
            want@.len() > 0,
            cv == credits@.map_values(|c: &str| c@),
            views(want@) == token_list(artist@),
            forall|k: int| 0 <= k < c ==> !#[trigger] credit_holds(token_list(artist@), cv[k]),
        decreases credits.len() - c,
    {
        let have = tokens_exec(credits[c]);
        assert(cv[c as int] == credits@[c as int]@);
        let mut all = true;
        let mut t: usize = 0;
        while t < want.len()
            invariant
                t <= want@.len(),
                c < credits@.len(),
                cv == credits@.map_values(|c: &str| c@),
                views(want@) == token_list(artist@),
                views(have@) == token_list(cv[c as int]),
                all == forall|u: int| 0 <= u < t ==> token_list(cv[c as int]).contains(
                    #[trigger] token_list(artist@)[u],
                ),
            decreases want.len() - t,
        {
            assert(views(want@)[t as int] == want@[t as int]@);
            if !contains_token(&have, &want[t]) {
                all = false;
            }
            t = t + 1;
        }
        if all {
            assert(credit_holds(token_list(artist@), cv[c as int]));
            assert(views(want@).len() > 0);
            assert(artist_credited(artist@, cv));
            return true;
        }
        c = c + 1;
    }
    false
}

/// A title without its bracketed parts, its words joined by single spaces.
pub open spec fn unbracketed_title(title: Seq<char>) -> Seq<char> {
    join(words(unbracketed(title, title.len() as int).0), " "@)
}

pub fn strip_parens(title: &str) -> (r: String)
    ensures
        r@ == unbracketed_title(title@),
{
    let s = chars_of(title);
    let mut out: Vec<char> = Vec::new();
    let mut depth: u64 = 0;
    let mut i: usize = 0;
    while i < s.len()
        invariant
            i <= s@.len(),
            s@ == title@,
            depth <= i,
            (out@, depth as nat) == unbracketed(s@, i as int),
        decreases s.len() - i,
    {
        let c = s[i];
        if c == '(' || c == '[' || c == '{' {
            depth = depth + 1;
        } else if c == ')' || c == ']' || c == '}' {
            if depth > 0 {
                depth = depth - 1;
            }
        } else if depth == 0 {
            out.push(c);
        }
        i = i + 1;
    }
    let ws = split_ws(out.as_slice());
    string_of(join_exec(&ws, chars_of(" ").as_slice()).as_slice())
}

// ---------------------------------------------------------------------------
// Reading the page payloads
/// The first position at which `anchor` occurs.
pub open spec fn first_occurrence(h: Seq<char>, anchor: Seq<char>) -> Option<int> {
    if exists|i: int| #[trigger] occurs_at(h, anchor, i) {
        Some(choose|i: int| occurs_at(h, anchor, i) && forall|j: int| 0 <= j < i ==> !occurs_at(h, anchor, j))
    } else {
        None
    }
}

/// Where the object after the first `anchor` opens.
pub open spec fn object_start(h: Seq<char>, anchor: Seq<char>) -> Option<int> {
    match first_occurrence(h, anchor) {
        Some(a) => match crate::text::index_of(h.skip(a), '{') {
            Some(o) => Some(a + o),
            None => None,
        },
        None => None,
    }
}

/// Where the object being scanned at `i` closes (just after its `}`),
/// with `depth` objects open; braces inside strings do not count, and a
/// backslash in a string escapes the next character.
pub open spec fn object_end(h: Seq<char>, i: int, depth: int, in_str: bool, esc: bool) -> Option<int>
    decreases h.len() - i,
{
    if i < 0 || i >= h.len() {
        None
    } else {
        let c = h[i];
        if in_str {
            if c == '\\' && !esc {
                object_end(h, i + 1, depth, true, true)
            } else if c == '"' && !esc {
                object_end(h, i + 1, depth, false, false)
            } else {
                object_end(h, i + 1, depth, true, false)
            }
        } else if c == '"' {
            object_end(h, i + 1, depth, true, esc)
        } else if c == '{' {
            object_end(h, i + 1, depth + 1, false, esc)
        } else if c == '}' {
            if depth - 1 == 0 {
                Some(i + 1)
            } else {
                object_end(h, i + 1, depth - 1, false, esc)
            }
        } else {
            object_end(h, i + 1, depth, false, esc)
        }
    }
}

/// The JSON object that follows the first `anchor`, braces balanced.
pub open spec fn json_object(h: Seq<char>, anchor: Seq<char>) -> Option<Seq<char>> {
    match object_start(h, anchor) {
        Some(s) => match object_end(h, s, 0, false, false) {
            Some(e) => Some(h.subrange(s, e)),
            None => None,
        },
        None => None,
    }
}

pub fn find_object_start(haystack: &str, anchor: &str) -> (r: Option<usize>)
    ensures
        match r {
            Some(s) => object_start(haystack@, anchor@) == Some(s as int),
            None => object_start(haystack@, anchor@) is None,
        },
{
    let h = chars_of(haystack);
    let a = chars_of(anchor);
    match find_seq(h.as_slice(), a.as_slice(), 0) {
        None => {
            assert(!exists|i: int| #[trigger] occurs_at(h@, a@, i)) by {
                if exists|i: int| #[trigger] occurs_at(h@, a@, i) {
                    let i = choose|i: int| #[trigger] occurs_at(h@, a@, i);
                    assert(0 <= i);
                }
            }
            None
        },
        Some(at) => {
            proof {
                assert(occurs_at(h@, a@, at as int));
                let w = choose|i: int| occurs_at(h@, a@, i) && forall|j: int| 0 <= j < i ==> !occurs_at(h@, a@, j);
                assert(occurs_at(h@, a@, w) && forall|j: int| 0 <= j < w ==> !occurs_at(h@, a@, j));
                assert(w == at as int) by {
                    if w < at {
                        assert(0 <= w);
                    } else if w > at {
                        assert(!occurs_at(h@, a@, at as int));
                    }
                }
            }
            match find_char(h.as_slice(), '{', at) {
                Some(o) => Some(o),
                None => None,
            }
        },
    }
}

pub fn find_object_end(haystack: &str, start: usize) -> (r: Option<usize>)
    ensures
        match r {
            Some(e) => object_end(haystack@, start as int, 0, false, false) == Some(e as int),
            None => object_end(haystack@, start as int, 0, false, false) is None,
        },
{
    let h = chars_of(haystack);
    let mut depth: i128 = 0;
    let mut in_str = false;
    let mut esc = false;
    let mut i: usize = start;
    if i > h.len() {
        return None;
    }
    while i < h.len()
        invariant
            start <= i <= h@.len(),
            h@ == haystack@,
            -(i - start) <= depth <= i - start,
            object_end(h@, start as int, 0, false, false) == object_end(h@, i as int, depth as int, in_str, esc),
        decreases h.len() - i,
    {
        let c = h[i];
        if in_str {
            if c == '\\' && !esc {
                esc = true;
            } else if c == '"' && !esc {
                in_str = false;
                esc = false;
            } else {
                esc = false;
            }
        } else if c == '"' {
            in_str = true;
        } else if c == '{' {
            depth = depth + 1;
        } else if c == '}' {
            if depth - 1 == 0 {
                return Some(i + 1);
            }
            depth = depth - 1;
        }
        i = i + 1;
    }
    None
}

/// The JSON object after the first `anchor`, if it closes.
pub fn extract_json_object<'a>(haystack: &'a str, anchor: &str) -> (r: Option<&'a str>)
    ensures
        match r {
            Some(o) => json_object(haystack@, anchor@) == Some(o@),
            None => json_object(haystack@, anchor@) is None,
        },
{
    let start = match find_object_start(haystack, anchor) {
        Some(s) => s,
        None => return None,
    };
    let end = match find_object_end(haystack, start) {
        Some(e) => e,
        None => return None,
    };
    proof {
        lemma_object_end_after(haystack@, start as int, 0, false, false);
    }
    Some(haystack.substring_char(start, end))
}

pub proof fn lemma_object_end_after(h: Seq<char>, i: int, depth: int, in_str: bool, esc: bool)
    ensures
        object_end(h, i, depth, in_str, esc) matches Some(e) ==> i < e <= h.len(),
    decreases h.len() - i,
{
    if 0 <= i < h.len() {
        lemma_object_end_after(h, i + 1, depth, true, true);
        lemma_object_end_after(h, i + 1, depth, false, false);
        lemma_object_end_after(h, i + 1, depth, true, false);
        lemma_object_end_after(h, i + 1, depth, true, esc);
        lemma_object_end_after(h, i + 1, depth + 1, false, esc);
        lemma_object_end_after(h, i + 1, depth - 1, false, esc);
        lemma_object_end_after(h, i + 1, depth, false, esc);
    }
}

/// An ASCII hexadecimal digit.
pub open spec fn is_hex_char(c: char) -> bool {
    ('0' <= c && c <= '9') || ('a' <= c && c <= 'f') || ('A' <= c && c <= 'F')
}

pub open spec fn is_hex_byte(b: u8) -> bool {
    (48 <= b <= 57) || (97 <= b <= 102) || (65 <= b <= 70)
}

pub open spec fn hex_byte_value(b: u8) -> nat {
    if 48 <= b <= 57 {
        (b - 48) as nat
    } else if 97 <= b <= 102 {
        (b - 87) as nat
    } else {
        (b - 55) as nat
    }
}

pub open spec fn hex_value(bs: Seq<u8>) -> nat
    decreases bs.len(),
{
    if bs.len() == 0 {
        0
    } else {
        hex_value(bs.drop_last()) * 16 + hex_byte_value(bs.last())
    }
}

/// `usize::from_str_radix(_, 16)` of the text these bytes hold: an optional
/// `+`, then hexadecimal digits, within the range of `usize`.
pub open spec fn hex_usize(bs: Seq<u8>) -> Option<nat> {
    let d = if bs.len() > 0 && bs[0] == 43 {
        bs.drop_first()
    } else {
        bs
    };
    if d.len() > 0 && all_hex_bytes(d) && hex_value(d) <= usize::MAX {
        Some(hex_value(d))
    } else {
        None
    }
}

pub open spec fn all_hex_bytes(d: Seq<u8>) -> bool {
    forall|i: int| 0 <= i < d.len() ==> is_hex_byte(#[trigger] d[i])
}

pub open spec fn occurs_bytes(s: Seq<u8>, p: Seq<u8>, i: int) -> bool {
    0 <= i && i + p.len() <= s.len() && s.subrange(i, i + p.len()) == p
}

/// `p` occurs at `i` at the start of a line.
pub open spec fn at_line_start(s: Seq<u8>, p: Seq<u8>, i: int) -> bool {
    occurs_bytes(s, p, i) && (i == 0 || s[i - 1] == 10)
}

/// The first place `p` occurs at the start of a line.
#[verifier::opaque]
pub open spec fn line_start_of(s: Seq<u8>, p: Seq<u8>) -> Option<int> {
    if exists|i: int| #[trigger] at_line_start(s, p, i) {
        Some(choose|i: int| at_line_start(s, p, i) && forall|j: int| 0 <= j < i ==> !at_line_start(s, p, j))
    } else {
        None
    }
}

/// The first byte `b` of `s`.
#[verifier::opaque]
pub open spec fn byte_index(s: Seq<u8>, b: u8) -> Option<int> {
    if exists|i: int| 0 <= i < s.len() && s[i] == b {
        Some(choose|i: int| 0 <= i < s.len() && s[i] == b && forall|j: int| 0 <= j < i ==> s[j] != b)
    } else {
        None
    }
}

/// The chunk id of an RSC reference `$id`: hexadecimal digits.
pub open spec fn rsc_id_of(value: Seq<char>) -> Option<Seq<char>> {
    if value.len() == 0 || value[0] != '$' {
        None
    } else {
        let id = value.drop_first();
        if id.len() == 0 || !(forall|i: int| 0 <= i < id.len() ==> is_hex_char(#[trigger] id[i])) {
            None
        } else {
            Some(id)
        }
    }
}

/// The bytes of the chunk that the line `marker<hex length>,` starts.
pub open spec fn rsc_chunk_of(b: Seq<u8>, m: Seq<u8>) -> Option<Seq<u8>> {
    match line_start_of(b, m) {
        None => None,
        Some(pos) => {
            let after = b.skip(pos + m.len());
            match byte_index(after, 44) {
                None => None,
                Some(comma) => match hex_usize(after.take(comma)) {
                    None => None,
                    Some(len) => {
                        let start = pos + m.len() + comma + 1;
                        if start > b.len() || len > b.len() - start {
                            None
                        } else {
                            Some(b.subrange(start, start + len))
                        }
                    },
                },
            }
        },
    }
}

/// The text an RSC reference `$id` stands for: the chunk that a line
/// `id:T<hex length>,` starts, that many bytes long, if it is UTF-8.
pub open spec fn rsc_text(body: Seq<char>, value: Seq<char>) -> Option<Seq<char>> {
    match rsc_id_of(value) {
        None => None,
        Some(id) => match rsc_chunk_of(encode_utf8(body), encode_utf8(id + ":T"@)) {
            None => None,
            Some(chunk) => if valid_utf8(chunk) {
                Some(decode_utf8(chunk))
            } else {
                None
            },
        },
    }
}

fn is_hex_char_exec(c: char) -> (r: bool)
    ensures
        r == is_hex_char(c),
{
    ('0' <= c && c <= '9') || ('a' <= c && c <= 'f') || ('A' <= c && c <= 'F')
}

fn parse_hex(bs: &[u8]) -> (r: Option<usize>)
    ensures
        match r {
            Some(v) => hex_usize(bs@) == Some(v as nat),
            None => hex_usize(bs@) is None,
        },
{
    let from: usize = if bs.len() > 0 && bs[0] == 43 { 1 } else { 0 };
    let ghost d = if bs@.len() > 0 && bs@[0] == 43 { bs@.drop_first() } else { bs@ };
    assert(d =~= bs@.skip(from as int));
    if from == bs.len() {
        return None;
    }
    let mut v: usize = 0;
    let mut i: usize = from;
    while i < bs.len()
        invariant
            from <= i <= bs@.len(),
            d == bs@.skip(from as int),
            d == (if bs@.len() > 0 && bs@[0] == 43 { bs@.drop_first() } else { bs@ }),
            forall|j: int| 0 <= j < i - from ==> is_hex_byte(#[trigger] d[j]),
            v == hex_value(d.take(i - from)),
        decreases bs.len() - i,
    {
        let b = bs[i];
        assert(d[i - from] == b);
        if !((48 <= b && b <= 57) || (97 <= b && b <= 102) || (65 <= b && b <= 70)) {
            proof {
                let k = (i - from) as int;
                assert(!is_hex_byte(d[k]));
                assert(0 <= k < d.len());
                assert(!all_hex_bytes(d));
            }
            return None;
        }
        let digit: usize = if 48 <= b && b <= 57 {
            (b - 48) as usize
        } else if 97 <= b && b <= 102 {
            (b - 87) as usize
        } else {
            (b - 55) as usize
        };
        assert(d.take(i - from + 1).drop_last() =~= d.take(i - from));
        assert(d.take(i - from + 1).last() == b);
        assert(hex_byte_value(b) == digit);
        if v > (usize::MAX - digit) / 16 {
            proof {
                lemma_hex_prefix_le(d, i - from + 1);
                assert(hex_value(d.take(i - from + 1)) == v * 16 + digit);
                assert(v * 16 + digit > usize::MAX) by (nonlinear_arith)
                    requires
                        v > (usize::MAX - digit) / 16,
                        digit < 16,
                ;
            }
            return None;
        }
        assert(v * 16 + digit <= usize::MAX) by (nonlinear_arith)
            requires
                v <= (usize::MAX - digit) / 16,
                digit < 16,
        ;
        v = v * 16 + digit;
        i = i + 1;
    }
    assert(d.take(bs@.len() - from) =~= d);
    Some(v)
}

/// A prefix of hexadecimal digits is worth no more than the whole.
pub proof fn lemma_hex_prefix_le(d: Seq<u8>, k: int)
    requires
        0 <= k <= d.len(),
    ensures
        hex_value(d.take(k)) <= hex_value(d),
    decreases d.len() - k,
{
    if k < d.len() {
        lemma_hex_prefix_le(d, k + 1);
        assert(d.take(k + 1).drop_last() =~= d.take(k));
        assert(hex_value(d.take(k + 1)) == hex_value(d.take(k)) * 16 + hex_byte_value(d[k]));
        assert(hex_value(d.take(k)) <= hex_value(d.take(k)) * 16 + hex_byte_value(d[k])) by (nonlinear_arith);
    } else {
        assert(d.take(k) =~= d);
    }
}

fn occurs_bytes_exec(s: &[u8], p: &[u8], i: usize) -> (r: bool)
    ensures
        r == occurs_bytes(s@, p@, i as int),
{
    let n = s.len();
    if i > n || p.len() > n - i {
        return false;
    }
    let mut k: usize = 0;
    while k < p.len()
        invariant
            n == s@.len(),
            i + p@.len() <= n,
            k <= p@.len(),
            forall|j: int| 0 <= j < k ==> s@[i + j] == p@[j],
        decreases p.len() - k,
    {
        if s[i + k] != p[k] {
            assert(s@.subrange(i as int, i + p@.len())[k as int] != p@[k as int]);
            return false;
        }
        k = k + 1;
    }
    assert(s@.subrange(i as int, i + p@.len()) =~= p@);
    true
}

/// Finds where `marker` first occurs at the start of a line.
pub fn find_line_start(haystack: &[u8], marker: &[u8]) -> (r: Option<usize>)
    ensures
        match r {
            Some(i) => line_start_of(haystack@, marker@) == Some(i as int) && occurs_bytes(
                haystack@,
                marker@,
                i as int,
            ),
            None => line_start_of(haystack@, marker@) is None,
        },
{
    let mut i: usize = 0;
    while i <= haystack.len()
        invariant
            forall|j: int| 0 <= j < i ==> !at_line_start(haystack@, marker@, j),
        decreases haystack.len() + 1 - i,
    {
        reveal(line_start_of);
        if occurs_bytes_exec(haystack, marker, i) && (i == 0 || haystack[i - 1] == 10) {
            proof {
                let w = choose|w: int| at_line_start(haystack@, marker@, w) && forall|j: int| 0 <= j < w ==> !at_line_start(haystack@, marker@, j);
                assert(at_line_start(haystack@, marker@, i as int));
                assert(w == i) by {
                    if w < i {
                    } else if w > i {
                        assert(!at_line_start(haystack@, marker@, i as int));
                    }
                }
            }
            return Some(i);
        }
        if i == haystack.len() {
            proof {
                assert forall|j: int| #[trigger] at_line_start(haystack@, marker@, j) implies false by {
                    assert(j <= haystack@.len());
                }
            }
            return None;
        }
        i = i + 1;
    }
    proof {
        reveal(line_start_of);
        assert forall|j: int| #[trigger] at_line_start(haystack@, marker@, j) implies false by {
            assert(j <= haystack@.len());
        }
    }
    None
}

fn find_byte(s: &[u8], b: u8, from: usize) -> (r: Option<usize>)
    requires
        from <= s@.len(),
    ensures
        match r {
            Some(i) => byte_index(s@.skip(from as int), b) == Some(i - from) && from <= i < s@.len(),
            None => byte_index(s@.skip(from as int), b) is None,
        },
{
    let ghost t = s@.skip(from as int);
    reveal(byte_index);
    let mut i: usize = from;
    while i < s.len()
        invariant
            from <= i <= s@.len(),
            t == s@.skip(from as int),
            forall|j: int| 0 <= j < i - from ==> t[j] != b,
        decreases s.len() - i,
    {
        if s[i] == b {
            proof {
                reveal(byte_index);
                assert(t[i - from] == b);
                let w = choose|w: int| 0 <= w < t.len() && t[w] == b && forall|j: int| 0 <= j < w ==> t[j] != b;
                assert(w == i - from) by {
                    if w < i - from {
                    } else if w > i - from {
                        assert(t[i - from] == b);
                    }
                }
            }
            return Some(i);
        }
        i = i + 1;
    }
    None
}

fn rsc_id(value: &str) -> (r: Option<Vec<char>>)
    ensures
        match r {
            Some(id) => rsc_id_of(value@) == Some(id@),
            None => rsc_id_of(value@) is None,
        },
{
    let v = chars_of(value);
    if v.len() == 0 || v[0] != '$' {
        return None;
    }
    let id = crate::text::copy_range(v.as_slice(), 1, v.len());
    assert(id@ =~= value@.drop_first());
    if id.len() == 0 {
        return None;
    }
    let mut k: usize = 0;
    while k < id.len()
        invariant
            k <= id@.len(),
            id@.len() > 0,
            value@.len() > 0 && value@[0] == '$',
            id@ == value@.drop_first(),
            forall|j: int| 0 <= j < k ==> is_hex_char(#[trigger] id@[j]),
        decreases id.len() - k,
    {
        if !is_hex_char_exec(id[k]) {
            assert(!is_hex_char(id@[k as int]));
            return None;
        }
        k = k + 1;
    }
    Some(id)
}

fn rsc_chunk(b: &[u8], mb: &[u8]) -> (r: Option<Vec<u8>>)
    ensures
        match r {
            Some(c) => rsc_chunk_of(b@, mb@) == Some(c@),
            None => rsc_chunk_of(b@, mb@) is None,
        },
{
    let n = b.len();
    let m = mb.len();
    let pos = match find_line_start(b, mb) {
        Some(p) => p,
        None => return None,
    };
    assert(pos + m <= n);
    let from = pos + m;
    let comma = match find_byte(b, 44, from) {
        Some(c) => c,
        None => return None,
    };
    let digits = &b[from..comma];
    assert(digits@ =~= b@.skip(from as int).take(comma - from));
    let len = match parse_hex(digits) {
        Some(l) => l,
        None => return None,
    };
    let start = comma + 1;
    if start > b.len() || len > b.len() - start {
        return None;
    }
    let end = start + len;
    let mut chunk: Vec<u8> = Vec::new();
    let mut i: usize = start;
    while i < end
        invariant
            start <= i <= end <= b@.len(),
            chunk@ == b@.subrange(start as int, i as int),
        decreases end - i,
    {
        chunk.push(b[i]);
        assert(b@.subrange(start as int, i + 1) =~= b@.subrange(start as int, i as int).push(b@[i as int]));
        i = i + 1;
    }
    Some(chunk)
}

/// Resolves an RSC reference (`$id`) to the text its chunk holds.
pub fn resolve_rsc_reference(body: &str, value: &str) -> (r: Option<String>)
    ensures
        match r {
            Some(s) => rsc_text(body@, value@) == Some(s@),
            None => rsc_text(body@, value@) is None,
        },
{
    let mut marker_chars = match rsc_id(value) {
        Some(id) => id,
        None => return None,
    };
    let ghost id = marker_chars@;
    marker_chars.push(':');
    marker_chars.push('T');
    proof {
        reveal_strlit(":T");
        assert(marker_chars@ =~= id + ":T"@);
    }
    let marker = string_of(marker_chars.as_slice());
    match rsc_chunk(body.as_bytes(), marker.as_str().as_bytes()) {
        Some(chunk) => match crate::cache::string_from_utf8(chunk) {
            Ok(t) => Some(t),
            Err(_) => None,
        },
        None => None,
    }
}

/// The ids of the song links of a search payload, each once, in order.
pub open spec fn song_ids_of(caps: Seq<Seq<Option<Seq<char>>>>, n: int) -> Seq<Seq<char>>
    decreases n,
{
    if n <= 0 {
        seq![]
    } else {
        let prev = song_ids_of(caps, n - 1);
        let g = caps[n - 1];
        if 1 < g.len() && g[1] is Some && !prev.contains(g[1]->0) {
            prev.push(g[1]->0)
        } else {
            prev
        }
    }
}

fn contains_string(v: &Vec<String>, t: &str) -> (r: bool)
    ensures
        r == v@.map_values(|s: String| s@).contains(t@),
{
    let mut i: usize = 0;
    while i < v.len()
        invariant
            i <= v@.len(),
            forall|j: int| 0 <= j < i ==> v@[j]@ != t@,
        decreases v.len() - i,
    {
        if crate::format::lrc::seq_equal(chars_of(v[i].as_str()).as_slice(), chars_of(t).as_slice()) {
            assert(v@.map_values(|s: String| s@)[i as int] == t@);
            return true;
        }
        i = i + 1;
    }
    assert(!v@.map_values(|s: String| s@).contains(t@)) by {
        let mv = v@.map_values(|s: String| s@);
        if mv.contains(t@) {
            let q = choose|q: int| 0 <= q < mv.len() && mv[q] == t@;
            assert(v@[q]@ == t@);
        }
    }
    false
}

pub fn extract_song_ids(body: &str) -> (r: Result<Vec<String>, ProviderError>)
    ensures
        r matches Ok(ids) && ids@.map_values(|s: String| s@) == song_ids_of(
            re_captures_all(SONG_LINK_PATTERN@, body@),
            re_captures_all(SONG_LINK_PATTERN@, body@).len() as int,
        ),
{
    let caps = captures_all(SONG_LINK_PATTERN, body);
    let ghost cv = groups_views(caps@);
    let mut ids: Vec<String> = Vec::new();
    let mut i: usize = 0;
    while i < caps.len()
        invariant
            i <= caps@.len(),
            cv == groups_views(caps@),
            cv == re_captures_all(SONG_LINK_PATTERN@, body@),
            ids@.map_values(|s: String| s@) == song_ids_of(cv, i as int),
        decreases caps.len() - i,
    {
        let g = &caps[i];
        assert(cv[i as int] == group_views(g@));
        if g.len() > 1 {
            match &g[1] {
                Some(id) => {
                    assert(group_views(g@)[1] == Some(id@));
                    if !contains_string(&ids, id.as_str()) {
                        let ghost before = ids@;
                        ids.push(string_of(chars_of(id.as_str()).as_slice()));
                        assert(ids@.map_values(|s: String| s@) =~= before.map_values(|s: String| s@).push(id@));
                    }
                },
                None => {},
            }
        }
        i = i + 1;
    }
    Ok(ids)
}

// ---------------------------------------------------------------------------
// The provider
/// A song page's payload.
#[derive(Debug, Clone, PartialEq, Eq)]
pub struct SongPage {
    pub title: String,
    pub lyrics: String,
    pub singers: Vec<String>,
    pub composers: Vec<String>,
    pub lyricists: Vec<String>,
}

impl Default for SongPage {
    fn default() -> (r: SongPage)
        ensures
            r.title@.len() == 0 && r.lyrics@.len() == 0 && r.singers@.len() == 0
                && r.composers@.len() == 0 && r.lyricists@.len() == 0,
    {
        SongPage {
            title: string_of(Vec::new().as_slice()),
            lyrics: string_of(Vec::new().as_slice()),
            singers: Vec::new(),
            composers: Vec::new(),
            lyricists: Vec::new(),
        }
    }
}

pub open spec fn names(v: Seq<String>) -> Seq<Seq<char>> {
    v.map_values(|s: String| s@)
}

/// Everyone a song credits: singers, then composers, then lyricists.
pub open spec fn credits_of(p: SongPage) -> Seq<Seq<char>> {
    names(p.singers@) + names(p.composers@) + names(p.lyricists@)
}

fn push_names<'a>(out: &mut Vec<&'a str>, v: &'a Vec<String>)
    ensures
        final(out)@.map_values(|c: &str| c@) == old(out)@.map_values(|c: &str| c@) + names(v@),
{
    let mut i: usize = 0;
    while i < v.len()
        invariant
            i <= v@.len(),
            out@.map_values(|c: &str| c@) == old(out)@.map_values(|c: &str| c@) + names(v@).take(i as int),
        decreases v.len() - i,
    {
        let ghost before = out@;
        out.push(v[i].as_str());
        assert(out@.map_values(|c: &str| c@) =~= before.map_values(|c: &str| c@).push(v@[i as int]@));
        assert(names(v@).take(i + 1) =~= names(v@).take(i as int).push(v@[i as int]@));
        i = i + 1;
    }
    assert(names(v@).take(v@.len() as int) =~= names(v@));
}

impl SongPage {
    pub fn credits(&self) -> (r: Vec<&str>)
        ensures
            r@.map_values(|c: &str| c@) == credits_of(*self),
    {
        let mut out: Vec<&str> = Vec::new();
        assert(out@.map_values(|c: &str| c@) =~= Seq::<Seq<char>>::empty());
        push_names(&mut out, &self.singers);
        push_names(&mut out, &self.composers);
        push_names(&mut out, &self.lyricists);
        assert(credits_of(*self) =~= Seq::<Seq<char>>::empty() + names(self.singers@) + names(self.composers@) + names(self.lyricists@));
        out
    }
}

/// The lyrics a song page gives for a track: its lyrics, when they are not
/// blank, the titles match and the artist is credited.
pub open spec fn accepted_lyrics(p: SongPage, title: Seq<char>, artist: Seq<char>) -> Option<Seq<char>> {
    if trim(p.lyrics@).len() == 0 || !titles_equal(title, p.title@) {
        None
    } else if artist_credited(artist, credits_of(p)) {
        Some(p.lyrics@)
    } else {
        None
    }
}

pub fn accept_song(page: &SongPage, title: &str, artist: &str) -> (r: Option<String>)
    ensures
        match r {
            Some(l) => accepted_lyrics(*page, title@, artist@) == Some(l@),
            None => accepted_lyrics(*page, title@, artist@) is None,
        },
{
    if trim_vec(chars_of(page.lyrics.as_str()).as_slice()).len() == 0 || !title_equal(title, page.title.as_str()) {
        return None;
    }
    let credits = page.credits();
    if artist_matches(artist, credits.as_slice()) {
        Some(string_of(chars_of(page.lyrics.as_str()).as_slice()))
    } else {
        None
    }
}

/// The anchor that precedes a song's payload: `"song":{"id":<id>`.
pub fn song_anchor(id: &str) -> (r: String)
    ensures
        r@ == "\"song\":{\"id\":"@ + id@,
{
    let mut out = chars_of("\"song\":{\"id\":");
    push_all(&mut out, chars_of(id).as_slice());
    string_of(out.as_slice())
}

/// A page whose lyrics are an RSC reference gets the text it stands for.
pub fn with_resolved_lyrics(page: SongPage, body: &str) -> (r: SongPage)
    ensures
        r.lyrics@ == match rsc_text(body@, page.lyrics@) {
            Some(t) => t,
            None => page.lyrics@,
        },
        r.title == page.title && r.singers == page.singers && r.composers == page.composers
            && r.lyricists == page.lyricists,
{
    let mut page = page;
    match resolve_rsc_reference(body, page.lyrics.as_str()) {
        Some(t) => {
            page.lyrics = t;
        },
        None => {},
    }
    page
}

/// The stixoi.info provider; it takes no parameters.
pub struct Stixoi;

fn text(s: &str) -> (r: String)
    ensures
        r@ == s@,
{
    string_of(chars_of(s).as_slice())
}

impl Stixoi {
    pub fn create(_params: &crate::config::providers::ProviderParams) -> (r: Stixoi) {
        Stixoi
    }

    /// stixoi.info serves plain lyrics only.
    pub fn supported_kinds(&self) -> (r: Vec<crate::types::LyricsKind>)
        ensures
            r@ == seq![crate::types::LyricsKind::Plain],
    {
        let mut v: Vec<crate::types::LyricsKind> = Vec::new();
        v.push(crate::types::LyricsKind::Plain);
        assert(v@ =~= seq![crate::types::LyricsKind::Plain]);
        v
    }

    /// The search, asking for the site's payload of songs.
    pub fn search_request(&self, query: &str) -> (r: Http)
        ensures
            r.well_formed(),
            r@.base_url == BASE_URL@ + "/search"@,
            r@.params == seq![("q"@, query@), ("scope"@, "songs"@)],
            r@.headers == set_header(
                set_header(seq![("User-Agent"@, crate::providers::http::USER_AGENT@)], "User-Agent"@, BROWSER_USER_AGENT@),
                "RSC"@,
                "1"@,
            ),
    {
        let mut url = chars_of(BASE_URL);
        push_all(&mut url, chars_of("/search").as_slice());
        let r = Http::get(string_of(url.as_slice())).browser().header("RSC", text("1")).param(
            "q",
            text(query),
        ).param("scope", text("songs"));
        assert(r@.params =~= seq![("q"@, query@), ("scope"@, "songs"@)]);
        r
    }

    /// A song's page payload.
    pub fn song_request(&self, id: &str) -> (r: Http)
        ensures
            r.well_formed(),
            r@.base_url == BASE_URL@ + "/songs/"@ + id@,
            r@.params.len() == 0,
            r@.headers == set_header(
                set_header(seq![("User-Agent"@, crate::providers::http::USER_AGENT@)], "User-Agent"@, BROWSER_USER_AGENT@),
                "RSC"@,
                "1"@,
            ),
    {
        let mut url = chars_of(BASE_URL);
        push_all(&mut url, chars_of("/songs/").as_slice());
        push_all(&mut url, chars_of(id).as_slice());
        Http::get(string_of(url.as_slice())).browser().header("RSC", text("1"))
    }
}

/// The searches tried for a track, in order: its cleaned title with its
/// first artist, then the title alone when that differs; none when the
/// cleaned title is empty.
pub open spec fn queries_of(title: Seq<char>, artist: Seq<char>) -> Seq<Seq<char>> {
    if title.len() == 0 {
        seq![]
    } else {
        let combined = if artist.len() == 0 {
            title
        } else {
            title + " "@ + artist
        };
        if combined != title {
            seq![combined, title]
        } else {
            seq![combined]
        }
    }
}

pub fn search_queries(track: &TrackInfo) -> (r: Vec<String>)
    ensures
        r@.map_values(|q: String| q@) == queries_of(
            cleaned_title(track.title@),
            if track.artists@.len() > 0 {
                track.artists@[0].name@
            } else {
                seq![]
            },
        ),
{
    let title = track.clean_title();
    let artist: &str = match track.first_artist() {
        Some(a) => a,
        None => "",
    };
    let ghost a = if track.artists@.len() > 0 { track.artists@[0].name@ } else { Seq::<char>::empty() };
    proof {
        reveal_strlit("");
        reveal_strlit(" ");
    }
    assert(artist@ == a);
    let mut out: Vec<String> = Vec::new();
    let tc = chars_of(title.as_str());
    if tc.len() == 0 {
        assert(out@.map_values(|q: String| q@) =~= Seq::<Seq<char>>::empty());
        return out;
    }
    let ac = chars_of(artist);
    let combined = if ac.len() == 0 {
        text(title.as_str())
    } else {
        let mut c = chars_of(title.as_str());
        c.push(' ');
        push_all(&mut c, ac.as_slice());
        string_of(c.as_slice())
    };
    let ghost tv = title@;
    assert(combined@ == (if a.len() == 0 { tv } else { tv + " "@ + a }));
    let differs = !crate::format::lrc::seq_equal(chars_of(combined.as_str()).as_slice(), tc.as_slice());
    let ghost cv = combined@;
    out.push(combined);
    if differs {
        out.push(title);
        assert(out@.map_values(|q: String| q@) =~= seq![cv, tv]);
    } else {
        assert(out@.map_values(|q: String| q@) =~= seq![cv]);
    }
    assert(out@.map_values(|q: String| q@) =~= queries_of(tv, a));
    out
}

/// What a status of a stixoi.info answer means: a rate limit for 429, an
/// error for other failures; a 404 for a song page is no page.
pub fn check_status(response: &Response, what: &str, missing_is_none: bool) -> (r: Result<bool, ProviderError>)
    ensures
        response.status == 200 ==> r == Ok::<bool, ProviderError>(true),
        response.status == 404 && missing_is_none ==> r == Ok::<bool, ProviderError>(false),
        response.status == 429 ==> (r matches Err(e) && e is RateLimited),
        response.status != 200 && response.status != 429 && !(response.status == 404 && missing_is_none) ==> (r matches Err(e) && e is Other),
{
    if response.status == 200 {
        Ok(true)
    } else if response.status == 404 && missing_is_none {
        Ok(false)
    } else if response.status == 429 {
        Err(response.rate_limited())
    } else {
        Err(response.unexpected_status(what))
    }
}

} // verus!
