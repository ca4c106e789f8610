//! Character-level text primitives: the Unicode whitespace class, trimming,
//! line splitting, joining and searching, each with its specification.
use vstd::prelude::*;

verus! {

/// Unicode `White_Space`: the characters that `char::is_whitespace` accepts.
pub open spec fn is_ws(c: char) -> bool {
    let u = c as u32;
    ||| 0x09 <= u <= 0x0D
    ||| u == 0x20
    ||| u == 0x85
    ||| u == 0xA0
    ||| u == 0x1680
    ||| 0x2000 <= u <= 0x200A
    ||| u == 0x2028
    ||| u == 0x2029
    ||| u == 0x202F
    ||| u == 0x205F
    ||| u == 0x3000
}

pub fn is_whitespace(c: char) -> (r: bool)
    ensures
        r == is_ws(c),
{
    let u = c as u32;
    (0x09 <= u && u <= 0x0D) || u == 0x20 || u == 0x85 || u == 0xA0 || u == 0x1680 || (0x2000
        <= u && u <= 0x200A) || u == 0x2028 || u == 0x2029 || u == 0x202F || u == 0x205F || u
        == 0x3000
}

pub open spec fn is_digit(c: char) -> bool {
    '0' <= c <= '9'
}

pub open spec fn all_digits(s: Seq<char>) -> bool {
    forall|i: int| 0 <= i < s.len() ==> is_digit(#[trigger] s[i])
}

/// The lowercase of an ASCII letter; every other character is unchanged.
pub open spec fn ascii_lower(c: char) -> char {
    if 'A' <= c <= 'Z' {
        ((c as u8) + 32) as char
    } else {
        c
    }
}

pub fn to_ascii_lower(c: char) -> (r: char)
    ensures
        r == ascii_lower(c),
{
    if 'A' <= c && c <= 'Z' {
        ((c as u8) + 32u8) as char
    } else {
        c
    }
}

pub open spec fn lower_ascii_seq(s: Seq<char>) -> Seq<char> {
    Seq::new(s.len(), |i: int| ascii_lower(s[i]))
}

/// Equality of two texts when ASCII letters are compared without case.
pub open spec fn eq_ignore_ascii_case(a: Seq<char>, b: Seq<char>) -> bool {
    a.len() == b.len() && forall|i: int| 0 <= i < a.len() ==> ascii_lower(#[trigger] a[i])
        == ascii_lower(b[i])
}

// ---------------------------------------------------------------------------
// Trimming
/// Number of leading characters that satisfy `p`.
pub open spec fn lead(s: Seq<char>, p: spec_fn(char) -> bool) -> nat
    decreases s.len(),
{
    if s.len() > 0 && p(s[0]) {
        1 + lead(s.drop_first(), p)
    } else {
        0
    }
}

/// Number of trailing characters that satisfy `p`.
pub open spec fn trail(s: Seq<char>, p: spec_fn(char) -> bool) -> nat
    decreases s.len(),
{
    if s.len() > 0 && p(s.last()) {
        1 + trail(s.drop_last(), p)
    } else {
        0
    }
}

pub open spec fn ws_pred() -> spec_fn(char) -> bool {
    |c: char| is_ws(c)
}

pub open spec fn trim_start(s: Seq<char>) -> Seq<char> {
    s.skip(lead(s, ws_pred()) as int)
}

pub open spec fn trim_end(s: Seq<char>) -> Seq<char> {
    s.take(s.len() - trail(s, ws_pred()))
}

/// `str::trim`: whitespace removed from both ends.
pub open spec fn trim(s: Seq<char>) -> Seq<char> {
    trim_end(trim_start(s))
}

pub proof fn lemma_lead_bound(s: Seq<char>, p: spec_fn(char) -> bool)
    ensures
        lead(s, p) <= s.len(),
        forall|j: int| 0 <= j < lead(s, p) ==> p(#[trigger] s[j]),
        lead(s, p) < s.len() ==> !p(s[lead(s, p) as int]),
    decreases s.len(),
{
    if s.len() > 0 && p(s[0]) {
        lemma_lead_bound(s.drop_first(), p);
        assert forall|j: int| 0 <= j < lead(s, p) implies p(#[trigger] s[j]) by {
            if j > 0 {
                assert(s[j] == s.drop_first()[j - 1]);
            }
        }
    }
}

pub proof fn lemma_trail_bound(s: Seq<char>, p: spec_fn(char) -> bool)
    ensures
        trail(s, p) <= s.len(),
        forall|j: int| s.len() - trail(s, p) <= j < s.len() ==> p(#[trigger] s[j]),
        trail(s, p) < s.len() ==> !p(s[s.len() - trail(s, p) - 1]),
    decreases s.len(),
{
    if s.len() > 0 && p(s.last()) {
        lemma_trail_bound(s.drop_last(), p);
        assert forall|j: int| s.len() - trail(s, p) <= j < s.len() implies p(#[trigger] s[j]) by {
            if j < s.len() - 1 {
                assert(s[j] == s.drop_last()[j]);
            }
        }
    }
}

/// `lead` is the length of the longest prefix whose characters all satisfy `p`.
pub proof fn lemma_lead_unique(s: Seq<char>, p: spec_fn(char) -> bool, k: int)
    requires
        0 <= k <= s.len(),
        forall|j: int| 0 <= j < k ==> p(#[trigger] s[j]),
        k < s.len() ==> !p(s[k]),
    ensures
        lead(s, p) == k,
    decreases s.len(),
{
    if k > 0 {
        assert(p(s[0]));
        assert forall|j: int| 0 <= j < k - 1 implies p(#[trigger] s.drop_first()[j]) by {
            assert(s.drop_first()[j] == s[j + 1]);
        }
        if k - 1 < s.drop_first().len() {
            assert(s.drop_first()[k - 1] == s[k]);
        }
        lemma_lead_unique(s.drop_first(), p, k - 1);
    }
}

pub proof fn lemma_trail_unique(s: Seq<char>, p: spec_fn(char) -> bool, k: int)
    requires
        0 <= k <= s.len(),
        forall|j: int| s.len() - k <= j < s.len() ==> p(#[trigger] s[j]),
        k < s.len() ==> !p(s[s.len() - k - 1]),
    ensures
        trail(s, p) == k,
    decreases s.len(),
{
    if k > 0 {
        assert(p(s.last()));
        let t = s.drop_last();
        assert forall|j: int| t.len() - (k - 1) <= j < t.len() implies p(#[trigger] t[j]) by {
            assert(t[j] == s[j]);
        }
        if k - 1 < t.len() {
            assert(t[t.len() - (k - 1) - 1] == s[s.len() - k - 1]);
        }
        lemma_trail_unique(t, p, k - 1);
    }
}

/// Bounds `(a, b)` such that `s[a..b]` is `s` without leading and trailing whitespace.
pub fn trim_bounds(s: &[char]) -> (r: (usize, usize))
    ensures
        r.0 <= r.1 <= s@.len(),
        s@.subrange(r.0 as int, r.1 as int) == trim(s@),
        r.0 == lead(s@, ws_pred()),
        s@.subrange(r.0 as int, s@.len() as int) == trim_start(s@),
{
    let n = s.len();
    let mut a: usize = 0;
    while a < n && is_whitespace(s[a])
        invariant
            a <= n == s@.len(),
            forall|j: int| 0 <= j < a ==> is_ws(#[trigger] s@[j]),
        decreases n - a,
    {
        a = a + 1;
    }
    proof {
        lemma_lead_unique(s@, ws_pred(), a as int);
    }
    let mut b: usize = n;
    while b > a && is_whitespace(s[b - 1])
        invariant
            a <= b <= n == s@.len(),
            forall|j: int| b <= j < n ==> is_ws(#[trigger] s@[j]),
        decreases b,
    {
        b = b - 1;
    }
    proof {
        let t = s@.skip(a as int);
        assert forall|j: int| t.len() - (n - b) <= j < t.len() implies #[trigger] ws_pred()(t[j]) by {
            assert(t[j] == s@[j + a]);
        }
        if n - b < t.len() {
            assert(t[t.len() - (n - b) - 1] == s@[b - 1]);
        }
        lemma_trail_unique(t, ws_pred(), (n - b) as int);
        assert(s@.subrange(a as int, b as int) =~= t.take(t.len() - (n - b)));
        assert(s@.subrange(a as int, n as int) =~= t);
    }
    (a, b)
}

/// Copies `s[a..b]` into a fresh vector.
pub fn copy_range(s: &[char], a: usize, b: usize) -> (r: Vec<char>)
    requires
        a <= b <= s@.len(),
    ensures
        r@ == s@.subrange(a as int, b as int),
{
    let mut r: Vec<char> = Vec::new();
    let mut i = a;
    while i < b
        invariant
            a <= i <= b <= s@.len(),
            r@ == s@.subrange(a as int, i as int),
        decreases b - i,
    {
        r.push(s[i]);
        assert(s@.subrange(a as int, i + 1) =~= s@.subrange(a as int, i as int).push(s@[i as int]));
        i = i + 1;
    }
    r
}

/// Appends `t` to `r`.
pub fn push_all(r: &mut Vec<char>, t: &[char])
    ensures
        final(r)@ == old(r)@ + t@,
{
    let mut i: usize = 0;
    while i < t.len()
        invariant
            i <= t@.len(),
            r@ == old(r)@ + t@.subrange(0, i as int),
        decreases t.len() - i,
    {
        r.push(t[i]);
        assert(t@.subrange(0, i + 1) =~= t@.subrange(0, i as int).push(t@[i as int]));
        i = i + 1;
    }
    assert(t@.subrange(0, t@.len() as int) =~= t@);
}

pub fn trim_vec(s: &[char]) -> (r: Vec<char>)
    ensures
        r@ == trim(s@),
{
    let (a, b) = trim_bounds(s);
    copy_range(s, a, b)
}

// ---------------------------------------------------------------------------
// Searching
/// Index of the first occurrence of `c` in `s`.
pub open spec fn index_of(s: Seq<char>, c: char) -> Option<int>
    decreases s.len(),
{
    if s.len() == 0 {
        None
    } else if s[0] == c {
        Some(0)
    } else {
        match index_of(s.drop_first(), c) {
            Some(i) => Some(i + 1),
            None => None,
        }
    }
}

pub proof fn lemma_index_of(s: Seq<char>, c: char)
    ensures
        index_of(s, c) matches Some(i) ==> 0 <= i < s.len() && s[i] == c && forall|j: int|
            0 <= j < i ==> #[trigger] s[j] != c,
        index_of(s, c) is None ==> forall|j: int| 0 <= j < s.len() ==> #[trigger] s[j] != c,
    decreases s.len(),
{
    if s.len() > 0 && s[0] != c {
        lemma_index_of(s.drop_first(), c);
        assert forall|j: int| 1 <= j < s.len() implies #[trigger] s[j] == s.drop_first()[j - 1] by {}
    }
}

pub proof fn lemma_index_of_unique(s: Seq<char>, c: char, i: int)
    requires
        0 <= i <= s.len(),
        forall|j: int| 0 <= j < i ==> #[trigger] s[j] != c,
        i < s.len() ==> s[i] == c,
    ensures
        i < s.len() ==> index_of(s, c) == Some(i),
        i == s.len() ==> index_of(s, c) is None,
{
    lemma_index_of(s, c);
}

/// The first index `>= from` where `c` occurs in `s`.
pub fn find_char(s: &[char], c: char, from: usize) -> (r: Option<usize>)
    requires
        from <= s@.len(),
    ensures
        match r {
            Some(i) => from <= i < s@.len() && index_of(s@.skip(from as int), c) == Some(
                i - from,
            ),
            None => index_of(s@.skip(from as int), c) is None,
        },
{
    let mut i = from;
    while i < s.len()
        invariant
            from <= i <= s@.len(),
            forall|j: int| from <= j < i ==> #[trigger] s@[j] != c,
        decreases s.len() - i,
    {
        if s[i] == c {
            proof {
                let t = s@.skip(from as int);
                assert forall|j: int| 0 <= j < i - from implies #[trigger] t[j] != c by {
                    assert(t[j] == s@[j + from]);
                }
                lemma_index_of_unique(t, c, i - from);
            }
            return Some(i);
        }
        i = i + 1;
    }
    proof {
        let t = s@.skip(from as int);
        assert forall|j: int| 0 <= j < t.len() implies #[trigger] t[j] != c by {
            assert(t[j] == s@[j + from]);
        }
        lemma_index_of_unique(t, c, t.len() as int);
    }
    None
}

/// Whether `p` occurs in `s` starting at index `i`.
pub open spec fn occurs_at(s: Seq<char>, p: Seq<char>, i: int) -> bool {
    0 <= i && i + p.len() <= s.len() && s.subrange(i, i + p.len()) == p
}

pub open spec fn starts_with(s: Seq<char>, p: Seq<char>) -> bool {
    occurs_at(s, p, 0)
}

pub open spec fn ends_with(s: Seq<char>, p: Seq<char>) -> bool {
    occurs_at(s, p, s.len() - p.len())
}

/// Whether `p` occurs somewhere in `s`.
pub open spec fn contains_seq(s: Seq<char>, p: Seq<char>) -> bool {
    exists|i: int| occurs_at(s, p, i)
}

pub open spec fn contains_char(s: Seq<char>, c: char) -> bool {
    exists|i: int| 0 <= i < s.len() && s[i] == c
}

pub fn occurs_at_exec(s: &[char], p: &[char], i: usize) -> (r: bool)
    ensures
        r == occurs_at(s@, p@, i as int),
{
    if i > s.len() || p.len() > s.len() - i {
        return false;
    }
    let mut k: usize = 0;
    while k < p.len()
        invariant
            i + p@.len() <= s.len(),
            k <= p@.len(),
            forall|j: int| 0 <= j < k ==> s@[i + j] == p@[j],
        decreases p.len() - k,
    {
        if s[i + k] != p[k] {
            assert(s@.subrange(i as int, i + p@.len())[k as int] != p@[k as int]);
            return false;
        }
        k = k + 1;
    }
    assert(s@.subrange(i as int, i + p@.len()) =~= p@);
    true
}

pub fn starts_with_exec(s: &[char], p: &[char]) -> (r: bool)
    ensures
        r == starts_with(s@, p@),
{
    occurs_at_exec(s, p, 0)
}

/// First index `>= from` at which `p` occurs.
pub fn find_seq(s: &[char], p: &[char], from: usize) -> (r: Option<usize>)
    requires
        from <= s@.len(),
    ensures
        r matches Some(i) ==> from <= i && occurs_at(s@, p@, i as int) && forall|j: int|
            from <= j < i ==> !occurs_at(s@, p@, j),
        r is None ==> forall|i: int| from <= i ==> !occurs_at(s@, p@, i),
{
    let mut i = from;
    loop
        invariant
            from <= i <= s.len(),
            forall|j: int| from <= j < i ==> !occurs_at(s@, p@, j),
        ensures
            forall|j: int| from <= j <= s.len() ==> !occurs_at(s@, p@, j),
        decreases s.len() - i,
    {
        if occurs_at_exec(s, p, i) {
            return Some(i);
        }
        if i >= s.len() {
            break;
        }
        i = i + 1;
    }
    assert forall|j: int| from <= j implies !occurs_at(s@, p@, j) by {
        if j >= i {
        }
    }
    None
}

pub fn contains_exec(s: &[char], p: &[char]) -> (r: bool)
    ensures
        r == contains_seq(s@, p@),
{
    let f = find_seq(s, p, 0);
    proof {
        if f is None {
            assert forall|i: int| !occurs_at(s@, p@, i) by {
                if 0 <= i {
                }
            }
        }
    }
    f.is_some()
}

pub fn contains_char_exec(s: &[char], c: char) -> (r: bool)
    ensures
        r == contains_char(s@, c),
{
    let mut i: usize = 0;
    while i < s.len()
        invariant
            i <= s@.len(),
            forall|j: int| 0 <= j < i ==> s@[j] != c,
        decreases s.len() - i,
    {
        if s[i] == c {
            return true;
        }
        i = i + 1;
    }
    false
}

// ---------------------------------------------------------------------------
// Conversions between `str`/`String` and character vectors
/// The characters of `s`.
pub fn chars_of(s: &str) -> (r: Vec<char>)
    ensures
        r@ == s@,
{
    let mut r: Vec<char> = Vec::new();
    for c in it: s.chars()
        invariant
            r@ == it.seq().take(it.index() as int),
            it.seq() == s@,
    {
        assert(it.seq().take(it.index() + 1) =~= it.seq().take(it.index() as int).push(c));
        r.push(c);
    }
    assert(s@.take(s@.len() as int) =~= s@);
    r
}

/// `String::push`.
#[verifier::external_body]
pub(crate) fn push_char(s: &mut String, c: char)
    ensures
        final(s)@ == old(s)@.push(c),
{
    s.push(c);
}

/// A string made of the characters of `v`.
pub fn string_of(v: &[char]) -> (r: String)
    ensures
        r@ == v@,
{
    let mut r = String::new();
    let mut i: usize = 0;
    while i < v.len()
        invariant
            i <= v@.len(),
            r@ == v@.subrange(0, i as int),
        decreases v.len() - i,
    {
        push_char(&mut r, v[i]);
        assert(v@.subrange(0, i + 1) =~= v@.subrange(0, i as int).push(v@[i as int]));
        i = i + 1;
    }
    assert(v@.subrange(0, v@.len() as int) =~= v@);
    r
}

// ---------------------------------------------------------------------------
// Lines and joining
/// A line without its trailing carriage return.
pub open spec fn strip_cr(s: Seq<char>) -> Seq<char> {
    if s.len() > 0 && s.last() == '\r' {
        s.drop_last()
    } else {
        s
    }
}

/// `str::lines`: the text split at `\n`, each line ended by `\n` losing a
/// trailing `\r`, with no line after a final `\n`.
pub open spec fn lines(s: Seq<char>) -> Seq<Seq<char>>
    decreases s.len(),
{
    if s.len() == 0 {
        seq![]
    } else {
        match index_of(s, '\n') {
            None => seq![s],
            Some(i) => {
                if 0 <= i < s.len() {
                    seq![strip_cr(s.take(i))] + lines(s.skip(i + 1))
                } else {
                    seq![]
                }
            },
        }
    }
}

pub fn lines_exec(s: &[char]) -> (r: Vec<Vec<char>>)
    ensures
        r@.map_values(|l: Vec<char>| l@) == lines(s@),
{
    let mut r: Vec<Vec<char>> = Vec::new();
    let mut pos: usize = 0;
    let n = s.len();
    proof {
        assert(s@.skip(0) =~= s@);
    }
    while pos < n
        invariant
            pos <= n == s@.len(),
            r@.map_values(|l: Vec<char>| l@) + lines(s@.skip(pos as int)) == lines(s@),
        decreases n - pos,
    {
        let ghost rest = s@.skip(pos as int);
        let nl = find_char(s, '\n', pos);
        match nl {
            None => {
                let line = copy_range(s, pos, n);
                proof {
                    assert(line@ =~= rest);
                    assert(lines(rest) == seq![rest]);
                    assert(s@.skip(n as int) =~= Seq::<char>::empty());
                    assert(r@.push(line).map_values(|l: Vec<char>| l@) =~= r@.map_values(
                        |l: Vec<char>| l@,
                    ).push(line@));
                }
                r.push(line);
                pos = n;
            },
            Some(i) => {
                let mut e = i;
                if e > pos && s[e - 1] == '\r' {
                    e = e - 1;
                }
                let line = copy_range(s, pos, e);
                proof {
                    let k = i - pos;
                    assert(rest.take(k) =~= s@.subrange(pos as int, i as int));
                    assert(line@ =~= strip_cr(rest.take(k)));
                    assert(rest.skip(k + 1) =~= s@.skip(i + 1));
                    assert(lines(rest) == seq![strip_cr(rest.take(k))] + lines(rest.skip(k + 1)));
                    assert(r@.push(line).map_values(|l: Vec<char>| l@) =~= r@.map_values(
                        |l: Vec<char>| l@,
                    ).push(line@));
                    assert(r@.map_values(|l: Vec<char>| l@).push(line@) + lines(s@.skip(i + 1))
                        =~= r@.map_values(|l: Vec<char>| l@) + lines(rest));
                }
                r.push(line);
                pos = i + 1;
            },
        }
    }
    proof {
        assert(s@.skip(n as int) =~= Seq::<char>::empty());
        assert(r@.map_values(|l: Vec<char>| l@) + lines(s@.skip(n as int)) =~= r@.map_values(
            |l: Vec<char>| l@,
        ));
    }
    r
}

/// The texts of `ls` joined, with `sep` between neighbours.
pub open spec fn join(ls: Seq<Seq<char>>, sep: Seq<char>) -> Seq<char>
    decreases ls.len(),
{
    if ls.len() == 0 {
        seq![]
    } else if ls.len() == 1 {
        ls[0]
    } else {
        join(ls.drop_last(), sep) + sep + ls.last()
    }
}

pub open spec fn views(v: Seq<Vec<char>>) -> Seq<Seq<char>> {
    v.map_values(|l: Vec<char>| l@)
}

pub fn join_exec(ls: &Vec<Vec<char>>, sep: &[char]) -> (r: Vec<char>)
    ensures
        r@ == join(views(ls@), sep@),
{
    let mut r: Vec<char> = Vec::new();
    let mut i: usize = 0;
    while i < ls.len()
        invariant
            i <= ls@.len(),
            r@ == join(views(ls@).take(i as int), sep@),
        decreases ls.len() - i,
    {
        let ghost prev = views(ls@).take(i as int);
        if i > 0 {
            push_all(&mut r, sep);
        }
        push_all(&mut r, ls[i].as_slice());
        proof {
            let next = views(ls@).take(i + 1);
            assert(next.drop_last() =~= prev);
            if i == 0 {
                assert(prev =~= Seq::<Seq<char>>::empty());
            }
        }
        i = i + 1;
    }
    assert(views(ls@).take(ls@.len() as int) =~= views(ls@));
    r
}

// ---------------------------------------------------------------------------
// Words and character runs
pub open spec fn eq_pred(c: char) -> spec_fn(char) -> bool {
    |x: char| x == c
}

pub open spec fn nonws_pred() -> spec_fn(char) -> bool {
    |c: char| !is_ws(c)
}

/// `str::split_whitespace`: the maximal runs of non-whitespace characters.
pub open spec fn words(s: Seq<char>) -> Seq<Seq<char>>
    decreases s.len(),
{
    let t = trim_start(s);
    if t.len() == 0 || t.len() > s.len() {
        seq![]
    } else {
        let k = lead(t, nonws_pred());
        if 0 < k <= t.len() {
            seq![t.take(k as int)] + words(t.skip(k as int))
        } else {
            seq![]
        }
    }
}

/// Number of leading `c` in `s[from..]`.
pub fn lead_char(s: &[char], from: usize, c: char) -> (r: usize)
    requires
        from <= s@.len(),
    ensures
        from <= r <= s@.len(),
        r - from == lead(s@.skip(from as int), eq_pred(c)),
{
    let mut a = from;
    while a < s.len() && s[a] == c
        invariant
            from <= a <= s@.len(),
            forall|j: int| from <= j < a ==> #[trigger] s@[j] == c,
        decreases s.len() - a,
    {
        a = a + 1;
    }
    proof {
        let t = s@.skip(from as int);
        assert forall|j: int| 0 <= j < a - from implies #[trigger] eq_pred(c)(t[j]) by {
            assert(t[j] == s@[j + from]);
        }
        if a < s@.len() {
            assert(t[a - from] == s@[a as int]);
        }
        lemma_lead_unique(t, eq_pred(c), a - from);
    }
    a
}

/// Number of trailing `c` in `s[..to]`.
pub fn trail_char(s: &[char], to: usize, c: char) -> (r: usize)
    requires
        to <= s@.len(),
    ensures
        r <= to,
        r == trail(s@.take(to as int), eq_pred(c)),
{
    let mut b = to;
    while b > 0 && s[b - 1] == c
        invariant
            b <= to <= s@.len(),
            forall|j: int| b <= j < to ==> #[trigger] s@[j] == c,
        decreases b,
    {
        b = b - 1;
    }
    proof {
        let t = s@.take(to as int);
        assert forall|j: int| t.len() - (to - b) <= j < t.len() implies #[trigger] eq_pred(c)(t[j]) by {
            assert(t[j] == s@[j]);
        }
        if to - b < t.len() {
            assert(t[t.len() - (to - b) - 1] == s@[b - 1]);
        }
        lemma_trail_unique(t, eq_pred(c), (to - b) as int);
    }
    (to - b) as usize
}

/// Number of leading whitespace characters of `s[from..]`.
pub fn lead_ws(s: &[char], from: usize) -> (r: usize)
    requires
        from <= s@.len(),
    ensures
        from <= r <= s@.len(),
        r - from == lead(s@.skip(from as int), ws_pred()),
{
    let mut a = from;
    while a < s.len() && is_whitespace(s[a])
        invariant
            from <= a <= s@.len(),
            forall|j: int| from <= j < a ==> is_ws(#[trigger] s@[j]),
        decreases s.len() - a,
    {
        a = a + 1;
    }
    proof {
        let t = s@.skip(from as int);
        assert forall|j: int| 0 <= j < a - from implies #[trigger] ws_pred()(t[j]) by {
            assert(t[j] == s@[j + from]);
        }
        if a < s@.len() {
            assert(t[a - from] == s@[a as int]);
        }
        lemma_lead_unique(t, ws_pred(), a - from);
    }
    a
}

/// Number of leading non-whitespace characters of `s[from..]`.
pub fn lead_nonws(s: &[char], from: usize) -> (r: usize)
    requires
        from <= s@.len(),
    ensures
        from <= r <= s@.len(),
        r - from == lead(s@.skip(from as int), nonws_pred()),
{
    let mut a = from;
    while a < s.len() && !is_whitespace(s[a])
        invariant
            from <= a <= s@.len(),
            forall|j: int| from <= j < a ==> !is_ws(#[trigger] s@[j]),
        decreases s.len() - a,
    {
        a = a + 1;
    }
    proof {
        let t = s@.skip(from as int);
        assert forall|j: int| 0 <= j < a - from implies #[trigger] nonws_pred()(t[j]) by {
            assert(t[j] == s@[j + from]);
        }
        if a < s@.len() {
            assert(t[a - from] == s@[a as int]);
        }
        lemma_lead_unique(t, nonws_pred(), a - from);
    }
    a
}

/// `str::split_whitespace`.
pub fn split_ws(s: &[char]) -> (r: Vec<Vec<char>>)
    ensures
        views(r@) == words(s@),
{
    let mut out: Vec<Vec<char>> = Vec::new();
    let n = s.len();
    let mut pos: usize = 0;
    assert(s@.skip(0) =~= s@);
    while pos < n
        invariant
            pos <= n == s@.len(),
            views(out@) + words(s@.skip(pos as int)) == words(s@),
        decreases n - pos,
    {
        let ghost t = s@.skip(pos as int);
        let a = lead_ws(s, pos);
        proof {
            assert(s@.skip(a as int) =~= t.skip(a - pos));
        }
        if a == n {
            proof {
                assert(trim_start(t).len() == 0);
                assert(words(t) =~= Seq::<Seq<char>>::empty());
                assert(views(out@) + words(t) =~= views(out@));
                assert(s@.skip(n as int) =~= Seq::<char>::empty());
                assert(words(Seq::<char>::empty()) =~= Seq::<Seq<char>>::empty());
                assert(views(out@) + words(s@.skip(n as int)) =~= views(out@));
            }
            pos = n;
        } else {
            let b = lead_nonws(s, a);
            proof {
                let tt = trim_start(t);
                assert(tt =~= s@.skip(a as int));
                assert(tt[0] == s@[a as int]);
                lemma_lead_bound(tt, ws_pred());
                assert(b > a) by {
                    assert(!is_ws(s@[a as int])) by {
                        lemma_lead_bound(t, ws_pred());
                        assert(t[a - pos] == s@[a as int]);
                    }
                    lemma_lead_bound(tt, nonws_pred());
                }
                assert(tt.skip(b - a) =~= s@.skip(b as int));
            }
            let w = copy_range(s, a, b);
            proof {
                let tt = trim_start(t);
                assert(w@ =~= tt.take(b - a));
                assert(words(t) == seq![tt.take(b - a)] + words(tt.skip(b - a)));
                assert(views(out@.push(w)) =~= views(out@).push(w@));
                assert(views(out@).push(w@) + words(s@.skip(b as int)) =~= views(out@) + words(t));
            }
            out.push(w);
            pos = b;
        }
    }
    proof {
        assert(s@.skip(n as int) =~= Seq::<char>::empty());
        assert(words(Seq::<char>::empty()) =~= Seq::<Seq<char>>::empty());
        assert(views(out@) + words(s@.skip(n as int)) =~= views(out@));
    }
    out
}


/// Number of trailing whitespace characters of `s[..to]`.
pub fn trail_ws(s: &[char], to: usize) -> (r: usize)
    requires
        to <= s@.len(),
    ensures
        r <= to,
        r == trail(s@.take(to as int), ws_pred()),
{
    let mut b = to;
    while b > 0 && is_whitespace(s[b - 1])
        invariant
            b <= to <= s@.len(),
            forall|j: int| b <= j < to ==> is_ws(#[trigger] s@[j]),
        decreases b,
    {
        b = b - 1;
    }
    proof {
        let t = s@.take(to as int);
        assert forall|j: int| t.len() - (to - b) <= j < t.len() implies #[trigger] ws_pred()(t[j]) by {
            assert(t[j] == s@[j]);
        }
        if to - b < t.len() {
            assert(t[t.len() - (to - b) - 1] == s@[b - 1]);
        }
        lemma_trail_unique(t, ws_pred(), (to - b) as int);
    }
    (to - b) as usize
}


/// `str::split(c)`: the pieces between occurrences of `c` (one piece when
/// there is none, so an empty text has one empty piece).
pub open spec fn split_char(s: Seq<char>, c: char) -> Seq<Seq<char>>
    decreases s.len(),
{
    match index_of(s, c) {
        None => seq![s],
        Some(i) => if 0 <= i < s.len() {
            seq![s.take(i)] + split_char(s.skip(i + 1), c)
        } else {
            seq![s]
        },
    }
}

pub fn split_char_exec(s: &[char], c: char) -> (r: Vec<Vec<char>>)
    ensures
        views(r@) == split_char(s@, c),
{
    let mut out: Vec<Vec<char>> = Vec::new();
    let n = s.len();
    let mut pos: usize = 0;
    assert(s@.skip(0) =~= s@);
    loop
        invariant
            pos <= n == s@.len(),
            views(out@) + split_char(s@.skip(pos as int), c) == split_char(s@, c),
        decreases n - pos,
    {
        let ghost t = s@.skip(pos as int);
        match find_char(s, c, pos) {
            None => {
                let piece = copy_range(s, pos, n);
                assert(piece@ =~= t);
                proof {
                    assert(views(out@.push(piece)) =~= views(out@).push(piece@));
                    assert(views(out@).push(piece@) =~= views(out@) + split_char(t, c));
                }
                out.push(piece);
                return out;
            },
            Some(i) => {
                let piece = copy_range(s, pos, i);
                proof {
                    assert(piece@ =~= t.take(i - pos));
                    assert(t.skip(i - pos + 1) =~= s@.skip(i + 1));
                    assert(views(out@.push(piece)) =~= views(out@).push(piece@));
                    assert(views(out@).push(piece@) + split_char(s@.skip(i + 1), c) =~= views(out@)
                        + split_char(t, c));
                }
                out.push(piece);
                pos = i + 1;
            },
        }
    }
}


// ---------------------------------------------------------------------------
// Subsequences
/// `a` is `b` with some elements left out: the elements of `a` occur in
/// `b`, in the same order.
pub open spec fn is_subsequence<T>(a: Seq<T>, b: Seq<T>) -> bool
    decreases b.len(),
{
    if a.len() == 0 {
        true
    } else if b.len() == 0 {
        false
    } else if a.last() == b.last() {
        is_subsequence(a.drop_last(), b.drop_last())
    } else {
        is_subsequence(a, b.drop_last())
    }
}

pub proof fn lemma_subsequence_drop_last<T>(a: Seq<T>, b: Seq<T>)
    requires
        a.len() > 0,
        is_subsequence(a, b),
    ensures
        is_subsequence(a.drop_last(), b),
    decreases b.len(),
{
    if a.drop_last().len() > 0 && b.len() > 0 {
        if a.last() == b.last() {
            lemma_subsequence_extend(a.drop_last(), b);
        } else {
            lemma_subsequence_drop_last(a, b.drop_last());
            lemma_subsequence_extend(a.drop_last(), b);
        }
    }
}

/// What is a subsequence of `b` without its last element is one of `b`.
pub proof fn lemma_subsequence_extend<T>(a: Seq<T>, b: Seq<T>)
    requires
        b.len() > 0,
        is_subsequence(a, b.drop_last()),
    ensures
        is_subsequence(a, b),
    decreases b.len(), 0int,
{
    if a.len() > 0 && a.last() == b.last() {
        lemma_subsequence_drop_last(a, b.drop_last());
    }
}

pub proof fn lemma_subsequence_trans<T>(a: Seq<T>, b: Seq<T>, c: Seq<T>)
    requires
        is_subsequence(a, b),
        is_subsequence(b, c),
    ensures
        is_subsequence(a, c),
    decreases c.len(),
{
    if a.len() > 0 {
        if c.len() > 0 {
            if b.last() == c.last() {
                if a.last() == b.last() {
                    lemma_subsequence_trans(a.drop_last(), b.drop_last(), c.drop_last());
                } else {
                    lemma_subsequence_trans(a, b.drop_last(), c.drop_last());
                    lemma_subsequence_extend(a, c);
                }
            } else {
                lemma_subsequence_trans(a, b, c.drop_last());
                lemma_subsequence_extend(a, c);
            }
        }
    }
}

pub proof fn lemma_subsequence_refl<T>(a: Seq<T>)
    ensures
        is_subsequence(a, a),
    decreases a.len(),
{
    if a.len() > 0 {
        lemma_subsequence_refl(a.drop_last());
    }
}

} // verus!
