//! The configured list of providers: their parameters, identities, display
//! names and the order in which they are tried.
use vstd::prelude::*;
use crate::format::lrc::seq_equal;
use crate::text::{
    chars_of, contains_seq, copy_range, join, lower_ascii_seq, push_all, string_of, trim,
    trim_vec,
};
use crate::types::lower_vec;
use crate::hash::{fnv, fnv_mix, hex16, hex16_chars, lemma_fnv_concat, FNV_OFFSET};
use crate::text::{join_exec, views};
use crate::config::host::{get_string, opt_view, present};

verus! {

/// A pair of texts.
pub type PairV = (Seq<char>, Seq<char>);

/// `a` sorts before `b`: code point by code point, a proper prefix first.
pub open spec fn text_lt(a: Seq<char>, b: Seq<char>) -> bool
    decreases a.len(),
{
    if a.len() == 0 {
        b.len() > 0
    } else if b.len() == 0 {
        false
    } else if a[0] != b[0] {
        (a[0] as u32) < (b[0] as u32)
    } else {
        text_lt(a.drop_first(), b.drop_first())
    }
}

pub fn text_lt_exec(a: &[char], b: &[char]) -> (r: bool)
    ensures
        r == text_lt(a@, b@),
{
    let mut i: usize = 0;
    assert(a@.skip(0) =~= a@);
    assert(b@.skip(0) =~= b@);
    while i < a.len() && i < b.len() && a[i] == b[i]
        invariant
            i <= a@.len(),
            i <= b@.len(),
            text_lt(a@.skip(i as int), b@.skip(i as int)) == text_lt(a@, b@),
        decreases a.len() - i,
    {
        proof {
            let x = a@.skip(i as int);
            let y = b@.skip(i as int);
            assert(x.drop_first() =~= a@.skip(i + 1));
            assert(y.drop_first() =~= b@.skip(i + 1));
        }
        i = i + 1;
    }
    if i == a.len() {
        i < b.len()
    } else if i == b.len() {
        false
    } else {
        (a[i] as u32) < (b[i] as u32)
    }
}

/// The value of the first pair with the key.
pub open spec fn param_value(ps: Seq<PairV>, key: Seq<char>) -> Option<Seq<char>>
    decreases ps.len(),
{
    if ps.len() == 0 {
        None
    } else if ps[0].0 == key {
        Some(ps[0].1)
    } else {
        param_value(ps.drop_first(), key)
    }
}

/// A provider's named parameters, kept in key order as a `BTreeMap` keeps
/// them.
#[derive(Debug, Clone, PartialEq, Eq, Hash)]
pub struct ProviderParams {
    pairs: Vec<(String, String)>,
}

pub open spec fn pair_view(p: (String, String)) -> PairV {
    (p.0@, p.1@)
}

pub open spec fn pairs_view(ps: Seq<(String, String)>) -> Seq<PairV> {
    ps.map_values(|p: (String, String)| pair_view(p))
}

/// Where a key goes in a key-ordered list: after the leading run of smaller
/// keys.
pub open spec fn insert_pos(ps: Seq<PairV>, k: Seq<char>) -> nat
    decreases ps.len(),
{
    if ps.len() > 0 && text_lt(ps[0].0, k) {
        1 + insert_pos(ps.drop_first(), k)
    } else {
        0
    }
}

pub proof fn lemma_insert_pos(ps: Seq<PairV>, k: Seq<char>, p: int)
    requires
        0 <= p <= ps.len(),
        forall|i: int| 0 <= i < p ==> text_lt(#[trigger] ps[i].0, k),
        p < ps.len() ==> !text_lt(ps[p].0, k),
    ensures
        insert_pos(ps, k) == p,
    decreases ps.len(),
{
    if p > 0 {
        assert(text_lt(ps[0].0, k));
        let t = ps.drop_first();
        assert forall|i: int| 0 <= i < p - 1 implies text_lt(#[trigger] t[i].0, k) by {
            assert(t[i] == ps[i + 1]);
        }
        if p - 1 < t.len() {
            assert(t[p - 1] == ps[p]);
        }
        lemma_insert_pos(t, k, p - 1);
    }
}

/// A key-ordered list built by inserting every pair in turn.
pub open spec fn collected(ps: Seq<PairV>) -> Seq<PairV>
    decreases ps.len(),
{
    if ps.len() == 0 {
        seq![]
    } else {
        let prev = collected(ps.drop_last());
        inserted(prev, ps.last().0, ps.last().1, insert_pos(prev, ps.last().0) as int)
    }
}

/// The list with `(k, v)` inserted: the value replaced when `k` is present,
/// the pair added before the first greater key otherwise.
pub open spec fn inserted(ps: Seq<PairV>, k: Seq<char>, v: Seq<char>, p: int) -> Seq<PairV> {
    if p < ps.len() && ps[p].0 == k {
        ps.update(p, (k, v))
    } else {
        ps.take(p).push((k, v)) + ps.skip(p)
    }
}

impl ProviderParams {
    pub closed spec fn view(&self) -> Seq<PairV> {
        pairs_view(self.pairs@)
    }

    pub fn new() -> (r: ProviderParams)
        ensures
            r.view() == Seq::<PairV>::empty(),
    {
        ProviderParams { pairs: Vec::new() }
    }

    /// Inserts a pair the way `BTreeMap::insert` does.
    pub fn insert(&mut self, k: String, v: String)
        ensures
            final(self).view() == inserted(
                old(self).view(),
                k@,
                v@,
                insert_pos(old(self).view(), k@) as int,
            ),
    {
        let ghost old_v = self.view();
        let kc = chars_of(k.as_str());
        let mut p: usize = 0;
        while p < self.pairs.len()
            invariant
                p <= self.pairs@.len(),
                self.view() == old_v,
                kc@ == k@,
                forall|i: int| 0 <= i < p ==> text_lt(#[trigger] old_v[i].0, k@),
            ensures
                p <= self.pairs@.len(),
                self.view() == old_v,
                forall|i: int| 0 <= i < p ==> text_lt(#[trigger] old_v[i].0, k@),
                p < self.pairs@.len() ==> !text_lt(old_v[p as int].0, k@),
            decreases self.pairs.len() - p,
        {
            let key = chars_of(self.pairs[p].0.as_str());
            assert(old_v[p as int] == pair_view(self.pairs@[p as int]));
            if !text_lt_exec(key.as_slice(), kc.as_slice()) {
                break;
            }
            p = p + 1;
        }
        proof {
            if p < self.pairs@.len() {
                assert(old_v[p as int] == pair_view(self.pairs@[p as int]));
            }
            lemma_insert_pos(old_v, k@, p as int);
        }
        let replace = p < self.pairs.len() && seq_equal(
            chars_of(self.pairs[p].0.as_str()).as_slice(),
            kc.as_slice(),
        );
        if replace {
            self.pairs.set(p, (k, v));
            proof {
                assert(self.view() =~= inserted(old_v, kc@, v@, p as int));
            }
        } else {
            self.pairs.insert(p, (k, v));
            proof {
                assert(self.view() =~= inserted(old_v, kc@, v@, p as int));
            }
        }
    }

    /// Parameters built from pairs the way collecting into a `BTreeMap` does:
    /// in key order, a later value for a key replacing an earlier one.
    pub fn from_pairs(pairs: Vec<(String, String)>) -> (r: ProviderParams)
        ensures
            r.view() == collected(pairs_view(pairs@)),
    {
        let mut r = ProviderParams::new();
        let mut i: usize = 0;
        while i < pairs.len()
            invariant
                i <= pairs@.len(),
                r.view() == collected(pairs_view(pairs@).take(i as int)),
            decreases pairs.len() - i,
        {
            let k = pairs[i].0.clone();
            let v = pairs[i].1.clone();
            proof {
                let t = pairs_view(pairs@).take(i + 1);
                assert(t.drop_last() =~= pairs_view(pairs@).take(i as int));
                assert(t.last() == pair_view(pairs@[i as int]));
            }
            r.insert(k, v);
            i = i + 1;
        }
        assert(pairs_view(pairs@).take(pairs@.len() as int) =~= pairs_view(pairs@));
        r
    }

    /// The value of a parameter.
    pub open spec fn view_get(&self, key: Seq<char>) -> Option<Seq<char>> {
        param_value(self.view(), key)
    }

    /// The value of a parameter.
    pub fn get(&self, key: &str) -> (r: Option<&str>)
        ensures
            match r {
                Some(v) => self.view_get(key@) == Some(v@),
                None => self.view_get(key@) is None,
            },
            match r {
                Some(v) => exists|i: int|
                    0 <= i < self.view().len() && self.view()[i].0 == key@ && self.view()[i].1
                        == v@ && forall|j: int| 0 <= j < i ==> self.view()[j].0 != key@,
                None => forall|i: int| 0 <= i < self.view().len() ==> self.view()[i].0 != key@,
            },
    {
        let kc = chars_of(key);
        let ghost v = self.view();
        assert(v.skip(0) =~= v);
        let mut i: usize = 0;
        while i < self.pairs.len()
            invariant
                i <= self.pairs@.len() == v.len(),
                v == self.view(),
                kc@ == key@,
                forall|j: int| 0 <= j < i ==> self.view()[j].0 != key@,
                param_value(v, key@) == param_value(v.skip(i as int), key@),
            decreases self.pairs.len() - i,
        {
            assert(self.view()[i as int] == pair_view(self.pairs@[i as int]));
            proof {
                let t = v.skip(i as int);
                assert(t[0] == v[i as int]);
                assert(t.drop_first() =~= v.skip(i + 1));
            }
            if seq_equal(chars_of(self.pairs[i].0.as_str()).as_slice(), kc.as_slice()) {
                return Some(self.pairs[i].1.as_str());
            }
            i = i + 1;
        }
        None
    }

    pub fn is_empty(&self) -> (r: bool)
        ensures
            r == (self.view().len() == 0),
    {
        self.pairs.len() == 0
    }

    pub fn len(&self) -> (r: usize)
        ensures
            r == self.view().len(),
    {
        self.pairs.len()
    }

    /// The key and value at position `i` in key order.
    pub fn pair_at(&self, i: usize) -> (r: (&str, &str))
        requires
            i < self.view().len(),
        ensures
            (r.0@, r.1@) == self.view()[i as int],
    {
        assert(self.view()[i as int] == pair_view(self.pairs@[i as int]));
        (self.pairs[i].0.as_str(), self.pairs[i].1.as_str())
    }
}

// ---------------------------------------------------------------------------
/// How the provider list is used on each lookup.
#[derive(Clone, Copy, Debug, PartialEq, Eq, Structural)]
pub enum ProviderMode {
    /// Top to bottom; the first provider with lyrics wins.
    Priority,
    /// Each lookup starts with the next provider in turn.
    Rotation,
    /// The best type by the configured type order.
    TypePriority,
    /// The finest synchronization level.
    BestSyncLevel,
}

pub open spec fn mode_slug(m: ProviderMode) -> Seq<char> {
    match m {
        ProviderMode::Priority => "priority"@,
        ProviderMode::Rotation => "rotation"@,
        ProviderMode::TypePriority => "type"@,
        ProviderMode::BestSyncLevel => "sync"@,
    }
}

/// The mode whose slug is the text trimmed and ASCII-lowercased.
pub open spec fn slug_mode(s: Seq<char>) -> Option<ProviderMode> {
    let key = lower_ascii_seq(trim(s));
    if key == "priority"@ {
        Some(ProviderMode::Priority)
    } else if key == "rotation"@ {
        Some(ProviderMode::Rotation)
    } else if key == "type"@ {
        Some(ProviderMode::TypePriority)
    } else if key == "sync"@ {
        Some(ProviderMode::BestSyncLevel)
    } else {
        None
    }
}

impl ProviderMode {
    pub fn slug(&self) -> (r: &'static str)
        ensures
            r@ == mode_slug(*self),
    {
        match self {
            ProviderMode::Priority => "priority",
            ProviderMode::Rotation => "rotation",
            ProviderMode::TypePriority => "type",
            ProviderMode::BestSyncLevel => "sync",
        }
    }

    pub fn from_slug(slug: &str) -> (r: Option<ProviderMode>)
        ensures
            r == slug_mode(slug@),
    {
        let chars = chars_of(slug);
        let t = trim_vec(chars.as_slice());
        let key = lower_vec(t.as_slice());
        let k = key.as_slice();
        if seq_equal(k, chars_of("priority").as_slice()) {
            Some(ProviderMode::Priority)
        } else if seq_equal(k, chars_of("rotation").as_slice()) {
            Some(ProviderMode::Rotation)
        } else if seq_equal(k, chars_of("type").as_slice()) {
            Some(ProviderMode::TypePriority)
        } else if seq_equal(k, chars_of("sync").as_slice()) {
            Some(ProviderMode::BestSyncLevel)
        } else {
            None
        }
    }

}

impl Default for ProviderMode {
    /// The default mode: priority.
    fn default() -> (r: ProviderMode)
        ensures
            r == ProviderMode::Priority,
    {
        ProviderMode::Priority
    }
}


// ---------------------------------------------------------------------------
/// A configured provider: its name and parameters.
#[derive(Debug, Clone, PartialEq, Eq, Hash)]
pub struct ProviderEntry {
    pub name: String,
    pub params: ProviderParams,
}

pub open spec fn utf8(s: Seq<char>) -> Seq<u8> {
    vstd::utf8::encode_utf8(s)
}

/// The bytes each parameter adds to a provider's identity: `\0`, the key,
/// `=`, the value.
pub open spec fn params_bytes(ps: Seq<PairV>) -> Seq<u8>
    decreases ps.len(),
{
    if ps.len() == 0 {
        seq![]
    } else {
        params_bytes(ps.drop_last()) + seq![0u8] + utf8(ps.last().0) + seq![61u8] + utf8(
            ps.last().1,
        )
    }
}

/// A provider's identity: FNV-1a of its name and parameters, in hexadecimal.
pub open spec fn cache_id_of(name: Seq<char>, ps: Seq<PairV>) -> Seq<char> {
    hex16(fnv(FNV_OFFSET, utf8(name) + params_bytes(ps)))
}

pub open spec fn sensitive_needles() -> Seq<Seq<char>> {
    seq!["token"@, "secret"@, "password"@, "cookie"@, "auth"@]
}

/// A parameter whose value is not shown: its key, ASCII-lowercased, holds
/// "token", "secret", "password", "cookie" or "auth".
pub open spec fn is_sensitive(key: Seq<char>) -> bool {
    exists|i: int| 0 <= i < 5 && contains_seq(lower_ascii_seq(key), sensitive_needles()[i])
}

pub open spec fn shown_param(p: PairV) -> Seq<char> {
    p.0 + "="@ + if is_sensitive(p.0) {
        "***"@
    } else {
        p.1
    }
}

/// `name` alone, or `name(key=value, ...)` with sensitive values hidden.
pub open spec fn display_of(name: Seq<char>, ps: Seq<PairV>) -> Seq<char> {
    if ps.len() == 0 {
        name
    } else {
        name + "("@ + join(ps.map_values(|p: PairV| shown_param(p)), ", "@) + ")"@
    }
}

pub fn sensitive_needle(i: usize) -> (r: &'static str)
    requires
        i < 5,
    ensures
        r@ == sensitive_needles()[i as int],
{
    match i {
        0 => "token",
        1 => "secret",
        2 => "password",
        3 => "cookie",
        _ => "auth",
    }
}

pub fn is_sensitive_key(key: &str) -> (r: bool)
    ensures
        r == is_sensitive(key@),
{
    let c = chars_of(key);
    let lower = lower_vec(c.as_slice());
    let mut i: usize = 0;
    while i < 5
        invariant
            i <= 5,
            lower@ == lower_ascii_seq(key@),
            forall|j: int| 0 <= j < i ==> !contains_seq(lower@, #[trigger] sensitive_needles()[j]),
        decreases 5 - i,
    {
        let n = chars_of(sensitive_needle(i));
        if crate::text::contains_exec(lower.as_slice(), n.as_slice()) {
            return true;
        }
        i = i + 1;
    }
    false
}

impl ProviderEntry {
    /// A stable identity of the provider and its parameters.
    pub fn cache_id(&self) -> (r: String)
        ensures
            r@ == cache_id_of(self.name@, self.params.view()),
    {
        let ghost ps = self.params.view();
        let mut h = fnv_mix(FNV_OFFSET, self.name.as_str().as_bytes());
        let n = self.params.len();
        let mut i: usize = 0;
        let sep: [u8; 1] = [0u8];
        let eq: [u8; 1] = [61u8];
        assert(sep@ =~= seq![0u8]);
        assert(eq@ =~= seq![61u8]);
        while i < n
            invariant
                i <= n == ps.len(),
                ps == self.params.view(),
                sep@ == seq![0u8],
                eq@ == seq![61u8],
                h == fnv(FNV_OFFSET, utf8(self.name@) + params_bytes(ps.take(i as int))),
            decreases n - i,
        {
            let (k, v) = self.params.pair_at(i);
            let ghost before = utf8(self.name@) + params_bytes(ps.take(i as int));
            h = fnv_mix(h, sep.as_slice());
            h = fnv_mix(h, k.as_bytes());
            h = fnv_mix(h, eq.as_slice());
            h = fnv_mix(h, v.as_bytes());
            proof {
                let t = ps.take(i + 1);
                assert(t.drop_last() =~= ps.take(i as int));
                lemma_fnv_concat(FNV_OFFSET, before, seq![0u8]);
                lemma_fnv_concat(FNV_OFFSET, before + seq![0u8], utf8(k@));
                lemma_fnv_concat(FNV_OFFSET, before + seq![0u8] + utf8(k@), seq![61u8]);
                lemma_fnv_concat(
                    FNV_OFFSET,
                    before + seq![0u8] + utf8(k@) + seq![61u8],
                    utf8(v@),
                );
                assert(before + seq![0u8] + utf8(k@) + seq![61u8] + utf8(v@) =~= utf8(self.name@)
                    + params_bytes(t));
            }
            i = i + 1;
        }
        assert(ps.take(n as int) =~= ps);
        let hex = hex16_chars(h);
        string_of(hex.as_slice())
    }

    /// The name alone, or the name with its parameters, sensitive values hidden.
    pub fn display_name(&self) -> (r: String)
        ensures
            r@ == display_of(self.name@, self.params.view()),
    {
        let name = chars_of(self.name.as_str());
        if self.params.is_empty() {
            return string_of(name.as_slice());
        }
        let ghost ps = self.params.view();
        let n = self.params.len();
        let mut parts: Vec<Vec<char>> = Vec::new();
        let mut i: usize = 0;
        while i < n
            invariant
                i <= n == ps.len(),
                ps == self.params.view(),
                views(parts@) == ps.map_values(|p: PairV| shown_param(p)).take(i as int),
            decreases n - i,
        {
            let (k, v) = self.params.pair_at(i);
            let mut part = chars_of(k);
            part.push('=');
            if is_sensitive_key(k) {
                push_all(&mut part, chars_of("***").as_slice());
            } else {
                push_all(&mut part, chars_of(v).as_slice());
            }
            proof {
                reveal_strlit("=");
                assert(part@ =~= shown_param(ps[i as int]));
            }
            let ghost before = parts@;
            parts.push(part);
            assert(views(parts@) =~= views(before).push(part@));
            assert(views(parts@) =~= ps.map_values(|p: PairV| shown_param(p)).take(i + 1));
            i = i + 1;
        }
        assert(ps.map_values(|p: PairV| shown_param(p)).take(n as int) =~= ps.map_values(
            |p: PairV| shown_param(p),
        ));
        let sep = chars_of(", ");
        let joined = join_exec(&parts, sep.as_slice());
        let mut out = name;
        out.push('(');
        push_all(&mut out, joined.as_slice());
        out.push(')');
        proof {
            reveal_strlit("(");
            reveal_strlit(")");
            assert(out@ =~= display_of(self.name@, ps));
        }
        string_of(out.as_slice())
    }
}


// ---------------------------------------------------------------------------
/// A value of the providers list's JSON rows, as the parser reports it.
pub enum JsonField {
    Text(String),
    Bool(bool),
    /// A number, as `serde_json` writes it back.
    Number(String),
    /// An array: the text of each element that is a string.
    List(Vec<Option<String>>),
    Other,
}

pub enum JsonFieldV {
    Text(Seq<char>),
    Bool(bool),
    Number(Seq<char>),
    List(Seq<Option<Seq<char>>>),
    Other,
}

pub open spec fn opt_text(o: Option<String>) -> Option<Seq<char>> {
    match o {
        Some(s) => Some(s@),
        None => None,
    }
}

pub open spec fn field_view(f: JsonField) -> JsonFieldV {
    match f {
        JsonField::Text(s) => JsonFieldV::Text(s@),
        JsonField::Bool(b) => JsonFieldV::Bool(b),
        JsonField::Number(n) => JsonFieldV::Number(n@),
        JsonField::List(items) => JsonFieldV::List(
            items@.map_values(|o: Option<String>| opt_text(o)),
        ),
        JsonField::Other => JsonFieldV::Other,
    }
}

pub type RowV = Seq<(Seq<char>, JsonFieldV)>;

pub open spec fn row_view(r: Vec<(String, JsonField)>) -> RowV {
    r@.map_values(|p: (String, JsonField)| (p.0@, field_view(p.1)))
}

pub open spec fn rows_view(rs: Option<Vec<Vec<(String, JsonField)>>>) -> Option<Seq<RowV>> {
    match rs {
        Some(v) => Some(v@.map_values(|r: Vec<(String, JsonField)>| row_view(r))),
        None => None,
    }
}

/// The rows of a providers list: each JSON object's keys (in key order) and
/// values, or `None` when the text is not a JSON array of objects.
pub uninterp spec fn json_rows(raw: Seq<char>) -> Option<Seq<RowV>>;

/// Calls `serde_json::from_str` for a `Vec<BTreeMap<String, Value>>` and
/// converts each value to a [`JsonField`].
#[verifier::external_body]
fn parse_json_rows(raw: &str) -> (r: Option<Vec<Vec<(String, JsonField)>>>)
    ensures
        rows_view(r) == json_rows(raw@),
{
    let rows: Vec<std::collections::BTreeMap<String, serde_json::Value>> = serde_json::from_str(raw).ok()?;
    Some(rows.into_iter().map(|row| row.into_iter().map(|(k, v)| (k, match v {
        serde_json::Value::String(s) => JsonField::Text(s),
        serde_json::Value::Bool(b) => JsonField::Bool(b),
        serde_json::Value::Number(n) => JsonField::Number(n.to_string()),
        serde_json::Value::Array(a) => JsonField::List(a.iter().map(|i| i.as_str().map(str::to_string)).collect()),
        _ => JsonField::Other,
    })).collect()).collect())
}

/// The trimmed, non-empty strings of an array joined with commas.
pub open spec fn list_text(items: Seq<Option<Seq<char>>>) -> Seq<char> {
    join(list_parts(items, items.len() as int), ","@)
}

pub open spec fn list_parts(items: Seq<Option<Seq<char>>>, n: int) -> Seq<Seq<char>>
    decreases n,
{
    if n <= 0 {
        seq![]
    } else {
        let prev = list_parts(items, n - 1);
        match items[n - 1] {
            Some(s) => if trim(s).len() > 0 {
                prev.push(trim(s))
            } else {
                prev
            },
            None => prev,
        }
    }
}

/// The text a parameter value stands for, if it has one.
pub open spec fn param_text(f: JsonFieldV) -> Option<Seq<char>> {
    match f {
        JsonFieldV::Text(s) => Some(trim(s)),
        JsonFieldV::Bool(b) => Some(if b { "true"@ } else { "false"@ }),
        JsonFieldV::Number(n) => Some(n),
        JsonFieldV::List(items) => Some(list_text(items)),
        JsonFieldV::Other => None,
    }
}

/// The provider name of a row: its trimmed, non-empty `provider` string.
#[verifier::opaque]
pub open spec fn row_name(row: RowV) -> Option<Seq<char>> {
    if exists|i: int| 0 <= i < row.len() && row[i].0 == "provider"@ {
        let i = choose|i: int|
            0 <= i < row.len() && row[i].0 == "provider"@ && forall|j: int|
                0 <= j < i ==> row[j].0 != "provider"@;
        match row[i].1 {
            JsonFieldV::Text(s) => if trim(s).len() > 0 {
                Some(trim(s))
            } else {
                None
            },
            _ => None,
        }
    } else {
        None
    }
}

/// The parameters of a row: every other key with a non-empty text, as
/// inserted into a key-ordered map.
pub open spec fn row_params(row: RowV, n: int) -> Seq<PairV>
    decreases n,
{
    if n <= 0 {
        seq![]
    } else {
        let prev = row_params(row, n - 1);
        let (k, f) = row[n - 1];
        if k != "provider"@ && param_text(f) is Some && param_text(f)->0.len() > 0 {
            inserted(prev, k, param_text(f)->0, insert_pos(prev, k) as int)
        } else {
            prev
        }
    }
}

pub open spec fn entry_view(e: ProviderEntry) -> (Seq<char>, Seq<PairV>) {
    (e.name@, e.params.view())
}

pub open spec fn entries_view(es: Seq<ProviderEntry>) -> Seq<(Seq<char>, Seq<PairV>)> {
    es.map_values(|e: ProviderEntry| entry_view(e))
}

/// The entries of rows that name a provider, first occurrences only.
pub open spec fn entries_of(rows: Seq<RowV>, n: int) -> Seq<(Seq<char>, Seq<PairV>)>
    decreases n,
{
    if n <= 0 {
        seq![]
    } else {
        let prev = entries_of(rows, n - 1);
        match row_name(rows[n - 1]) {
            Some(name) => {
                let e = (name, row_params(rows[n - 1], rows[n - 1].len() as int));
                if prev.contains(e) {
                    prev
                } else {
                    prev.push(e)
                }
            },
            None => prev,
        }
    }
}

/// A provider configured twice with the same parameters is asked once: the
/// parsed list holds no entry twice.
pub proof fn no_provider_is_listed_twice(rows: Seq<RowV>, n: int)
    requires
        n <= rows.len(),
    ensures
        forall|i: int, j: int|
            0 <= i < j < entries_of(rows, n).len() ==> #[trigger] entries_of(rows, n)[i]
                != #[trigger] entries_of(rows, n)[j],
    decreases n,
{
    if n > 0 {
        no_provider_is_listed_twice(rows, n - 1);
        let prev = entries_of(rows, n - 1);
        let cur = entries_of(rows, n);
        assert forall|i: int, j: int| 0 <= i < j < cur.len() implies #[trigger] cur[i] != #[trigger] cur[j] by {
            if j < prev.len() {
                assert(cur[i] == prev[i] && cur[j] == prev[j]);
            } else {
                assert(cur[i] == prev[i]);
                assert(prev.contains(cur[i]));
            }
        }
    }
}

fn list_text_exec(items: &Vec<Option<String>>) -> (r: Vec<char>)
    ensures
        r@ == list_text(items@.map_values(|o: Option<String>| opt_text(o))),
{
    let ghost iv = items@.map_values(|o: Option<String>| opt_text(o));
    let mut parts: Vec<Vec<char>> = Vec::new();
    let mut i: usize = 0;
    while i < items.len()
        invariant
            i <= items@.len(),
            iv == items@.map_values(|o: Option<String>| opt_text(o)),
            views(parts@) == list_parts(iv, i as int),
        decreases items.len() - i,
    {
        assert(iv[i as int] == opt_text(items@[i as int]));
        match &items[i] {
            Some(s) => {
                let t = trim_vec(chars_of(s.as_str()).as_slice());
                if t.len() > 0 {
                    let ghost before = parts@;
                    parts.push(t);
                    assert(views(parts@) =~= views(before).push(t@));
                }
            },
            None => {},
        }
        i = i + 1;
    }
    let comma = chars_of(",");
    join_exec(&parts, comma.as_slice())
}

fn param_text_exec(f: &JsonField) -> (r: Option<Vec<char>>)
    ensures
        match r {
            Some(t) => param_text(field_view(*f)) == Some(t@),
            None => param_text(field_view(*f)) is None,
        },
{
    match f {
        JsonField::Text(s) => Some(trim_vec(chars_of(s.as_str()).as_slice())),
        JsonField::Bool(b) => Some(
            if *b {
                chars_of("true")
            } else {
                chars_of("false")
            },
        ),
        JsonField::Number(n) => Some(chars_of(n.as_str())),
        JsonField::List(items) => Some(list_text_exec(items)),
        JsonField::Other => None,
    }
}

/// The position of the first `provider` key of a row.
fn provider_index(row: &Vec<(String, JsonField)>) -> (r: Option<usize>)
    ensures
        match r {
            Some(k) => k < row@.len() && row@[k as int].0@ == "provider"@ && forall|j: int|
                0 <= j < k ==> row@[j].0@ != "provider"@,
            None => forall|j: int| 0 <= j < row@.len() ==> row@[j].0@ != "provider"@,
        },
{
    let provider = chars_of("provider");
    let mut i: usize = 0;
    while i < row.len()
        invariant
            i <= row@.len(),
            provider@ == "provider"@,
            forall|j: int| 0 <= j < i ==> row@[j].0@ != "provider"@,
        decreases row.len() - i,
    {
        if seq_equal(chars_of(row[i].0.as_str()).as_slice(), provider.as_slice()) {
            return Some(i);
        }
        i = i + 1;
    }
    None
}

/// The entry a row describes, or `None` when it names no provider.
pub fn parse_provider_row(row: &Vec<(String, JsonField)>) -> (r: Option<ProviderEntry>)
    ensures
        match r {
            Some(e) => row_name(row_view(*row)) == Some(e.name@) && e.params.view() == row_params(
                row_view(*row),
                row@.len() as int,
            ),
            None => row_name(row_view(*row)) is None,
        },
{
    let ghost rv = row_view(*row);
    reveal(row_name);
    let provider = chars_of("provider");
    let k = match provider_index(row) {
        Some(k) => k,
        None => {
            assert(!exists|i: int| 0 <= i < rv.len() && rv[i].0 == "provider"@) by {
                assert forall|i: int| 0 <= i < rv.len() implies rv[i].0 != "provider"@ by {
                    assert(rv[i] == (row@[i].0@, field_view(row@[i].1)));
                }
            }
            return None;
        },
    };
    proof {
        assert(rv[k as int] == (row@[k as int].0@, field_view(row@[k as int].1)));
        let w = choose|w: int|
            0 <= w < rv.len() && rv[w].0 == "provider"@ && forall|j: int|
                0 <= j < w ==> rv[j].0 != "provider"@;
        assert(w == k as int) by {
            if w < k {
                assert(rv[w] == (row@[w].0@, field_view(row@[w].1)));
            } else if w > k {
                assert(rv[k as int].0 != "provider"@);
            }
        }
    }
    let name = match &row[k].1 {
        JsonField::Text(s) => {
            let t = trim_vec(chars_of(s.as_str()).as_slice());
            if t.len() == 0 {
                return None;
            }
            t
        },
        _ => return None,
    };
    let mut params = ProviderParams::new();
    let mut i: usize = 0;
    while i < row.len()
        invariant
            i <= row@.len(),
            rv == row_view(*row),
            provider@ == "provider"@,
            params.view() == row_params(rv, i as int),
        decreases row.len() - i,
    {
        assert(rv[i as int] == (row@[i as int].0@, field_view(row@[i as int].1)));
        let key = chars_of(row[i].0.as_str());
        if !seq_equal(key.as_slice(), provider.as_slice()) {
            if let Some(t) = param_text_exec(&row[i].1) {
                if t.len() > 0 {
                    params.insert(string_of(key.as_slice()), string_of(t.as_slice()));
                }
            }
        }
        i = i + 1;
    }
    Some(ProviderEntry { name: string_of(name.as_slice()), params })
}

/// Whether two entries have the same name and parameters.
pub fn same_entry(a: &ProviderEntry, b: &ProviderEntry) -> (r: bool)
    ensures
        r == (entry_view(*a) == entry_view(*b)),
{
    if !seq_equal(chars_of(a.name.as_str()).as_slice(), chars_of(b.name.as_str()).as_slice()) {
        return false;
    }
    if a.params.len() != b.params.len() {
        return false;
    }
    let n = a.params.len();
    let mut i: usize = 0;
    while i < n
        invariant
            i <= n == a.params.view().len() == b.params.view().len(),
            forall|j: int| 0 <= j < i ==> a.params.view()[j] == b.params.view()[j],
        decreases n - i,
    {
        let (ak, av) = a.params.pair_at(i);
        let (bk, bv) = b.params.pair_at(i);
        if !seq_equal(chars_of(ak).as_slice(), chars_of(bk).as_slice()) || !seq_equal(
            chars_of(av).as_slice(),
            chars_of(bv).as_slice(),
        ) {
            return false;
        }
        i = i + 1;
    }
    assert(a.params.view() =~= b.params.view());
    true
}

/// Whether an entry occurs in a list of entries.
fn contains_entry(out: &Vec<ProviderEntry>, e: &ProviderEntry) -> (r: bool)
    ensures
        r == entries_view(out@).contains(entry_view(*e)),
{
    let ghost ev = entry_view(*e);
    let mut j: usize = 0;
    while j < out.len()
        invariant
            j <= out@.len(),
            ev == entry_view(*e),
            forall|q: int| 0 <= q < j ==> entry_view(out@[q]) != ev,
        decreases out.len() - j,
    {
        if same_entry(&out[j], e) {
            assert(entries_view(out@)[j as int] == ev);
            return true;
        }
        j = j + 1;
    }
    assert(!entries_view(out@).contains(ev)) by {
        if entries_view(out@).contains(ev) {
            let q = choose|q: int| 0 <= q < entries_view(out@).len() && entries_view(out@)[q] == ev;
            assert(entry_view(out@[q]) == ev);
        }
    }
    false
}

/// The providers of a JSON providers list, first occurrences only, or `None`
/// when the text is not a JSON array of objects.
pub fn parse_providers(raw: &str) -> (r: Option<Vec<ProviderEntry>>)
    ensures
        match r {
            Some(es) => json_rows(raw@) matches Some(rows) && entries_view(es@) == entries_of(
                rows,
                rows.len() as int,
            ),
            None => json_rows(raw@) is None,
        },
{
    let rows = match parse_json_rows(raw) {
        Some(rows) => rows,
        None => return None,
    };
    let ghost rv = rows@.map_values(|r: Vec<(String, JsonField)>| row_view(r));
    let mut out: Vec<ProviderEntry> = Vec::new();
    let mut i: usize = 0;
    while i < rows.len()
        invariant
            i <= rows@.len(),
            rv == rows@.map_values(|r: Vec<(String, JsonField)>| row_view(r)),
            entries_view(out@) == entries_of(rv, i as int),
        decreases rows.len() - i,
    {
        assert(rv[i as int] == row_view(rows@[i as int]));
        let ghost prev = entries_of(rv, i as int);
        let ghost nm = row_name(rv[i as int]);
        let ghost ps = row_params(rv[i as int], rv[i as int].len() as int);
        assert(entries_of(rv, i + 1) == match nm {
            Some(name) => if prev.contains((name, ps)) {
                prev
            } else {
                prev.push((name, ps))
            },
            None => prev,
        });
        if let Some(e) = parse_provider_row(&rows[i]) {
            let dup = contains_entry(&out, &e);
            if !dup {
                let ghost before = out@;
                out.push(e);
                assert(entries_view(out@) =~= entries_view(before).push(entry_view(e)));
            }
        }
        i = i + 1;
    }
    Some(out)
}

/// The configured providers: those of a valid list, none otherwise.
pub open spec fn list_of(raw: Option<Seq<char>>) -> Seq<(Seq<char>, Seq<PairV>)> {
    match present(raw) {
        Some(s) => match json_rows(s) {
            Some(rows) => entries_of(rows, rows.len() as int),
            None => seq![],
        },
        None => seq![],
    }
}

/// The providers of the `providersList` setting; none when it is unset or
/// not a valid list.
pub fn resolve_list(raw: Option<String>) -> (r: Vec<ProviderEntry>)
    ensures
        entries_view(r@) == list_of(opt_view(raw)),
{
    match get_string(raw) {
        Some(s) => match parse_providers(s.as_str()) {
            Some(ps) => ps,
            None => Vec::new(),
        },
        None => Vec::new(),
    }
}

/// The mode a `providerMode` setting names; priority when it names none.
pub open spec fn mode_of(raw: Option<Seq<char>>) -> ProviderMode {
    match present(raw) {
        Some(s) => match slug_mode(s) {
            Some(m) => m,
            None => ProviderMode::Priority,
        },
        None => ProviderMode::Priority,
    }
}

pub fn resolve_mode(raw: Option<String>) -> (r: ProviderMode)
    ensures
        r == mode_of(opt_view(raw)),
{
    match get_string(raw) {
        Some(s) => match ProviderMode::from_slug(s.as_str()) {
            Some(m) => m,
            None => ProviderMode::Priority,
        },
        None => ProviderMode::Priority,
    }
}

} // verus!
