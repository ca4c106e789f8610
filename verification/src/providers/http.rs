//! HTTP requests as the providers build them, and the responses they read.
//! Sending a request is the host's work; a request here is what will be sent.
use vstd::prelude::*;
use vstd::utf8::{decode_utf8, valid_utf8};
use crate::num::parse_int_saturating;
use crate::providers::error::{ProviderError, retry_wait};
use crate::num::{int_in_range, int_syntax, int_value_sat};
use crate::text::{ascii_lower, chars_of, join, lower_ascii_seq, push_all, string_of, trim, trim_vec};
use crate::config::providers::utf8;

verus! {

pub const USER_AGENT: &'static str = "navidrome-lyrics-plugin/0.1.0 (https://github.com/J0R6IT0/navidrome-lyrics-plugin)";

pub const BROWSER_USER_AGENT: &'static str = "Mozilla/5.0 (Macintosh; Intel Mac OS X 15.7; rv:150.0) Gecko/20100101 Firefox/150.0";

pub const TIMEOUT_MS: i32 = 15_000;

pub type TextPairs = Seq<(Seq<char>, Seq<char>)>;

pub open spec fn pairs_of(v: Seq<(String, String)>) -> TextPairs {
    v.map_values(|p: (String, String)| (p.0@, p.1@))
}

/// Headers after setting one: the value of a name already there is
/// replaced, a new name comes last.
pub open spec fn set_header(hs: TextPairs, k: Seq<char>, v: Seq<char>) -> TextPairs {
    if exists|i: int| 0 <= i < hs.len() && hs[i].0 == k {
        let i = choose|i: int| 0 <= i < hs.len() && hs[i].0 == k;
        hs.update(i, (k, v))
    } else {
        hs.push((k, v))
    }
}

/// No header name occurs twice.
pub open spec fn distinct_names(hs: TextPairs) -> bool {
    forall|i: int, j: int| 0 <= i < j < hs.len() ==> hs[i].0 != hs[j].0
}

/// Headers after setting each of `extra`, in order.
pub open spec fn set_headers(hs: TextPairs, extra: TextPairs) -> TextPairs
    decreases extra.len(),
{
    if extra.len() == 0 {
        hs
    } else {
        set_header(set_headers(hs, extra.drop_last()), extra.last().0, extra.last().1)
    }
}

pub struct HttpView {
    pub method: Seq<char>,
    pub base_url: Seq<char>,
    pub params: TextPairs,
    pub headers: TextPairs,
    pub body: Seq<u8>,
}

/// A request being built.
pub struct Http {
    method: &'static str,
    base_url: String,
    params: Vec<(String, String)>,
    headers: Vec<(String, String)>,
    body: Vec<u8>,
}

impl View for Http {
    type V = HttpView;

    closed spec fn view(&self) -> HttpView {
        HttpView {
            method: self.method@,
            base_url: self.base_url@,
            params: pairs_of(self.params@),
            headers: pairs_of(self.headers@),
            body: self.body@,
        }
    }
}

fn copy_string(s: &str) -> (r: String)
    ensures
        r@ == s@,
{
    string_of(chars_of(s).as_slice())
}

fn same_text(a: &str, b: &str) -> (r: bool)
    ensures
        r == (a@ == b@),
{
    crate::format::lrc::seq_equal(chars_of(a).as_slice(), chars_of(b).as_slice())
}

impl Http {
    pub closed spec fn well_formed(&self) -> bool {
        distinct_names(self@.headers)
    }

    pub fn get(url: String) -> (r: Http)
        ensures
            r.well_formed(),
            r@.method == "GET"@,
            r@.base_url == url@,
            r@.params.len() == 0,
            r@.headers == seq![("User-Agent"@, USER_AGENT@)],
            r@.body.len() == 0,
    {
        Http::new("GET", url)
    }

    pub fn post(url: String) -> (r: Http)
        ensures
            r.well_formed(),
            r@.method == "POST"@,
            r@.base_url == url@,
            r@.params.len() == 0,
            r@.headers == seq![("User-Agent"@, USER_AGENT@)],
            r@.body.len() == 0,
    {
        Http::new("POST", url)
    }

    pub fn new(method: &'static str, url: String) -> (r: Http)
        ensures
            r.well_formed(),
            r@.method == method@,
            r@.base_url == url@,
            r@.params.len() == 0,
            r@.headers == seq![("User-Agent"@, USER_AGENT@)],
            r@.body.len() == 0,
    {
        let mut headers: Vec<(String, String)> = Vec::new();
        headers.push((copy_string("User-Agent"), copy_string(USER_AGENT)));
        let r = Http { method, base_url: url, params: Vec::new(), headers, body: Vec::new() };
        assert(r@.headers =~= seq![("User-Agent"@, USER_AGENT@)]);
        r
    }

    /// Adds a query parameter; parameters keep their order.
    pub fn param(self, name: &str, value: String) -> (r: Http)
        requires
            self.well_formed(),
        ensures
            r.well_formed(),
            r@.params == self@.params.push((name@, value@)),
            r@.method == self@.method && r@.base_url == self@.base_url && r@.headers
                == self@.headers && r@.body == self@.body,
    {
        let mut s = self;
        let ghost before = s.params@;
        s.params.push((copy_string(name), value));
        assert(pairs_of(s.params@) =~= pairs_of(before).push((name@, value@)));
        s
    }

    /// Sets a header, replacing the value of one of that name.
    pub fn header(self, name: &str, value: String) -> (r: Http)
        requires
            self.well_formed(),
        ensures
            r.well_formed(),
            r@.headers == set_header(self@.headers, name@, value@),
            r@.method == self@.method && r@.base_url == self@.base_url && r@.params
                == self@.params && r@.body == self@.body,
    {
        let mut s = self;
        let ghost hs = pairs_of(s.headers@);
        let ghost orig = s@;
        let mut i: usize = 0;
        while i < s.headers.len()
            invariant
                i <= s.headers@.len(),
                hs == pairs_of(s.headers@),
                s@ == orig,
                orig == self@,
                distinct_names(hs),
                forall|j: int| 0 <= j < i ==> hs[j].0 != name@,
            decreases s.headers.len() - i,
        {
            assert(hs[i as int] == (s.headers@[i as int].0@, s.headers@[i as int].1@));
            if same_text(s.headers[i].0.as_str(), name) {
                proof {
                    assert(hs[i as int].0 == name@);
                    let w = choose|w: int| 0 <= w < hs.len() && hs[w].0 == name@;
                    assert(w == i) by {
                        if w < i {
                        } else if w > i {
                            assert(hs[i as int].0 == name@);
                        }
                    }
                }
                s.headers.set(i, (copy_string(name), value));
                assert(pairs_of(s.headers@) =~= hs.update(i as int, (name@, value@)));
                proof {
                    let nh = pairs_of(s.headers@);
                    assert forall|a: int, b: int| 0 <= a < b < nh.len() implies nh[a].0 != nh[b].0 by {
                        assert(hs[a].0 != hs[b].0);
                    }
                }
                return s;
            }
            i = i + 1;
        }
        s.headers.push((copy_string(name), value));
        assert(pairs_of(s.headers@) =~= hs.push((name@, value@)));
        proof {
            let nh = pairs_of(s.headers@);
            assert forall|a: int, b: int| 0 <= a < b < nh.len() implies nh[a].0 != nh[b].0 by {
                if b < hs.len() {
                    assert(hs[a].0 != hs[b].0);
                }
            }
        }
        s
    }

    /// Sets each of the given headers in turn.
    pub fn headers(self, extra: Vec<(String, String)>) -> (r: Http)
        requires
            self.well_formed(),
        ensures
            r.well_formed(),
            r@.headers == set_headers(self@.headers, pairs_of(extra@)),
            r@.method == self@.method && r@.base_url == self@.base_url && r@.params
                == self@.params && r@.body == self@.body,
    {
        let mut s = self;
        let ghost start = s@;
        let mut i: usize = 0;
        let n = extra.len();
        while i < n
            invariant
                n == extra@.len(),
                i <= n,
                s.well_formed(),
                s@.headers == set_headers(start.headers, pairs_of(extra@).take(i as int)),
                s@.method == start.method && s@.base_url == start.base_url && s@.params
                    == start.params && s@.body == start.body,
            decreases n - i,
        {
            let (k, v) = (copy_string(extra[i].0.as_str()), copy_string(extra[i].1.as_str()));
            s = s.header(k.as_str(), v);
            assert(pairs_of(extra@).take(i + 1).drop_last() =~= pairs_of(extra@).take(i as int));
            i = i + 1;
        }
        assert(pairs_of(extra@).take(n as int) =~= pairs_of(extra@));
        s
    }

    /// Presents the request as a browser's, for sites that turn the plugin's
    /// own user agent away.
    pub fn browser(self) -> (r: Http)
        requires
            self.well_formed(),
        ensures
            r.well_formed(),
            r@.headers == set_header(self@.headers, "User-Agent"@, BROWSER_USER_AGENT@),
            r@.method == self@.method && r@.base_url == self@.base_url && r@.params
                == self@.params && r@.body == self@.body,
    {
        self.header("User-Agent", copy_string(BROWSER_USER_AGENT))
    }

    pub fn body(self, body: Vec<u8>) -> (r: Http)
        ensures
            r@.body == body@,
            r@.method == self@.method && r@.base_url == self@.base_url && r@.params
                == self@.params && r@.headers == self@.headers,
            self.well_formed() ==> r.well_formed(),
    {
        let mut s = self;
        s.body = body;
        s
    }

    /// The URL to request: the base URL, followed by `?` and the encoded
    /// query when there are parameters.
    pub fn url(&self) -> (r: Result<String, ProviderError>)
        ensures
            r matches Ok(u) && u@ == if self@.params.len() == 0 {
                self@.base_url
            } else {
                self@.base_url + "?"@ + form_pairs(self@.params)
            },
    {
        if self.params.len() == 0 {
            return Ok(copy_string(self.base_url.as_str()));
        }
        match form_encode(&self.params) {
            Some(query) => {
                let mut out = chars_of(self.base_url.as_str());
                out.push('?');
                push_all(&mut out, chars_of(query.as_str()).as_slice());
                proof {
                    reveal_strlit("?");
                    assert(out@ =~= self@.base_url + "?"@ + form_pairs(self@.params));
                }
                Ok(string_of(out.as_slice()))
            },
            None => Err(
                ProviderError::other(copy_string("failed to encode the query string")),
            ),
        }
    }

    pub fn method(&self) -> (r: &'static str)
        ensures
            r@ == self@.method,
    {
        self.method
    }

    pub fn into_parts(self) -> (r: (Vec<(String, String)>, Vec<u8>))
        ensures
            pairs_of(r.0@) == self@.headers,
            r.1@ == self@.body,
    {
        (self.headers, self.body)
    }
}

/// A byte the form encoding keeps as it is.
pub open spec fn form_unchanged(b: u8) -> bool {
    b == 42 || b == 45 || b == 46 || (48 <= b <= 57) || (65 <= b <= 90) || b == 95 || (97 <= b
        <= 122)
}

pub open spec fn hex_upper(n: int) -> char {
    if n < 10 {
        ((n + 48) as u8) as char
    } else {
        ((n - 10 + 65) as u8) as char
    }
}

/// `application/x-www-form-urlencoded` bytes: kept, a space as `+`, others
/// as `%XX` in upper-case hexadecimal.
pub open spec fn form_bytes(bs: Seq<u8>) -> Seq<char>
    decreases bs.len(),
{
    if bs.len() == 0 {
        seq![]
    } else {
        let b = bs.last();
        form_bytes(bs.drop_last()) + if form_unchanged(b) {
            seq![b as char]
        } else if b == 32 {
            seq!['+']
        } else {
            seq!['%', hex_upper(b as int / 16), hex_upper(b as int % 16)]
        }
    }
}

/// The query of name/value pairs: each `name=value`, encoded, joined by `&`.
pub open spec fn form_pairs(ps: TextPairs) -> Seq<char> {
    join(
        ps.map_values(|p: (Seq<char>, Seq<char>)| form_bytes(utf8(p.0)) + "="@ + form_bytes(utf8(p.1))),
        "&"@,
    )
}

/// Calls `serde_urlencoded::to_string` on the pairs, which encodes each name
/// and value with `form_urlencoded::byte_serialize`, puts `=` between them,
/// and `&` between pairs. A sequence of string pairs is always accepted.
#[verifier::external_body]
fn form_encode(params: &Vec<(String, String)>) -> (r: Option<String>)
    ensures
        r is Some,
        r matches Some(s) ==> s@ == form_pairs(pairs_of(params@)),
{
    serde_urlencoded::to_string(params).ok()
}

/// The text `String::from_utf8_lossy` makes of bytes.
pub uninterp spec fn lossy_utf8(bytes: Seq<u8>) -> Seq<char>;

/// Calls `String::from_utf8_lossy`, which decodes valid UTF-8 as it is.
#[verifier::external_body]
fn utf8_lossy(bytes: &[u8]) -> (r: String)
    ensures
        r@ == lossy_utf8(bytes@),
        valid_utf8(bytes@) ==> r@ == decode_utf8(bytes@),
{
    String::from_utf8_lossy(bytes).into_owned()
}

/// A response: its status, headers and body.
pub struct Response {
    pub status: i32,
    pub headers: Vec<(String, String)>,
    pub body: Vec<u8>,
}

/// The value of the first header whose name matches, ASCII case ignored.
pub open spec fn header_value(hs: TextPairs, name: Seq<char>) -> Option<Seq<char>>
    decreases hs.len(),
{
    if hs.len() == 0 {
        None
    } else if lower_ascii_seq(hs[0].0) == lower_ascii_seq(name) {
        Some(hs[0].1)
    } else {
        header_value(hs.drop_first(), name)
    }
}

/// A `Retry-After` value in seconds: a trimmed integer within `i64`.
pub open spec fn retry_after_secs(value: Seq<char>) -> Option<i64> {
    match int_syntax(trim(value)) {
        Some((neg, d)) => if int_in_range(neg, d) {
            Some(int_value_sat(neg, d) as i64)
        } else {
            None
        },
        None => None,
    }
}

pub fn parse_retry_after(value: &str) -> (r: Option<i64>)
    ensures
        r == retry_after_secs(value@),
{
    let t = trim_vec(chars_of(value).as_slice());
    match parse_int_saturating(t.as_slice()) {
        Some((_neg, true, v)) => Some(v),
        _ => None,
    }
}

fn lower_eq(a: &str, b: &str) -> (r: bool)
    ensures
        r == (lower_ascii_seq(a@) == lower_ascii_seq(b@)),
{
    let la = crate::types::lower_vec(chars_of(a).as_slice());
    let lb = crate::types::lower_vec(chars_of(b).as_slice());
    crate::format::lrc::seq_equal(la.as_slice(), lb.as_slice())
}

impl Response {
    pub fn new(status: i32, headers: Vec<(String, String)>, body: Vec<u8>) -> (r: Response)
        ensures
            r.status == status,
            r.headers() == pairs_of(headers@),
            r.body@ == body@,
    {
        Response { status, headers, body }
    }

    pub open spec fn headers(&self) -> TextPairs {
        pairs_of(self.headers@)
    }

    /// The value of a header, its name's ASCII case ignored.
    pub fn header(&self, name: &str) -> (r: Option<&str>)
        ensures
            match r {
                Some(v) => header_value(self.headers(), name@) == Some(v@),
                None => header_value(self.headers(), name@) is None,
            },
    {
        let ghost hs = self.headers();
        let mut i: usize = 0;
        assert(hs.skip(0) =~= hs);
        while i < self.headers.len()
            invariant
                i <= self.headers@.len(),
                hs == self.headers(),
                header_value(hs, name@) == header_value(hs.skip(i as int), name@),
            decreases self.headers.len() - i,
        {
            proof {
                let t = hs.skip(i as int);
                assert(t[0] == hs[i as int]);
                assert(t.drop_first() =~= hs.skip(i + 1));
            }
            if lower_eq(self.headers[i].0.as_str(), name) {
                return Some(self.headers[i].1.as_str());
            }
            i = i + 1;
        }
        None
    }

    /// The body as text, invalid UTF-8 replaced.
    pub fn text(&self) -> (r: String)
        ensures
            r@ == lossy_utf8(self.body@),
            valid_utf8(self.body@) ==> r@ == decode_utf8(self.body@),
    {
        utf8_lossy(self.body.as_slice())
    }

    /// The error for a status the caller did not expect.
    pub fn unexpected_status(&self, what: &str) -> (r: ProviderError)
        ensures
            r == ProviderError::Other(r->Other_0) && r->Other_0@ == what@ + " returned status "@
                + crate::num::decimal(self.status as int),
    {
        let mut out = chars_of(what);
        push_all(&mut out, chars_of(" returned status ").as_slice());
        push_all(&mut out, crate::num::decimal_exec(self.status as i64).as_slice());
        ProviderError::other(string_of(out.as_slice()))
    }

    /// The error for a rate-limited response, waiting as `Retry-After` says.
    pub fn rate_limited(&self) -> (r: ProviderError)
        ensures
            r == (ProviderError::RateLimited {
                retry_after_secs: retry_wait(
                    match header_value(self.headers(), "Retry-After"@) {
                        Some(v) => retry_after_secs(v),
                        None => None,
                    },
                ),
            }),
    {
        let secs = match self.header("Retry-After") {
            Some(v) => parse_retry_after(v),
            None => None,
        };
        ProviderError::rate_limited(secs)
    }
}

} // verus!
