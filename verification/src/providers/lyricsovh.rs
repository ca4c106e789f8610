//! lyrics.ovh: its lookup URL and how its answer becomes lyrics.
use vstd::prelude::*;
use crate::config::providers::{ProviderParams, utf8};
use crate::providers::error::ProviderError;
use crate::providers::http::{Response, hex_upper};
use crate::text::{chars_of, push_all, string_of, trim, trim_vec};
use crate::types::{Lyrics, LyricsKind, lyrics_kind, lyrics_text};
use crate::ext::TrackInfo;

verus! {

pub const DEFAULT_BASE_URL: &'static str = "https://api.lyrics.ovh";

/// An ASCII letter or digit.
pub open spec fn ascii_alnum(b: u8) -> bool {
    (48 <= b <= 57) || (65 <= b <= 90) || (97 <= b <= 122)
}

/// Bytes percent-encoded with `NON_ALPHANUMERIC`: ASCII letters and digits
/// kept, every other byte as `%XX` in upper-case hexadecimal.
pub open spec fn percent_encoded(bs: Seq<u8>) -> Seq<char>
    decreases bs.len(),
{
    if bs.len() == 0 {
        seq![]
    } else {
        let b = bs.last();
        percent_encoded(bs.drop_last()) + if ascii_alnum(b) {
            seq![b as char]
        } else {
            seq!['%', hex_upper(b as int / 16), hex_upper(b as int % 16)]
        }
    }
}

/// A character that keeps a URL path segment whole: an ASCII letter or
/// digit, or `%`.
pub open spec fn segment_safe(c: char) -> bool {
    ('0' <= c <= '9') || ('A' <= c <= 'Z') || ('a' <= c <= 'z') || c == '%'
}

/// A percent-encoded name can never open a path segment of its own, nor a
/// query or a fragment: it holds ASCII letters, digits and `%` alone.
pub proof fn encoded_names_stay_in_their_segment(bs: Seq<u8>)
    ensures
        forall|i: int|
            0 <= i < percent_encoded(bs).len() ==> segment_safe(#[trigger] percent_encoded(bs)[i]),
    decreases bs.len(),
{
    if bs.len() > 0 {
        encoded_names_stay_in_their_segment(bs.drop_last());
        let prev = percent_encoded(bs.drop_last());
        let b = bs.last();
        let tail = if ascii_alnum(b) {
            seq![b as char]
        } else {
            seq!['%', hex_upper(b as int / 16), hex_upper(b as int % 16)]
        };
        assert(percent_encoded(bs) == prev + tail);
        assert forall|i: int| 0 <= i < tail.len() implies segment_safe(#[trigger] tail[i]) by {
            if !ascii_alnum(b) && i > 0 {
                let v = if i == 1 {
                    b as int / 16
                } else {
                    b as int % 16
                };
                assert(0 <= v < 16);
                assert(tail[i] == hex_upper(v));
            }
        }
        assert forall|i: int|
            0 <= i < percent_encoded(bs).len() implies segment_safe(
            #[trigger] percent_encoded(bs)[i],
        ) by {
            if i < prev.len() {
                assert(percent_encoded(bs)[i] == prev[i]);
            } else {
                assert(percent_encoded(bs)[i] == tail[i - prev.len()]);
            }
        }
    }
}

/// Calls `percent_encoding::utf8_percent_encode` with `NON_ALPHANUMERIC`,
/// which encodes every byte of the UTF-8 text but ASCII letters and digits.
#[verifier::external_body]
fn encode_segment(s: &str) -> (r: String)
    ensures
        r@ == percent_encoded(utf8(s@)),
{
    percent_encoding::utf8_percent_encode(s, percent_encoding::NON_ALPHANUMERIC).to_string()
}

/// The lookup URL: the artist and the title, each percent-encoded as one
/// path segment.
pub fn search_url(base_url: &str, artist: &str, title: &str) -> (r: String)
    ensures
        r@ == base_url@ + "/v1/"@ + percent_encoded(utf8(artist@)) + "/"@ + percent_encoded(utf8(title@)),
{
    let mut out = chars_of(base_url);
    push_all(&mut out, chars_of("/v1/").as_slice());
    push_all(&mut out, chars_of(encode_segment(artist).as_str()).as_slice());
    out.push('/');
    push_all(&mut out, chars_of(encode_segment(title).as_str()).as_slice());
    proof {
        reveal_strlit("/");
    }
    string_of(out.as_slice())
}

/// The lyrics.ovh provider as configured.
pub struct LyricsOvh {
    pub base_url: String,
}

impl LyricsOvh {
    pub fn create(params: &ProviderParams) -> (r: LyricsOvh)
        ensures
            r.base_url@ == match params.view_get("baseUrl"@) {
                Some(v) => v,
                None => DEFAULT_BASE_URL@,
            },
    {
        match params.get("baseUrl") {
            Some(v) => LyricsOvh { base_url: string_of(chars_of(v).as_slice()) },
            None => LyricsOvh { base_url: string_of(chars_of(DEFAULT_BASE_URL).as_slice()) },
        }
    }

    pub fn supported_kinds(&self) -> (r: Vec<LyricsKind>)
        ensures
            r@ == seq![LyricsKind::Plain],
    {
        let mut v: Vec<LyricsKind> = Vec::new();
        v.push(LyricsKind::Plain);
        assert(v@ =~= seq![LyricsKind::Plain]);
        v
    }

    pub fn log_params(&self) -> (r: Vec<(&'static str, String)>)
        ensures
            r@.len() == 1 && r@[0].0@ == "baseUrl"@ && r@[0].1@ == self.base_url@,
    {
        let mut v: Vec<(&'static str, String)> = Vec::new();
        v.push(("baseUrl", string_of(chars_of(self.base_url.as_str()).as_slice())));
        v
    }
}

impl LyricsOvh {
    /// The lookup URL of a track: its first artist and its title; an error
    /// when the track has no artist.
    pub fn lookup_url(&self, track: &TrackInfo) -> (r: Result<String, ProviderError>)
        ensures
            track.artists@.len() == 0 ==> (r matches Err(ProviderError::Other(m)) && m@
                == "track has no artist"@),
            track.artists@.len() > 0 ==> (r matches Ok(u) && u@ == self.base_url@ + "/v1/"@
                + percent_encoded(utf8(track.artists@[0].name@)) + "/"@ + percent_encoded(
                utf8(track.title@),
            )),
    {
        if track.artists.len() == 0 {
            return Err(ProviderError::other(string_of(chars_of("track has no artist").as_slice())));
        }
        Ok(search_url(self.base_url.as_str(), track.artists[0].name.as_str(), track.title.as_str()))
    }
}

/// What an answer comes to: its lyrics (the `lyrics` field of a 200 answer,
/// `None` when the body did not parse) when not blank, nothing for a 404, an
/// error for another status or a body that did not parse.
pub fn read_answer(response: &Response, lyrics: Option<String>) -> (r: Result<Option<Lyrics>, ProviderError>)
    ensures
        response.status == 200 ==> match lyrics {
            Some(t) => if trim(t@).len() > 0 {
                r matches Ok(Some(l)) && lyrics_kind(l) == LyricsKind::Plain && lyrics_text(l) == Some(t@)
            } else {
                r matches Ok(None)
            },
            None => r matches Err(e) && e is Other,
        },
        response.status == 404 ==> r matches Ok(None),
        response.status != 200 && response.status != 404 ==> (r matches Err(e) && e is Other),
{
    if response.status == 200 {
        match lyrics {
            Some(t) => {
                if trim_vec(chars_of(t.as_str()).as_slice()).len() > 0 {
                    Ok(Some(Lyrics::Plain(t)))
                } else {
                    Ok(None)
                }
            },
            None => Err(ProviderError::other(string_of(chars_of("failed to parse the lyrics response").as_slice()))),
        }
    } else if response.status == 404 {
        Ok(None)
    } else {
        Err(response.unexpected_status("lyrics.ovh"))
    }
}

} // verus!
