//! Cached lyrics: their keys, how they are stored (deflated text, or a
//! one-byte marker for instrumental tracks) and how they read back.
use vstd::prelude::*;
use vstd::utf8::{decode_utf8, encode_utf8, encode_utf8_decode_utf8, encode_utf8_valid_utf8, valid_utf8};
use crate::config::{PluginConfig, ttl_of};
use crate::text::{chars_of, push_all, string_of};
use crate::types::{Lyrics, LyricsKind, kind_slug, lyrics_kind, lyrics_text};

verus! {

pub const PREFIX_NEGATIVE: &'static str = "miss:";

/// The value stored for an instrumental track.
pub const SENTINEL: u8 = 1;

/// The key of cached lyrics of a kind: `kind:track`.
pub fn cache_key(track_id: &str, kind: LyricsKind) -> (r: String)
    ensures
        r@ == kind_slug(kind) + ":"@ + track_id@,
{
    let mut out = chars_of(kind.slug());
    out.push(':');
    push_all(&mut out, chars_of(track_id).as_slice());
    proof {
        reveal_strlit(":");
    }
    string_of(out.as_slice())
}

/// The key of a remembered miss: `miss:provider:track`.
pub fn negative_cache_key(track_id: &str, provider: &str) -> (r: String)
    ensures
        r@ == PREFIX_NEGATIVE@ + provider@ + ":"@ + track_id@,
{
    let mut out = chars_of(PREFIX_NEGATIVE);
    push_all(&mut out, chars_of(provider).as_slice());
    out.push(':');
    push_all(&mut out, chars_of(track_id).as_slice());
    proof {
        reveal_strlit(":");
    }
    string_of(out.as_slice())
}

/// Each kind of lyrics of a track is cached under its own key, and no key
/// of cached lyrics is ever the key of a remembered miss.
pub proof fn cache_keys_never_collide(
    k1: LyricsKind,
    k2: LyricsKind,
    track: Seq<char>,
    provider: Seq<char>,
    other: Seq<char>,
)
    ensures
        kind_slug(k1) + ":"@ + track == kind_slug(k2) + ":"@ + track ==> k1 == k2,
        kind_slug(k1) + ":"@ + track != PREFIX_NEGATIVE@ + provider + ":"@ + other,
{
    reveal_strlit("plain");
    reveal_strlit("lrc");
    reveal_strlit("elrc");
    reveal_strlit("ttml");
    reveal_strlit("srt");
    reveal_strlit("lyricsfile");
    reveal_strlit("instrumental");
    reveal_strlit(":");
    reveal_strlit("miss:");
    let a = kind_slug(k1) + ":"@ + track;
    let b = kind_slug(k2) + ":"@ + track;
    if a == b {
        assert(a.len() == b.len());
        assert(a.len() == kind_slug(k1).len() + ":"@.len() + track.len());
        assert(b.len() == kind_slug(k2).len() + ":"@.len() + track.len());
        assert(kind_slug(k1).len() == kind_slug(k2).len());
        assert(kind_slug(k1) =~= a.take(kind_slug(k1).len() as int));
        assert(kind_slug(k2) =~= b.take(kind_slug(k2).len() as int));
    }
    let m = PREFIX_NEGATIVE@ + provider + ":"@ + other;
    assert(a[0] == kind_slug(k1)[0]);
    assert(m[0] == 'm');
}

/// What the cache holds for a track.
#[derive(Debug)]
pub enum CacheLookup {
    Found(Lyrics),
    Miss,
}

/// Why a cache entry could not be made or read.
#[derive(Debug, PartialEq, Eq, Structural, Clone, Copy)]
pub enum CacheError {
    Compression,
    Decompression,
    InvalidUtf8,
}

/// The raw DEFLATE stream `flate2` makes of some bytes at its fast level.
pub uninterp spec fn deflated(data: Seq<u8>) -> Seq<u8>;

/// The bytes a raw DEFLATE stream holds, or `None` when it is not one.
pub uninterp spec fn inflated(data: Seq<u8>) -> Option<Seq<u8>>;

/// Calls `flate2::write::DeflateEncoder` (fast level) over a `Vec`, then
/// `write_all` and `finish`. Writing into a `Vec` does not fail, and what it
/// makes inflates back to its input.
#[verifier::external_body]
fn deflate(data: &[u8]) -> (r: Option<Vec<u8>>)
    ensures
        r is Some,
        r matches Some(c) ==> c@ == deflated(data@) && inflated(c@) == Some(data@),
{
    let mut encoder = flate2::write::DeflateEncoder::new(Vec::new(), flate2::Compression::fast());
    std::io::Write::write_all(&mut encoder, data).ok()?;
    encoder.finish().ok()
}

/// Calls `flate2::read::DeflateDecoder` and `read_to_end`.
#[verifier::external_body]
fn inflate(data: &[u8]) -> (r: Option<Vec<u8>>)
    ensures
        match r {
            Some(b) => inflated(data@) == Some(b@),
            None => inflated(data@) is None,
        },
{
    let mut decoder = flate2::read::DeflateDecoder::new(data);
    let mut bytes = Vec::new();
    std::io::Read::read_to_end(&mut decoder, &mut bytes).ok()?;
    Some(bytes)
}

/// What the error of `String::from_utf8` on invalid bytes says: where the
/// invalid sequence starts, and how long it is.
pub uninterp spec fn utf8_error_text(bytes: Seq<u8>) -> Seq<char>;

/// Calls `String::from_utf8`, which accepts exactly the valid UTF-8 bytes;
/// on other bytes its error is given as the text it displays.
#[verifier::external_body]
pub(crate) fn string_from_utf8(bytes: Vec<u8>) -> (r: Result<String, String>)
    ensures
        match r {
            Ok(s) => valid_utf8(bytes@) && s@ == decode_utf8(bytes@),
            Err(m) => !valid_utf8(bytes@) && m@ == utf8_error_text(bytes@),
        },
{
    String::from_utf8(bytes).map_err(|e| e.to_string())
}

/// Deflates bytes for storage.
pub fn compress(data: &[u8]) -> (r: Result<Vec<u8>, CacheError>)
    ensures
        r matches Ok(c) && c@ == deflated(data@) && inflated(c@) == Some(data@),
{
    match deflate(data) {
        Some(c) => Ok(c),
        None => Err(CacheError::Compression),
    }
}

/// The text a stored entry holds, if it inflates to valid UTF-8.
pub open spec fn decompressed(data: Seq<u8>) -> Result<Seq<char>, CacheError> {
    match inflated(data) {
        Some(b) => if valid_utf8(b) {
            Ok(decode_utf8(b))
        } else {
            Err(CacheError::InvalidUtf8)
        },
        None => Err(CacheError::Decompression),
    }
}

/// Inflates a stored entry back into its text.
pub fn decompress(data: &[u8]) -> (r: Result<String, CacheError>)
    ensures
        match r {
            Ok(s) => decompressed(data@) == Ok::<Seq<char>, CacheError>(s@),
            Err(e) => decompressed(data@) == Err::<Seq<char>, CacheError>(e),
        },
{
    match inflate(data) {
        None => Err(CacheError::Decompression),
        Some(bytes) => match string_from_utf8(bytes) {
            Ok(s) => Ok(s),
            Err(_) => Err(CacheError::InvalidUtf8),
        },
    }
}

/// What is stored for a text reads back as that very text.
pub proof fn cached_text_reads_back(text: Seq<char>, stored: Seq<u8>)
    requires
        inflated(stored) == Some(encode_utf8(text)),
    ensures
        decompressed(stored) == Ok::<Seq<char>, CacheError>(text),
{
    encode_utf8_valid_utf8(text);
    encode_utf8_decode_utf8(text);
}

/// The bytes stored for lyrics: the marker for an instrumental track, the
/// deflated UTF-8 text otherwise.
pub fn entry_bytes(lyrics: &Lyrics, cfg: &PluginConfig) -> (r: Result<Vec<u8>, CacheError>)
    ensures
        match lyrics_text(*lyrics) {
            None => r matches Ok(b) && b@ == seq![SENTINEL],
            Some(t) => r matches Ok(c) && c@ == deflated(encode_utf8(t)) && inflated(c@) == Some(
                encode_utf8(t),
            ) && decompressed(c@) == Ok::<Seq<char>, CacheError>(t),
        },
{
    match lyrics {
        Lyrics::Instrumental => {
            let mut b: Vec<u8> = Vec::new();
            b.push(SENTINEL);
            Ok(b)
        },
        _ => {
            let text = lyrics.text(cfg);
            let r = compress(text.as_bytes());
            match r {
                Ok(c) => {
                    proof {
                        cached_text_reads_back(text@, c@);
                    }
                    Ok(c)
                },
                Err(e) => Err(e),
            }
        },
    }
}

/// `a * b`, held to the range of `i64`.
pub open spec fn saturating_mul(a: int, b: int) -> int {
    if a * b > i64::MAX {
        i64::MAX as int
    } else if a * b < i64::MIN {
        i64::MIN as int
    } else {
        a * b
    }
}

fn hours_to_secs(hours: i64) -> (r: i64)
    ensures
        r == saturating_mul(hours as int, 3600),
{
    let s = hours as i128 * 3600;
    if s > i64::MAX as i128 {
        i64::MAX
    } else if s < i64::MIN as i128 {
        i64::MIN
    } else {
        s as i64
    }
}

/// How long, in seconds, lyrics of a kind stay cached.
pub fn entry_ttl_secs(cfg: &PluginConfig, kind: LyricsKind) -> (r: i64)
    ensures
        r == saturating_mul(ttl_of(*cfg, kind) as int, 3600),
{
    hours_to_secs(cfg.cache_ttl_hours_for(kind))
}

/// How long, in seconds, a miss is remembered.
pub fn negative_ttl_secs(cfg: &PluginConfig) -> (r: i64)
    ensures
        r == saturating_mul(cfg.negative_cache_ttl_hours as int, 3600),
{
    hours_to_secs(cfg.negative_cache_ttl_hours)
}

/// What a stored entry of a kind reads back as: no text for an
/// instrumental track's marker, the inflated text for other kinds; `None`
/// for a damaged entry.
pub open spec fn entry_reading(kind: LyricsKind, bytes: Seq<u8>) -> Option<Option<Seq<char>>> {
    if kind == LyricsKind::Instrumental {
        if bytes == seq![SENTINEL] {
            Some(None)
        } else {
            None
        }
    } else {
        match decompressed(bytes) {
            Ok(t) => Some(Some(t)),
            Err(_) => None,
        }
    }
}

/// The lyrics a stored entry of a kind reads back as: an instrumental
/// track for the marker, the inflated text for other kinds; `None` for a
/// damaged entry.
pub fn decode_entry(kind: LyricsKind, bytes: &[u8]) -> (r: Option<Lyrics>)
    ensures
        match entry_reading(kind, bytes@) {
            None => r is None,
            Some(t) => r matches Some(l) && lyrics_kind(l) == kind && lyrics_text(l) == t,
        },
{
    match kind {
        LyricsKind::Instrumental => {
            if bytes.len() == 1 && bytes[0] == SENTINEL {
                assert(bytes@ =~= seq![SENTINEL]);
                Some(Lyrics::Instrumental)
            } else {
                assert(bytes@ != seq![SENTINEL]) by {
                    if bytes@ == seq![SENTINEL] {
                        assert(bytes@.len() == 1);
                    }
                }
                None
            }
        },
        _ => match decompress(bytes) {
            Ok(text) => Some(
                match kind {
                    LyricsKind::Plain => Lyrics::Plain(text),
                    LyricsKind::Lrc => Lyrics::Lrc(text),
                    LyricsKind::Elrc => Lyrics::Elrc(text),
                    LyricsKind::Ttml => Lyrics::Ttml(text),
                    LyricsKind::Srt => Lyrics::Srt(text),
                    _ => Lyrics::Lyricsfile(text),
                },
            ),
            Err(_) => None,
        },
    }
}

/// A cache entry reads back as the lyrics it was made from: the bytes
/// `entry_bytes` stores for lyrics read back, under the lyrics' kind, as
/// their very text (or as an instrumental track).
pub proof fn a_cache_entry_reads_back(l: Lyrics, stored: Seq<u8>)
    requires
        match lyrics_text(l) {
            None => stored == seq![SENTINEL],
            Some(t) => inflated(stored) == Some(encode_utf8(t)),
        },
    ensures
        entry_reading(lyrics_kind(l), stored) == Some(lyrics_text(l)),
{
    match lyrics_text(l) {
        None => {},
        Some(t) => {
            cached_text_reads_back(t, stored);
        },
    }
}

/// What a lookup reports: the lyrics of the first configured kind found,
/// else an instrumental marker, else a miss.
pub fn lookup_result(found: Option<Lyrics>, instrumental: bool) -> (r: CacheLookup)
    ensures
        match found {
            Some(l) => r matches CacheLookup::Found(x) && x == l,
            None => if instrumental {
                r matches CacheLookup::Found(x) && x is Instrumental
            } else {
                r is Miss
            },
        },
{
    match found {
        Some(l) => CacheLookup::Found(l),
        None => if instrumental {
            CacheLookup::Found(Lyrics::Instrumental)
        } else {
            CacheLookup::Miss
        },
    }
}

} // verus!
