//! KuGou's KRC lyrics: an XOR-obfuscated zlib stream behind a `krc1`
//! header, holding lines `[start,duration]` of words
//! `<offset,duration,0>text` timed from the line's start.
use vstd::prelude::*;
use vstd::utf8::{decode_utf8, valid_utf8};
use crate::providers::timed::{enhanced, times_fit, to_enhanced_checked};
use crate::text::{chars_of, string_of};

verus! {

pub const KRC_LINE_PATTERN: &'static str = r"^\[(\d+),\d+\](.*)$";
pub const KRC_WORD_PATTERN: &'static str = r"<(\d+),(\d+),-?\d+>([^<]*)";

/// The key KRC payloads are XORed with.
pub open spec fn krc_key() -> Seq<u8> {
    seq![0x40u8, 0x47, 0x61, 0x77, 0x5e, 0x32, 0x74, 0x47, 0x51, 0x36, 0x31, 0x2d, 0xce, 0xd2, 0x6e, 0x69]
}

pub fn krc_key_byte(i: usize) -> (r: u8)
    requires
        i < 16,
    ensures
        r == krc_key()[i as int],
{
    let key: [u8; 16] = [
        0x40, 0x47, 0x61, 0x77, 0x5e, 0x32, 0x74, 0x47, 0x51, 0x36, 0x31, 0x2d, 0xce, 0xd2, 0x6e,
        0x69,
    ];
    assert(key@ =~= krc_key());
    key[i]
}

/// The `krc1` header.
pub open spec fn magic() -> Seq<u8> {
    seq![0x6bu8, 0x72, 0x63, 0x31]
}

/// The payload after the header, with the key XORed back out.
pub open spec fn unmasked(data: Seq<u8>) -> Seq<u8> {
    Seq::new((data.len() - 4) as nat, |i: int| data[i + 4] ^ krc_key()[i % 16])
}

/// The bytes a zlib stream holds, or `None` when it is not one.
pub uninterp spec fn zlib_inflated(data: Seq<u8>) -> Option<Seq<u8>>;

/// Calls `flate2::read::ZlibDecoder` and `read_to_end`.
#[verifier::external_body]
fn zlib_inflate(data: &[u8]) -> (r: Option<Vec<u8>>)
    ensures
        match r {
            Some(b) => zlib_inflated(data@) == Some(b@),
            None => zlib_inflated(data@) is None,
        },
{
    let mut decoder = flate2::read::ZlibDecoder::new(data);
    let mut bytes = Vec::new();
    std::io::Read::read_to_end(&mut decoder, &mut bytes).ok()?;
    Some(bytes)
}

/// Why a KRC payload could not be read.
#[derive(Debug, PartialEq, Eq, Structural, Clone, Copy)]
pub enum KrcError {
    MissingMagic,
    Inflate,
    InvalidUtf8,
    TimeOutOfRange,
}

impl KrcError {
    pub fn message(&self) -> (r: &'static str)
        ensures
            r@ == match self {
                KrcError::MissingMagic => "missing krc1 magic header"@,
                KrcError::Inflate => "krc inflate failed"@,
                KrcError::InvalidUtf8 => "krc is not valid UTF-8"@,
                KrcError::TimeOutOfRange => "krc word time out of range"@,
            },
    {
        match self {
            KrcError::MissingMagic => "missing krc1 magic header",
            KrcError::Inflate => "krc inflate failed",
            KrcError::InvalidUtf8 => "krc is not valid UTF-8",
            KrcError::TimeOutOfRange => "krc word time out of range",
        }
    }
}

/// The text a KRC payload holds.
pub open spec fn krc_text(data: Seq<u8>) -> Result<Seq<char>, KrcError> {
    if data.len() <= 4 || data.take(4) != magic() {
        Err(KrcError::MissingMagic)
    } else {
        match zlib_inflated(unmasked(data)) {
            None => Err(KrcError::Inflate),
            Some(b) => if valid_utf8(b) {
                Ok(decode_utf8(b))
            } else {
                Err(KrcError::InvalidUtf8)
            },
        }
    }
}

/// Reads the text of a KRC payload.
pub fn decrypt(decoded: &[u8]) -> (r: Result<String, KrcError>)
    ensures
        match r {
            Ok(s) => krc_text(decoded@) == Ok::<Seq<char>, KrcError>(s@),
            Err(e) => krc_text(decoded@) == Err::<Seq<char>, KrcError>(e),
        },
{
    if decoded.len() <= 4 || decoded[0] != 0x6b || decoded[1] != 0x72 || decoded[2] != 0x63
        || decoded[3] != 0x31 {
        proof {
            if decoded@.len() > 4 {
                assert(decoded@.take(4) != magic()) by {
                    if decoded@.take(4) == magic() {
                        assert(decoded@.take(4)[0] == decoded@[0]);
                        assert(decoded@.take(4)[1] == decoded@[1]);
                        assert(decoded@.take(4)[2] == decoded@[2]);
                        assert(decoded@.take(4)[3] == decoded@[3]);
                    }
                }
            }
        }
        return Err(KrcError::MissingMagic);
    }
    assert(decoded@.take(4) =~= magic());
    let n = decoded.len();
    let mut body: Vec<u8> = Vec::new();
    let mut i: usize = 4;
    while i < n
        invariant
            4 <= i <= n == decoded@.len(),
            body@.len() == i - 4,
            forall|j: int| 0 <= j < i - 4 ==> #[trigger] body@[j] == decoded@[j + 4] ^ krc_key()[j % 16],
        decreases n - i,
    {
        let k = krc_key_byte((i - 4) % 16);
        body.push(decoded[i] ^ k);
        i = i + 1;
    }
    assert(body@ =~= unmasked(decoded@));
    match zlib_inflate(body.as_slice()) {
        None => Err(KrcError::Inflate),
        Some(bytes) => match crate::cache::string_from_utf8(bytes) {
            Ok(s) => Ok(s),
            Err(_) => Err(KrcError::InvalidUtf8),
        },
    }
}

/// The enhanced LRC of a KRC text.
pub open spec fn krc_enhanced(s: Seq<char>) -> Seq<char> {
    enhanced(s, KRC_LINE_PATTERN@, KRC_WORD_PATTERN@, true)
}

/// Every word time of a KRC text fits in a `u64`.
pub open spec fn krc_times_fit(s: Seq<char>) -> bool {
    times_fit(s, KRC_LINE_PATTERN@, KRC_WORD_PATTERN@, true)
}

/// Renders a KRC text as enhanced LRC.
pub fn convert(krc: &str) -> (r: String)
    requires
        krc_times_fit(krc@),
    ensures
        r@ == krc_enhanced(krc@),
{
    match to_enhanced_checked(krc, KRC_LINE_PATTERN, KRC_WORD_PATTERN, true) {
        Some(s) => s,
        None => string_of(Vec::new().as_slice()),
    }
}

/// Reads a KRC payload and renders it as enhanced LRC.
pub fn to_enhanced_lrc(decoded: &[u8]) -> (r: Result<String, KrcError>)
    ensures
        match krc_text(decoded@) {
            Err(e) => r == Err::<String, KrcError>(e),
            Ok(t) => if krc_times_fit(t) {
                r matches Ok(s) && s@ == krc_enhanced(t)
            } else {
                r == Err::<String, KrcError>(KrcError::TimeOutOfRange)
            },
        },
{
    let krc = match decrypt(decoded) {
        Ok(k) => k,
        Err(e) => return Err(e),
    };
    match to_enhanced_checked(krc.as_str(), KRC_LINE_PATTERN, KRC_WORD_PATTERN, true) {
        Some(_) => Ok(convert(krc.as_str())),
        None => Err(KrcError::TimeOutOfRange),
    }
}

} // verus!
