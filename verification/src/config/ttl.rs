//! How long cached lyrics stay fresh, in hours.
use vstd::prelude::*;
use crate::config::host::{get_i64, i64_of, opt_view, present};
use crate::types::LyricsKind;

verus! {

pub const DEFAULT_CACHE_TTL: i64 = 168;
pub const DEFAULT_NEGATIVE_CACHE_TTL: i64 = 24;

pub const MIN_CACHE_TTL: i64 = 1;
pub const MAX_CACHE_TTL: i64 = 1_000_000;

pub const DEFAULT_TTML_CACHE_TTL: i64 = 336;
pub const DEFAULT_LYRICSFILE_CACHE_TTL: i64 = 168;
pub const DEFAULT_ELRC_CACHE_TTL: i64 = 336;
pub const DEFAULT_LRC_CACHE_TTL: i64 = 168;
pub const DEFAULT_SRT_CACHE_TTL: i64 = 168;
pub const DEFAULT_PLAIN_CACHE_TTL: i64 = 72;
pub const DEFAULT_INSTRUMENTAL_CACHE_TTL: i64 = 336;

/// A time to live for each kind of lyrics.
#[derive(Debug, Clone, Copy, PartialEq, Eq, Structural)]
pub struct TypeCacheTtls {
    pub plain: i64,
    pub lrc: i64,
    pub elrc: i64,
    pub ttml: i64,
    pub srt: i64,
    pub lyricsfile: i64,
    pub instrumental: i64,
}

impl TypeCacheTtls {
    pub open spec fn ttl_for(self, kind: LyricsKind) -> i64 {
        match kind {
            LyricsKind::Plain => self.plain,
            LyricsKind::Lrc => self.lrc,
            LyricsKind::Elrc => self.elrc,
            LyricsKind::Ttml => self.ttml,
            LyricsKind::Srt => self.srt,
            LyricsKind::Lyricsfile => self.lyricsfile,
            LyricsKind::Instrumental => self.instrumental,
        }
    }

    /// The time to live of a kind.
    pub fn get(&self, kind: LyricsKind) -> (r: i64)
        ensures
            r == self.ttl_for(kind),
    {
        match kind {
            LyricsKind::Plain => self.plain,
            LyricsKind::Lrc => self.lrc,
            LyricsKind::Elrc => self.elrc,
            LyricsKind::Ttml => self.ttml,
            LyricsKind::Srt => self.srt,
            LyricsKind::Lyricsfile => self.lyricsfile,
            LyricsKind::Instrumental => self.instrumental,
        }
    }
}

/// The time to live of each kind when none is configured.
pub open spec fn default_ttl(kind: LyricsKind) -> i64 {
    match kind {
        LyricsKind::Plain => DEFAULT_PLAIN_CACHE_TTL,
        LyricsKind::Lrc => DEFAULT_LRC_CACHE_TTL,
        LyricsKind::Elrc => DEFAULT_ELRC_CACHE_TTL,
        LyricsKind::Ttml => DEFAULT_TTML_CACHE_TTL,
        LyricsKind::Srt => DEFAULT_SRT_CACHE_TTL,
        LyricsKind::Lyricsfile => DEFAULT_LYRICSFILE_CACHE_TTL,
        LyricsKind::Instrumental => DEFAULT_INSTRUMENTAL_CACHE_TTL,
    }
}

impl Default for TypeCacheTtls {
    fn default() -> (r: Self)
        ensures
            forall|k: LyricsKind| #[trigger] r.ttl_for(k) == default_ttl(k),
    {
        TypeCacheTtls {
            plain: DEFAULT_PLAIN_CACHE_TTL,
            lrc: DEFAULT_LRC_CACHE_TTL,
            elrc: DEFAULT_ELRC_CACHE_TTL,
            ttml: DEFAULT_TTML_CACHE_TTL,
            srt: DEFAULT_SRT_CACHE_TTL,
            lyricsfile: DEFAULT_LYRICSFILE_CACHE_TTL,
            instrumental: DEFAULT_INSTRUMENTAL_CACHE_TTL,
        }
    }
}

/// A configured time to live, brought into `MIN_CACHE_TTL..=MAX_CACHE_TTL`.
pub open spec fn clamped_ttl(raw: int) -> int {
    if raw < MIN_CACHE_TTL {
        MIN_CACHE_TTL as int
    } else if raw > MAX_CACHE_TTL {
        MAX_CACHE_TTL as int
    } else {
        raw
    }
}

/// Where a configured time to live stands against the allowed range.
#[derive(Debug, PartialEq, Eq, Structural, Clone, Copy)]
pub enum TtlClamp {
    InRange,
    BelowMin,
    AboveMax,
}

pub fn classify_ttl(raw: i64) -> (r: TtlClamp)
    ensures
        r == (if raw < MIN_CACHE_TTL {
            TtlClamp::BelowMin
        } else if raw > MAX_CACHE_TTL {
            TtlClamp::AboveMax
        } else {
            TtlClamp::InRange
        }),
{
    if raw < MIN_CACHE_TTL {
        TtlClamp::BelowMin
    } else if raw > MAX_CACHE_TTL {
        TtlClamp::AboveMax
    } else {
        TtlClamp::InRange
    }
}

/// Brings a time to live into the allowed range.
pub fn clamp(raw: i64) -> (r: i64)
    ensures
        r == clamped_ttl(raw as int),
{
    match classify_ttl(raw) {
        TtlClamp::InRange => raw,
        TtlClamp::BelowMin => MIN_CACHE_TTL,
        TtlClamp::AboveMax => MAX_CACHE_TTL,
    }
}

/// The time to live a raw setting gives, falling back to `default_value`
/// when it is unset or not an integer.
pub open spec fn resolved_ttl(raw: Option<Seq<char>>, default_value: int) -> int {
    clamped_ttl(
        match present(raw) {
            Some(s) => match i64_of(s) {
                Some(v) => v,
                None => default_value,
            },
            None => default_value,
        },
    )
}

pub fn resolve(raw: Option<String>, default_value: i64) -> (r: i64)
    ensures
        r == resolved_ttl(opt_view(raw), default_value as int),
{
    clamp(get_i64(raw, default_value))
}

/// The general time to live, from the `cacheTtlHours` setting.
pub fn resolve_global(raw: Option<String>) -> (r: i64)
    ensures
        r == resolved_ttl(opt_view(raw), DEFAULT_CACHE_TTL as int),
{
    resolve(raw, DEFAULT_CACHE_TTL)
}

/// How long a miss is remembered, from the `negativeCacheTtlHours` setting.
pub fn resolve_negative(raw: Option<String>) -> (r: i64)
    ensures
        r == resolved_ttl(opt_view(raw), DEFAULT_NEGATIVE_CACHE_TTL as int),
{
    resolve(raw, DEFAULT_NEGATIVE_CACHE_TTL)
}

/// The raw per-kind settings (`plainCacheTtlHours`, `lrcCacheTtlHours`, ...).
pub struct RawTypeTtls {
    pub plain: Option<String>,
    pub lrc: Option<String>,
    pub elrc: Option<String>,
    pub ttml: Option<String>,
    pub srt: Option<String>,
    pub lyricsfile: Option<String>,
    pub instrumental: Option<String>,
}

impl RawTypeTtls {
    pub open spec fn raw_for(self, kind: LyricsKind) -> Option<Seq<char>> {
        opt_view(
            match kind {
                LyricsKind::Plain => self.plain,
                LyricsKind::Lrc => self.lrc,
                LyricsKind::Elrc => self.elrc,
                LyricsKind::Ttml => self.ttml,
                LyricsKind::Srt => self.srt,
                LyricsKind::Lyricsfile => self.lyricsfile,
                LyricsKind::Instrumental => self.instrumental,
            },
        )
    }
}

/// The per-kind times to live, each clamped and defaulted on its own.
pub fn resolve_per_type(raw: RawTypeTtls) -> (r: TypeCacheTtls)
    ensures
        forall|k: LyricsKind| #[trigger]
            r.ttl_for(k) == resolved_ttl(raw.raw_for(k), default_ttl(k) as int),
{
    TypeCacheTtls {
        plain: resolve(raw.plain, DEFAULT_PLAIN_CACHE_TTL),
        lrc: resolve(raw.lrc, DEFAULT_LRC_CACHE_TTL),
        elrc: resolve(raw.elrc, DEFAULT_ELRC_CACHE_TTL),
        ttml: resolve(raw.ttml, DEFAULT_TTML_CACHE_TTL),
        srt: resolve(raw.srt, DEFAULT_SRT_CACHE_TTL),
        lyricsfile: resolve(raw.lyricsfile, DEFAULT_LYRICSFILE_CACHE_TTL),
        instrumental: resolve(raw.instrumental, DEFAULT_INSTRUMENTAL_CACHE_TTL),
    }
}

/// Every resolved time to live lies within the allowed range, and one that
/// already does is kept as it is.
pub proof fn clamp_keeps_range(raw: Option<Seq<char>>, default_value: int)
    ensures
        MIN_CACHE_TTL <= resolved_ttl(raw, default_value) <= MAX_CACHE_TTL,
        forall|v: int|
            MIN_CACHE_TTL <= v <= MAX_CACHE_TTL ==> #[trigger] clamped_ttl(v) == v,
{
}

} // verus!
