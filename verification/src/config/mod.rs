//! Plugin settings.
pub mod host;
pub mod providers;
pub mod ttl;

use vstd::prelude::*;
use crate::config::host::{get_bool, get_optional_i32, get_string, opt_view, present};
use crate::config::providers::{ProviderEntry, ProviderMode, resolve_list, resolve_mode};
use crate::config::ttl::{
    RawTypeTtls, TypeCacheTtls, default_ttl, resolve_global, resolve_negative, resolve_per_type,
};
use crate::text::{chars_of, eq_pred, lead, lead_char, split_char, split_char_exec, string_of, trim, trim_vec, views};
use crate::types::{LyricsKind, slug_kind};

verus! {

pub const DEFAULT_PLAIN_EXTENSION: &'static str = "txt";
pub const DEFAULT_INSTRUMENTAL_EXTENSION: &'static str = "txt";
pub const DEFAULT_INSTRUMENTAL_TEXT: &'static str = "Instrumental";
pub const DEFAULT_FOLDER_TEMPLATE: &'static str = "_lyrics/{type}/{track:album_artist} - {track:album}/{track:disc_number:2} - {track:track_number:2} {track:title}";
/// The default duration tolerance, three seconds.
pub const DEFAULT_DURATION_TOLERANCE_MS: u64 = 3000;

/// The lyrics formats asked for when none is configured: LRC, then plain.
pub open spec fn default_formats() -> Seq<LyricsKind> {
    seq![LyricsKind::Lrc, LyricsKind::Plain]
}

/// The plugin's settings. The duration tolerance is held in milliseconds.
pub struct PluginConfig {
    pub lyrics_type_priority: Vec<LyricsKind>,
    pub write_lyrics: bool,
    pub overwrite_lyrics: bool,
    pub plain_extension: String,
    pub instrumental_extension: String,
    pub enable_cache: bool,
    pub per_type_cache_ttl: bool,
    pub cache_ttl_hours: i64,
    pub type_cache_ttl_hours: TypeCacheTtls,
    pub negative_cache: bool,
    pub negative_cache_ttl_hours: i64,
    pub providers: Vec<ProviderEntry>,
    pub provider_mode: ProviderMode,
    pub write_to_specific_folder: bool,
    pub write_to_specific_folder_library_id: Option<i32>,
    pub write_to_specific_folder_template: String,
    pub strip_section_labels: bool,
    pub instrumental_text: String,
    pub duration_tolerance_ms: u64,
    /// Whether, among equally good lyrics, uncensored ones win.
    pub prefer_uncensored: bool,
}

impl Default for PluginConfig {
    fn default() -> (r: Self)
        ensures
            r.lyrics_type_priority@ == default_formats(),
            !r.write_lyrics,
            !r.overwrite_lyrics,
            r.plain_extension@ == DEFAULT_PLAIN_EXTENSION@,
            r.instrumental_extension@ == DEFAULT_INSTRUMENTAL_EXTENSION@,
            r.enable_cache,
            !r.per_type_cache_ttl,
            r.cache_ttl_hours == ttl::DEFAULT_CACHE_TTL,
            forall|k: LyricsKind| #[trigger] r.type_cache_ttl_hours.ttl_for(k) == default_ttl(k),
            r.negative_cache,
            r.negative_cache_ttl_hours == ttl::DEFAULT_NEGATIVE_CACHE_TTL,
            r.providers@.len() == 0,
            r.provider_mode == ProviderMode::Priority,
            !r.write_to_specific_folder,
            r.write_to_specific_folder_library_id is None,
            r.write_to_specific_folder_template@ == DEFAULT_FOLDER_TEMPLATE@,
            !r.strip_section_labels,
            r.instrumental_text@ == DEFAULT_INSTRUMENTAL_TEXT@,
            r.duration_tolerance_ms == DEFAULT_DURATION_TOLERANCE_MS,
            !r.prefer_uncensored,
    {
        let mut formats: Vec<LyricsKind> = Vec::new();
        formats.push(LyricsKind::Lrc);
        formats.push(LyricsKind::Plain);
        proof {
            assert(formats@ =~= default_formats());
        }
        PluginConfig {
            lyrics_type_priority: formats,
            write_lyrics: false,
            overwrite_lyrics: false,
            plain_extension: string_of(chars_of(DEFAULT_PLAIN_EXTENSION).as_slice()),
            instrumental_extension: string_of(chars_of(DEFAULT_INSTRUMENTAL_EXTENSION).as_slice()),
            enable_cache: true,
            per_type_cache_ttl: false,
            cache_ttl_hours: ttl::DEFAULT_CACHE_TTL,
            type_cache_ttl_hours: TypeCacheTtls::default(),
            negative_cache: true,
            negative_cache_ttl_hours: ttl::DEFAULT_NEGATIVE_CACHE_TTL,
            providers: Vec::new(),
            provider_mode: ProviderMode::Priority,
            write_to_specific_folder: false,
            write_to_specific_folder_library_id: None,
            write_to_specific_folder_template: string_of(chars_of(DEFAULT_FOLDER_TEMPLATE).as_slice()),
            strip_section_labels: false,
            instrumental_text: string_of(chars_of(DEFAULT_INSTRUMENTAL_TEXT).as_slice()),
            duration_tolerance_ms: DEFAULT_DURATION_TOLERANCE_MS,
            prefer_uncensored: false,
        }
    }
}

/// The file extension lyrics of a kind are written with.
pub open spec fn extension_of(cfg: PluginConfig, kind: LyricsKind) -> Seq<char> {
    match kind {
        LyricsKind::Plain => cfg.plain_extension@,
        LyricsKind::Instrumental => cfg.instrumental_extension@,
        LyricsKind::Lrc => "lrc"@,
        LyricsKind::Elrc => "elrc"@,
        LyricsKind::Ttml => "ttml"@,
        LyricsKind::Srt => "srt"@,
        LyricsKind::Lyricsfile => "yml"@,
    }
}

/// The time to live of cached lyrics of a kind.
pub open spec fn ttl_of(cfg: PluginConfig, kind: LyricsKind) -> i64 {
    if cfg.per_type_cache_ttl {
        cfg.type_cache_ttl_hours.ttl_for(kind)
    } else {
        cfg.cache_ttl_hours
    }
}

impl PluginConfig {
    /// Whether lyrics of this kind are asked for.
    pub fn wants(&self, kind: LyricsKind) -> (r: bool)
        ensures
            r == self.lyrics_type_priority@.contains(kind),
    {
        let mut i: usize = 0;
        while i < self.lyrics_type_priority.len()
            invariant
                i <= self.lyrics_type_priority@.len(),
                forall|j: int| 0 <= j < i ==> self.lyrics_type_priority@[j] != kind,
            decreases self.lyrics_type_priority.len() - i,
        {
            if self.lyrics_type_priority[i] == kind {
                return true;
            }
            i = i + 1;
        }
        false
    }

    pub fn cache_ttl_hours_for(&self, kind: LyricsKind) -> (r: i64)
        ensures
            r == ttl_of(*self, kind),
    {
        if self.per_type_cache_ttl {
            self.type_cache_ttl_hours.get(kind)
        } else {
            self.cache_ttl_hours
        }
    }

    pub fn duration_tolerance_ms(&self) -> (r: u64)
        ensures
            r == self.duration_tolerance_ms,
    {
        self.duration_tolerance_ms
    }

    pub fn extension_for(&self, kind: LyricsKind) -> (r: &str)
        ensures
            r@ == extension_of(*self, kind),
    {
        match kind {
            LyricsKind::Plain => self.plain_extension.as_str(),
            LyricsKind::Instrumental => self.instrumental_extension.as_str(),
            LyricsKind::Lrc => "lrc",
            LyricsKind::Elrc => "elrc",
            LyricsKind::Ttml => "ttml",
            LyricsKind::Srt => "srt",
            LyricsKind::Lyricsfile => "yml",
        }
    }
}

/// The kinds named by the first `n` comma-separated slugs: known kinds other
/// than instrumental, each once, in the order first named.
pub open spec fn formats_from(parts: Seq<Seq<char>>, n: int) -> Seq<LyricsKind>
    decreases n,
{
    if n <= 0 {
        seq![]
    } else {
        let prev = formats_from(parts, n - 1);
        match slug_kind(parts[n - 1]) {
            Some(k) => if k != LyricsKind::Instrumental && !prev.contains(k) {
                prev.push(k)
            } else {
                prev
            },
            None => prev,
        }
    }
}

pub open spec fn formats_of(raw: Seq<char>) -> Seq<LyricsKind> {
    formats_from(split_char(raw, ','), split_char(raw, ',').len() as int)
}

/// The kinds hold no instrumental and none twice.
pub open spec fn valid_formats(fs: Seq<LyricsKind>) -> bool {
    &&& forall|i: int| 0 <= i < fs.len() ==> #[trigger] fs[i] != LyricsKind::Instrumental
    &&& forall|i: int, j: int| 0 <= i < j < fs.len() ==> #[trigger] fs[i] != #[trigger] fs[j]
}

proof fn lemma_formats_from_valid(parts: Seq<Seq<char>>, n: int)
    ensures
        valid_formats(formats_from(parts, n)),
    decreases n,
{
    if n > 0 {
        lemma_formats_from_valid(parts, n - 1);
        let prev = formats_from(parts, n - 1);
        if let Some(k) = slug_kind(parts[n - 1]) {
            if k != LyricsKind::Instrumental && !prev.contains(k) {
                let next = prev.push(k);
                assert forall|i: int, j: int| 0 <= i < j < next.len() implies #[trigger] next[i]
                    != #[trigger] next[j] by {
                    if j == prev.len() {
                        assert(next[i] == prev[i]);
                    } else {
                        assert(next[i] == prev[i] && next[j] == prev[j]);
                    }
                }
                assert forall|i: int| 0 <= i < next.len() implies #[trigger] next[i]
                    != LyricsKind::Instrumental by {
                    if i < prev.len() {
                        assert(next[i] == prev[i]);
                    }
                }
            }
        }
    }
}

/// The lyrics formats a configuration can hold are never empty, never
/// instrumental and never listed twice: those named, in the order first
/// named, else LRC and plain.
pub proof fn configured_formats_are_valid(raw: Option<Seq<char>>)
    ensures
        ({
            let fs = match present(raw) {
                Some(s) => if formats_of(s).len() > 0 {
                    formats_of(s)
                } else {
                    default_formats()
                },
                None => default_formats(),
            };
            fs.len() > 0 && valid_formats(fs)
        }),
{
    if let Some(s) = present(raw) {
        lemma_formats_from_valid(split_char(s, ','), split_char(s, ',').len() as int);
    }
}

fn contains_kind(v: &Vec<LyricsKind>, k: LyricsKind) -> (r: bool)
    ensures
        r == v@.contains(k),
{
    let mut i: usize = 0;
    while i < v.len()
        invariant
            i <= v@.len(),
            forall|j: int| 0 <= j < i ==> v@[j] != k,
        decreases v.len() - i,
    {
        if v[i] == k {
            return true;
        }
        i = i + 1;
    }
    false
}

/// The lyrics formats of a comma-separated list of slugs.
pub fn parse_lyrics_formats(raw: &str) -> (r: Vec<LyricsKind>)
    ensures
        r@ == formats_of(raw@),
{
    let parts = split_char_exec(chars_of(raw).as_slice(), ',');
    let ghost pv = views(parts@);
    let mut order: Vec<LyricsKind> = Vec::new();
    let mut i: usize = 0;
    while i < parts.len()
        invariant
            i <= parts@.len(),
            pv == views(parts@),
            pv.len() == parts@.len(),
            order@ == formats_from(pv, i as int),
        decreases parts.len() - i,
    {
        assert(pv[i as int] == parts@[i as int]@);
        let slug = string_of(parts[i].as_slice());
        match LyricsKind::from_slug(slug.as_str()) {
            Some(k) => {
                if k != LyricsKind::Instrumental && !contains_kind(&order, k) {
                    order.push(k);
                }
            },
            None => {},
        }
        i = i + 1;
    }
    order
}

/// The configured lyrics formats, or LRC and plain when none is usable.
pub fn resolve_lyrics_type_priority(raw: Option<String>) -> (r: Vec<LyricsKind>)
    ensures
        r@ == match present(opt_view(raw)) {
            Some(s) => if formats_of(s).len() > 0 {
                formats_of(s)
            } else {
                default_formats()
            },
            None => default_formats(),
        },
{
    let order = match get_string(raw) {
        Some(s) => parse_lyrics_formats(s.as_str()),
        None => Vec::new(),
    };
    if order.len() == 0 {
        let mut formats: Vec<LyricsKind> = Vec::new();
        formats.push(LyricsKind::Lrc);
        formats.push(LyricsKind::Plain);
        assert(formats@ =~= default_formats());
        return formats;
    }
    order
}

/// Unicode's control characters (general category `Cc`), which
/// `char::is_control` reports.
pub open spec fn is_cc(c: char) -> bool {
    (c as u32) <= 0x1f || (0x7f <= (c as u32) && (c as u32) <= 0x9f)
}

/// A character an extension may keep: no control character, no path
/// separator and none of `: * ? " < > |`.
pub open spec fn ext_char_ok(c: char) -> bool {
    !is_cc(c) && c != '/' && c != '\\' && c != ':' && c != '*' && c != '?' && c != '"' && c
        != '<' && c != '>' && c != '|'
}

pub open spec fn keep_ext_chars(s: Seq<char>) -> Seq<char>
    decreases s.len(),
{
    if s.len() == 0 {
        seq![]
    } else if ext_char_ok(s.last()) {
        keep_ext_chars(s.drop_last()).push(s.last())
    } else {
        keep_ext_chars(s.drop_last())
    }
}

/// An extension as configured: trimmed, without leading dots, and with only
/// the characters a file name can safely hold.
pub open spec fn normalized_extension(ext: Seq<char>) -> Seq<char> {
    let t = trim(ext);
    keep_ext_chars(t.skip(lead(t, eq_pred('.')) as int))
}

fn is_cc_exec(c: char) -> (r: bool)
    ensures
        r == is_cc(c),
{
    let u = c as u32;
    u <= 0x1f || (0x7f <= u && u <= 0x9f)
}

pub fn normalize_extension(ext: &str) -> (r: String)
    ensures
        r@ == normalized_extension(ext@),
{
    let t = trim_vec(chars_of(ext).as_slice());
    let from = lead_char(t.as_slice(), 0, '.');
    let ghost rest = t@.skip(from as int);
    assert(t@.skip(0) =~= t@);
    let mut out: Vec<char> = Vec::new();
    let mut i: usize = from;
    while i < t.len()
        invariant
            from <= i <= t@.len(),
            rest == t@.skip(from as int),
            out@ == keep_ext_chars(rest.take(i - from)),
        decreases t.len() - i,
    {
        let c = t[i];
        proof {
            let k = i - from;
            assert(rest.take(k + 1).drop_last() =~= rest.take(k));
            assert(rest.take(k + 1).last() == c);
        }
        if !is_cc_exec(c) && c != '/' && c != '\\' && c != ':' && c != '*' && c != '?' && c != '"'
            && c != '<' && c != '>' && c != '|' {
            out.push(c);
        }
        i = i + 1;
    }
    assert(rest.take(t@.len() - from) =~= rest);
    string_of(out.as_slice())
}

/// An extension setting, normalized; `default_value` when it is unset or
/// normalizes to nothing.
pub fn resolve_extension(raw: Option<String>, default_value: &str) -> (r: String)
    ensures
        r@ == match present(opt_view(raw)) {
            Some(s) => if normalized_extension(s).len() > 0 {
                normalized_extension(s)
            } else {
                default_value@
            },
            None => default_value@,
        },
{
    let ext = match get_string(raw) {
        Some(s) => normalize_extension(s.as_str()),
        None => string_of(chars_of(default_value).as_slice()),
    };
    if chars_of(ext.as_str()).len() == 0 {
        return string_of(chars_of(default_value).as_slice());
    }
    ext
}

/// The raw text of each setting, as the host returned it (`None` when
/// unset), and the duration tolerance in milliseconds.
pub struct RawConfig {
    pub lyrics_formats: Option<String>,
    pub write_lyrics: Option<String>,
    pub overwrite_lyrics: Option<String>,
    pub plain_extension: Option<String>,
    pub instrumental_extension: Option<String>,
    pub enable_cache: Option<String>,
    pub per_type_cache_ttl: Option<String>,
    pub cache_ttl_hours: Option<String>,
    pub type_cache_ttl_hours: RawTypeTtls,
    pub negative_cache: Option<String>,
    pub negative_cache_ttl_hours: Option<String>,
    pub providers_list: Option<String>,
    pub provider_mode: Option<String>,
    pub write_to_specific_folder: Option<String>,
    pub write_to_specific_folder_library_id: Option<String>,
    pub write_to_specific_folder_template: Option<String>,
    pub strip_section_labels: Option<String>,
    pub instrumental_text: Option<String>,
    pub duration_tolerance_ms: u64,
    pub prefer_uncensored: Option<String>,
}

/// A boolean setting as `get_bool` reads it.
pub open spec fn flag(raw: Option<String>, default: bool) -> bool {
    match present(opt_view(raw)) {
        Some(s) => match crate::config::host::bool_of(s) {
            Some(b) => b,
            None => default,
        },
        None => default,
    }
}

/// A text setting, or the default text when it is unset.
pub open spec fn text_or(raw: Option<String>, default: Seq<char>) -> Seq<char> {
    match present(opt_view(raw)) {
        Some(s) => s,
        None => default,
    }
}

fn text_setting(raw: Option<String>, default: &str) -> (r: String)
    ensures
        r@ == text_or(raw, default@),
{
    match get_string(raw) {
        Some(s) => s,
        None => string_of(chars_of(default).as_slice()),
    }
}

impl PluginConfig {
    /// The settings the raw host values give; unset or unusable values fall
    /// back to their defaults. The per-kind times to live are read only when
    /// `perTypeCacheTtl` is on.
    pub fn load(raw: RawConfig) -> (r: PluginConfig)
        ensures
            r.write_lyrics == flag(raw.write_lyrics, false),
            r.overwrite_lyrics == flag(raw.overwrite_lyrics, false),
            r.enable_cache == flag(raw.enable_cache, true),
            r.per_type_cache_ttl == flag(raw.per_type_cache_ttl, false),
            r.cache_ttl_hours == ttl::resolved_ttl(
                opt_view(raw.cache_ttl_hours),
                ttl::DEFAULT_CACHE_TTL as int,
            ),
            forall|k: LyricsKind| #[trigger]
                r.type_cache_ttl_hours.ttl_for(k) == if flag(raw.per_type_cache_ttl, false) {
                    ttl::resolved_ttl(raw.type_cache_ttl_hours.raw_for(k), default_ttl(k) as int)
                } else {
                    default_ttl(k) as int
                },
            r.negative_cache == flag(raw.negative_cache, true),
            r.negative_cache_ttl_hours == ttl::resolved_ttl(
                opt_view(raw.negative_cache_ttl_hours),
                ttl::DEFAULT_NEGATIVE_CACHE_TTL as int,
            ),
            r.write_to_specific_folder == flag(raw.write_to_specific_folder, false),
            r.strip_section_labels == flag(raw.strip_section_labels, false),
            r.write_to_specific_folder_template@ == text_or(
                raw.write_to_specific_folder_template,
                DEFAULT_FOLDER_TEMPLATE@,
            ),
            r.instrumental_text@ == text_or(raw.instrumental_text, DEFAULT_INSTRUMENTAL_TEXT@),
            r.duration_tolerance_ms == raw.duration_tolerance_ms,
            r.prefer_uncensored == flag(raw.prefer_uncensored, false),
            r.lyrics_type_priority@ == match present(opt_view(raw.lyrics_formats)) {
                Some(s) => if formats_of(s).len() > 0 {
                    formats_of(s)
                } else {
                    default_formats()
                },
                None => default_formats(),
            },
            r.plain_extension@ == match present(opt_view(raw.plain_extension)) {
                Some(s) => if normalized_extension(s).len() > 0 {
                    normalized_extension(s)
                } else {
                    DEFAULT_PLAIN_EXTENSION@
                },
                None => DEFAULT_PLAIN_EXTENSION@,
            },
            r.instrumental_extension@ == match present(opt_view(raw.instrumental_extension)) {
                Some(s) => if normalized_extension(s).len() > 0 {
                    normalized_extension(s)
                } else {
                    DEFAULT_INSTRUMENTAL_EXTENSION@
                },
                None => DEFAULT_INSTRUMENTAL_EXTENSION@,
            },
            providers::entries_view(r.providers@) == providers::list_of(opt_view(raw.providers_list)),
            r.provider_mode == providers::mode_of(opt_view(raw.provider_mode)),
            match r.write_to_specific_folder_library_id {
                Some(v) => present(opt_view(raw.write_to_specific_folder_library_id)) matches Some(
                    s,
                ) && crate::config::host::i32_of(s) == Some(v as int),
                None => match present(opt_view(raw.write_to_specific_folder_library_id)) {
                    Some(s) => crate::config::host::i32_of(s) is None,
                    None => true,
                },
            },
    {
        let per_type_cache_ttl = get_bool(raw.per_type_cache_ttl, false);
        let type_cache_ttl_hours = if per_type_cache_ttl {
            resolve_per_type(raw.type_cache_ttl_hours)
        } else {
            TypeCacheTtls::default()
        };
        PluginConfig {
            lyrics_type_priority: resolve_lyrics_type_priority(raw.lyrics_formats),
            write_lyrics: get_bool(raw.write_lyrics, false),
            overwrite_lyrics: get_bool(raw.overwrite_lyrics, false),
            plain_extension: resolve_extension(raw.plain_extension, DEFAULT_PLAIN_EXTENSION),
            instrumental_extension: resolve_extension(
                raw.instrumental_extension,
                DEFAULT_INSTRUMENTAL_EXTENSION,
            ),
            enable_cache: get_bool(raw.enable_cache, true),
            per_type_cache_ttl,
            cache_ttl_hours: resolve_global(raw.cache_ttl_hours),
            type_cache_ttl_hours,
            negative_cache: get_bool(raw.negative_cache, true),
            negative_cache_ttl_hours: resolve_negative(raw.negative_cache_ttl_hours),
            providers: resolve_list(raw.providers_list),
            provider_mode: resolve_mode(raw.provider_mode),
            write_to_specific_folder: get_bool(raw.write_to_specific_folder, false),
            write_to_specific_folder_library_id: get_optional_i32(
                raw.write_to_specific_folder_library_id,
            ),
            write_to_specific_folder_template: text_setting(
                raw.write_to_specific_folder_template,
                DEFAULT_FOLDER_TEMPLATE,
            ),
            strip_section_labels: get_bool(raw.strip_section_labels, false),
            instrumental_text: text_setting(raw.instrumental_text, DEFAULT_INSTRUMENTAL_TEXT),
            duration_tolerance_ms: raw.duration_tolerance_ms,
            prefer_uncensored: get_bool(raw.prefer_uncensored, false),
        }
    }
}

} // verus!
