//! Apple Music: its parameters, requests, song choice and the reading of
//! its answers. Sending the requests and the token cache are the host's.
use vstd::prelude::*;
use crate::config::providers::{ProviderParams, utf8};
use crate::ext::durations_match;
use crate::hash::{FNV_OFFSET, fnv, fnv_mix, hex16, hex16_chars};
use crate::pattern::{captures, escape, re_captures, re_escaped};
use crate::providers::error::ProviderError;
use crate::providers::http::{Http, Response, set_header, set_headers, pairs_of, BROWSER_USER_AGENT};
use crate::providers::timed::group;
use crate::pattern::group_views;
use crate::text::{chars_of, push_all, string_of, trim, trim_vec};
use crate::types::{Lyrics, LyricsKind};

verus! {

pub const BASE_URL: &'static str = "https://amp-api.music.apple.com/v1";
pub const STOREFRONT_URL: &'static str = "https://api.music.apple.com/v1/me/storefront";
pub const HOME_URL: &'static str = "https://music.apple.com/";
pub const SITE: &'static str = "https://music.apple.com";
pub const DEFAULT_STOREFRONT: &'static str = "us";
pub const DEV_TOKEN_CACHE_KEY: &'static str = "applemusic:dev-token";
pub const STOREFRONT_CACHE_PREFIX: &'static str = "applemusic:storefront:";
pub const DEV_TOKEN_TTL: i64 = 604800;
pub const STOREFRONT_TTL: i64 = 2592000;
pub const ROMANIZED_SCRIPT: &'static str = "und-Latn";

/// The index script tag of the web player's home page.
pub const SCRIPT_TAG_PATTERN: &'static str = r#"<script type="module" crossorigin src="(/assets/index[^"]+\.js)""#;
/// The variable the web player's script takes its bearer token from.
pub const TOKEN_VAR_PATTERN: &'static str = r#"\.headers\.Authorization\s*=\s*`Bearer \$\{([A-Za-z0-9_$]+)\}`"#;
/// What follows a variable's name where the token is assigned to it.
pub const TOKEN_VALUE_SUFFIX: &'static str = r#"\s*=\s*"(eyJ[A-Za-z0-9._-]+)""#;

/// The Apple Music provider as configured.
pub struct AppleMusic {
    pub media_user_token: Option<String>,
    pub storefront: Option<String>,
    pub include_translations: bool,
    pub translation_language: Option<String>,
    pub romanize: bool,
}

pub open spec fn opt_text(o: Option<String>) -> Option<Seq<char>> {
    match o {
        Some(s) => Some(s@),
        None => None,
    }
}

fn owned(o: Option<&str>) -> (r: Option<String>)
    ensures
        opt_text(r) == match o {
            Some(s) => Some(s@),
            None => None,
        },
{
    match o {
        Some(s) => Some(string_of(chars_of(s).as_slice())),
        None => None,
    }
}

fn is_true(o: Option<&str>) -> (r: bool)
    ensures
        r == (o matches Some(s) && s@ == "true"@),
{
    match o {
        Some(s) => crate::format::lrc::seq_equal(chars_of(s).as_slice(), chars_of("true").as_slice()),
        None => false,
    }
}

impl AppleMusic {
    pub fn create(params: &ProviderParams) -> (r: AppleMusic)
        ensures
            opt_text(r.media_user_token) == params.view_get("mediaUserToken"@),
            opt_text(r.storefront) == params.view_get("storefront"@),
            r.include_translations == (params.view_get("includeTranslations"@) == Some("true"@)),
            opt_text(r.translation_language) == params.view_get("translationLanguage"@),
            r.romanize == (params.view_get("includeRomanization"@) == Some("true"@)),
    {
        AppleMusic {
            media_user_token: owned(params.get("mediaUserToken")),
            storefront: owned(params.get("storefront")),
            include_translations: is_true(params.get("includeTranslations")),
            translation_language: owned(params.get("translationLanguage")),
            romanize: is_true(params.get("includeRomanization")),
        }
    }

    /// Apple Music serves TTML only.
    pub fn supported_kinds(&self) -> (r: Vec<LyricsKind>)
        ensures
            r@ == seq![LyricsKind::Ttml],
    {
        let mut v: Vec<LyricsKind> = Vec::new();
        v.push(LyricsKind::Ttml);
        assert(v@ =~= seq![LyricsKind::Ttml]);
        v
    }

    /// The language of the translation to ask for, when translations are on.
    pub fn translation_language(&self) -> (r: Option<&str>)
        ensures
            match r {
                Some(l) => self.include_translations && opt_text(self.translation_language) == Some(l@),
                None => !self.include_translations || self.translation_language is None,
            },
    {
        if self.include_translations {
            match &self.translation_language {
                Some(l) => Some(l.as_str()),
                None => None,
            }
        } else {
            None
        }
    }

    /// The script of the romanization to ask for, when it is on.
    pub fn script(&self) -> (r: Option<&'static str>)
        ensures
            match r {
                Some(s) => self.romanize && s@ == ROMANIZED_SCRIPT@,
                None => !self.romanize,
            },
    {
        if self.romanize {
            Some(ROMANIZED_SCRIPT)
        } else {
            None
        }
    }
}

/// Why a lookup ended without an answer: the developer token was turned
/// away (and may be refreshed), or another error.
#[derive(Debug, PartialEq, Eq)]
pub enum LookupError {
    Unauthorized,
    Fatal(ProviderError),
}

/// The error when no media user token is configured.
pub const MISSING_TOKEN_MESSAGE: &'static str = "a media-user-token is required, configure it in the provider settings";

/// The error when the developer token is turned away even once refreshed.
pub const REFRESH_FAILED_MESSAGE: &'static str = "authorization failed even after refreshing the developer token";

impl AppleMusic {
    /// The configured media user token; without one the provider cannot
    /// search at all.
    pub fn required_token(&self) -> (r: Result<String, ProviderError>)
        ensures
            match self.media_user_token {
                Some(t) => r matches Ok(v) && v@ == t@,
                None => r matches Err(ProviderError::Other(m)) && m@ == MISSING_TOKEN_MESSAGE@,
            },
    {
        match &self.media_user_token {
            Some(t) => Ok(text(t.as_str())),
            None => Err(ProviderError::other(text(MISSING_TOKEN_MESSAGE))),
        }
    }
}

/// Where a search goes after a lookup.
#[derive(Debug)]
pub enum LookupNext {
    /// Refresh the developer token and look up once more.
    RefreshAndRetry,
    /// The provider's answer.
    Done(Result<Option<Lyrics>, ProviderError>),
}

/// The decision after a lookup: see `after_lookup`.
pub open spec fn lookup_decides(refreshed: bool, result: Result<Option<Lyrics>, LookupError>, r: LookupNext) -> bool {
    match result {
        Ok(x) => r == LookupNext::Done(Ok(x)),
        Err(LookupError::Fatal(e)) => r == LookupNext::Done(Err(e)),
        Err(LookupError::Unauthorized) => if refreshed {
            r matches LookupNext::Done(Err(ProviderError::Other(m))) && m@ == REFRESH_FAILED_MESSAGE@
        } else {
            r is RefreshAndRetry
        },
    }
}

/// A search looks up at most twice: the first lookup's answer or error is
/// the search's, unless the developer token was turned away; then, once the
/// token is refreshed, the second lookup's answer or error is, and a second
/// refusal ends the search with an error rather than another refresh.
pub proof fn a_rejected_token_is_refreshed_once(
    first: Result<Option<Lyrics>, LookupError>,
    after_first: LookupNext,
    second: Result<Option<Lyrics>, LookupError>,
    after_second: LookupNext,
)
    requires
        lookup_decides(false, first, after_first),
        lookup_decides(true, second, after_second),
    ensures
        after_first is RefreshAndRetry <==> first == Err::<Option<Lyrics>, LookupError>(LookupError::Unauthorized),
        !(after_second is RefreshAndRetry),
        first matches Ok(x) ==> after_first == LookupNext::Done(Ok(x)),
        first matches Err(LookupError::Fatal(e)) ==> after_first == LookupNext::Done(Err(e)),
        second matches Ok(x) ==> after_second == LookupNext::Done(Ok(x)),
        second matches Err(LookupError::Fatal(e)) ==> after_second == LookupNext::Done(Err(e)),
        second == Err::<Option<Lyrics>, LookupError>(LookupError::Unauthorized) ==> (after_second matches LookupNext::Done(
            Err(ProviderError::Other(m)),
        ) && m@ == REFRESH_FAILED_MESSAGE@),
{
}

/// The decision after a lookup: its answer or error ends the search, except
/// that a developer token turned away is refreshed once and the lookup
/// tried again; turned away after the refresh, the search fails.
pub fn after_lookup(refreshed: bool, result: Result<Option<Lyrics>, LookupError>) -> (r: LookupNext)
    ensures
        lookup_decides(refreshed, result, r),
{
    match result {
        Ok(x) => LookupNext::Done(Ok(x)),
        Err(LookupError::Fatal(e)) => LookupNext::Done(Err(e)),
        Err(LookupError::Unauthorized) => {
            if refreshed {
                LookupNext::Done(Err(ProviderError::other(text(REFRESH_FAILED_MESSAGE))))
            } else {
                LookupNext::RefreshAndRetry
            }
        },
    }
}

pub fn is_unauthorized(status: i32) -> (r: bool)
    ensures
        r == (status == 401 || status == 403),
{
    status == 401 || status == 403
}

/// The cache key of a user's storefront: the prefix and the FNV-1a hash of
/// the token in hexadecimal.
pub fn storefront_cache_key(media_user_token: &str) -> (r: String)
    ensures
        r@ == STOREFRONT_CACHE_PREFIX@ + hex16(fnv(FNV_OFFSET, utf8(media_user_token@))),
{
    let h = fnv_mix(FNV_OFFSET, media_user_token.as_bytes());
    let mut out = chars_of(STOREFRONT_CACHE_PREFIX);
    push_all(&mut out, hex16_chars(h).as_slice());
    string_of(out.as_slice())
}

/// What the search says of a song.
#[derive(Debug, Clone, PartialEq, Eq)]
pub struct SongAttributes {
    pub duration_in_millis: Option<u64>,
    pub has_lyrics: Option<bool>,
}

#[derive(Debug, Clone, PartialEq, Eq)]
pub struct Song {
    pub id: String,
    pub attributes: SongAttributes,
}

/// How far a song's duration is from the target; `u64::MAX` when unknown.
pub open spec fn diff_of(song: Song, target_ms: u64) -> u64 {
    match song.attributes.duration_in_millis {
        Some(d) => if d >= target_ms {
            (d - target_ms) as u64
        } else {
            (target_ms - d) as u64
        },
        None => u64::MAX,
    }
}

pub fn duration_diff(song: &Song, target_ms: u64) -> (r: u64)
    ensures
        r == diff_of(*song, target_ms),
{
    match song.attributes.duration_in_millis {
        Some(d) => if d >= target_ms {
            d - target_ms
        } else {
            target_ms - d
        },
        None => u64::MAX,
    }
}

/// A song that may have lyrics: it does not say it has none.
pub open spec fn may_have_lyrics(s: Song) -> bool {
    s.attributes.has_lyrics != Some(false)
}

/// The closest song by duration (the first of equally close ones) among
/// those that may have lyrics, when it is within the tolerance.
pub open spec fn best_song(songs: Seq<Song>, target_ms: u64, tolerance_ms: u64) -> Option<int> {
    if exists|i: int| 0 <= i < songs.len() && may_have_lyrics(songs[i]) {
        let b = choose|b: int|
            0 <= b < songs.len() && may_have_lyrics(songs[b]) && (forall|j: int|
                0 <= j < songs.len() && may_have_lyrics(songs[j]) ==> diff_of(songs[b], target_ms)
                    <= diff_of(songs[j], target_ms)) && (forall|j: int|
                0 <= j < b && may_have_lyrics(songs[j]) ==> diff_of(songs[b], target_ms) < diff_of(
                    songs[j],
                    target_ms,
                ));
        if diff_of(songs[b], target_ms) <= tolerance_ms {
            Some(b)
        } else {
            None
        }
    } else {
        None
    }
}

/// Song `b` is the first of the closest songs among the first `n` that may
/// have lyrics.
pub open spec fn closest_first(songs: Seq<Song>, target_ms: u64, b: int, n: int) -> bool {
    0 <= b < n && may_have_lyrics(songs[b]) && (forall|j: int|
        0 <= j < n && may_have_lyrics(songs[j]) ==> diff_of(songs[b], target_ms) <= diff_of(
            #[trigger] songs[j],
            target_ms,
        )) && (forall|j: int|
        0 <= j < b && may_have_lyrics(songs[j]) ==> diff_of(songs[b], target_ms) < diff_of(
            #[trigger] songs[j],
            target_ms,
        ))
}

proof fn lemma_closest_exists(songs: Seq<Song>, target_ms: u64, n: int)
    requires
        0 <= n <= songs.len(),
        exists|i: int| 0 <= i < n && may_have_lyrics(#[trigger] songs[i]),
    ensures
        exists|b: int| #[trigger] closest_first(songs, target_ms, b, n),
    decreases n,
{
    if exists|i: int| 0 <= i < n - 1 && may_have_lyrics(#[trigger] songs[i]) {
        lemma_closest_exists(songs, target_ms, n - 1);
        let b = choose|b: int| #[trigger] closest_first(songs, target_ms, b, n - 1);
        if may_have_lyrics(songs[n - 1]) && diff_of(songs[n - 1], target_ms) < diff_of(songs[b], target_ms) {
            assert(closest_first(songs, target_ms, n - 1, n));
        } else {
            assert(closest_first(songs, target_ms, b, n));
        }
    } else {
        assert(may_have_lyrics(songs[n - 1]));
        assert(closest_first(songs, target_ms, n - 1, n));
    }
}

/// The song a search settles on: when some song may have lyrics, the first
/// of the closest of them by duration (an unknown duration counting as the
/// farthest), provided it is within the tolerance; otherwise none.
pub proof fn the_closest_song_is_chosen(songs: Seq<Song>, target_ms: u64, tolerance_ms: u64)
    ensures
        (exists|i: int| 0 <= i < songs.len() && may_have_lyrics(#[trigger] songs[i])) ==> ({
            let b = choose|b: int| #[trigger] closest_first(songs, target_ms, b, songs.len() as int);
            &&& closest_first(songs, target_ms, b, songs.len() as int)
            &&& best_song(songs, target_ms, tolerance_ms) == if diff_of(songs[b], target_ms)
                <= tolerance_ms {
                Some(b)
            } else {
                None::<int>
            }
        }),
        (forall|i: int| 0 <= i < songs.len() ==> !may_have_lyrics(#[trigger] songs[i])) ==> best_song(
            songs,
            target_ms,
            tolerance_ms,
        ) is None,
{
    if exists|i: int| 0 <= i < songs.len() && may_have_lyrics(#[trigger] songs[i]) {
        lemma_closest_exists(songs, target_ms, songs.len() as int);
        let b = choose|b: int| #[trigger] closest_first(songs, target_ms, b, songs.len() as int);
        let c = choose|c: int|
            0 <= c < songs.len() && may_have_lyrics(songs[c]) && (forall|j: int|
                0 <= j < songs.len() && may_have_lyrics(songs[j]) ==> diff_of(songs[c], target_ms)
                    <= diff_of(songs[j], target_ms)) && (forall|j: int|
                0 <= j < c && may_have_lyrics(songs[j]) ==> diff_of(songs[c], target_ms) < diff_of(
                    songs[j],
                    target_ms,
                ));
        assert(closest_first(songs, target_ms, b, songs.len() as int));
        assert(0 <= c < songs.len());
        if c < b {
            assert(diff_of(songs[b], target_ms) < diff_of(songs[c], target_ms));
        } else if b < c {
            assert(diff_of(songs[c], target_ms) < diff_of(songs[b], target_ms));
        }
        assert(b == c);
    }
}

pub fn pick_song(songs: &[Song], target_ms: u64, tolerance_ms: u64) -> (r: Option<usize>)
    ensures
        match r {
            Some(i) => best_song(songs@, target_ms, tolerance_ms) == Some(i as int),
            None => best_song(songs@, target_ms, tolerance_ms) is None,
        },
{
    let mut best: Option<usize> = None;
    let mut i: usize = 0;
    while i < songs.len()
        invariant
            i <= songs@.len(),
            match best {
                Some(b) => b < i && may_have_lyrics(songs@[b as int]) && (forall|j: int|
                    0 <= j < i && may_have_lyrics(songs@[j]) ==> diff_of(songs@[b as int], target_ms)
                        <= diff_of(songs@[j], target_ms)) && (forall|j: int|
                    0 <= j < b && may_have_lyrics(songs@[j]) ==> diff_of(songs@[b as int], target_ms)
                        < diff_of(songs@[j], target_ms)),
                None => forall|j: int| 0 <= j < i ==> !may_have_lyrics(songs@[j]),
            },
        decreases songs.len() - i,
    {
        let s = &songs[i];
        if s.attributes.has_lyrics != Some(false) {
            match best {
                Some(b) => {
                    if duration_diff(s, target_ms) < duration_diff(&songs[b], target_ms) {
                        best = Some(i);
                    }
                },
                None => {
                    best = Some(i);
                },
            }
        }
        i = i + 1;
    }
    match best {
        Some(b) => {
            proof {
                let n = songs@.len();
                assert(exists|k: int| 0 <= k < n && may_have_lyrics(songs@[k]));
                let c = choose|c: int|
                    0 <= c < n && may_have_lyrics(songs@[c]) && (forall|j: int|
                        0 <= j < n && may_have_lyrics(songs@[j]) ==> diff_of(songs@[c], target_ms)
                            <= diff_of(songs@[j], target_ms)) && (forall|j: int|
                        0 <= j < c && may_have_lyrics(songs@[j]) ==> diff_of(songs@[c], target_ms)
                            < diff_of(songs@[j], target_ms));
                assert(c == b as int) by {
                    if c < b {
                        assert(diff_of(songs@[b as int], target_ms) <= diff_of(songs@[c], target_ms));
                    } else if c > b {
                        assert(diff_of(songs@[c], target_ms) <= diff_of(songs@[b as int], target_ms));
                    }
                }
            }
            if duration_diff(&songs[b], target_ms) <= tolerance_ms {
                Some(b)
            } else {
                None
            }
        },
        None => None,
    }
}

fn text(s: &str) -> (r: String)
    ensures
        r@ == s@,
{
    string_of(chars_of(s).as_slice())
}

/// The headers of a catalog request.
pub fn api_headers(dev_token: &str, media_user_token: &str) -> (r: Vec<(String, String)>)
    ensures
        pairs_of(r@) == seq![
            ("Authorization"@, "Bearer "@ + dev_token@),
            ("Origin"@, SITE@),
            ("Referer"@, SITE@),
            ("media-user-token"@, media_user_token@),
        ],
{
    let mut bearer = chars_of("Bearer ");
    push_all(&mut bearer, chars_of(dev_token).as_slice());
    let mut v: Vec<(String, String)> = Vec::new();
    v.push((text("Authorization"), string_of(bearer.as_slice())));
    v.push((text("Origin"), text(SITE)));
    v.push((text("Referer"), text(SITE)));
    v.push((text("media-user-token"), text(media_user_token)));
    assert(pairs_of(v@) =~= seq![
        ("Authorization"@, "Bearer "@ + dev_token@),
        ("Origin"@, SITE@),
        ("Referer"@, SITE@),
        ("media-user-token"@, media_user_token@),
    ]);
    v
}

/// The URL of a song's word-timed lyrics.
pub open spec fn lyrics_url(storefront: Seq<char>, song_id: Seq<char>) -> Seq<char> {
    BASE_URL@ + "/catalog/"@ + storefront + "/songs/"@ + song_id + "/syllable-lyrics"@
}

/// The query of a lyrics request: none without a translation or a script,
/// else the localizations extension and the language and script asked for.
pub open spec fn lyrics_params(translation: Option<Seq<char>>, script: Option<Seq<char>>) -> Seq<(Seq<char>, Seq<char>)> {
    if translation is None && script is None {
        seq![]
    } else {
        seq![("extend"@, "ttmlLocalizations"@)] + match translation {
            Some(l) => seq![("l[lyrics]"@, l)],
            None => seq![],
        } + match script {
            Some(s) => seq![("l[script]"@, s)],
            None => seq![],
        }
    }
}

pub fn lyrics_request(storefront: &str, song_id: &str, translation_language: Option<&str>, script: Option<&str>) -> (r: Http)
    ensures
        r.well_formed(),
        r@.method == "GET"@,
        r@.base_url == lyrics_url(storefront@, song_id@),
        r@.params == lyrics_params(
            match translation_language {
                Some(l) => Some(l@),
                None => None,
            },
            match script {
                Some(s) => Some(s@),
                None => None,
            },
        ),
{
    let mut url = chars_of(BASE_URL);
    push_all(&mut url, chars_of("/catalog/").as_slice());
    push_all(&mut url, chars_of(storefront).as_slice());
    push_all(&mut url, chars_of("/songs/").as_slice());
    push_all(&mut url, chars_of(song_id).as_slice());
    push_all(&mut url, chars_of("/syllable-lyrics").as_slice());
    let request = Http::get(string_of(url.as_slice()));
    if translation_language.is_none() && script.is_none() {
        assert(request@.params =~= lyrics_params(None, None));
        return request;
    }
    let mut request = request.param("extend", text("ttmlLocalizations"));
    match translation_language {
        Some(lang) => {
            request = request.param("l[lyrics]", text(lang));
        },
        None => {},
    }
    match script {
        Some(s) => {
            request = request.param("l[script]", text(s));
        },
        None => {},
    }
    assert(request@.params =~= lyrics_params(
        match translation_language {
            Some(l) => Some(l@),
            None => None,
        },
        match script {
            Some(s) => Some(s@),
            None => None,
        },
    ));
    request
}

/// A catalog request as the web player sends it: a browser's user agent and
/// the catalog headers.
pub fn as_catalog_request(request: Http, dev_token: &str, media_user_token: &str) -> (r: Http)
    requires
        request.well_formed(),
    ensures
        r.well_formed(),
        r@.headers == set_headers(
            set_header(request@.headers, "User-Agent"@, BROWSER_USER_AGENT@),
            seq![
                ("Authorization"@, "Bearer "@ + dev_token@),
                ("Origin"@, SITE@),
                ("Referer"@, SITE@),
                ("media-user-token"@, media_user_token@),
            ],
        ),
        r@.method == request@.method && r@.base_url == request@.base_url && r@.params
            == request@.params && r@.body == request@.body,
{
    request.browser().headers(api_headers(dev_token, media_user_token))
}

/// The song search of a storefront.
pub fn search_request(storefront: &str, query: &str) -> (r: Http)
    ensures
        r.well_formed(),
        r@.method == "GET"@,
        r@.base_url == BASE_URL@ + "/catalog/"@ + storefront@ + "/search"@,
        r@.params == seq![("types"@, "songs"@), ("term"@, query@)],
{
    let mut url = chars_of(BASE_URL);
    push_all(&mut url, chars_of("/catalog/").as_slice());
    push_all(&mut url, chars_of(storefront).as_slice());
    push_all(&mut url, chars_of("/search").as_slice());
    let r = Http::get(string_of(url.as_slice())).param("types", text("songs")).param("term", text(query));
    assert(r@.params =~= seq![("types"@, "songs"@), ("term"@, query@)]);
    r
}

/// The search text: the title, a space, and the first artist.
pub fn search_query(title: &str, first_artist: &str) -> (r: String)
    ensures
        r@ == title@ + " "@ + first_artist@,
{
    let mut out = chars_of(title);
    out.push(' ');
    push_all(&mut out, chars_of(first_artist).as_slice());
    proof {
        reveal_strlit(" ");
    }
    string_of(out.as_slice())
}

/// What a status means for a catalog request: go on with a 200, a refresh
/// of the developer token for 401 and 403, an error otherwise.
pub fn check_status(response: &Response, what: &str) -> (r: Result<(), LookupError>)
    ensures
        response.status == 200 ==> r is Ok,
        (response.status == 401 || response.status == 403) ==> r == Err::<(), LookupError>(LookupError::Unauthorized),
        response.status != 200 && response.status != 401 && response.status != 403 ==> (r matches Err(LookupError::Fatal(e)) && e is Other),
{
    if is_unauthorized(response.status) {
        return Err(LookupError::Unauthorized);
    }
    if response.status != 200 {
        return Err(LookupError::Fatal(response.unexpected_status(what)));
    }
    Ok(())
}

/// A lyrics entry of the answer.
#[derive(Debug, Clone, PartialEq, Eq)]
pub struct LyricsAttributes {
    pub ttml: Option<String>,
    pub ttml_localizations: Option<String>,
}

/// The TTML of the answer's first entry, the localized one first, unless
/// it is blank.
pub open spec fn ttml_of(entries: Seq<LyricsAttributes>) -> Option<Seq<char>> {
    if entries.len() == 0 {
        None
    } else {
        let t = match entries[0].ttml_localizations {
            Some(t) => Some(t@),
            None => match entries[0].ttml {
                Some(t) => Some(t@),
                None => None,
            },
        };
        match t {
            Some(t) => if trim(t).len() > 0 {
                Some(t)
            } else {
                None
            },
            None => None,
        }
    }
}

pub fn pick_ttml(entries: Vec<LyricsAttributes>) -> (r: Option<Lyrics>)
    ensures
        match ttml_of(entries@) {
            Some(t) => r == Some(Lyrics::Ttml(r->0->Ttml_0)) && r->0->Ttml_0@ == t,
            None => r is None,
        },
{
    if entries.len() == 0 {
        return None;
    }
    let e = &entries[0];
    let t = match &e.ttml_localizations {
        Some(t) => Some(text(t.as_str())),
        None => match &e.ttml {
            Some(t) => Some(text(t.as_str())),
            None => None,
        },
    };
    match t {
        Some(t) => {
            if trim_vec(chars_of(t.as_str()).as_slice()).len() > 0 {
                Some(Lyrics::Ttml(t))
            } else {
                None
            }
        },
        None => None,
    }
}

/// The index script's path in the home page, if it is there.
pub fn script_path(html: &str) -> (r: Option<String>)
    ensures
        match r {
            Some(p) => re_captures(SCRIPT_TAG_PATTERN@, html@) matches Some(g) && 1 < g.len()
                && g[1] == Some(p@),
            None => !(re_captures(SCRIPT_TAG_PATTERN@, html@) matches Some(g) && 1 < g.len()
                && g[1] is Some),
        },
{
    second_group(SCRIPT_TAG_PATTERN, html)
}

fn second_group(pattern: &str, hay: &str) -> (r: Option<String>)
    ensures
        match r {
            Some(p) => re_captures(pattern@, hay@) matches Some(g) && 1 < g.len() && g[1] == Some(p@),
            None => !(re_captures(pattern@, hay@) matches Some(g) && 1 < g.len() && g[1] is Some),
        },
{
    match captures(pattern, hay) {
        Some(g) => {
            if g.len() > 1 {
                match &g[1] {
                    Some(s) => {
                        assert(group_views(g@)[1] == Some(s@));
                        Some(text(s.as_str()))
                    },
                    None => {
                        assert(group_views(g@)[1] is None);
                        None
                    },
                }
            } else {
                None
            }
        },
        None => None,
    }
}

/// The URL of the index script.
pub fn script_url(path: &str) -> (r: String)
    ensures
        r@ == SITE@ + path@,
{
    let mut out = chars_of(SITE);
    push_all(&mut out, chars_of(path).as_slice());
    string_of(out.as_slice())
}

/// The name of the variable the script takes its token from.
pub fn token_var(js: &str) -> (r: Option<String>)
    ensures
        match r {
            Some(p) => re_captures(TOKEN_VAR_PATTERN@, js@) matches Some(g) && 1 < g.len() && g[1]
                == Some(p@),
            None => !(re_captures(TOKEN_VAR_PATTERN@, js@) matches Some(g) && 1 < g.len()
                && g[1] is Some),
        },
{
    second_group(TOKEN_VAR_PATTERN, js)
}

/// The pattern of the token's assignment to a variable.
pub open spec fn token_value_pattern(var_name: Seq<char>) -> Seq<char> {
    re_escaped(var_name) + TOKEN_VALUE_SUFFIX@
}

/// The token assigned to the variable.
pub fn token_value(js: &str, var_name: &str) -> (r: Option<String>)
    ensures
        match r {
            Some(p) => re_captures(token_value_pattern(var_name@), js@) matches Some(g) && 1 < g.len()
                && g[1] == Some(p@),
            None => !(re_captures(token_value_pattern(var_name@), js@) matches Some(g) && 1 < g.len()
                && g[1] is Some),
        },
{
    let mut pattern = chars_of(escape(var_name).as_str());
    push_all(&mut pattern, chars_of(TOKEN_VALUE_SUFFIX).as_slice());
    let p = string_of(pattern.as_slice());
    second_group(p.as_str(), js)
}

} // verus!
