//! LRCLIB: its requests and how a record becomes lyrics.
use vstd::prelude::*;
use crate::config::PluginConfig;
use crate::config::providers::ProviderParams;
use crate::providers::error::ProviderError;
use crate::providers::http::{Http, Response};
use crate::text::{chars_of, push_all, string_of, trim, trim_vec};
use crate::types::{Lyrics, LyricsKind, lyrics_kind, lyrics_text};
use crate::ext::{Artist, TrackInfo, TrackInfoExt};
use crate::text::join;

verus! {

pub const DEFAULT_BASE_URL: &'static str = "https://lrclib.net";
/// How far, in milliseconds, a search result's duration may be from the
/// track's.
pub const DURATION_TOLERANCE_MS: u64 = 2000;

/// A record of LRCLIB; its duration in milliseconds.
#[derive(Debug, Clone, PartialEq, Eq)]
pub struct LrclibRecord {
    pub synced_lyrics: Option<String>,
    pub plain_lyrics: Option<String>,
    pub lyricsfile: Option<String>,
    pub duration: Option<u64>,
    pub instrumental: bool,
}

pub open spec fn nonblank(s: Option<String>) -> Option<Seq<char>> {
    match s {
        Some(t) => if trim(t@).len() > 0 {
            Some(t@)
        } else {
            None
        },
        None => None,
    }
}

/// The text a record holds for a kind, if not blank.
pub open spec fn record_text(r: LrclibRecord, k: LyricsKind) -> Option<Seq<char>> {
    match k {
        LyricsKind::Lrc => nonblank(r.synced_lyrics),
        LyricsKind::Plain => nonblank(r.plain_lyrics),
        LyricsKind::Lyricsfile => nonblank(r.lyricsfile),
        _ => None,
    }
}

/// The first of the first `n` kinds of the order that the record holds.
pub open spec fn first_kind(r: LrclibRecord, order: Seq<LyricsKind>, n: int) -> Option<int>
    decreases n,
{
    if n <= 0 {
        None
    } else {
        match first_kind(r, order, n - 1) {
            Some(i) => Some(i),
            None => if record_text(r, order[n - 1]) is Some {
                Some(n - 1)
            } else {
                None
            },
        }
    }
}

impl LrclibRecord {
    /// Whether the record's duration is within two seconds of the target.
    pub fn matches_duration(&self, target_ms: u64) -> (r: bool)
        ensures
            r == (self.duration matches Some(d) && crate::ext::durations_match(d, target_ms, DURATION_TOLERANCE_MS)),
    {
        match self.duration {
            Some(d) => {
                let diff = if d >= target_ms {
                    d - target_ms
                } else {
                    target_ms - d
                };
                diff <= DURATION_TOLERANCE_MS
            },
            None => false,
        }
    }
}

fn text_of(s: &Option<String>) -> (r: Option<String>)
    ensures
        match r {
            Some(t) => nonblank(*s) == Some(t@),
            None => nonblank(*s) is None,
        },
{
    match s {
        Some(t) => if trim_vec(chars_of(t.as_str()).as_slice()).len() > 0 {
            Some(string_of(chars_of(t.as_str()).as_slice()))
        } else {
            None
        },
        None => None,
    }
}

/// The lyrics of the first kind of the order that the record holds.
pub fn pick_kinds(record: LrclibRecord, order: &[LyricsKind]) -> (r: Option<Lyrics>)
    ensures
        match first_kind(record, order@, order@.len() as int) {
            Some(i) => r matches Some(l) && lyrics_kind(l) == order@[i] && lyrics_text(l) == record_text(record, order@[i]),
            None => r is None,
        },
{
    let mut i: usize = 0;
    while i < order.len()
        invariant
            i <= order@.len(),
            first_kind(record, order@, i as int) is None,
        decreases order.len() - i,
    {
        let found = match order[i] {
            LyricsKind::Lrc => match text_of(&record.synced_lyrics) {
                Some(t) => Some(Lyrics::Lrc(t)),
                None => None,
            },
            LyricsKind::Plain => match text_of(&record.plain_lyrics) {
                Some(t) => Some(Lyrics::Plain(t)),
                None => None,
            },
            LyricsKind::Lyricsfile => match text_of(&record.lyricsfile) {
                Some(t) => Some(Lyrics::Lyricsfile(t)),
                None => None,
            },
            _ => None,
        };
        match found {
            Some(l) => {
                proof {
                    assert(first_kind(record, order@, i + 1) == Some(i as int));
                    lemma_first_kind_stable(record, order@, i + 1, order@.len() as int);
                }
                return Some(l);
            },
            None => {},
        }
        i = i + 1;
    }
    None
}

pub proof fn lemma_first_kind_stable(r: LrclibRecord, order: Seq<LyricsKind>, i: int, n: int)
    requires
        0 <= i <= n,
        first_kind(r, order, i) is Some,
    ensures
        first_kind(r, order, n) == first_kind(r, order, i),
    decreases n - i,
{
    if n > i {
        lemma_first_kind_stable(r, order, i, n - 1);
    }
}

/// The lyrics a record gives: an instrumental track as such, else the first
/// configured kind it holds.
pub fn pick_text(record: LrclibRecord, cfg: &PluginConfig) -> (r: Option<Lyrics>)
    ensures
        record.instrumental ==> (r matches Some(l) && l is Instrumental),
        !record.instrumental ==> match first_kind(record, cfg.lyrics_type_priority@, cfg.lyrics_type_priority@.len() as int) {
            Some(i) => r matches Some(l) && lyrics_kind(l) == cfg.lyrics_type_priority@[i]
                && lyrics_text(l) == record_text(record, cfg.lyrics_type_priority@[i]),
            None => r is None,
        },
{
    if record.instrumental {
        return Some(Lyrics::Instrumental);
    }
    pick_kinds(record, cfg.lyrics_type_priority.as_slice())
}

/// The synced kinds configured above plain lyrics.
pub open spec fn above_plain(order: Seq<LyricsKind>, n: int) -> Seq<LyricsKind>
    decreases n,
{
    if n <= 0 {
        seq![]
    } else if order.take(n - 1).contains(LyricsKind::Plain) || order[n - 1] == LyricsKind::Plain {
        above_plain(order, n - 1)
    } else if order[n - 1] == LyricsKind::Lrc || order[n - 1] == LyricsKind::Lyricsfile {
        above_plain(order, n - 1).push(order[n - 1])
    } else {
        above_plain(order, n - 1)
    }
}

pub fn preferred_over_plain(cfg: &PluginConfig) -> (r: Vec<LyricsKind>)
    ensures
        r@ == above_plain(cfg.lyrics_type_priority@, cfg.lyrics_type_priority@.len() as int),
{
    let order = &cfg.lyrics_type_priority;
    let mut out: Vec<LyricsKind> = Vec::new();
    let mut seen_plain = false;
    let mut i: usize = 0;
    while i < order.len()
        invariant
            i <= order@.len(),
            seen_plain == order@.take(i as int).contains(LyricsKind::Plain),
            out@ == above_plain(order@, i as int),
        decreases order.len() - i,
    {
        let k = order[i];
        assert(order@.take(i + 1) =~= order@.take(i as int).push(k));
        proof {
            let t = order@.take(i as int);
            let t1 = order@.take(i + 1);
            if k == LyricsKind::Plain {
                assert(t1[i as int] == LyricsKind::Plain);
            } else {
                if t1.contains(LyricsKind::Plain) {
                    let q = choose|q: int| 0 <= q < t1.len() && t1[q] == LyricsKind::Plain;
                    assert(q < i);
                    assert(t[q] == LyricsKind::Plain);
                }
                if t.contains(LyricsKind::Plain) {
                    let q = choose|q: int| 0 <= q < t.len() && t[q] == LyricsKind::Plain;
                    assert(t1[q] == LyricsKind::Plain);
                }
            }
        }
        if !seen_plain && k != LyricsKind::Plain && (k == LyricsKind::Lrc || k == LyricsKind::Lyricsfile) {
            out.push(k);
        }
        if k == LyricsKind::Plain {
            seen_plain = true;
        }
        i = i + 1;
    }
    out
}

/// The LRCLIB provider as configured.
pub struct Lrclib {
    pub base_url: String,
}

fn text(s: &str) -> (r: String)
    ensures
        r@ == s@,
{
    string_of(chars_of(s).as_slice())
}

impl Lrclib {
    pub fn create(params: &ProviderParams) -> (r: Lrclib)
        ensures
            r.base_url@ == match params.view_get("baseUrl"@) {
                Some(v) => v,
                None => DEFAULT_BASE_URL@,
            },
    {
        match params.get("baseUrl") {
            Some(v) => Lrclib { base_url: text(v) },
            None => Lrclib { base_url: text(DEFAULT_BASE_URL) },
        }
    }

    pub fn supported_kinds(&self) -> (r: Vec<LyricsKind>)
        ensures
            r@ == seq![LyricsKind::Lrc, LyricsKind::Plain, LyricsKind::Lyricsfile],
    {
        let mut v: Vec<LyricsKind> = Vec::new();
        v.push(LyricsKind::Lrc);
        v.push(LyricsKind::Plain);
        v.push(LyricsKind::Lyricsfile);
        assert(v@ =~= seq![LyricsKind::Lrc, LyricsKind::Plain, LyricsKind::Lyricsfile]);
        v
    }

    /// The lookup of a record by its metadata; the duration in whole seconds.
    pub fn get_request(&self, artist: &str, title: &str, album: &str, duration_secs: u64) -> (r: Http)
        ensures
            r.well_formed(),
            r@.base_url == self.base_url@ + "/api/get"@,
            r@.params == seq![
                ("artist_name"@, artist@),
                ("track_name"@, title@),
                ("album_name"@, album@),
                ("duration"@, crate::num::digits(duration_secs as nat)),
            ],
    {
        let mut url = chars_of(self.base_url.as_str());
        push_all(&mut url, chars_of("/api/get").as_slice());
        let r = Http::get(string_of(url.as_slice())).param("artist_name", text(artist)).param(
            "track_name",
            text(title),
        ).param("album_name", text(album)).param(
            "duration",
            string_of(crate::num::digits_of(duration_secs).as_slice()),
        );
        assert(r@.params =~= seq![
            ("artist_name"@, artist@),
            ("track_name"@, title@),
            ("album_name"@, album@),
            ("duration"@, crate::num::digits(duration_secs as nat)),
        ]);
        r
    }

    /// The search by free text.
    pub fn search_request(&self, q: &str) -> (r: Http)
        ensures
            r.well_formed(),
            r@.base_url == self.base_url@ + "/api/search"@,
            r@.params == seq![("q"@, q@)],
    {
        let mut url = chars_of(self.base_url.as_str());
        push_all(&mut url, chars_of("/api/search").as_slice());
        let r = Http::get(string_of(url.as_slice())).param("q", text(q));
        assert(r@.params =~= seq![("q"@, q@)]);
        r
    }
}

/// The kind and text of lyrics (no text for an instrumental track).
pub open spec fn lyrics_as(l: Lyrics) -> (LyricsKind, Option<Seq<char>>) {
    (lyrics_kind(l), lyrics_text(l))
}

/// What the first kind of the order that a record holds gives.
pub open spec fn kinds_pick(r: LrclibRecord, order: Seq<LyricsKind>) -> Option<(LyricsKind, Option<Seq<char>>)> {
    match first_kind(r, order, order.len() as int) {
        Some(i) => Some((order[i], record_text(r, order[i]))),
        None => None,
    }
}

/// What a record gives: an instrumental track as such, else the first kind
/// of the order it holds.
pub open spec fn record_pick(r: LrclibRecord, order: Seq<LyricsKind>) -> Option<(LyricsKind, Option<Seq<char>>)> {
    if r.instrumental {
        Some((LyricsKind::Instrumental, None))
    } else {
        kinds_pick(r, order)
    }
}

impl Lrclib {
    /// The lookups of a track: by its metadata (all its artists, title,
    /// album and duration rounded to whole seconds), then by the free text
    /// "first artist title"; an error when the track has no artist.
    pub fn track_requests(&self, track: &TrackInfo) -> (r: Result<(Http, Http), ProviderError>)
        ensures
            track.artists@.len() == 0 ==> (r matches Err(ProviderError::Other(m)) && m@
                == "missing artist"@),
            track.artists@.len() > 0 ==> (r matches Ok((get, search)) && get.well_formed()
                && search.well_formed() && get@.base_url == self.base_url@ + "/api/get"@
                && get@.params == seq![
                ("artist_name"@, join(track.artists@.map_values(|a: Artist| a.name@), " "@)),
                ("track_name"@, track.title@),
                ("album_name"@, track.album@),
                ("duration"@, crate::num::digits(((track.duration_ms + 500) / 1000) as nat)),
            ] && search@.base_url == self.base_url@ + "/api/search"@ && search@.params == seq![
                ("q"@, track.artists@[0].name@ + " "@ + track.title@),
            ]),
    {
        if track.artists.len() == 0 {
            return Err(ProviderError::other(text("missing artist")));
        }
        let all = track.all_artists();
        let secs: u64 = track.duration_ms / 1000 + if track.duration_ms % 1000 >= 500 {
            1u64
        } else {
            0u64
        };
        assert(secs == (track.duration_ms + 500) / 1000);
        let get = self.get_request(all.as_str(), track.title.as_str(), track.album.as_str(), secs);
        let mut q = chars_of(track.artists[0].name.as_str());
        q.push(' ');
        push_all(&mut q, chars_of(track.title.as_str()).as_slice());
        proof {
            reveal_strlit(" ");
        }
        assert(q@ =~= track.artists@[0].name@ + " "@ + track.title@);
        let qs = string_of(q.as_slice());
        let search = self.search_request(qs.as_str());
        assert(all@ == join(track.artists@.map_values(|a: Artist| a.name@), " "@));
        Ok((get, search))
    }
}

/// What the metadata lookup's record comes to: see `MetadataPick`.
pub open spec fn metadata_picks(
    record: Option<LrclibRecord>,
    order: Seq<LyricsKind>,
    preferred: Seq<LyricsKind>,
    r: MetadataPick,
) -> bool {
    match record {
        None => r is Nothing,
        Some(rec) => match record_pick(rec, order) {
            None => r is Nothing,
            Some(p) => if preferred.len() > 0 && p.0 == LyricsKind::Plain {
                r matches MetadataPick::Fallback(l) && lyrics_as(l) == p
            } else {
                r matches MetadataPick::Done(l) && lyrics_as(l) == p
            },
        },
    }
}

/// What the metadata lookup comes to: lyrics to return, plain lyrics to
/// keep while the search looks for preferred ones, or nothing.
#[derive(Debug)]
pub enum MetadataPick {
    Done(Lyrics),
    Fallback(Lyrics),
    Nothing,
}

pub fn metadata_pick(record: Option<LrclibRecord>, cfg: &PluginConfig, preferred: &[LyricsKind]) -> (r: MetadataPick)
    ensures
        metadata_picks(record, cfg.lyrics_type_priority@, preferred@, r),
{
    match record {
        None => MetadataPick::Nothing,
        Some(rec) => match pick_text(rec, cfg) {
            Some(l) => {
                if preferred.len() > 0 && matches!(l, Lyrics::Plain(_)) {
                    MetadataPick::Fallback(l)
                } else {
                    MetadataPick::Done(l)
                }
            },
            None => MetadataPick::Nothing,
        },
    }
}

/// What a search result gives: nothing when its duration does not match;
/// only a preferred kind while plain lyrics are kept.
pub fn search_pick(record: LrclibRecord, target_ms: u64, have_fallback: bool, preferred: &[LyricsKind], cfg: &PluginConfig) -> (r: Option<Lyrics>)
    ensures
        !(record.duration matches Some(d) && crate::ext::durations_match(d, target_ms, DURATION_TOLERANCE_MS)) ==> r is None,
        (record.duration matches Some(d) && crate::ext::durations_match(d, target_ms, DURATION_TOLERANCE_MS)) ==> match (
        if have_fallback {
            kinds_pick(record, preferred@)
        } else {
            record_pick(record, cfg.lyrics_type_priority@)
        }) {
            Some(p) => r matches Some(l) && lyrics_as(l) == p,
            None => r is None,
        },
{
    if !record.matches_duration(target_ms) {
        return None;
    }
    if have_fallback {
        pick_kinds(record, preferred)
    } else {
        pick_text(record, cfg)
    }
}

/// What a search result gives, as `search_pick` finds it.
pub open spec fn result_pick(
    record: LrclibRecord,
    target_ms: u64,
    have_fallback: bool,
    preferred: Seq<LyricsKind>,
    order: Seq<LyricsKind>,
) -> Option<(LyricsKind, Option<Seq<char>>)> {
    if record.duration matches Some(d) && crate::ext::durations_match(d, target_ms, DURATION_TOLERANCE_MS) {
        if have_fallback {
            kinds_pick(record, preferred)
        } else {
            record_pick(record, order)
        }
    } else {
        None
    }
}

/// The first of the first `n` search results that gives lyrics.
pub open spec fn first_result(
    records: Seq<LrclibRecord>,
    target_ms: u64,
    have_fallback: bool,
    preferred: Seq<LyricsKind>,
    order: Seq<LyricsKind>,
    n: int,
) -> Option<int>
    decreases n,
{
    if n <= 0 {
        None
    } else {
        match first_result(records, target_ms, have_fallback, preferred, order, n - 1) {
            Some(i) => Some(i),
            None => if result_pick(records[n - 1], target_ms, have_fallback, preferred, order) is Some {
                Some(n - 1)
            } else {
                None
            },
        }
    }
}

proof fn lemma_first_result_stable(
    records: Seq<LrclibRecord>,
    target_ms: u64,
    have_fallback: bool,
    preferred: Seq<LyricsKind>,
    order: Seq<LyricsKind>,
    i: int,
    n: int,
)
    requires
        0 <= i <= n,
        first_result(records, target_ms, have_fallback, preferred, order, i) is Some,
    ensures
        first_result(records, target_ms, have_fallback, preferred, order, n) == first_result(
            records,
            target_ms,
            have_fallback,
            preferred,
            order,
            i,
        ),
    decreases n - i,
{
    if n > i {
        lemma_first_result_stable(records, target_ms, have_fallback, preferred, order, i, n - 1);
    }
}

/// What the free-text search gives: see `search_outcome`.
pub open spec fn search_gives(
    records: Seq<LrclibRecord>,
    target_ms: u64,
    fallback: Option<Lyrics>,
    preferred: Seq<LyricsKind>,
    order: Seq<LyricsKind>,
    r: Option<Lyrics>,
) -> bool {
    match first_result(records, target_ms, fallback is Some, preferred, order, records.len() as int) {
        Some(i) => r matches Some(l) && Some(lyrics_as(l)) == result_pick(
            records[i],
            target_ms,
            fallback is Some,
            preferred,
            order,
        ),
        None => r == fallback,
    }
}

/// What the free-text search comes to: the lyrics of the first result, in
/// order, whose duration is within two seconds of the track's and that
/// holds lyrics (only a preferred kind while plain lyrics are kept);
/// otherwise the plain lyrics kept from the metadata lookup, if any.
pub fn search_outcome(
    records: Vec<LrclibRecord>,
    target_ms: u64,
    fallback: Option<Lyrics>,
    preferred: &[LyricsKind],
    cfg: &PluginConfig,
) -> (r: Option<Lyrics>)
    ensures
        search_gives(records@, target_ms, fallback, preferred@, cfg.lyrics_type_priority@, r),
{
    let have_fallback = fallback.is_some();
    let ghost all = records@;
    let n = records.len();
    assert(all.len() == n);
    let mut rest = records;
    let mut i: usize = 0;
    while rest.len() > 0
        invariant
            i <= all.len() <= usize::MAX,
            all == records@,
            rest@ == all.skip(i as int),
            have_fallback == fallback is Some,
            first_result(all, target_ms, have_fallback, preferred@, cfg.lyrics_type_priority@, i as int) is None,
        decreases rest.len(),
    {
        assert(all.skip(i as int).len() == all.len() - i);
        let record = rest.remove(0);
        assert(record == all[i as int]);
        match search_pick(record, target_ms, have_fallback, preferred, cfg) {
            Some(l) => {
                proof {
                    assert(first_result(all, target_ms, have_fallback, preferred@, cfg.lyrics_type_priority@, i + 1) == Some(i as int));
                    lemma_first_result_stable(
                        all,
                        target_ms,
                        have_fallback,
                        preferred@,
                        cfg.lyrics_type_priority@,
                        i + 1,
                        all.len() as int,
                    );
                }
                return Some(l);
            },
            None => {},
        }
        assert(all.skip(i + 1) =~= all.skip(i as int).drop_first());
        i = i + 1;
    }
    assert(all.skip(i as int).len() == all.len() - i);
    assert(i == all.len());
    fallback
}

/// What a status of the metadata lookup means.
pub fn get_status(response: &Response) -> (r: Result<bool, ProviderError>)
    ensures
        response.status == 200 ==> r == Ok::<bool, ProviderError>(true),
        response.status == 404 ==> r == Ok::<bool, ProviderError>(false),
        response.status != 200 && response.status != 404 ==> (r matches Err(e) && e is Other),
{
    if response.status == 200 {
        Ok(true)
    } else if response.status == 404 {
        Ok(false)
    } else {
        Err(response.unexpected_status("lrclib: get endpoint"))
    }
}


/// What a status of the free-text search means: go on with a 200, an error
/// otherwise.
pub fn search_status(response: &Response) -> (r: Result<(), ProviderError>)
    ensures
        response.status == 200 ==> r is Ok,
        response.status != 200 ==> (r matches Err(ProviderError::Other(m)) && m@
            == "lrclib: search endpoint"@ + " returned status "@ + crate::num::decimal(
            response.status as int,
        )),
{
    if response.status == 200 {
        Ok(())
    } else {
        Err(response.unexpected_status("lrclib: search endpoint"))
    }
}

/// Lyrics found, as kind and text.
pub open spec fn found_as(o: Option<Lyrics>) -> Option<(LyricsKind, Option<Seq<char>>)> {
    match o {
        Some(l) => Some(lyrics_as(l)),
        None => None,
    }
}

/// The lyrics of a whole LRCLIB lookup, from the record found by metadata
/// (if any) and the records of the free-text search: the record's lyrics
/// when it holds some and they are not plain lyrics while a synced kind is
/// preferred; otherwise the first search result within two seconds that
/// holds lyrics (only a preferred kind while plain lyrics are kept); else
/// the kept plain lyrics, or nothing.
pub open spec fn lrclib_answer(
    record: Option<LrclibRecord>,
    search: Seq<LrclibRecord>,
    target_ms: u64,
    preferred: Seq<LyricsKind>,
    order: Seq<LyricsKind>,
) -> Option<(LyricsKind, Option<Seq<char>>)> {
    let picked = match record {
        Some(rec) => record_pick(rec, order),
        None => None,
    };
    if picked matches Some(p) && !(preferred.len() > 0 && p.0 == LyricsKind::Plain) {
        picked
    } else {
        match first_result(search, target_ms, picked is Some, preferred, order, search.len() as int) {
            Some(i) => result_pick(search[i], target_ms, picked is Some, preferred, order),
            None => picked,
        }
    }
}

/// The verified steps of a lookup give its whole answer: when the metadata
/// lookup decides, its lyrics are the answer and the search is not needed;
/// otherwise the search, with the plain lyrics kept, gives `lrclib_answer`.
pub proof fn lrclib_steps_give_the_answer(
    record: Option<LrclibRecord>,
    picked: MetadataPick,
    search: Seq<LrclibRecord>,
    target_ms: u64,
    preferred: Seq<LyricsKind>,
    order: Seq<LyricsKind>,
    searched: Option<Lyrics>,
)
    requires
        metadata_picks(record, order, preferred, picked),
        !(picked is Done) ==> search_gives(
            search,
            target_ms,
            match picked {
                MetadataPick::Fallback(l) => Some(l),
                _ => None,
            },
            preferred,
            order,
            searched,
        ),
    ensures
        match picked {
            MetadataPick::Done(l) => Some(lyrics_as(l)) == lrclib_answer(record, search, target_ms, preferred, order),
            _ => found_as(searched) == lrclib_answer(record, search, target_ms, preferred, order),
        },
{
}

} // verus!
