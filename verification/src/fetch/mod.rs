//! The decisions of a lyrics search over the configured providers: which
//! providers to ask, what their answers come to, which lyrics win, and what
//! the search reports.
pub mod ranking;
pub mod ratelimit;
pub mod selection;

use vstd::prelude::*;
use crate::config::PluginConfig;
use crate::fetch::ranking::{
    Basis, Rank, Ranker, best_level_of, best_rank_of, ceiling_of, kind_index, kind_rank_of,
    lemma_kind_index, min_opt, rank_lt, rank_of, worth_trying,
};
use crate::text::{chars_of, join, join_exec, push_all, string_of, views};
use crate::types::{
    Lyrics, LyricsKind, LyricsText, kind_max_level, level_rank, lyrics_kind, lyrics_level, lyrics_text,
    sanitized_text,
};

verus! {

/// What a search comes to.
#[derive(Debug)]
pub enum Outcome {
    Found(Lyrics),
    NotFound,
    ProviderError,
}

/// What one provider's answer comes to.
#[derive(Debug)]
pub enum ProviderFetch {
    Lyrics(Lyrics),
    Empty,
    Error,
}

/// The outcome of a search that found no lyrics: an error when a provider
/// failed, a plain miss otherwise.
pub fn outcome_without_lyrics(had_error: bool) -> (r: Outcome)
    ensures
        had_error ==> r is ProviderError,
        !had_error ==> r is NotFound,
{
    if had_error {
        Outcome::ProviderError
    } else {
        Outcome::NotFound
    }
}

/// The message of a search that found no lyrics, whatever the reason.
pub const NOT_FOUND_MESSAGE: &'static str = "no lyrics found from any provider";

/// What a search answers the host: the lyrics found, or the error of a
/// search that found none.
pub fn reply(outcome: Outcome, cfg: &PluginConfig) -> (r: Result<Vec<LyricsText>, &'static str>)
    ensures
        match outcome {
            Outcome::Found(l) => r matches Ok(v) && v@.len() == 1 && v@[0].text@ == match lyrics_text(l) {
                Some(s) => s,
                None => cfg.instrumental_text@,
            },
            _ => r matches Err(m) && m@ == NOT_FOUND_MESSAGE@,
        },
{
    match outcome {
        Outcome::Found(l) => Ok(l.to_response(cfg)),
        _ => Err(NOT_FOUND_MESSAGE),
    }
}

pub open spec fn param_texts(params: Seq<(&str, String)>) -> Seq<Seq<char>> {
    params.map_values(|p: (&str, String)| p.0@ + "="@ + p.1@)
}

/// A provider's name, followed by its parameters in brackets when it has any.
pub open spec fn label_of(name: Seq<char>, params: Seq<(&str, String)>) -> Seq<char> {
    if params.len() == 0 {
        name
    } else {
        name + "("@ + join(param_texts(params), ", "@) + ")"@
    }
}

pub fn provider_label(name: &str, params: &[(&str, String)]) -> (r: String)
    ensures
        r@ == label_of(name@, params@),
{
    if params.len() == 0 {
        return string_of(chars_of(name).as_slice());
    }
    let mut parts: Vec<Vec<char>> = Vec::new();
    let mut i: usize = 0;
    proof {
        reveal_strlit("=");
    }
    while i < params.len()
        invariant
            i <= params@.len(),
            views(parts@) == param_texts(params@).take(i as int),
        decreases params.len() - i,
    {
        proof {
            reveal_strlit("=");
        }
        let (k, v) = &params[i];
        let mut part = chars_of(*k);
        part.push('=');
        push_all(&mut part, chars_of(v.as_str()).as_slice());
        let ghost before = views(parts@);
        assert(part@ =~= params@[i as int].0@ + "="@ + params@[i as int].1@);
        parts.push(part);
        assert(views(parts@) =~= before.push(part@));
        assert(param_texts(params@).take(i + 1) =~= param_texts(params@).take(i as int).push(
            part@,
        ));
        i = i + 1;
    }
    assert(param_texts(params@).take(params@.len() as int) =~= param_texts(params@));
    let joined = join_exec(&parts, chars_of(", ").as_slice());
    let mut out = chars_of(name);
    out.push('(');
    push_all(&mut out, joined.as_slice());
    out.push(')');
    proof {
        reveal_strlit("(");
        reveal_strlit(")");
        assert(out@ =~= label_of(name@, params@));
    }
    string_of(out.as_slice())
}

/// Whether the configuration asks for any kind a provider serves.
pub fn provider_wanted(cfg: &PluginConfig, kinds: &[LyricsKind]) -> (r: bool)
    ensures
        r == exists|i: int| 0 <= i < kinds@.len() && cfg.lyrics_type_priority@.contains(
            #[trigger] kinds@[i],
        ),
{
    let mut i: usize = 0;
    while i < kinds.len()
        invariant
            i <= kinds@.len(),
            forall|j: int| 0 <= j < i ==> !cfg.lyrics_type_priority@.contains(#[trigger] kinds@[j]),
        decreases kinds.len() - i,
    {
        if cfg.wants(kinds[i]) {
            return true;
        }
        i = i + 1;
    }
    false
}

/// What a provider's successful answer comes to: its lyrics once sanitized,
/// or nothing when it had none or they were empty once sanitized; the second
/// part says whether the miss is remembered for the track.
pub fn settle_answer(answer: Option<Lyrics>, cfg: &PluginConfig) -> (r: (ProviderFetch, bool))
    ensures
        match answer {
            None => r.0 is Empty && r.1,
            Some(l) => match r.0 {
                ProviderFetch::Lyrics(got) => !r.1 && lyrics_kind(got) == lyrics_kind(l) && match lyrics_text(l) {
                    Some(s) => lyrics_text(got) == Some(sanitized_text(lyrics_kind(l), s, cfg.strip_section_labels))
                        && crate::text::trim(sanitized_text(lyrics_kind(l), s, cfg.strip_section_labels)).len() > 0,
                    None => lyrics_text(got) is None,
                },
                ProviderFetch::Empty => r.1 && match lyrics_text(l) {
                    Some(s) => crate::text::trim(sanitized_text(lyrics_kind(l), s, cfg.strip_section_labels)).len() == 0,
                    None => false,
                },
                ProviderFetch::Error => false,
            },
        },
{
    match answer {
        None => (ProviderFetch::Empty, true),
        Some(l) => {
            let mut l = l;
            l.sanitize(cfg);
            if l.is_empty() {
                (ProviderFetch::Empty, true)
            } else {
                (ProviderFetch::Lyrics(l), false)
            }
        },
    }
}

/// The best lyrics found so far, with their rank.
#[derive(Debug)]
pub struct Candidate {
    pub lyrics: Lyrics,
    pub rank: Rank,
}

/// Keeps the better of the best candidate so far and newly found lyrics
/// (the earlier one on a tie); the second part says whether the new lyrics
/// rank best of all, which ends the search.
pub fn keep_better(ranker: &Ranker, best: Option<Candidate>, lyrics: Lyrics) -> (r: (Candidate, bool))
    ensures
        ({
            let rank = rank_of(ranker.basis, ranker.prefer_uncensored, lyrics);
            &&& r.1 == (rank == Rank::best_spec())
            &&& match best {
                Some(c) => if rank_lt(rank, c.rank) {
                    r.0.lyrics == lyrics && r.0.rank == rank
                } else {
                    r.0.lyrics == c.lyrics && r.0.rank == c.rank
                },
                None => r.0.lyrics == lyrics && r.0.rank == rank,
            }
        }),
{
    let rank = ranker.rank(&lyrics);
    let done = rank.primary == 0 && !rank.censored;
    match best {
        Some(c) => {
            if rank.better_than(&c.rank) {
                (Candidate { lyrics, rank }, done)
            } else {
                (c, done)
            }
        },
        None => (Candidate { lyrics, rank }, done),
    }
}

/// What a ranked search reports once every provider was asked.
pub fn finish(best: Option<Candidate>, had_error: bool) -> (r: Outcome)
    ensures
        match best {
            Some(c) => r matches Outcome::Found(l) && l == c.lyrics,
            None => (had_error ==> r is ProviderError) && (!had_error ==> r is NotFound),
        },
{
    match best {
        Some(c) => Outcome::Found(c.lyrics),
        None => outcome_without_lyrics(had_error),
    }
}


// ---------------------------------------------------------------------------
// Searches, one provider answer at a time
/// Where a search goes after a provider's answer.
#[derive(Debug)]
pub enum SearchStep<S> {
    /// On to the next provider, in this state.
    Continue(S),
    /// The search is over.
    Done(Outcome),
}

/// A search that takes the first lyrics a provider gives (the priority and
/// rotation modes): whether a provider has failed so far.
#[derive(Debug, Clone, Copy, PartialEq, Eq)]
pub struct FirstFound {
    pub had_error: bool,
}

impl FirstFound {
    pub fn new() -> (r: FirstFound)
        ensures
            !r.had_error,
    {
        FirstFound { had_error: false }
    }

    /// The search after a provider's answer: lyrics end it, a failure is
    /// remembered, nothing changes nothing.
    pub fn after(self, fetch: ProviderFetch) -> (r: SearchStep<FirstFound>)
        ensures
            r == match fetch {
                ProviderFetch::Lyrics(l) => SearchStep::Done(Outcome::Found(l)),
                ProviderFetch::Error => SearchStep::Continue(FirstFound { had_error: true }),
                ProviderFetch::Empty => SearchStep::Continue(self),
            },
    {
        match fetch {
            ProviderFetch::Lyrics(l) => SearchStep::Done(Outcome::Found(l)),
            ProviderFetch::Error => SearchStep::Continue(FirstFound { had_error: true }),
            ProviderFetch::Empty => SearchStep::Continue(self),
        }
    }

    /// What the search reports once every provider was asked.
    pub fn finish(self) -> (r: Outcome)
        ensures
            self.had_error ==> r is ProviderError,
            !self.had_error ==> r is NotFound,
    {
        outcome_without_lyrics(self.had_error)
    }
}

/// A ranked search (the type-priority and sync-level modes): the best lyrics
/// found so far, and whether a provider has failed.
#[derive(Debug)]
pub struct RankedSearch {
    pub best: Option<Candidate>,
    pub had_error: bool,
}

pub open spec fn best_rank(best: Option<Candidate>) -> Option<Rank> {
    match best {
        Some(c) => Some(c.rank),
        None => None,
    }
}

/// A ranked search after a provider's answer. Instrumental lyrics end it at
/// once; other lyrics replace the best so far only when they rank strictly
/// better, and end it when they rank best of all; a failure is remembered.
pub open spec fn ranked_step(ranker: Ranker, s: RankedSearch, fetch: ProviderFetch) -> SearchStep<
    RankedSearch,
> {
    match fetch {
        ProviderFetch::Error => SearchStep::Continue(RankedSearch { best: s.best, had_error: true }),
        ProviderFetch::Empty => SearchStep::Continue(s),
        ProviderFetch::Lyrics(l) => if l is Instrumental {
            SearchStep::Done(Outcome::Found(l))
        } else {
            let rank = rank_of(ranker.basis, ranker.prefer_uncensored, l);
            let kept = match s.best {
                Some(c) => if rank_lt(rank, c.rank) {
                    Candidate { lyrics: l, rank }
                } else {
                    c
                },
                None => Candidate { lyrics: l, rank },
            };
            if rank == Rank::best_spec() {
                SearchStep::Done(Outcome::Found(kept.lyrics))
            } else {
                SearchStep::Continue(RankedSearch { best: Some(kept), had_error: s.had_error })
            }
        },
    }
}

/// Whether a provider serving `kinds` could reach a strictly better rank
/// than the best lyrics of a ranked search so far.
pub open spec fn worth_spec(ranker: Ranker, s: RankedSearch, kinds: Seq<LyricsKind>) -> bool {
    match best_rank(s.best) {
        None => true,
        Some(c) => match ceiling_of(ranker.basis, kinds) {
            Some(ceil) => rank_lt(ceil, c),
            None => true,
        },
    }
}

/// What a ranked search reports once every provider was asked.
pub open spec fn ranked_finish(s: RankedSearch) -> Outcome {
    match s.best {
        Some(c) => Outcome::Found(c.lyrics),
        None => if s.had_error {
            Outcome::ProviderError
        } else {
            Outcome::NotFound
        },
    }
}

impl RankedSearch {
    pub fn new() -> (r: RankedSearch)
        ensures
            r.best is None,
            !r.had_error,
    {
        RankedSearch { best: None, had_error: false }
    }

    /// Whether a provider serving `kinds` is worth asking: it could reach a
    /// strictly better rank than the best lyrics so far.
    pub fn worth_asking(&self, ranker: &Ranker, kinds: &[LyricsKind]) -> (r: bool)
        ensures
            r == worth_spec(*ranker, *self, kinds@),
    {
        let current = match &self.best {
            Some(c) => Some(c.rank),
            None => None,
        };
        worth_trying(ranker, current, kinds)
    }

    /// The search after a provider's answer: see `ranked_step`.
    pub fn after(self, ranker: &Ranker, fetch: ProviderFetch) -> (r: SearchStep<RankedSearch>)
        ensures
            r == ranked_step(*ranker, self, fetch),
    {
        match fetch {
            ProviderFetch::Error => SearchStep::Continue(
                RankedSearch { best: self.best, had_error: true },
            ),
            ProviderFetch::Empty => SearchStep::Continue(self),
            ProviderFetch::Lyrics(l) => {
                if l.kind() == LyricsKind::Instrumental {
                    return SearchStep::Done(Outcome::Found(l));
                }
                let (kept, done) = keep_better(ranker, self.best, l);
                if done {
                    SearchStep::Done(Outcome::Found(kept.lyrics))
                } else {
                    SearchStep::Continue(RankedSearch { best: Some(kept), had_error: self.had_error })
                }
            },
        }
    }

    /// What the search reports once every provider was asked.
    pub fn finish(self) -> (r: Outcome)
        ensures
            r == ranked_finish(self),
    {
        finish(self.best, self.had_error)
    }
}

/// A ranked search never loses ground: after any answer that does not end
/// it, a failure seen stays seen, and the best lyrics so far are still there
/// and rank no worse than before.
pub proof fn ranked_search_never_loses_ground(ranker: Ranker, s: RankedSearch, fetch: ProviderFetch)
    ensures
        ranked_step(ranker, s, fetch) matches SearchStep::Continue(next) ==> {
            &&& (s.had_error ==> next.had_error)
            &&& (s.best matches Some(c) ==> next.best matches Some(n) && !rank_lt(c.rank, n.rank))
        },
{
}

/// On a tie the earlier lyrics win: lyrics that rank the same as the best so
/// far leave the best in place (the search stops on them only when that
/// rank is the best there is, and then reports the earlier lyrics).
pub proof fn a_tie_keeps_the_earlier_lyrics(ranker: Ranker, s: RankedSearch, l: Lyrics)
    requires
        s.best matches Some(c) && rank_of(ranker.basis, ranker.prefer_uncensored, l) == c.rank,
        !(l is Instrumental),
    ensures
        ranked_step(ranker, s, ProviderFetch::Lyrics(l)) matches SearchStep::Continue(next)
            ==> next.best == s.best,
        ranked_step(ranker, s, ProviderFetch::Lyrics(l)) matches SearchStep::Done(o) ==> o
            == Outcome::Found(s.best->0.lyrics),
{
}

/// Lyrics that rank best of all end a ranked search with those lyrics (as
/// long as the search had not already kept lyrics of that rank, which would
/// have ended it before).
pub proof fn the_best_ends_the_search(ranker: Ranker, s: RankedSearch, l: Lyrics)
    requires
        rank_of(ranker.basis, ranker.prefer_uncensored, l) == Rank::best_spec(),
        s.best matches Some(c) ==> c.rank != Rank::best_spec(),
        !(l is Instrumental),
    ensures
        ranked_step(ranker, s, ProviderFetch::Lyrics(l)) == SearchStep::<RankedSearch>::Done(
            Outcome::Found(l),
        ),
{
}

/// The best position among offered kinds is no worse than that of any one
/// of them that is in the order.
proof fn lemma_best_rank_bound(kinds: Seq<LyricsKind>, p: Seq<LyricsKind>, n: int, j: int)
    requires
        0 <= j < n <= kinds.len(),
        kind_index(p, kinds[j]) is Some,
    ensures
        best_rank_of(kinds, p, n) matches Some(b) && 0 <= b <= kind_index(p, kinds[j])->0,
    decreases n,
{
    lemma_best_rank_nonneg(kinds, p, n);
    if j < n - 1 {
        lemma_best_rank_bound(kinds, p, n - 1, j);
    }
}

proof fn lemma_best_rank_nonneg(kinds: Seq<LyricsKind>, p: Seq<LyricsKind>, n: int)
    requires
        n <= kinds.len(),
    ensures
        best_rank_of(kinds, p, n) matches Some(b) ==> 0 <= b,
    decreases n,
{
    if n > 0 {
        lemma_kind_index(p, kinds[n - 1]);
        lemma_best_rank_nonneg(kinds, p, n - 1);
    }
}

/// The finest level among offered kinds that are wanted is no coarser than
/// that of any one of them.
proof fn lemma_best_level_bound(kinds: Seq<LyricsKind>, w: Seq<LyricsKind>, n: int, j: int)
    requires
        0 <= j < n <= kinds.len(),
        w.contains(kinds[j]),
    ensures
        best_level_of(kinds, w, n) matches Some(b) && b <= level_rank(kind_max_level(kinds[j])),
    decreases n,
{
    if j < n - 1 {
        lemma_best_level_bound(kinds, w, n - 1, j);
    }
}

proof fn lemma_best_level_nonneg(kinds: Seq<LyricsKind>, w: Seq<LyricsKind>, n: int)
    requires
        n <= kinds.len(),
    ensures
        best_level_of(kinds, w, n) matches Some(b) ==> 0 <= b <= 2,
    decreases n,
{
    if n > 0 {
        lemma_best_level_nonneg(kinds, w, n - 1);
    }
}

/// Skipping a provider that is not worth asking loses nothing: lyrics of a
/// kind it serves (and, when ranking by timing, a kind the configuration
/// asks for) rank no better than the best lyrics so far, so after them the
/// search keeps the best it had. Instrumental lyrics are left out: they end
/// a ranked search whatever the ranks.
pub proof fn skipped_providers_could_not_improve(
    ranker: Ranker,
    s: RankedSearch,
    kinds: Seq<LyricsKind>,
    l: Lyrics,
)
    requires
        s.best is Some,
        ceiling_of(ranker.basis, kinds) matches Some(ceil) && !rank_lt(ceil, s.best->0.rank),
        kinds.contains(lyrics_kind(l)),
        ranker.basis matches Basis::SyncLevel(w) ==> w@.contains(lyrics_kind(l)),
        !(l is Instrumental),
    ensures
        !rank_lt(rank_of(ranker.basis, ranker.prefer_uncensored, l), s.best->0.rank),
        ranked_step(ranker, s, ProviderFetch::Lyrics(l)) matches SearchStep::Continue(next)
            ==> next.best == s.best,
        ranked_step(ranker, s, ProviderFetch::Lyrics(l)) matches SearchStep::Done(o) ==> o
            == Outcome::Found(s.best->0.lyrics),
{
    let k = lyrics_kind(l);
    let j = choose|j: int| 0 <= j < kinds.len() && kinds[j] == k;
    match ranker.basis {
        Basis::TypePriority(p) => {
            assert(p@.len() == p.len());
            lemma_kind_index(p@, k);
            lemma_best_rank_nonneg(kinds, p@, kinds.len() as int);
            if kind_index(p@, k) is Some {
                lemma_best_rank_bound(kinds, p@, kinds.len() as int, j);
            }
        },
        Basis::SyncLevel(w) => {
            lemma_best_level_bound(kinds, w@, kinds.len() as int, j);
            lemma_best_level_nonneg(kinds, w@, kinds.len() as int);
            assert(level_rank(lyrics_level(l)) >= level_rank(kind_max_level(k)));
        },
    }
}


// ---------------------------------------------------------------------------
// Whole searches over the providers' answers

/// What a first-found search reports, the providers answering in turn with
/// `fetches`: the first lyrics end it; once every provider answered it
/// reports an error when one failed, a plain miss otherwise.
pub open spec fn first_found_run(s: FirstFound, fetches: Seq<ProviderFetch>) -> Outcome
    decreases fetches.len(),
{
    if fetches.len() == 0 {
        if s.had_error {
            Outcome::ProviderError
        } else {
            Outcome::NotFound
        }
    } else {
        match fetches[0] {
            ProviderFetch::Lyrics(l) => Outcome::Found(l),
            ProviderFetch::Error => first_found_run(FirstFound { had_error: true }, fetches.skip(1)),
            ProviderFetch::Empty => first_found_run(s, fetches.skip(1)),
        }
    }
}

/// One answer of a first-found search is the step `FirstFound::after` takes.
pub proof fn first_found_run_steps(s: FirstFound, fetches: Seq<ProviderFetch>)
    requires
        fetches.len() > 0,
    ensures
        first_found_run(s, fetches) == match fetches[0] {
            ProviderFetch::Lyrics(l) => Outcome::Found(l),
            ProviderFetch::Error => first_found_run(FirstFound { had_error: true }, fetches.skip(1)),
            ProviderFetch::Empty => first_found_run(s, fetches.skip(1)),
        },
{
}

/// The priority and rotation modes: the search reports the lyrics of the
/// first provider that has some, and what later providers would answer does
/// not matter (they are not asked); when none has lyrics, it reports an error
/// exactly when a provider failed, and a plain miss otherwise.
pub proof fn first_found_takes_the_first_lyrics(fetches: Seq<ProviderFetch>)
    ensures
        forall|i: int|
            0 <= i < fetches.len() && fetches[i] is Lyrics && (forall|j: int|
                0 <= j < i ==> !(#[trigger] fetches[j] is Lyrics)) ==> first_found_run(
                FirstFound { had_error: false },
                fetches,
            ) == Outcome::Found(fetches[i]->Lyrics_0) && first_found_run(
                FirstFound { had_error: false },
                fetches,
            ) == first_found_run(FirstFound { had_error: false }, fetches.take(i + 1)),
        (forall|j: int| 0 <= j < fetches.len() ==> !(#[trigger] fetches[j] is Lyrics)) ==> first_found_run(
            FirstFound { had_error: false },
            fetches,
        ) == if exists|j: int| 0 <= j < fetches.len() && #[trigger] fetches[j] is Error {
            Outcome::ProviderError
        } else {
            Outcome::NotFound
        },
{
    assert forall|i: int|
        0 <= i < fetches.len() && fetches[i] is Lyrics && (forall|j: int|
            0 <= j < i ==> !(#[trigger] fetches[j] is Lyrics)) implies first_found_run(
        FirstFound { had_error: false },
        fetches,
    ) == Outcome::Found(fetches[i]->Lyrics_0) && first_found_run(
        FirstFound { had_error: false },
        fetches,
    ) == first_found_run(FirstFound { had_error: false }, fetches.take(i + 1)) by {
        lemma_first_found_at(FirstFound { had_error: false }, fetches, i);
        lemma_first_found_at(FirstFound { had_error: false }, fetches.take(i + 1), i);
    }
    if forall|j: int| 0 <= j < fetches.len() ==> !(#[trigger] fetches[j] is Lyrics) {
        lemma_first_found_none(FirstFound { had_error: false }, fetches);
    }
}

proof fn lemma_first_found_at(s: FirstFound, fetches: Seq<ProviderFetch>, i: int)
    requires
        0 <= i < fetches.len(),
        fetches[i] is Lyrics,
        forall|j: int| 0 <= j < i ==> !(#[trigger] fetches[j] is Lyrics),
    ensures
        first_found_run(s, fetches) == Outcome::Found(fetches[i]->Lyrics_0),
    decreases i,
{
    if i > 0 {
        assert(!(fetches[0] is Lyrics));
        let t = fetches.skip(1);
        assert forall|j: int| 0 <= j < i - 1 implies !(#[trigger] t[j] is Lyrics) by {
            assert(t[j] == fetches[j + 1]);
        }
        assert(t[i - 1] == fetches[i]);
        lemma_first_found_at(FirstFound { had_error: true }, t, i - 1);
        lemma_first_found_at(s, t, i - 1);
    }
}

proof fn lemma_first_found_none(s: FirstFound, fetches: Seq<ProviderFetch>)
    requires
        forall|j: int| 0 <= j < fetches.len() ==> !(#[trigger] fetches[j] is Lyrics),
    ensures
        first_found_run(s, fetches) == if s.had_error || exists|j: int|
            0 <= j < fetches.len() && #[trigger] fetches[j] is Error {
            Outcome::ProviderError
        } else {
            Outcome::NotFound
        },
    decreases fetches.len(),
{
    if fetches.len() > 0 {
        let t = fetches.skip(1);
        assert forall|j: int| 0 <= j < t.len() implies !(#[trigger] t[j] is Lyrics) by {
            assert(t[j] == fetches[j + 1]);
        }
        lemma_first_found_none(FirstFound { had_error: true }, t);
        lemma_first_found_none(s, t);
        if exists|j: int| 0 <= j < t.len() && #[trigger] t[j] is Error {
            let j = choose|j: int| 0 <= j < t.len() && #[trigger] t[j] is Error;
            assert(fetches[j + 1] is Error);
        }
        if exists|j: int| 0 <= j < fetches.len() && #[trigger] fetches[j] is Error {
            let j = choose|j: int| 0 <= j < fetches.len() && #[trigger] fetches[j] is Error;
            if j > 0 {
                assert(t[j - 1] is Error);
            }
        }
    }
}

/// What a ranked search reports, the providers coming in turn as `ps`: each
/// with the kinds it serves and what it would answer if asked. A provider
/// that could not improve on the best so far is not asked.
pub open spec fn ranked_run(
    ranker: Ranker,
    s: RankedSearch,
    ps: Seq<(Seq<LyricsKind>, ProviderFetch)>,
) -> Outcome
    decreases ps.len(),
{
    if ps.len() == 0 {
        ranked_finish(s)
    } else if !worth_spec(ranker, s, ps[0].0) {
        ranked_run(ranker, s, ps.skip(1))
    } else {
        match ranked_step(ranker, s, ps[0].1) {
            SearchStep::Done(o) => o,
            SearchStep::Continue(next) => ranked_run(ranker, next, ps.skip(1)),
        }
    }
}

/// A provider's lyrics, if any, are of a kind it serves (and, when ranking
/// by timing, of a kind the configuration asks for).
pub open spec fn in_kinds(ranker: Ranker, p: (Seq<LyricsKind>, ProviderFetch)) -> bool {
    match p.1 {
        ProviderFetch::Lyrics(m) => {
            &&& p.0.contains(lyrics_kind(m))
            &&& (ranker.basis matches Basis::SyncLevel(w) ==> w@.contains(lyrics_kind(m)))
        },
        _ => true,
    }
}

/// No provider answers with instrumental lyrics.
pub open spec fn no_instrumental(ps: Seq<(Seq<LyricsKind>, ProviderFetch)>) -> bool {
    forall|i: int| 0 <= i < ps.len() ==> !((#[trigger] ps[i]).1 matches ProviderFetch::Lyrics(m) && m is Instrumental)
}

/// The provider's lyrics, if it has lyrics of a kind it serves, rank no
/// better than `r`. (A provider that answers with a kind it does not list
/// may be passed over when it cannot improve on what was found.)
pub open spec fn none_better(ranker: Ranker, p: (Seq<LyricsKind>, ProviderFetch), r: Rank) -> bool {
    match p.1 {
        ProviderFetch::Lyrics(m) => in_kinds(ranker, p) ==> !rank_lt(rank_of(ranker.basis, ranker.prefer_uncensored, m), r),
        _ => true,
    }
}

/// The provider's lyrics, if it has lyrics of a kind it serves, rank
/// strictly worse than `r`.
pub open spec fn all_worse(ranker: Ranker, p: (Seq<LyricsKind>, ProviderFetch), r: Rank) -> bool {
    match p.1 {
        ProviderFetch::Lyrics(m) => in_kinds(ranker, p) ==> rank_lt(r, rank_of(ranker.basis, ranker.prefer_uncensored, m)),
        _ => true,
    }
}

pub open spec fn lyrics_at(ps: Seq<(Seq<LyricsKind>, ProviderFetch)>, i: int, l: Lyrics) -> bool {
    ps[i].1 == ProviderFetch::Lyrics(l)
}

/// Lyrics `l` come from provider `i`: they rank strictly better than the
/// best held in `s`, strictly better than those of every earlier provider,
/// and no worse than those of any provider (lyrics counted as in
/// `none_better` and `all_worse`).
pub open spec fn best_from(
    ranker: Ranker,
    s: RankedSearch,
    ps: Seq<(Seq<LyricsKind>, ProviderFetch)>,
    l: Lyrics,
    i: int,
) -> bool {
    let r = rank_of(ranker.basis, ranker.prefer_uncensored, l);
    &&& 0 <= i < ps.len()
    &&& lyrics_at(ps, i, l)
    &&& (s.best matches Some(c) ==> rank_lt(r, c.rank))
    &&& forall|j: int| 0 <= j < i ==> all_worse(ranker, #[trigger] ps[j], r)
    &&& forall|j: int| 0 <= j < ps.len() ==> none_better(ranker, #[trigger] ps[j], r)
}

/// What a ranked search yields from state `s`: the best lyrics it holds,
/// when no provider has better; or lyrics of some provider, as `best_from`.
pub open spec fn ranked_result(
    ranker: Ranker,
    s: RankedSearch,
    ps: Seq<(Seq<LyricsKind>, ProviderFetch)>,
    l: Lyrics,
) -> bool {
    ||| (s.best matches Some(c) && l == c.lyrics && forall|j: int|
        0 <= j < ps.len() ==> none_better(ranker, #[trigger] ps[j], c.rank))
    ||| exists|i: int| best_from(ranker, s, ps, l, i)
}

/// A result of the rest of the providers, from a state that holds the same
/// best lyrics, is a result of all of them when the first provider's
/// lyrics (if any) rank no better than those held.
proof fn lift_ranked_result(
    ranker: Ranker,
    s: RankedSearch,
    next: RankedSearch,
    ps: Seq<(Seq<LyricsKind>, ProviderFetch)>,
    l: Lyrics,
)
    requires
        ps.len() > 0,
        next.best == s.best,
        ranked_result(ranker, next, ps.skip(1), l),
        !(ps[0].1 is Lyrics) || (s.best matches Some(c) && none_better(ranker, ps[0], c.rank)),
    ensures
        ranked_result(ranker, s, ps, l),
{
    let t = ps.skip(1);
    if s.best matches Some(c) && l == c.lyrics && forall|j: int|
        0 <= j < t.len() ==> none_better(ranker, #[trigger] t[j], c.rank) {
        let c = s.best->0;
        assert forall|j: int| 0 <= j < ps.len() implies none_better(ranker, #[trigger] ps[j], c.rank) by {
            if j > 0 {
                assert(t[j - 1] == ps[j]);
            }
        }
    } else {
        let i = choose|i: int| best_from(ranker, next, t, l, i);
        lift_best_from(ranker, s, next, ps, l, i);
    }
}

proof fn lift_best_from(
    ranker: Ranker,
    s: RankedSearch,
    next: RankedSearch,
    ps: Seq<(Seq<LyricsKind>, ProviderFetch)>,
    l: Lyrics,
    i: int,
)
    requires
        ps.len() > 0,
        best_from(ranker, next, ps.skip(1), l, i),
        s.best matches Some(c) ==> next.best matches Some(n) && !rank_lt(c.rank, n.rank),
        s.best is None && next.best is Some ==> none_better(ranker, ps[0], next.best->0.rank),
        next.best matches Some(n) ==> none_better(ranker, ps[0], n.rank),
        next.best is None ==> !(ps[0].1 is Lyrics),
    ensures
        best_from(ranker, s, ps, l, i + 1),
{
    let t = ps.skip(1);
    let r = rank_of(ranker.basis, ranker.prefer_uncensored, l);
    assert(t[i] == ps[i + 1]);
    assert forall|j: int| 0 <= j < i + 1 implies all_worse(ranker, #[trigger] ps[j], r) by {
        if j > 0 {
            assert(t[j - 1] == ps[j]);
        }
    }
    assert forall|j: int| 0 <= j < ps.len() implies none_better(ranker, #[trigger] ps[j], r) by {
        if j > 0 {
            assert(t[j - 1] == ps[j]);
        }
    }
}

proof fn lemma_ranked_run(ranker: Ranker, s: RankedSearch, ps: Seq<(Seq<LyricsKind>, ProviderFetch)>)
    requires
        no_instrumental(ps),
    ensures
        ranked_run(ranker, s, ps) matches Outcome::Found(l) ==> ranked_result(ranker, s, ps, l),
    decreases ps.len(),
{
    if ps.len() == 0 {
        return;
    }
    let t = ps.skip(1);
    assert(no_instrumental(t)) by {
        assert forall|i: int| 0 <= i < t.len() implies !((#[trigger] t[i]).1 matches ProviderFetch::Lyrics(m) && m is Instrumental) by {
            assert(ps[i + 1] == t[i]);
        }
    }
    assert(!(ps[0].1 matches ProviderFetch::Lyrics(m) && m is Instrumental));
    if !worth_spec(ranker, s, ps[0].0) {
        lemma_ranked_run(ranker, s, t);
        if let ProviderFetch::Lyrics(m0) = ps[0].1 {
            if in_kinds(ranker, ps[0]) {
                skipped_providers_could_not_improve(ranker, s, ps[0].0, m0);
            }
        }
        if let Outcome::Found(l) = ranked_run(ranker, s, ps) {
            lift_ranked_result(ranker, s, s, ps, l);
        }
    } else {
        match ps[0].1 {
            ProviderFetch::Error => {
                let next = RankedSearch { best: s.best, had_error: true };
                lemma_ranked_run(ranker, next, t);
                if let Outcome::Found(l) = ranked_run(ranker, s, ps) {
                    lift_ranked_result(ranker, s, next, ps, l);
                }
            },
            ProviderFetch::Empty => {
                lemma_ranked_run(ranker, s, t);
                if let Outcome::Found(l) = ranked_run(ranker, s, ps) {
                    lift_ranked_result(ranker, s, s, ps, l);
                }
            },
            ProviderFetch::Lyrics(l0) => {
                let r0 = rank_of(ranker.basis, ranker.prefer_uncensored, l0);
                let kept = match s.best {
                    Some(c) => if rank_lt(r0, c.rank) {
                        Candidate { lyrics: l0, rank: r0 }
                    } else {
                        c
                    },
                    None => Candidate { lyrics: l0, rank: r0 },
                };
                let fresh = match s.best {
                    Some(c) => rank_lt(r0, c.rank),
                    None => true,
                };
                if r0 == Rank::best_spec() {
                    if let Outcome::Found(l) = ranked_run(ranker, s, ps) {
                        assert(l == kept.lyrics);
                        if fresh {
                            assert forall|j: int| 0 <= j < ps.len() implies none_better(ranker, #[trigger] ps[j], r0) by {}
                            assert(best_from(ranker, s, ps, l, 0));
                        } else {
                            let c = s.best->0;
                            assert forall|j: int| 0 <= j < ps.len() implies none_better(ranker, #[trigger] ps[j], c.rank) by {}
                        }
                    }
                } else {
                    let next = RankedSearch { best: Some(kept), had_error: s.had_error };
                    lemma_ranked_run(ranker, next, t);
                    if let Outcome::Found(l) = ranked_run(ranker, s, ps) {
                        assert(ranked_run(ranker, s, ps) == ranked_run(ranker, next, t));
                        assert(ranked_result(ranker, next, t, l));
                        if l == kept.lyrics && (forall|j: int|
                            0 <= j < t.len() ==> none_better(ranker, #[trigger] t[j], kept.rank)) {
                            assert forall|j: int| 0 <= j < ps.len() implies none_better(ranker, #[trigger] ps[j], kept.rank) by {
                                if j > 0 {
                                    assert(t[j - 1] == ps[j]);
                                }
                            }
                            if fresh {
                                assert(best_from(ranker, s, ps, l, 0));
                            }
                        } else {
                            let i = choose|i: int| best_from(ranker, next, t, l, i);
                            lift_best_from(ranker, s, next, ps, l, i);
                        }
                    }
                }
            },
        }
    }
}

/// The answer is instrumental lyrics.
pub open spec fn instrumental_answer(f: ProviderFetch) -> bool {
    f matches ProviderFetch::Lyrics(m) && m is Instrumental
}

/// A ranked search that holds lyrics reports lyrics.
proof fn lemma_held_lyrics_stay(ranker: Ranker, s: RankedSearch, ps: Seq<(Seq<LyricsKind>, ProviderFetch)>)
    requires
        s.best is Some,
    ensures
        ranked_run(ranker, s, ps) is Found,
    decreases ps.len(),
{
    if ps.len() > 0 {
        let t = ps.skip(1);
        lemma_held_lyrics_stay(ranker, s, t);
        lemma_held_lyrics_stay(ranker, RankedSearch { best: s.best, had_error: true }, t);
        if let ProviderFetch::Lyrics(l0) = ps[0].1 {
            if let SearchStep::Continue(next) = ranked_step(ranker, s, ps[0].1) {
                lemma_held_lyrics_stay(ranker, next, t);
            }
        }
    }
}

/// A ranked search that holds nothing yet asks every provider until one
/// has lyrics; with lyrics anywhere it reports lyrics, and without any it
/// reports an error exactly when it had seen one or a provider fails.
proof fn lemma_ranked_from_nothing(ranker: Ranker, s: RankedSearch, ps: Seq<(Seq<LyricsKind>, ProviderFetch)>)
    requires
        s.best is None,
    ensures
        (exists|i: int| 0 <= i < ps.len() && (#[trigger] ps[i]).1 is Lyrics) ==> ranked_run(ranker, s, ps) is Found,
        (forall|i: int| 0 <= i < ps.len() ==> !((#[trigger] ps[i]).1 is Lyrics)) ==> ranked_run(ranker, s, ps) == if s.had_error
            || exists|i: int| 0 <= i < ps.len() && (#[trigger] ps[i]).1 is Error {
            Outcome::ProviderError
        } else {
            Outcome::NotFound
        },
        forall|i: int|
            0 <= i < ps.len() && instrumental_answer((#[trigger] ps[i]).1)
                && (forall|j: int| 0 <= j < i ==> !((#[trigger] ps[j]).1 is Lyrics)) ==> ranked_run(ranker, s, ps)
                == Outcome::Found(ps[i].1->Lyrics_0),
    decreases ps.len(),
{
    if ps.len() == 0 {
        return;
    }
    let t = ps.skip(1);
    assert forall|i: int| 0 <= i < t.len() implies #[trigger] t[i] == ps[i + 1] by {}
    let e = RankedSearch { best: None, had_error: true };
    lemma_ranked_from_nothing(ranker, s, t);
    lemma_ranked_from_nothing(ranker, e, t);
    assert(worth_spec(ranker, s, ps[0].0));
    match ps[0].1 {
        ProviderFetch::Lyrics(l0) => {
            if let SearchStep::Continue(next) = ranked_step(ranker, s, ps[0].1) {
                lemma_held_lyrics_stay(ranker, next, t);
            }
        },
        ProviderFetch::Error => {
            assert(ranked_run(ranker, s, ps) == ranked_run(ranker, e, t));
        },
        ProviderFetch::Empty => {
            assert(ranked_run(ranker, s, ps) == ranked_run(ranker, s, t));
        },
    }
    if exists|i: int| 0 <= i < ps.len() && (#[trigger] ps[i]).1 is Lyrics {
        let i = choose|i: int| 0 <= i < ps.len() && (#[trigger] ps[i]).1 is Lyrics;
        if i > 0 {
            assert(t[i - 1].1 is Lyrics);
        }
    }
    if forall|i: int| 0 <= i < ps.len() ==> !((#[trigger] ps[i]).1 is Lyrics) {
        assert forall|i: int| 0 <= i < t.len() implies !((#[trigger] t[i]).1 is Lyrics) by {
            assert(t[i] == ps[i + 1]);
        }
        if exists|i: int| 0 <= i < t.len() && (#[trigger] t[i]).1 is Error {
            let i = choose|i: int| 0 <= i < t.len() && (#[trigger] t[i]).1 is Error;
            assert(ps[i + 1].1 is Error);
        }
        if exists|i: int| 0 <= i < ps.len() && (#[trigger] ps[i]).1 is Error {
            let i = choose|i: int| 0 <= i < ps.len() && (#[trigger] ps[i]).1 is Error;
            if i > 0 {
                assert(t[i - 1].1 is Error);
            }
        }
    }
    assert forall|i: int|
        0 <= i < ps.len() && instrumental_answer((#[trigger] ps[i]).1)
            && (forall|j: int| 0 <= j < i ==> !((#[trigger] ps[j]).1 is Lyrics)) implies ranked_run(ranker, s, ps)
            == Outcome::Found(ps[i].1->Lyrics_0) by {
        if i > 0 {
            assert(!(ps[0].1 is Lyrics));
            assert(t[i - 1] == ps[i]);
            assert forall|j: int| 0 <= j < i - 1 implies !((#[trigger] t[j]).1 is Lyrics) by {
                assert(t[j] == ps[j + 1]);
            }
        }
    }
}

/// The type-priority and sync-level modes, over a whole search: each
/// provider comes in turn with the kinds it serves and what it would answer.
/// When no provider answers with instrumental lyrics (those end the search
/// at once) and some provider has lyrics, the search reports lyrics of a
/// provider that rank strictly better than those of every earlier provider
/// (so on a tie the earlier provider wins) and no worse than any provider's,
/// counting all lyrics of a kind their provider lists (lyrics of another
/// kind count only when their provider was asked). When none has lyrics, it
/// reports an error exactly when a provider failed, and a plain miss
/// otherwise.
pub proof fn best_of_reports_the_best_lyrics(ranker: Ranker, ps: Seq<(Seq<LyricsKind>, ProviderFetch)>)
    requires
        no_instrumental(ps),
    ensures
        ({
            let s = RankedSearch { best: None, had_error: false };
            &&& (exists|i: int| 0 <= i < ps.len() && (#[trigger] ps[i]).1 is Lyrics) ==> (ranked_run(ranker, s, ps)
                matches Outcome::Found(l) && exists|i: int| best_from(ranker, s, ps, l, i))
            &&& (forall|i: int| 0 <= i < ps.len() ==> !((#[trigger] ps[i]).1 is Lyrics)) ==> ranked_run(ranker, s, ps)
                == if exists|i: int| 0 <= i < ps.len() && (#[trigger] ps[i]).1 is Error {
                Outcome::ProviderError
            } else {
                Outcome::NotFound
            }
        }),
{
    let s = RankedSearch { best: None, had_error: false };
    lemma_ranked_from_nothing(ranker, s, ps);
    lemma_ranked_run(ranker, s, ps);
}

/// Instrumental lyrics end a ranked search: when the first provider that
/// has lyrics has instrumental ones, the search reports them.
pub proof fn instrumental_lyrics_end_the_search(ranker: Ranker, ps: Seq<(Seq<LyricsKind>, ProviderFetch)>, i: int)
    requires
        0 <= i < ps.len(),
        instrumental_answer(ps[i].1),
        forall|j: int| 0 <= j < i ==> !((#[trigger] ps[j]).1 is Lyrics),
    ensures
        ranked_run(ranker, RankedSearch { best: None, had_error: false }, ps) == Outcome::Found(
            ps[i].1->Lyrics_0,
        ),
{
    lemma_ranked_from_nothing(ranker, RankedSearch { best: None, had_error: false }, ps);
}

} // verus!
