//! Ranking lyrics from different providers against each other.
use vstd::prelude::*;
use crate::config::PluginConfig;
use crate::config::providers::ProviderMode;
use crate::format::censor::censored;
use crate::text::{chars_of, push_all, string_of};
use crate::types::{
    Lyrics, LyricsKind, SyncLevel, kind_max_level, kind_slug, level_rank, level_slug,
    lyrics_kind, lyrics_level, lyrics_text,
};

verus! {

/// How good lyrics are: a lower `primary` is better, and at the same level
/// uncensored lyrics beat censored ones (when that is asked for).
#[derive(Clone, Copy, Debug, PartialEq, Eq, Structural, PartialOrd, Ord)]
pub struct Rank {
    pub primary: usize,
    pub censored: bool,
}

/// `a` ranks strictly better than `b`, in the order `derive(Ord)` gives.
pub open spec fn rank_lt(a: Rank, b: Rank) -> bool {
    a.primary < b.primary || (a.primary == b.primary && !a.censored && b.censored)
}

impl Rank {
    /// The best rank there is: first in the order, uncensored.
    pub open spec fn best_spec() -> Rank {
        Rank { primary: 0, censored: false }
    }

    pub fn best() -> (r: Rank)
        ensures
            r == Rank::best_spec(),
    {
        Rank { primary: 0, censored: false }
    }

    pub fn is_censored(&self) -> (r: bool)
        ensures
            r == self.censored,
    {
        self.censored
    }

    /// Whether this rank is strictly better than `other`.
    pub fn better_than(&self, other: &Rank) -> (r: bool)
        ensures
            r == rank_lt(*self, *other),
    {
        self.primary < other.primary || (self.primary == other.primary && !self.censored
            && other.censored)
    }
}

/// Ranks are strictly ordered, and censoring only breaks ties within a
/// level: between different levels the level alone decides; within one,
/// uncensored lyrics beat censored ones and nothing else beats anything.
pub proof fn censoring_only_breaks_ties(a: Rank, b: Rank, c: Rank)
    ensures
        !rank_lt(a, a),
        rank_lt(a, b) ==> !rank_lt(b, a),
        rank_lt(a, b) && rank_lt(b, c) ==> rank_lt(a, c),
        a.primary != b.primary ==> (rank_lt(a, b) <==> a.primary < b.primary),
        a.primary == b.primary ==> (rank_lt(a, b) <==> !a.censored && b.censored),
        !rank_lt(a, b) && !rank_lt(b, a) ==> a == b,
{
}

/// What ranks lyrics: their place in the configured order of kinds, or how
/// finely they are timed (among the configured kinds).
pub enum Basis<'a> {
    TypePriority(&'a [LyricsKind]),
    SyncLevel(&'a [LyricsKind]),
}

pub struct Ranker<'a> {
    pub basis: Basis<'a>,
    pub prefer_uncensored: bool,
}

/// The first position of `k` in `p`.
pub open spec fn kind_index(p: Seq<LyricsKind>, k: LyricsKind) -> Option<int>
    decreases p.len(),
{
    if p.len() == 0 {
        None
    } else if p[0] == k {
        Some(0)
    } else {
        match kind_index(p.drop_first(), k) {
            Some(i) => Some(i + 1),
            None => None,
        }
    }
}

/// The position of a kind in the order, `usize::MAX` when it is absent.
pub open spec fn kind_rank_of(k: LyricsKind, p: Seq<LyricsKind>) -> int {
    match kind_index(p, k) {
        Some(i) => i,
        None => usize::MAX as int,
    }
}

pub open spec fn min_opt(a: Option<int>, b: int) -> Option<int> {
    match a {
        Some(x) => Some(if x <= b {
            x
        } else {
            b
        }),
        None => Some(b),
    }
}

/// The best position among the first `n` offered kinds that are in the order.
pub open spec fn best_rank_of(kinds: Seq<LyricsKind>, p: Seq<LyricsKind>, n: int) -> Option<int>
    decreases n,
{
    if n <= 0 {
        None
    } else {
        let prev = best_rank_of(kinds, p, n - 1);
        match kind_index(p, kinds[n - 1]) {
            Some(i) => min_opt(prev, i),
            None => prev,
        }
    }
}

/// The finest level among the first `n` offered kinds that are wanted.
pub open spec fn best_level_of(kinds: Seq<LyricsKind>, wanted: Seq<LyricsKind>, n: int) -> Option<
    int,
>
    decreases n,
{
    if n <= 0 {
        None
    } else {
        let prev = best_level_of(kinds, wanted, n - 1);
        if wanted.contains(kinds[n - 1]) {
            min_opt(prev, level_rank(kind_max_level(kinds[n - 1])) as int)
        } else {
            prev
        }
    }
}

pub proof fn lemma_kind_index(p: Seq<LyricsKind>, k: LyricsKind)
    ensures
        kind_index(p, k) matches Some(i) ==> 0 <= i < p.len() && p[i] == k && forall|j: int|
            0 <= j < i ==> #[trigger] p[j] != k,
        kind_index(p, k) is None ==> !p.contains(k),
    decreases p.len(),
{
    if p.len() > 0 && p[0] != k {
        lemma_kind_index(p.drop_first(), k);
        assert forall|j: int| 1 <= j < p.len() implies #[trigger] p[j] == p.drop_first()[j - 1] by {}
        if kind_index(p, k) is None {
            assert forall|j: int| 0 <= j < p.len() implies p[j] != k by {
                if j > 0 {
                    assert(p[j] == p.drop_first()[j - 1]);
                }
            }
        }
    }
}

/// The position of `kind` in `priority`, `usize::MAX` when it is absent.
pub fn kind_rank(kind: LyricsKind, priority: &[LyricsKind]) -> (r: usize)
    ensures
        r == kind_rank_of(kind, priority@),
        (r == usize::MAX) == kind_index(priority@, kind) is None,
{
    let mut i: usize = 0;
    while i < priority.len()
        invariant
            i <= priority@.len(),
            forall|j: int| 0 <= j < i ==> priority@[j] != kind,
        decreases priority.len() - i,
    {
        if priority[i] == kind {
            proof {
                lemma_kind_index(priority@, kind);
                if let Some(q) = kind_index(priority@, kind) {
                    assert(q == i);
                }
            }
            return i;
        }
        i = i + 1;
    }
    proof {
        lemma_kind_index(priority@, kind);
    }
    usize::MAX
}

/// The best position in `priority` of any of `kinds`, if one is there.
pub fn best_rank_for(kinds: &[LyricsKind], priority: &[LyricsKind]) -> (r: Option<usize>)
    ensures
        match r {
            Some(v) => best_rank_of(kinds@, priority@, kinds@.len() as int) == Some(v as int),
            None => best_rank_of(kinds@, priority@, kinds@.len() as int) is None,
        },
{
    let mut best: Option<usize> = None;
    let mut i: usize = 0;
    while i < kinds.len()
        invariant
            i <= kinds@.len(),
            match best {
                Some(v) => best_rank_of(kinds@, priority@, i as int) == Some(v as int),
                None => best_rank_of(kinds@, priority@, i as int) is None,
            },
        decreases kinds.len() - i,
    {
        let rank = kind_rank(kinds[i], priority);
        proof {
            lemma_kind_index(priority@, kinds@[i as int]);
            let prev = best_rank_of(kinds@, priority@, i as int);
            assert(best_rank_of(kinds@, priority@, i + 1) == match kind_index(
                priority@,
                kinds@[i as int],
            ) {
                Some(j) => min_opt(prev, j),
                None => prev,
            });
        }
        if rank != usize::MAX {
            best = match best {
                Some(b) => Some(
                    if b <= rank {
                        b
                    } else {
                        rank
                    },
                ),
                None => Some(rank),
            };
        }
        i = i + 1;
    }
    best
}

fn contains_kind(v: &[LyricsKind], k: LyricsKind) -> (r: bool)
    ensures
        r == v@.contains(k),
{
    let mut i: usize = 0;
    while i < v.len()
        invariant
            i <= v@.len(),
            forall|j: int| 0 <= j < i ==> v@[j] != k,
        decreases v.len() - i,
    {
        if v[i] == k {
            return true;
        }
        i = i + 1;
    }
    false
}

/// The rank of lyrics under a ranker.
pub open spec fn rank_of(basis: Basis, prefer_uncensored: bool, l: Lyrics) -> Rank {
    Rank {
        primary: match basis {
            Basis::TypePriority(p) => kind_rank_of(lyrics_kind(l), p@) as usize,
            Basis::SyncLevel(_) => level_rank(lyrics_level(l)) as usize,
        },
        censored: prefer_uncensored && match lyrics_text(l) {
            Some(s) => censored(s),
            None => false,
        },
    }
}

/// The best rank lyrics from a provider serving `kinds` could reach.
pub open spec fn ceiling_of(basis: Basis, kinds: Seq<LyricsKind>) -> Option<Rank> {
    let primary = match basis {
        Basis::TypePriority(p) => best_rank_of(kinds, p@, kinds.len() as int),
        Basis::SyncLevel(w) => best_level_of(kinds, w@, kinds.len() as int),
    };
    match primary {
        Some(v) => Some(Rank { primary: v as usize, censored: false }),
        None => None,
    }
}

/// The name of a rank's level.
pub open spec fn primary_name(basis: Basis, primary: usize) -> Option<Seq<char>> {
    match basis {
        Basis::TypePriority(p) => if primary < p@.len() {
            Some(kind_slug(p@[primary as int]))
        } else {
            None
        },
        Basis::SyncLevel(_) => if primary == 0 {
            Some(level_slug(SyncLevel::Word))
        } else if primary == 1 {
            Some(level_slug(SyncLevel::Line))
        } else if primary == 2 {
            Some(level_slug(SyncLevel::Plain))
        } else {
            None
        },
    }
}

pub open spec fn description(name: Option<Seq<char>>, censored: bool) -> Seq<char> {
    match name {
        None => "none"@,
        Some(n) => if censored {
            "censored "@ + n
        } else {
            n
        },
    }
}

impl<'a> Ranker<'a> {
    /// The ranker of the ranking modes; `None` in the priority and rotation
    /// modes, which take the first lyrics found.
    pub fn for_mode(cfg: &'a PluginConfig) -> (r: Option<Ranker<'a>>)
        ensures
            match cfg.provider_mode {
                ProviderMode::TypePriority => r matches Some(rk) && rk.basis matches Basis::TypePriority(
                    p,
                ) && p@ == cfg.lyrics_type_priority@ && rk.prefer_uncensored == cfg.prefer_uncensored,
                ProviderMode::BestSyncLevel => r matches Some(rk) && rk.basis matches Basis::SyncLevel(
                    p,
                ) && p@ == cfg.lyrics_type_priority@ && rk.prefer_uncensored == cfg.prefer_uncensored,
                _ => r is None,
            },
    {
        let priority = cfg.lyrics_type_priority.as_slice();
        let basis = match cfg.provider_mode {
            ProviderMode::TypePriority => Basis::TypePriority(priority),
            ProviderMode::BestSyncLevel => Basis::SyncLevel(priority),
            _ => return None,
        };
        Some(Ranker { basis, prefer_uncensored: cfg.prefer_uncensored })
    }

    pub fn rank(&self, lyrics: &Lyrics) -> (r: Rank)
        ensures
            r == rank_of(self.basis, self.prefer_uncensored, *lyrics),
    {
        let primary = match &self.basis {
            Basis::TypePriority(priority) => kind_rank(lyrics.kind(), priority),
            Basis::SyncLevel(_) => lyrics.sync_level().rank(),
        };
        let censored = self.prefer_uncensored && lyrics.is_censored();
        Rank { primary, censored }
    }

    /// The best rank a provider serving `kinds` could reach; `None` when it
    /// serves none of the kinds that count.
    pub fn ceiling(&self, kinds: &[LyricsKind]) -> (r: Option<Rank>)
        ensures
            r == ceiling_of(self.basis, kinds@),
    {
        let primary = match &self.basis {
            Basis::TypePriority(priority) => best_rank_for(kinds, priority),
            Basis::SyncLevel(wanted) => {
                let mut best: Option<usize> = None;
                let mut i: usize = 0;
                while i < kinds.len()
                    invariant
                        i <= kinds@.len(),
                        match best {
                            Some(v) => best_level_of(kinds@, wanted@, i as int) == Some(v as int),
                            None => best_level_of(kinds@, wanted@, i as int) is None,
                        },
                    decreases kinds.len() - i,
                {
                    if contains_kind(wanted, kinds[i]) {
                        let level = kinds[i].max_sync_level().rank();
                        best = match best {
                            Some(b) => Some(
                                if b <= level {
                                    b
                                } else {
                                    level
                                },
                            ),
                            None => Some(level),
                        };
                    }
                    i = i + 1;
                }
                best
            },
        };
        match primary {
            Some(v) => Some(Rank { primary: v, censored: false }),
            None => None,
        }
    }

    /// A rank in words: the kind or the sync level, marked when censored.
    pub fn describe(&self, rank: Rank) -> (r: String)
        ensures
            r@ == description(primary_name(self.basis, rank.primary), rank.censored),
    {
        let name: Option<&str> = match &self.basis {
            Basis::TypePriority(priority) => if rank.primary < priority.len() {
                Some(priority[rank.primary].slug())
            } else {
                None
            },
            Basis::SyncLevel(_) => match SyncLevel::from_rank(rank.primary) {
                Some(level) => Some(level.slug()),
                None => None,
            },
        };
        proof {
            reveal_strlit("none");
            reveal_strlit("censored ");
        }
        match name {
            None => string_of(chars_of("none").as_slice()),
            Some(n) => {
                if rank.censored {
                    let mut out = chars_of("censored ");
                    push_all(&mut out, chars_of(n).as_slice());
                    string_of(out.as_slice())
                } else {
                    string_of(chars_of(n).as_slice())
                }
            },
        }
    }
}

/// Whether a provider serving `kinds` is worth asking when the best lyrics
/// so far rank `current`: it could do strictly better, or nothing is known.
pub fn worth_trying(ranker: &Ranker, current: Option<Rank>, kinds: &[LyricsKind]) -> (r: bool)
    ensures
        r == match current {
            None => true,
            Some(c) => match ceiling_of(ranker.basis, kinds@) {
                Some(ceil) => rank_lt(ceil, c),
                None => true,
            },
        },
{
    match current {
        None => true,
        Some(c) => match ranker.ceiling(kinds) {
            Some(ceil) => ceil.better_than(&c),
            None => true,
        },
    }
}

} // verus!
