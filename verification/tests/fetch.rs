use nd_lyrics::config::providers::ProviderMode;
use nd_lyrics::config::PluginConfig;
use nd_lyrics::fetch::{provider_label, reply, FirstFound, Outcome, ProviderFetch, RankedSearch, SearchStep};
use nd_lyrics::fetch::ranking::{best_rank_for, kind_rank, Rank, Ranker};
use nd_lyrics::fetch::ratelimit::{deadline_after, key, time_left};
use nd_lyrics::types::LyricsKind::{Elrc, Lrc, Plain, Srt, Ttml};
use nd_lyrics::types::{Lyrics, LyricsKind};

struct ConfigFixture {
    cfg: PluginConfig,
}

fn sync(enabled: &str) -> ConfigFixture {
    fixture(ProviderMode::BestSyncLevel, enabled)
}

fn type_priority(enabled: &str) -> ConfigFixture {
    fixture(ProviderMode::TypePriority, enabled)
}

fn fixture(mode: ProviderMode, enabled: &str) -> ConfigFixture {
    ConfigFixture {
        cfg: PluginConfig {
            provider_mode: mode,
            lyrics_type_priority: kinds(enabled),
            ..PluginConfig::default()
        },
    }
}

fn kinds(slugs: &str) -> Vec<LyricsKind> {
    slugs
        .split(",")
        .map(|slug| {
            LyricsKind::from_slug(slug).unwrap_or_else(|| panic!("unknown lyrics type {slug}"))
        })
        .collect()
}

fn clean_lrc() -> Lyrics {
    Lyrics::Lrc("[00:01.00]Be humble hol' up".to_string())
}

fn censored_lrc() -> Lyrics {
    Lyrics::Lrc("[00:01.00]B**ch be humble hol' up".to_string())
}

impl ConfigFixture {
    fn prefer_uncensored(mut self) -> ConfigFixture {
        self.cfg.prefer_uncensored = true;
        self
    }

    fn ranker(&self) -> Ranker<'_> {
        Ranker::for_mode(&self.cfg).expect("mode should be ranked")
    }

    fn check_rank(&self, lyrics: Lyrics, expected: &str) {
        let ranker = self.ranker();
        assert_eq!(ranker.describe(ranker.rank(&lyrics)), expected);
    }

    fn check_ceiling(&self, offered: &str, expected: &str) {
        let ranker = self.ranker();
        let ceiling = ranker.ceiling(&kinds(offered));
        let described = ceiling.map_or_else(|| "nothing".to_string(), |it| ranker.describe(it));
        assert_eq!(described, expected, "ceiling for {offered}");
    }

    fn check_best(&self, candidates: &[Lyrics], expected: &str) {
        let ranker = self.ranker();
        let best = candidates
            .iter()
            .min_by_key(|lyrics| ranker.rank(lyrics))
            .expect("no candidates");
        assert_eq!(best.text(&self.cfg), expected);
    }

    fn check_worth_trying(&self, best: Lyrics, offered: &str, expected: bool) {
        let ranker = self.ranker();
        let current = ranker.rank(&best);
        let worth = ranker
            .ceiling(&kinds(offered))
            .is_none_or(|ceiling| ceiling < current);
        assert_eq!(worth, expected, "{offered} against {best:?}");
    }

    fn check_search_ends(&self, lyrics: Lyrics, expected: bool) {
        assert_eq!(self.ranker().rank(&lyrics) == Rank::best(), expected);
    }

    fn check_reports_censored(&self, lyrics: Lyrics, expected: bool) {
        assert_eq!(self.ranker().rank(&lyrics).is_censored(), expected);
    }
}

fn check_time_left(deadline: i64, now: i64, expected: Option<i64>) {
    assert_eq!(
        time_left(deadline, now),
        expected,
        "deadline {deadline} at {now}"
    );
}

#[test]
fn type_mode_follows_the_configured_order() {
    let cfg = type_priority("ttml,elrc,lrc,plain");

    cfg.check_rank(Lyrics::Ttml(String::new()), "ttml");
    cfg.check_rank(Lyrics::Lrc(String::new()), "lrc");
    cfg.check_rank(Lyrics::Plain(String::new()), "plain");
    cfg.check_best(
        &[
            Lyrics::Plain("plain".to_string()),
            Lyrics::Elrc("elrc".to_string()),
        ],
        "elrc",
    );
}

#[test]
fn type_mode_ranks_disabled_types_below_everything() {
    let cfg = type_priority("lrc,plain");

    cfg.check_rank(Lyrics::Srt(String::new()), "none");
    cfg.check_best(
        &[
            Lyrics::Srt("srt".to_string()),
            Lyrics::Plain("plain".to_string()),
        ],
        "plain",
    );
}

#[test]
fn sync_mode_prioritizes_sync_level() {
    let cfg = sync("lrc,elrc,plain");

    cfg.check_rank(Lyrics::Elrc(String::new()), "word-by-word");
    cfg.check_rank(Lyrics::Lrc(String::new()), "line-by-line");
    cfg.check_rank(Lyrics::Plain(String::new()), "plain");
    cfg.check_best(
        &[
            Lyrics::Lrc("lrc".to_string()),
            Lyrics::Elrc("elrc".to_string()),
        ],
        "elrc",
    );
}

#[test]
fn sync_mode_reads_the_sync_level_of_lyrics() {
    let cfg = sync("ttml");

    cfg.check_rank(
        Lyrics::Ttml(r#"<tt itunes:timing="Word"></tt>"#.to_string()),
        "word-by-word",
    );
    cfg.check_rank(
        Lyrics::Ttml(r#"<tt itunes:timing="None"></tt>"#.to_string()),
        "plain",
    );
}

#[test]
fn sync_mode_ceiling_is_the_finest_type_a_provider_serves() {
    let cfg = sync("ttml,elrc,lrc,plain");

    cfg.check_ceiling("ttml", "word-by-word");
    cfg.check_ceiling("lrc,plain", "line-by-line");
    cfg.check_ceiling("plain", "plain");
}

#[test]
fn type_mode_ceiling_is_the_best_type_a_provider_serves() {
    let cfg = type_priority("ttml,elrc,lrc,plain");

    cfg.check_ceiling("lrc,elrc", "elrc");
    cfg.check_ceiling("plain", "plain");
}

#[test]
fn a_ceiling_only_counts_enabled_types() {
    sync("lrc,plain").check_ceiling("elrc,lrc", "line-by-line");
    sync("lrc,plain").check_ceiling("srt", "nothing");
    type_priority("lrc,plain").check_ceiling("srt,lrc", "lrc");
    type_priority("lrc,plain").check_ceiling("srt", "nothing");
}

#[test]
fn censoring_is_ignored_unless_it_is_asked_for() {
    sync("lrc").check_rank(censored_lrc(), "line-by-line");
    sync("lrc").check_reports_censored(censored_lrc(), false);

    sync("lrc")
        .prefer_uncensored()
        .check_rank(censored_lrc(), "censored line-by-line");
    sync("lrc")
        .prefer_uncensored()
        .check_reports_censored(censored_lrc(), true);
    sync("lrc")
        .prefer_uncensored()
        .check_reports_censored(clean_lrc(), false);
}

#[test]
fn censoring_only_breaks_ties_in_the_same_level() {
    let cfg = sync("elrc,lrc").prefer_uncensored();

    cfg.check_best(
        &[
            Lyrics::Lrc("clean,lrc".to_string()),
            Lyrics::Elrc("f**k".to_string()),
        ],
        "f**k",
    );
    cfg.check_best(
        &[
            Lyrics::Lrc("b**ch".to_string()),
            Lyrics::Lrc("clean".to_string()),
        ],
        "clean",
    );
}

#[test]
fn a_censored_hit_allows_checking_another_provider() {
    let cfg = sync("lrc").prefer_uncensored();

    cfg.check_worth_trying(censored_lrc(), "lrc", true);
    cfg.check_worth_trying(clean_lrc(), "lrc", false);
}

#[test]
fn a_provider_that_cannot_improve_is_not_worth_trying() {
    let cfg = sync("elrc,lrc,plain");

    cfg.check_worth_trying(clean_lrc(), "plain", false);
    cfg.check_worth_trying(clean_lrc(), "elrc", true);
}

#[test]
fn a_clean_word_synced_hit_ends_the_search() {
    let cfg = sync("elrc,lrc").prefer_uncensored();

    cfg.check_search_ends(Lyrics::Elrc("clean".to_string()), true);
    cfg.check_search_ends(Lyrics::Elrc("f**k".to_string()), false);
    cfg.check_search_ends(clean_lrc(), false);
}

#[test]
fn the_top_of_the_priority_list_ends_the_search() {
    let cfg = type_priority("ttml,lrc");

    cfg.check_search_ends(Lyrics::Ttml("clean".to_string()), true);
    cfg.check_search_ends(Lyrics::Lrc("clean".to_string()), false);
}

#[test]
fn a_deadline_ahead_is_a_wait() {
    check_time_left(1_700_000_060, 1_700_000_000, Some(60));
    check_time_left(1_700_000_001, 1_700_000_000, Some(1));
}

#[test]
fn a_deadline_behind_is_no_wait() {
    check_time_left(1_700_000_000, 1_700_000_000, None);
    check_time_left(1_699_999_940, 1_700_000_000, None);
}

#[test]
fn each_provider_gets_its_own_deadline() {
    assert_eq!(key("abc123"), "ratelimit:abc123");
    assert_ne!(key("abc123"), key("def456"));
}

#[test]
fn test_kind_rank_orders_by_priority() {
    let priority = [Ttml, Elrc, Lrc, Plain];
    assert_eq!(kind_rank(Ttml, &priority), 0);
    assert_eq!(kind_rank(Elrc, &priority), 1);
    assert_eq!(kind_rank(Plain, &priority), 3);
}

#[test]
fn test_kind_rank_absent_is_max() {
    let priority = [Lrc, Plain];
    assert_eq!(kind_rank(Ttml, &priority), usize::MAX);
}

#[test]
fn test_best_rank_for_picks_highest_supported() {
    let priority = [Ttml, Elrc, Lrc, Plain];
    assert_eq!(best_rank_for(&[Lrc, Elrc], &priority), Some(1));
    assert_eq!(best_rank_for(&[Plain], &priority), Some(3));
}

#[test]
fn test_best_rank_for_none_when_nothing_wanted() {
    let priority = [Lrc, Plain];
    assert_eq!(best_rank_for(&[Srt], &priority), None);
}

#[test]
fn test_best_rank_for_ignores_unwanted_kinds() {
    let priority = [Lrc, Plain];
    assert_eq!(best_rank_for(&[Srt, Lrc], &priority), Some(0));
}

#[test]
fn test_provider_label_without_params() {
    assert_eq!(provider_label("kugou", &[]), "kugou");
}

#[test]
fn test_provider_label_with_params() {
    let params = [("baseUrl", "http://localhost:7592".to_string())];
    assert_eq!(
        provider_label("lrclib", &params),
        "lrclib(baseUrl=http://localhost:7592)"
    );
}

#[test]
fn provider_without_params_label_has_only_name() {
    assert_eq!(provider_label("kugou", &[]), "kugou");
}

#[test]
fn provider_label_includes_params() {
    let params = [("baseUrl", "http://localhost:7592".to_string())];
    assert_eq!(
        provider_label("lrclib", &params),
        "lrclib(baseUrl=http://localhost:7592)"
    );
}


fn found(step: SearchStep<RankedSearch>) -> Lyrics {
    match step {
        SearchStep::Done(Outcome::Found(l)) => l,
        other => panic!("expected the search to end with lyrics, got {other:?}"),
    }
}

fn going_on(
    step: SearchStep<RankedSearch>,
) -> RankedSearch {
    match step {
        SearchStep::Continue(s) => s,
        other => panic!("expected the search to go on, got {other:?}"),
    }
}

#[test]
fn a_ranked_search_keeps_the_better_lyrics_and_stops_at_the_best() {
    let f = type_priority("elrc,lrc,plain");
    let ranker = f.ranker();
    let s = RankedSearch::new();
    let s = going_on(s.after(&ranker, ProviderFetch::Lyrics(Lyrics::Plain("words".to_string()))));
    assert_eq!(s.best.as_ref().unwrap().rank, Rank { primary: 2, censored: false });
    let s = going_on(s.after(&ranker, ProviderFetch::Error));
    assert!(s.had_error);
    let s = going_on(s.after(&ranker, ProviderFetch::Lyrics(clean_lrc())));
    assert_eq!(s.best.as_ref().unwrap().lyrics, clean_lrc());
    let s = going_on(s.after(&ranker, ProviderFetch::Lyrics(Lyrics::Plain("more".to_string()))));
    assert_eq!(s.best.as_ref().unwrap().lyrics, clean_lrc());
    assert!(!s.worth_asking(&ranker, &[Lrc, Plain]));
    assert!(s.worth_asking(&ranker, &[Elrc]));
    let elrc = || Lyrics::Elrc("[00:01.00]<00:01.00>a".to_string());
    assert_eq!(found(s.after(&ranker, ProviderFetch::Lyrics(elrc()))), elrc());
}

#[test]
fn a_ranked_search_ends_at_instrumental_lyrics() {
    let f = type_priority("elrc,lrc,plain");
    let ranker = f.ranker();
    let s = RankedSearch::new();
    let s = going_on(s.after(&ranker, ProviderFetch::Lyrics(clean_lrc())));
    assert_eq!(found(s.after(&ranker, ProviderFetch::Lyrics(Lyrics::Instrumental))), Lyrics::Instrumental);
}

#[test]
fn a_ranked_search_reports_what_it_kept() {
    let f = type_priority("lrc,plain");
    let ranker = f.ranker();
    assert!(matches!(RankedSearch::new().finish(), Outcome::NotFound));
    let s = going_on(RankedSearch::new().after(&ranker, ProviderFetch::Error));
    assert!(matches!(s.finish(), Outcome::ProviderError));
    let s = going_on(RankedSearch::new().after(&ranker, ProviderFetch::Lyrics(Lyrics::Plain("x".to_string()))));
    assert!(matches!(s.finish(), Outcome::Found(Lyrics::Plain(_))));
}

#[test]
fn a_first_found_search_takes_the_first_lyrics() {
    let s = FirstFound::new();
    let s = match s.after(ProviderFetch::Empty) {
        SearchStep::Continue(s) => s,
        _ => panic!("an empty answer ends nothing"),
    };
    assert!(!s.had_error);
    let s = match s.after(ProviderFetch::Error) {
        SearchStep::Continue(s) => s,
        _ => panic!("a failure ends nothing"),
    };
    assert!(s.had_error);
    assert!(matches!(s.finish(), Outcome::ProviderError));
    match s.after(ProviderFetch::Lyrics(clean_lrc())) {
        SearchStep::Done(Outcome::Found(l)) => assert_eq!(l, clean_lrc()),
        _ => panic!("lyrics end the search"),
    }
    assert!(matches!(FirstFound::new().finish(), Outcome::NotFound));
}

#[test]
fn a_tie_keeps_the_lyrics_found_first() {
    let f = type_priority("elrc,lrc,plain");
    let ranker = f.ranker();
    let first = || Lyrics::Lrc("[00:01.00]first".to_string());
    let s = going_on(RankedSearch::new().after(&ranker, ProviderFetch::Lyrics(first())));
    let s = going_on(s.after(&ranker, ProviderFetch::Lyrics(Lyrics::Lrc("[00:01.00]second".to_string()))));
    assert_eq!(s.best.as_ref().unwrap().lyrics, first());
}

#[test]
fn a_recorded_wait_reads_back_as_the_time_left() {
    let now = 1_700_000_000;
    let deadline = deadline_after(now, 60);
    assert_eq!(time_left(deadline, now), Some(60));
    assert_eq!(time_left(deadline, now + 59), Some(1));
    assert_eq!(time_left(deadline, now + 60), None);
    assert_eq!(deadline_after(i64::MAX - 1, 60), i64::MAX);
}

#[test]
fn a_search_answers_with_its_lyrics_or_a_miss() {
    let cfg = PluginConfig::default();
    let r = reply(Outcome::Found(clean_lrc()), &cfg).unwrap();
    assert_eq!(r.len(), 1);
    assert_eq!(r[0].lang, "xxx");
    assert_eq!(r[0].text, "[00:01.00]Be humble hol' up");
    let r = reply(Outcome::Found(Lyrics::Instrumental), &cfg).unwrap();
    assert_eq!(r[0].text, cfg.instrumental_text);
    assert_eq!(reply(Outcome::NotFound, &cfg).unwrap_err(), "no lyrics found from any provider");
    assert_eq!(reply(Outcome::ProviderError, &cfg).unwrap_err(), "no lyrics found from any provider");
}
