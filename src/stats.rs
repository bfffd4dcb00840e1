//! Classification of repositories and the fold of result pages into the
//! aggregate statistics of a run.

use crate::calendar::{
    is_recent, parse_rfc3339_utc, rfc3339_utc, spec_is_recent, DateFields, UtcDateTime,
};
use crate::languages::{
    collect_language_stats, fold_languages, is_ignored, languages_within, lemma_fold_within,
    LangView, LanguageName, LanguageTotals, names_unique, bytes_bounded,
};
use crate::ranking::{CalendarDate, RepositoryRecord};
use vstd::prelude::*;

verus! {

/// Why a run stops.
#[derive(Clone, Copy, Debug, PartialEq, Eq, Structural)]
pub enum AggregateError {
    /// A response parsed but lacked the data or a field the run needs.
    MissingData,
    /// A commit date is not RFC 3339 text.
    DateParse,
    /// The upstream kept announcing further pages past the page limit.
    PaginationRunaway,
    /// A repository count would pass the largest `u64`.
    CountOverflow,
}

/// What the head reference of a repository points to.
pub enum RefTarget {
    Commit { pushed_date: Option<String> },
    Other,
}

/// A repository's languages as two parallel lists.
pub struct RepoLanguages {
    pub sizes: Vec<u64>,
    pub names: Vec<LanguageName>,
}

/// One repository as a result page lists it.
pub struct RepoNode {
    pub name_with_owner: String,
    pub url: String,
    pub owner_login: String,
    pub is_archived: bool,
    pub is_disabled: bool,
    pub is_empty: bool,
    pub is_private: bool,
    pub is_fork: bool,
    pub fork_count: i64,
    pub stargazer_count: i64,
    pub languages: Option<RepoLanguages>,
    /// The targets of the listed references, the default branch first; an
    /// absent node or target is `None`.
    pub refs: Option<Vec<Option<RefTarget>>>,
}

/// The statistics a run accumulates.
pub struct AggregateStats {
    pub created_at: String,
    pub total_repo_count: u64,
    pub owned_repo_count: u64,
    pub forked_repo_count: u64,
    pub live_repo_count: u64,
    pub all_time_languages: LanguageTotals,
    pub recent_languages: LanguageTotals,
    pub repositories: Vec<RepositoryRecord>,
}

/// The statistics as values.
pub struct AggregateView {
    pub created_at: Seq<char>,
    pub total_repo_count: nat,
    pub owned_repo_count: nat,
    pub forked_repo_count: nat,
    pub live_repo_count: nat,
    pub all_time_languages: Seq<LangView>,
    pub recent_languages: Seq<LangView>,
    pub repositories: Seq<RepositoryRecord>,
}

impl View for AggregateStats {
    type V = AggregateView;

    open spec fn view(&self) -> AggregateView {
        AggregateView {
            created_at: self.created_at@,
            total_repo_count: self.total_repo_count as nat,
            owned_repo_count: self.owned_repo_count as nat,
            forked_repo_count: self.forked_repo_count as nat,
            live_repo_count: self.live_repo_count as nat,
            all_time_languages: self.all_time_languages@,
            recent_languages: self.recent_languages@,
            repositories: self.repositories@,
        }
    }
}

impl AggregateStats {
    /// Every counted repository is owned or forked, every live one is owned
    /// and listed, each language total has one entry per name, and every
    /// recent language is among the all-time ones with no more bytes.
    pub open spec fn wf(&self) -> bool {
        &&& self.total_repo_count == self.owned_repo_count + self.forked_repo_count
        &&& self.live_repo_count == self.repositories@.len()
        &&& self.live_repo_count <= self.owned_repo_count
        &&& self.all_time_languages.wf()
        &&& self.recent_languages.wf()
        &&& languages_within(self.recent_languages@, self.all_time_languages@)
    }

    pub fn new() -> (r: Self)
        ensures
            r.wf(),
            r@.created_at.len() == 0,
            r@.total_repo_count == 0,
            r@.live_repo_count == 0,
            r@.all_time_languages.len() == 0,
            r@.recent_languages.len() == 0,
    {
        AggregateStats {
            created_at: String::new(),
            total_repo_count: 0,
            owned_repo_count: 0,
            forked_repo_count: 0,
            live_repo_count: 0,
            all_time_languages: LanguageTotals::new(),
            recent_languages: LanguageTotals::new(),
            repositories: Vec::new(),
        }
    }
}

/// Archived, disabled, empty and private repositories are not counted.
pub open spec fn is_counted(repo: RepoNode) -> bool {
    !(repo.is_archived || repo.is_disabled || repo.is_empty || repo.is_private)
}

/// The date text of the latest commit on the default branch, where the
/// branch resolves to a commit that has one.
pub open spec fn latest_commit_text(refs: Option<Vec<Option<RefTarget>>>) -> Option<Seq<char>> {
    match refs {
        None => None,
        Some(v) => if v@.len() == 0 {
            None
        } else {
            match v@[0] {
                Some(RefTarget::Commit { pushed_date: Some(s) }) => Some(s@),
                _ => None,
            }
        },
    }
}

/// One language total after folding in a repository's languages; absent
/// language data folds nothing.
pub open spec fn with_languages(
    s: Seq<LangView>,
    repo_name: Seq<char>,
    langs: Option<RepoLanguages>,
    ignored: Seq<String>,
) -> Seq<LangView> {
    match langs {
        None => s,
        Some(l) => if l.sizes@.len() != l.names@.len() || is_ignored(ignored, repo_name) {
            s
        } else {
            fold_languages(s, l.sizes@, l.names@, l.sizes@.len() as int)
        },
    }
}

/// The record of a live repository whose latest commit is at `d`.
pub open spec fn spec_record(repo: RepoNode, d: UtcDateTime) -> RepositoryRecord {
    RepositoryRecord {
        full_name: repo.name_with_owner,
        url: repo.url,
        fork_count: repo.fork_count,
        star_count: repo.stargazer_count,
        pushed_date: CalendarDate { year: d.year, month: d.month, day: d.day },
    }
}

/// The statistics once an owned repository is counted and its languages
/// are folded into the all-time totals, before its commit date is read.
pub open spec fn count_owned(v: AggregateView, repo: RepoNode, ignored: Seq<String>) -> AggregateView {
    AggregateView {
        total_repo_count: v.total_repo_count + 1,
        owned_repo_count: v.owned_repo_count + 1,
        all_time_languages: with_languages(
            v.all_time_languages,
            repo.name_with_owner@,
            repo.languages,
            ignored,
        ),
        ..v
    }
}

/// The instant that calendar fields name.
pub open spec fn instant_of(f: DateFields) -> UtcDateTime {
    UtcDateTime {
        year: f.0,
        month: f.1,
        day: f.2,
        hour: f.3,
        minute: f.4,
        second: f.5,
        nanosecond: f.6,
    }
}

/// The statistics after classifying one repository; `None` where its
/// commit date is not RFC 3339 text.
pub open spec fn classify(
    v: AggregateView,
    repo: RepoNode,
    cutoff: UtcDateTime,
    ignored: Seq<String>,
) -> Option<AggregateView> {
    if !is_counted(repo) {
        Some(v)
    } else if repo.is_fork {
        Some(
            AggregateView {
                total_repo_count: v.total_repo_count + 1,
                forked_repo_count: v.forked_repo_count + 1,
                ..v
            },
        )
    } else {
        let all = count_owned(v, repo, ignored);
        match latest_commit_text(repo.refs) {
            None => Some(all),
            Some(text) => match rfc3339_utc(text) {
                None => None,
                Some(f) => {
                    let d = instant_of(f);
                    if !spec_is_recent(d, cutoff) {
                        Some(all)
                    } else {
                        Some(
                            AggregateView {
                                recent_languages: with_languages(
                                    all.recent_languages,
                                    repo.name_with_owner@,
                                    repo.languages,
                                    ignored,
                                ),
                                live_repo_count: all.live_repo_count + 1,
                                repositories: all.repositories.push(spec_record(repo, d)),
                                ..all
                            },
                        )
                    }
                },
            },
        }
    }
}

/// The language totals of a well-formed state.
pub open spec fn languages_wf(v: AggregateView) -> bool {
    &&& names_unique(v.all_time_languages)
    &&& names_unique(v.recent_languages)
    &&& bytes_bounded(v.all_time_languages)
    &&& bytes_bounded(v.recent_languages)
    &&& languages_within(v.recent_languages, v.all_time_languages)
}

/// Classifying a repository keeps each recent language within the all-time
/// totals, also where it stops at a bad commit date.
pub proof fn lemma_classify_keeps_languages(
    v: AggregateView,
    repo: RepoNode,
    cutoff: UtcDateTime,
    ignored: Seq<String>,
)
    requires
        languages_wf(v),
    ensures
        languages_wf(count_owned(v, repo, ignored)),
        classify(v, repo, cutoff, ignored) matches Some(w) ==> languages_wf(w),
{
    match repo.languages {
        None => {},
        Some(l) => {
            if !(l.sizes@.len() != l.names@.len() || is_ignored(ignored, repo.name_with_owner@)) {
                lemma_fold_within(
                    v.recent_languages,
                    v.all_time_languages,
                    l.sizes@,
                    l.names@,
                    l.sizes@.len() as int,
                );
            }
        },
    }
}

/// The statistics after classifying `repos` in order; `None` where one
/// commit date is not RFC 3339 text.
pub open spec fn classify_all(
    v: AggregateView,
    repos: Seq<RepoNode>,
    cutoff: UtcDateTime,
    ignored: Seq<String>,
) -> Option<AggregateView>
    decreases repos.len(),
{
    if repos.len() == 0 {
        Some(v)
    } else {
        match classify_all(v, repos.drop_last(), cutoff, ignored) {
            None => None,
            Some(p) => classify(p, repos.last(), cutoff, ignored),
        }
    }
}

fn latest_commit_date(refs: &Option<Vec<Option<RefTarget>>>) -> (r: Option<&String>)
    ensures
        r is None <==> latest_commit_text(*refs) is None,
        r matches Some(s) ==> latest_commit_text(*refs) == Some(s@),
{
    match refs {
        None => None,
        Some(v) => {
            if v.len() == 0 {
                None
            } else {
                match &v[0] {
                    Some(RefTarget::Commit { pushed_date: Some(s) }) => Some(s),
                    _ => None,
                }
            }
        },
    }
}

/// Classifies one repository and folds it into `stats`. A commit date that
/// is not RFC 3339 text stops with the repository counted and its
/// languages in the all-time totals, and nothing else changed.
pub fn collect_repo_stats(
    stats: &mut AggregateStats,
    repo: &RepoNode,
    cutoff: &UtcDateTime,
    ignored: &Vec<String>,
) -> (r: Result<(), AggregateError>)
    requires
        old(stats).wf(),
        old(stats).total_repo_count < u64::MAX,
    ensures
        final(stats).wf(),
        final(stats).total_repo_count <= old(stats).total_repo_count + 1,
        r is Ok <==> classify(old(stats)@, *repo, *cutoff, ignored@) is Some,
        r is Ok ==> classify(old(stats)@, *repo, *cutoff, ignored@) == Some(final(stats)@),
        r is Err ==> r == Err::<(), AggregateError>(AggregateError::DateParse) && final(stats)@
            == count_owned(old(stats)@, *repo, ignored@),
{
    proof {
        lemma_classify_keeps_languages(old(stats)@, *repo, *cutoff, ignored@);
    }
    if repo.is_archived || repo.is_disabled || repo.is_empty || repo.is_private {
        return Ok(());
    }
    stats.total_repo_count = stats.total_repo_count + 1;
    if repo.is_fork {
        stats.forked_repo_count = stats.forked_repo_count + 1;
        return Ok(());
    }
    stats.owned_repo_count = stats.owned_repo_count + 1;
    match &repo.languages {
        Some(l) => collect_language_stats(
            &mut stats.all_time_languages,
            &repo.name_with_owner,
            &l.sizes,
            &l.names,
            ignored,
        ),
        None => {},
    }
    let text = match latest_commit_date(&repo.refs) {
        Some(t) => t,
        None => return Ok(()),
    };
    let d = match parse_rfc3339_utc(text) {
        Some(d) => d,
        None => return Err(AggregateError::DateParse),
    };
    proof {
        assert(d == instant_of(d.fields()));
    }
    if !is_recent(&d, cutoff) {
        return Ok(());
    }
    match &repo.languages {
        Some(l) => collect_language_stats(
            &mut stats.recent_languages,
            &repo.name_with_owner,
            &l.sizes,
            &l.names,
            ignored,
        ),
        None => {},
    }
    stats.live_repo_count = stats.live_repo_count + 1;
    stats.repositories.push(
        RepositoryRecord {
            full_name: repo.name_with_owner.clone(),
            url: repo.url.clone(),
            fork_count: repo.fork_count,
            star_count: repo.stargazer_count,
            pushed_date: CalendarDate::of(&d),
        },
    );
    Ok(())
}

proof fn lemma_failure_persists(
    v: AggregateView,
    repos: Seq<RepoNode>,
    k: int,
    cutoff: UtcDateTime,
    ignored: Seq<String>,
)
    requires
        0 <= k <= repos.len(),
        classify_all(v, repos.subrange(0, k), cutoff, ignored) is None,
    ensures
        classify_all(v, repos, cutoff, ignored) is None,
    decreases repos.len(),
{
    if k == repos.len() {
        assert(repos.subrange(0, k) =~= repos);
    } else {
        assert(repos.drop_last().subrange(0, k) =~= repos.subrange(0, k));
        lemma_failure_persists(v, repos.drop_last(), k, cutoff, ignored);
    }
}

/// Classifies `repos` in order and folds them into `stats`; stops at the
/// first commit date that is not RFC 3339 text.
pub fn collect_user_repo_stats(
    stats: &mut AggregateStats,
    repos: &Vec<RepoNode>,
    cutoff: &UtcDateTime,
    ignored: &Vec<String>,
) -> (r: Result<(), AggregateError>)
    requires
        old(stats).wf(),
        old(stats).total_repo_count + repos@.len() <= u64::MAX,
    ensures
        final(stats).wf(),
        final(stats).total_repo_count <= old(stats).total_repo_count + repos@.len(),
        r is Ok <==> classify_all(old(stats)@, repos@, *cutoff, ignored@) is Some,
        r is Ok ==> classify_all(old(stats)@, repos@, *cutoff, ignored@) == Some(final(stats)@),
        r is Err ==> r == Err::<(), AggregateError>(AggregateError::DateParse) && exists|k: int|
            #![trigger repos@[k]]
            0 <= k < repos@.len() && match classify_all(
                old(stats)@,
                repos@.subrange(0, k),
                *cutoff,
                ignored@,
            ) {
                Some(p) => classify(p, repos@[k], *cutoff, ignored@) is None && final(stats)@
                    == count_owned(p, repos@[k], ignored@),
                None => false,
            },
{
    let ghost v0 = stats@;
    let mut i: usize = 0;
    while i < repos.len()
        invariant
            v0 == old(stats)@,
            i <= repos@.len(),
            stats.wf(),
            stats.total_repo_count <= old(stats).total_repo_count + i,
            old(stats).total_repo_count + repos@.len() <= u64::MAX,
            classify_all(v0, repos@.subrange(0, i as int), *cutoff, ignored@) == Some(stats@),
        decreases repos@.len() - i,
    {
        proof {
            assert(repos@.subrange(0, i + 1).drop_last() =~= repos@.subrange(0, i as int));
            assert(repos@.subrange(0, i + 1).last() == repos@[i as int]);
        }
        let ghost before = stats@;
        let step = collect_repo_stats(stats, &repos[i], cutoff, ignored);
        if step.is_err() {
            proof {
                lemma_failure_persists(v0, repos@, i + 1, *cutoff, ignored@);
                assert(classify_all(v0, repos@.subrange(0, i as int), *cutoff, ignored@) == Some(
                    before,
                ));
                assert(repos@[i as int] == repos@[i as int]);
            }
            return step;
        }
        i += 1;
    }
    assert(repos@.subrange(0, repos@.len() as int) =~= repos@);
    Ok(())
}

/// Each counted repository is owned or forked: classifying any sequence of
/// repositories keeps `total == owned + forked` and never lowers a count.
pub proof fn lemma_counts_add_up(
    v: AggregateView,
    repos: Seq<RepoNode>,
    cutoff: UtcDateTime,
    ignored: Seq<String>,
)
    requires
        v.total_repo_count == v.owned_repo_count + v.forked_repo_count,
    ensures
        classify_all(v, repos, cutoff, ignored) matches Some(w) ==> {
            &&& w.total_repo_count == w.owned_repo_count + w.forked_repo_count
            &&& w.total_repo_count <= v.total_repo_count + repos.len()
        },
    decreases repos.len(),
{
    if repos.len() > 0 {
        lemma_counts_add_up(v, repos.drop_last(), cutoff, ignored);
    }
}

/// The live count is the number of listed repositories: classifying any
/// sequence of repositories keeps `live == len(repositories)`.
pub proof fn lemma_live_count_is_listed(
    v: AggregateView,
    repos: Seq<RepoNode>,
    cutoff: UtcDateTime,
    ignored: Seq<String>,
)
    requires
        v.live_repo_count == v.repositories.len(),
    ensures
        classify_all(v, repos, cutoff, ignored) matches Some(w) ==> w.live_repo_count
            == w.repositories.len(),
    decreases repos.len(),
{
    if repos.len() > 0 {
        lemma_live_count_is_listed(v, repos.drop_last(), cutoff, ignored);
    }
}

} // verus!
