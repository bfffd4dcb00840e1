//! The decisions of the query pipeline: retries with exponential backoff,
//! the fold of one result page and what to fetch next.

use crate::calendar::UtcDateTime;
use crate::stats::{
    classify, collect_repo_stats, is_counted, AggregateError, AggregateStats, AggregateView, RepoNode,
};
use vstd::arithmetic::power2::{lemma2_to64, lemma_pow2_unfold, pow2};
use vstd::prelude::*;

verus! {

/// Attempts made at one request before it fails for good.
pub const MAX_ATTEMPTS: u32 = 4;

/// Wait after the first failed attempt; each later wait doubles.
pub const INITIAL_DELAY_MS: u64 = 1000;

/// Most pages one run folds before it declares the upstream runaway.
pub const MAX_PAGES: u64 = 10_000;

/// Wait between two result pages.
pub const PAGINATION_DELAY_MS: u64 = 200;

/// The wait after failed attempt number `attempt`, counted from one.
pub open spec fn spec_backoff_ms(attempt: nat) -> nat {
    (INITIAL_DELAY_MS * pow2((attempt - 1) as nat)) as nat
}

pub fn backoff_delay_ms(attempt: u32) -> (r: u64)
    requires
        1 <= attempt <= MAX_ATTEMPTS,
    ensures
        r == spec_backoff_ms(attempt as nat),
{
    proof {
        lemma2_to64();
    }
    let mut delay: u64 = INITIAL_DELAY_MS;
    let mut k: u32 = 1;
    while k < attempt
        invariant
            1 <= k <= attempt <= MAX_ATTEMPTS,
            delay == INITIAL_DELAY_MS * pow2((k - 1) as nat),
            pow2(0) == 1 && pow2(1) == 2 && pow2(2) == 4,
        decreases attempt - k,
    {
        proof {
            lemma_pow2_unfold(k as nat);
        }
        delay = delay * 2;
        k += 1;
    }
    delay
}

/// What follows one attempt at a request.
#[derive(Clone, Copy, Debug, PartialEq, Eq, Structural)]
pub enum RetryDecision {
    /// The response parsed: hand it to the caller.
    Deliver,
    /// Wait, then make the next attempt.
    RetryAfter { delay_ms: u64 },
    /// The last attempt failed: the request fails after `attempts` tries.
    GiveUp { attempts: u32 },
}

/// A parsed response is delivered, with or without data; a failed attempt
/// before the last is retried after its backoff; the last one gives up.
pub open spec fn spec_after_attempt(attempt: nat, succeeded: bool) -> RetryDecision {
    if succeeded {
        RetryDecision::Deliver
    } else if attempt < MAX_ATTEMPTS {
        RetryDecision::RetryAfter { delay_ms: spec_backoff_ms(attempt) as u64 }
    } else {
        RetryDecision::GiveUp { attempts: MAX_ATTEMPTS }
    }
}

pub fn after_attempt(attempt: u32, succeeded: bool) -> (r: RetryDecision)
    requires
        1 <= attempt <= MAX_ATTEMPTS,
    ensures
        r == spec_after_attempt(attempt as nat, succeeded),
{
    if succeeded {
        RetryDecision::Deliver
    } else if attempt < MAX_ATTEMPTS {
        RetryDecision::RetryAfter { delay_ms: backoff_delay_ms(attempt) }
    } else {
        RetryDecision::GiveUp { attempts: MAX_ATTEMPTS }
    }
}

/// The decisions taken for a request whose attempts, from number `attempt`
/// on, end as `outcomes` says; one decision per attempt made.
pub open spec fn retry_trace(outcomes: Seq<bool>, attempt: nat) -> Seq<RetryDecision>
    decreases outcomes.len(),
{
    if outcomes.len() == 0 {
        Seq::empty()
    } else {
        let d = spec_after_attempt(attempt, outcomes[0]);
        if d is RetryAfter {
            seq![d] + retry_trace(outcomes.skip(1), attempt + 1)
        } else {
            seq![d]
        }
    }
}

proof fn lemma_trace_success_from(outcomes: Seq<bool>, attempt: nat, k: nat)
    requires
        1 <= attempt,
        attempt + k <= MAX_ATTEMPTS,
        k < outcomes.len(),
        forall|i: int| 0 <= i < k ==> !outcomes[i],
        outcomes[k as int],
    ensures
        retry_trace(outcomes, attempt).len() == k + 1,
        forall|i: int|
            0 <= i < k ==> retry_trace(outcomes, attempt)[i] == (RetryDecision::RetryAfter {
                delay_ms: spec_backoff_ms((attempt + i) as nat) as u64,
            }),
        retry_trace(outcomes, attempt)[k as int] == RetryDecision::Deliver,
    decreases k,
{
    if k > 0 {
        lemma_trace_success_from(outcomes.skip(1), attempt + 1, (k - 1) as nat);
        let t = retry_trace(outcomes, attempt);
        let rest = retry_trace(outcomes.skip(1), attempt + 1);
        assert(t == seq![spec_after_attempt(attempt, false)] + rest);
        assert forall|i: int| 0 < i < k implies t[i] == (RetryDecision::RetryAfter {
            delay_ms: spec_backoff_ms((attempt + i) as nat) as u64,
        }) by {
            assert(t[i] == rest[i - 1]);
            assert((attempt + 1 + (i - 1)) as nat == (attempt + i) as nat);
        }
    }
}

/// A request whose first `k` attempts fail, `k` below the limit, and whose
/// next attempt succeeds is delivered on attempt `k + 1`, after exactly `k`
/// waits of 1, 2, 4, ... times the initial delay.
pub proof fn lemma_delivered_after_failures(outcomes: Seq<bool>, k: nat)
    requires
        k < MAX_ATTEMPTS,
        k < outcomes.len(),
        forall|i: int| 0 <= i < k ==> !outcomes[i],
        outcomes[k as int],
    ensures
        retry_trace(outcomes, 1).len() == k + 1,
        forall|i: int|
            0 <= i < k ==> retry_trace(outcomes, 1)[i] == (RetryDecision::RetryAfter {
                delay_ms: (INITIAL_DELAY_MS * pow2(i as nat)) as u64,
            }),
        retry_trace(outcomes, 1)[k as int] == RetryDecision::Deliver,
{
    lemma_trace_success_from(outcomes, 1, k);
    let t = retry_trace(outcomes, 1);
    assert forall|i: int| 0 <= i < k implies #[trigger] t[i] == (RetryDecision::RetryAfter {
        delay_ms: (INITIAL_DELAY_MS * pow2(i as nat)) as u64,
    }) by {
        assert(((1 + i) - 1) as nat == i as nat);
    }
}

proof fn lemma_trace_failures_from(outcomes: Seq<bool>, attempt: nat)
    requires
        1 <= attempt <= MAX_ATTEMPTS,
        outcomes.len() >= MAX_ATTEMPTS - attempt + 1,
        forall|i: int| 0 <= i <= MAX_ATTEMPTS - attempt ==> !outcomes[i],
    ensures
        retry_trace(outcomes, attempt).len() == MAX_ATTEMPTS - attempt + 1,
        retry_trace(outcomes, attempt).last() == (RetryDecision::GiveUp {
            attempts: MAX_ATTEMPTS,
        }),
        forall|i: int|
            0 <= i < MAX_ATTEMPTS - attempt ==> retry_trace(outcomes, attempt)[i] is RetryAfter,
    decreases MAX_ATTEMPTS - attempt,
{
    if attempt < MAX_ATTEMPTS {
        lemma_trace_failures_from(outcomes.skip(1), attempt + 1);
        let t = retry_trace(outcomes, attempt);
        let rest = retry_trace(outcomes.skip(1), attempt + 1);
        assert(t == seq![spec_after_attempt(attempt, false)] + rest);
        assert(t.last() == rest.last());
        assert forall|i: int| 0 < i < MAX_ATTEMPTS - attempt implies t[i] is RetryAfter by {
            assert(t[i] == rest[i - 1]);
        }
    }
}

/// A request whose every attempt fails gives up after the fourth attempt:
/// four decisions, three waits, and no fifth attempt.
pub proof fn lemma_gives_up_after_limit(outcomes: Seq<bool>)
    requires
        outcomes.len() >= MAX_ATTEMPTS,
        forall|i: int| 0 <= i < MAX_ATTEMPTS ==> !outcomes[i],
    ensures
        retry_trace(outcomes, 1).len() == MAX_ATTEMPTS,
        retry_trace(outcomes, 1).last() == (RetryDecision::GiveUp { attempts: MAX_ATTEMPTS }),
        forall|i: int| 0 <= i < MAX_ATTEMPTS - 1 ==> retry_trace(outcomes, 1)[i] is RetryAfter,
{
    lemma_trace_failures_from(outcomes, 1);
}

/// The user part of one result page of repositories.
pub struct UserPage {
    pub created_at: String,
    pub nodes: Option<Vec<Option<RepoNode>>>,
    pub has_next_page: bool,
    pub end_cursor: Option<String>,
}

/// The data of one result page.
pub struct UserReposData {
    pub user: Option<UserPage>,
}

/// What to do after a page has been folded in.
pub enum PageAction {
    /// Wait the pagination delay, then fetch the page after `after`.
    Fetch { after: Option<String> },
    /// No page follows.
    Finished,
}

/// The statistics after classifying the listed repositories of a page that
/// `login` owns, in order; `None` where a commit date is not RFC 3339 text.
pub open spec fn fold_nodes(
    v: AggregateView,
    nodes: Seq<Option<RepoNode>>,
    login: Seq<char>,
    cutoff: UtcDateTime,
    ignored: Seq<String>,
) -> Option<AggregateView>
    decreases nodes.len(),
{
    if nodes.len() == 0 {
        Some(v)
    } else {
        match fold_nodes(v, nodes.drop_last(), login, cutoff, ignored) {
            None => None,
            Some(p) => match nodes.last() {
                Some(n) => if n.owner_login@ == login {
                    classify(p, n, cutoff, ignored)
                } else {
                    Some(p)
                },
                None => Some(p),
            },
        }
    }
}

/// The account creation date is taken from the first page that gives one.
pub open spec fn with_created_at(v: AggregateView, created_at: Seq<char>) -> AggregateView {
    if v.created_at.len() == 0 {
        AggregateView { created_at, ..v }
    } else {
        v
    }
}

/// The statistics and the next action after a page, or why the run stops.
pub open spec fn page_outcome(
    v: AggregateView,
    pages_done: nat,
    data: Option<UserReposData>,
    login: Seq<char>,
    cutoff: UtcDateTime,
    ignored: Seq<String>,
) -> Result<(AggregateView, PageAction), AggregateError> {
    match data {
        None => Err(AggregateError::MissingData),
        Some(d) => match d.user {
            None => Err(AggregateError::MissingData),
            Some(u) => match u.nodes {
                None => Err(AggregateError::MissingData),
                Some(nodes) => if v.total_repo_count + nodes@.len() > u64::MAX {
                    Err(AggregateError::CountOverflow)
                } else {
                    match fold_nodes(
                        with_created_at(v, u.created_at@),
                        nodes@,
                        login,
                        cutoff,
                        ignored,
                    ) {
                        None => Err(AggregateError::DateParse),
                        Some(w) => if !u.has_next_page {
                            Ok((w, PageAction::Finished))
                        } else if pages_done + 1 >= MAX_PAGES {
                            Err(AggregateError::PaginationRunaway)
                        } else {
                            Ok((w, PageAction::Fetch { after: u.end_cursor }))
                        },
                    }
                },
            },
        },
    }
}

/// The repositories of a page that are present, owned by `login` and
/// counted (not archived, disabled, empty or private).
pub open spec fn counted_nodes(nodes: Seq<Option<RepoNode>>, login: Seq<char>) -> nat
    decreases nodes.len(),
{
    if nodes.len() == 0 {
        0
    } else {
        counted_nodes(nodes.drop_last(), login) + match nodes.last() {
            Some(n) => if n.owner_login@ == login && is_counted(n) {
                1nat
            } else {
                0nat
            },
            None => 0nat,
        }
    }
}

/// The repository nodes of a result page; none where the page lacks them.
pub open spec fn page_nodes(data: Option<UserReposData>) -> Seq<Option<RepoNode>> {
    match data {
        Some(d) => match d.user {
            Some(u) => match u.nodes {
                Some(n) => n@,
                None => Seq::empty(),
            },
            None => Seq::empty(),
        },
        None => Seq::empty(),
    }
}

proof fn lemma_fold_nodes_counts(
    v: AggregateView,
    nodes: Seq<Option<RepoNode>>,
    login: Seq<char>,
    cutoff: UtcDateTime,
    ignored: Seq<String>,
)
    requires
        v.total_repo_count == v.owned_repo_count + v.forked_repo_count,
    ensures
        fold_nodes(v, nodes, login, cutoff, ignored) matches Some(w) ==> {
            &&& w.total_repo_count == v.total_repo_count + counted_nodes(nodes, login)
            &&& w.total_repo_count == w.owned_repo_count + w.forked_repo_count
        },
    decreases nodes.len(),
{
    if nodes.len() > 0 {
        lemma_fold_nodes_counts(v, nodes.drop_last(), login, cutoff, ignored);
    }
}

/// Each page raises the repository total by exactly the present, owned and
/// counted repositories on it, and every one of them is owned or forked:
/// over a run, `total == owned + forked` and the total counts the
/// qualifying repositories of all pages.
pub proof fn lemma_page_counts(
    v: AggregateView,
    pages_done: nat,
    data: Option<UserReposData>,
    login: Seq<char>,
    cutoff: UtcDateTime,
    ignored: Seq<String>,
)
    requires
        v.total_repo_count == v.owned_repo_count + v.forked_repo_count,
    ensures
        page_outcome(v, pages_done, data, login, cutoff, ignored) matches Ok((w, a)) ==> {
            &&& w.total_repo_count == v.total_repo_count + counted_nodes(page_nodes(data), login)
            &&& w.total_repo_count == w.owned_repo_count + w.forked_repo_count
        },
{
    match data {
        Some(d) => match d.user {
            Some(u) => match u.nodes {
                Some(n) => lemma_fold_nodes_counts(
                    with_created_at(v, u.created_at@),
                    n@,
                    login,
                    cutoff,
                    ignored,
                ),
                None => {},
            },
            None => {},
        },
        None => {},
    }
}

proof fn lemma_nodes_failure_persists(
    v: AggregateView,
    nodes: Seq<Option<RepoNode>>,
    k: int,
    login: Seq<char>,
    cutoff: UtcDateTime,
    ignored: Seq<String>,
)
    requires
        0 <= k <= nodes.len(),
        fold_nodes(v, nodes.subrange(0, k), login, cutoff, ignored) is None,
    ensures
        fold_nodes(v, nodes, login, cutoff, ignored) is None,
    decreases nodes.len(),
{
    if k == nodes.len() {
        assert(nodes.subrange(0, k) =~= nodes);
    } else {
        assert(nodes.drop_last().subrange(0, k) =~= nodes.subrange(0, k));
        lemma_nodes_failure_persists(v, nodes.drop_last(), k, login, cutoff, ignored);
    }
}

/// Folds one result page, fetched after `pages_done` earlier pages, into
/// `stats`, and says what comes next.
pub fn fold_page(
    stats: &mut AggregateStats,
    pages_done: u64,
    data: &Option<UserReposData>,
    login: &String,
    cutoff: &UtcDateTime,
    ignored: &Vec<String>,
) -> (r: Result<PageAction, AggregateError>)
    requires
        old(stats).wf(),
    ensures
        final(stats).wf(),
        match page_outcome(old(stats)@, pages_done as nat, *data, login@, *cutoff, ignored@) {
            Ok((w, a)) => r == Ok::<PageAction, AggregateError>(a) && final(stats)@ == w,
            Err(e) => r == Err::<PageAction, AggregateError>(e),
        },
{
    let d = match data {
        Some(d) => d,
        None => return Err(AggregateError::MissingData),
    };
    let user = match &d.user {
        Some(u) => u,
        None => return Err(AggregateError::MissingData),
    };
    assert(old(stats)@.created_at.len() == 0 ==> old(stats)@.created_at =~= Seq::<char>::empty());
    if stats.created_at == String::new() {
        stats.created_at = user.created_at.clone();
    }
    let nodes = match &user.nodes {
        Some(n) => n,
        None => return Err(AggregateError::MissingData),
    };
    if stats.total_repo_count as u128 + nodes.len() as u128 > u64::MAX as u128 {
        return Err(AggregateError::CountOverflow);
    }
    let ghost v1 = stats@;
    let ghost t0 = stats.total_repo_count;
    assert(v1 == with_created_at(old(stats)@, user.created_at@));
    let mut i: usize = 0;
    while i < nodes.len()
        invariant
            *data == Some(*d),
            d.user == Some(*user),
            user.nodes == Some(*nodes),
            v1 == with_created_at(old(stats)@, user.created_at@),
            old(stats).total_repo_count == t0,
            i <= nodes@.len(),
            stats.wf(),
            t0 + nodes@.len() <= u64::MAX,
            stats.total_repo_count <= t0 + i,
            fold_nodes(v1, nodes@.subrange(0, i as int), login@, *cutoff, ignored@) == Some(
                stats@,
            ),
        decreases nodes@.len() - i,
    {
        proof {
            assert(nodes@.subrange(0, i + 1).drop_last() =~= nodes@.subrange(0, i as int));
            assert(nodes@.subrange(0, i + 1).last() == nodes@[i as int]);
        }
        match &nodes[i] {
            Some(n) => {
                if n.owner_login == *login {
                    let step = collect_repo_stats(stats, n, cutoff, ignored);
                    if step.is_err() {
                        proof {
                            lemma_nodes_failure_persists(
                                v1,
                                nodes@,
                                i + 1,
                                login@,
                                *cutoff,
                                ignored@,
                            );
                        }
                        return Err(AggregateError::DateParse);
                    }
                }
            },
            None => {},
        }
        i += 1;
    }
    assert(nodes@.subrange(0, nodes@.len() as int) =~= nodes@);
    if !user.has_next_page {
        Ok(PageAction::Finished)
    } else if pages_done >= MAX_PAGES - 1 {
        Err(AggregateError::PaginationRunaway)
    } else {
        Ok(PageAction::Fetch { after: user.end_cursor.clone() })
    }
}

/// The four activity counters of the issues and pull requests query.
#[derive(Clone, Copy, Debug, PartialEq, Eq, Structural)]
pub struct IssueAndPrStats {
    pub issues_created: i64,
    pub issues_closed: i64,
    pub prs_created: i64,
    pub prs_merged: i64,
}

/// The activity counters of a parsed response; a response without data
/// stops the run.
pub fn issue_and_pr_stats(data: Option<IssueAndPrStats>) -> (r: Result<
    IssueAndPrStats,
    AggregateError,
>)
    ensures
        r == match data {
            Some(d) => Ok::<IssueAndPrStats, AggregateError>(d),
            None => Err(AggregateError::MissingData),
        },
{
    match data {
        Some(d) => Ok(d),
        None => Err(AggregateError::MissingData),
    }
}

} // verus!
