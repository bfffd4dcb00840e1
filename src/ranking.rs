//! Stable descending rankings: the repository top lists.

use crate::calendar::UtcDateTime;
use itertools::Itertools;
use std::cmp::Ordering;
use vstd::prelude::*;

verus! {

/// How many repositories each top list holds.
pub const TOP_FORKED_REPOS: usize = 5;
pub const TOP_STARRED_REPOS: usize = 5;
pub const TOP_RECENT_REPOS: usize = 10;

/// Position `a` comes before position `b`: a larger key first, and between
/// equal keys the earlier position first.
pub open spec fn ranks_before(keys: Seq<i64>, a: int, b: int) -> bool {
    keys[a] > keys[b] || (keys[a] == keys[b] && a < b)
}

/// `p` lists the positions of `keys` by descending key, ties in their
/// original order: what a stable sort by descending key yields.
pub open spec fn is_stable_desc_ranking(keys: Seq<i64>, p: Seq<usize>) -> bool {
    &&& p.len() == keys.len()
    &&& forall|i: int| 0 <= i < p.len() ==> p[i] < keys.len()
    &&& forall|i: int, j: int| 0 <= i < j < p.len() ==> ranks_before(keys, p[i] as int, p[j] as int)
}

/// Orders a larger key first.
fn descending(a: i64, b: i64) -> (r: Ordering)
    ensures
        r == (if a > b {
            Ordering::Less
        } else if a == b {
            Ordering::Equal
        } else {
            Ordering::Greater
        }),
{
    if a > b {
        Ordering::Less
    } else if a == b {
        Ordering::Equal
    } else {
        Ordering::Greater
    }
}

/// Relies on itertools' `sorted_by`, which collects the items and sorts them
/// with std's `sort_by`, a stable sort: the positions `0..n`, in ascending
/// order, come out by descending key, equal keys in ascending position.
#[verifier::external_body]
pub(crate) fn rank_desc(keys: &Vec<i64>) -> (r: Vec<usize>)
    ensures
        is_stable_desc_ranking(keys@, r@),
{
    (0..keys.len()).sorted_by(|a, b| descending(keys[*a], keys[*b])).collect()
}

/// A calendar day.
#[derive(Clone, Copy, Debug, PartialEq, Eq, Structural)]
pub struct CalendarDate {
    pub year: i32,
    pub month: u32,
    pub day: u32,
}

impl CalendarDate {
    /// The day as one number, `YYYYMMDD` for a four-digit year: it orders
    /// days as their `YYYY-MM-DD` texts do.
    pub open spec fn key(self) -> int {
        self.year * 10000 + self.month * 100 + self.day
    }

    /// A month of the year and a day of the month.
    pub open spec fn is_valid(self) -> bool {
        1 <= self.month <= 12 && 1 <= self.day <= 31
    }

    /// The UTC day of an instant.
    pub fn of(t: &UtcDateTime) -> (r: Self)
        ensures
            r.year == t.year && r.month == t.month && r.day == t.day,
    {
        CalendarDate { year: t.year, month: t.month, day: t.day }
    }
}

/// Between valid days the key orders as the calendar does, year, then
/// month, then day (as the `YYYY-MM-DD` texts do for four-digit years), and
/// distinct days have distinct keys.
pub proof fn lemma_day_key_order(a: CalendarDate, b: CalendarDate)
    requires
        a.is_valid(),
        b.is_valid(),
    ensures
        a.key() < b.key() <==> (a.year < b.year || (a.year == b.year && (a.month < b.month || (
        a.month == b.month && a.day < b.day)))),
        a.key() == b.key() <==> a == b,
{
}

/// A live repository, as listed in the report.
pub struct RepositoryRecord {
    pub full_name: String,
    pub url: String,
    pub fork_count: i64,
    pub star_count: i64,
    pub pushed_date: CalendarDate,
}

impl RepositoryRecord {
    /// A copy of the record.
    pub fn duplicate(&self) -> (r: Self)
        ensures
            r == *self,
    {
        RepositoryRecord {
            full_name: self.full_name.clone(),
            url: self.url.clone(),
            fork_count: self.fork_count,
            star_count: self.star_count,
            pushed_date: self.pushed_date,
        }
    }
}

/// The orders of the three top lists.
#[derive(Clone, Copy, Debug, PartialEq, Eq, Structural)]
pub enum RepoOrder {
    Forks,
    Stars,
    PushedDate,
}

/// The key a repository is ranked by, larger first.
pub open spec fn order_key(order: RepoOrder, r: RepositoryRecord) -> i64 {
    match order {
        RepoOrder::Forks => r.fork_count,
        RepoOrder::Stars => r.star_count,
        RepoOrder::PushedDate => r.pushed_date.key() as i64,
    }
}

pub open spec fn order_keys(order: RepoOrder, repos: Seq<RepositoryRecord>) -> Seq<i64> {
    Seq::new(repos.len(), |i: int| order_key(order, repos[i]))
}

fn key_of(order: RepoOrder, r: &RepositoryRecord) -> (k: i64)
    ensures
        k == order_key(order, *r),
{
    match order {
        RepoOrder::Forks => r.fork_count,
        RepoOrder::Stars => r.star_count,
        RepoOrder::PushedDate => {
            let d = r.pushed_date;
            d.year as i64 * 10000 + d.month as i64 * 100 + d.day as i64
        },
    }
}

/// `top` is the first `take` repositories of a stable ranking by `order`.
pub open spec fn is_top_n(
    repos: Seq<RepositoryRecord>,
    take: int,
    order: RepoOrder,
    top: Seq<RepositoryRecord>,
) -> bool {
    &&& top.len() == if take < repos.len() {
        take
    } else {
        repos.len() as int
    }
    &&& exists|p: Seq<usize>|
        is_stable_desc_ranking(order_keys(order, repos), p) && forall|i: int|
            0 <= i < top.len() ==> top[i] == repos[p[i] as int]
}

/// The first `take` repositories by descending key, ties in input order.
pub fn top_n(repos: &Vec<RepositoryRecord>, take: usize, order: RepoOrder) -> (r: Vec<
    RepositoryRecord,
>)
    ensures
        is_top_n(repos@, take as int, order, r@),
{
    let mut keys: Vec<i64> = Vec::new();
    let mut i: usize = 0;
    while i < repos.len()
        invariant
            i <= repos.len(),
            keys@ =~= order_keys(order, repos@.subrange(0, i as int)),
        decreases repos.len() - i,
    {
        keys.push(key_of(order, &repos[i]));
        i += 1;
    }
    assert(repos@.subrange(0, repos@.len() as int) =~= repos@);
    let ranked = rank_desc(&keys);
    let n = if take < ranked.len() {
        take
    } else {
        ranked.len()
    };
    let mut top: Vec<RepositoryRecord> = Vec::new();
    let mut k: usize = 0;
    while k < n
        invariant
            n <= ranked@.len(),
            k <= n,
            is_stable_desc_ranking(keys@, ranked@),
            keys@.len() == repos@.len(),
            top@.len() == k,
            forall|j: int| 0 <= j < k ==> top@[j] == repos@[ranked@[j] as int],
        decreases n - k,
    {
        top.push(repos[ranked[k]].duplicate());
        k += 1;
    }
    assert(is_stable_desc_ranking(order_keys(order, repos@), ranked@));
    top
}

/// Between valid days, `a` comes strictly before `b` in the calendar.
pub open spec fn day_before(a: CalendarDate, b: CalendarDate) -> bool {
    a.year < b.year || (a.year == b.year && (a.month < b.month || (a.month == b.month && a.day
        < b.day)))
}

/// Where every day is valid and no two repositories share one, a top list
/// by pushed date runs strictly from the latest day down.
pub proof fn lemma_recent_strictly_descending(
    repos: Seq<RepositoryRecord>,
    take: int,
    top: Seq<RepositoryRecord>,
)
    requires
        is_top_n(repos, take, RepoOrder::PushedDate, top),
        forall|i: int| 0 <= i < repos.len() ==> (#[trigger] repos[i]).pushed_date.is_valid(),
        forall|i: int, j: int|
            0 <= i < j < repos.len() ==> repos[i].pushed_date != repos[j].pushed_date,
    ensures
        forall|i: int, j: int|
            0 <= i < j < top.len() ==> day_before(top[j].pushed_date, top[i].pushed_date),
{
    let keys = order_keys(RepoOrder::PushedDate, repos);
    let p = choose|p: Seq<usize>|
        is_stable_desc_ranking(keys, p) && forall|i: int|
            0 <= i < top.len() ==> top[i] == repos[p[i] as int];
    assert forall|i: int, j: int| 0 <= i < j < top.len() implies day_before(
        top[j].pushed_date,
        top[i].pushed_date,
    ) by {
        let a = p[i] as int;
        let b = p[j] as int;
        assert(ranks_before(keys, a, b));
        lemma_day_key_order(repos[a].pushed_date, repos[b].pushed_date);
        lemma_day_key_order(repos[b].pushed_date, repos[a].pushed_date);
        if a < b {
            assert(repos[a].pushed_date != repos[b].pushed_date);
        } else {
            assert(repos[b].pushed_date != repos[a].pushed_date);
        }
    }
}

/// The three top lists of a run.
pub struct TopRepos {
    pub most_recent: Vec<RepositoryRecord>,
    pub most_starred: Vec<RepositoryRecord>,
    pub most_forked: Vec<RepositoryRecord>,
}

pub fn top_repos(repos: &Vec<RepositoryRecord>) -> (r: TopRepos)
    ensures
        is_top_n(repos@, TOP_FORKED_REPOS as int, RepoOrder::Forks, r.most_forked@),
        is_top_n(repos@, TOP_STARRED_REPOS as int, RepoOrder::Stars, r.most_starred@),
        is_top_n(repos@, TOP_RECENT_REPOS as int, RepoOrder::PushedDate, r.most_recent@),
{
    let most_forked = top_n(repos, TOP_FORKED_REPOS, RepoOrder::Forks);
    let most_starred = top_n(repos, TOP_STARRED_REPOS, RepoOrder::Stars);
    let most_recent = top_n(repos, TOP_RECENT_REPOS, RepoOrder::PushedDate);
    TopRepos { most_recent, most_starred, most_forked }
}

} // verus!
