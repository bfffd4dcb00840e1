use profile_readme::calendar::{current_cutoff, is_recent, two_years_before, UtcDateTime};
use profile_readme::languages::{
    collect_language_stats, language_color, top_languages, LanguageName, LanguageStat,
    LanguageTotals,
};
use profile_readme::pipeline::{
    after_attempt, backoff_delay_ms, fold_page, issue_and_pr_stats, IssueAndPrStats, PageAction,
    RetryDecision, UserPage, UserReposData, MAX_ATTEMPTS, MAX_PAGES,
};
use profile_readme::ranking::{top_n, top_repos, CalendarDate, RepoOrder, RepositoryRecord};
use profile_readme::stats::{
    collect_repo_stats, collect_user_repo_stats, AggregateError, AggregateStats, RefTarget,
    RepoLanguages, RepoNode,
};

fn s(x: &str) -> String {
    x.to_string()
}

fn at(year: i32, month: u32, day: u32, hour: u32, minute: u32, second: u32) -> UtcDateTime {
    UtcDateTime { year, month, day, hour, minute, second, nanosecond: 0 }
}

fn totals(items: &[(&str, &str, u64)]) -> LanguageTotals {
    let mut t = LanguageTotals::new();
    for (name, color, size) in items {
        t.add_language(&s(name), &s(color), *size);
    }
    t
}

fn names(stats: &[LanguageStat]) -> Vec<(String, u64)> {
    stats.iter().map(|l| (l.name.clone(), l.percentage)).collect()
}

fn lang(name: &str, color: Option<&str>) -> LanguageName {
    LanguageName { name: s(name), color: color.map(s) }
}

fn node(name: &str, owner: &str, pushed: Option<&str>, langs: &[(&str, u64)]) -> RepoNode {
    RepoNode {
        name_with_owner: s(name),
        url: format!("https://example.com/{}", name),
        owner_login: s(owner),
        is_archived: false,
        is_disabled: false,
        is_empty: false,
        is_private: false,
        is_fork: false,
        fork_count: 3,
        stargazer_count: 7,
        languages: Some(RepoLanguages {
            sizes: langs.iter().map(|l| l.1).collect(),
            names: langs.iter().map(|l| lang(l.0, Some("#123456"))).collect(),
        }),
        refs: Some(vec![Some(RefTarget::Commit { pushed_date: pushed.map(s) })]),
    }
}

fn record(name: &str, forks: i64, stars: i64, date: (i32, u32, u32)) -> RepositoryRecord {
    RepositoryRecord {
        full_name: s(name),
        url: format!("https://example.com/{}", name),
        fork_count: forks,
        star_count: stars,
        pushed_date: CalendarDate { year: date.0, month: date.1, day: date.2 },
    }
}

fn cutoff() -> UtcDateTime {
    at(2023, 6, 1, 0, 0, 0)
}

#[test]
fn color_from_upstream_is_kept() {
    assert_eq!(language_color(&s("Rust"), &Some(s("#dea584"))), "#dea584");
}

#[test]
fn color_overrides_and_default() {
    assert_eq!(language_color(&s("Perl 6"), &None), "#00A9E0");
    assert_eq!(language_color(&s("XS"), &None), "#021c9e");
    assert_eq!(language_color(&s("Zig"), &None), "#808080");
}

#[test]
fn language_totals_merge_in_either_order() {
    let mut a = LanguageTotals::new();
    a.add_language(&s("X"), &s("#111111"), 100);
    a.add_language(&s("X"), &s("#111111"), 50);
    let mut b = LanguageTotals::new();
    b.add_language(&s("X"), &s("#111111"), 50);
    b.add_language(&s("X"), &s("#111111"), 100);
    assert_eq!(a.bytes_for(&s("X")), Some(150));
    assert_eq!(b.bytes_for(&s("X")), Some(150));
    assert_eq!(a.len(), 1);
    assert_eq!(a.bytes_for(&s("Y")), None);
}

#[test]
fn language_totals_keep_first_color_and_saturate() {
    let mut t = LanguageTotals::new();
    t.add_language(&s("X"), &s("#aaaaaa"), u64::MAX - 1);
    t.add_language(&s("X"), &s("#bbbbbb"), 10);
    assert_eq!(t.entry(0).color, "#aaaaaa");
    assert_eq!(t.entry(0).bytes, u64::MAX);
}

#[test]
fn collect_language_stats_folds_each_language() {
    let mut t = LanguageTotals::new();
    let sizes = vec![100, 40];
    let langs = vec![lang("Rust", Some("#dea584")), lang("Perl 6", None)];
    collect_language_stats(&mut t, &s("me/a"), &sizes, &langs, &vec![]);
    collect_language_stats(&mut t, &s("me/b"), &vec![5], &vec![lang("Rust", None)], &vec![]);
    assert_eq!(t.len(), 2);
    assert_eq!(t.entry(0).name, "Rust");
    assert_eq!(t.entry(0).color, "#dea584");
    assert_eq!(t.entry(0).bytes, 105);
    assert_eq!(t.entry(1).color, "#00A9E0");
    assert_eq!(t.entry(1).bytes, 40);
}

#[test]
fn collect_language_stats_skips_mismatched_lists() {
    let mut t = LanguageTotals::new();
    collect_language_stats(&mut t, &s("me/a"), &vec![1, 2], &vec![lang("C", None)], &vec![]);
    assert_eq!(t.len(), 0);
}

#[test]
fn collect_language_stats_skips_denied_repository() {
    let mut t = LanguageTotals::new();
    let deny = vec![s("me/vendored")];
    collect_language_stats(&mut t, &s("me/vendored"), &vec![9], &vec![lang("C", None)], &deny);
    assert_eq!(t.len(), 0);
    collect_language_stats(&mut t, &s("me/own"), &vec![9], &vec![lang("C", None)], &deny);
    assert_eq!(t.bytes_for(&s("C")), Some(9));
}

#[test]
fn top_languages_of_empty_totals_is_empty() {
    assert!(top_languages(&LanguageTotals::new()).is_empty());
}

#[test]
fn top_languages_of_zero_bytes_is_empty() {
    assert!(top_languages(&totals(&[("A", "#1", 0)])).is_empty());
}

#[test]
fn top_languages_eighty_twenty() {
    let r = top_languages(&totals(&[("A", "#a", 80), ("B", "#b", 20)]));
    assert_eq!(names(&r), vec![(s("A"), 80), (s("B"), 20)]);
    assert_eq!(r[0].color, "#a");
    assert_eq!(r[0].bytes, 80);
}

#[test]
fn top_languages_drops_below_one_percent() {
    let r = top_languages(&totals(&[("A", "#a", 995), ("B", "#b", 5)]));
    assert_eq!(names(&r), vec![(s("A"), 100)]);
}

#[test]
fn top_languages_ranks_descending_and_rounds_halves_up() {
    let r = top_languages(&totals(&[("A", "#a", 1), ("B", "#b", 7)]));
    assert_eq!(names(&r), vec![(s("B"), 88), (s("A"), 13)]);
}

#[test]
fn top_languages_keeps_ties_in_order_of_first_encounter() {
    let r = top_languages(&totals(&[("B", "#b", 10), ("A", "#a", 10), ("C", "#c", 20)]));
    assert_eq!(names(&r), vec![(s("C"), 50), (s("B"), 25), (s("A"), 25)]);
}

#[test]
fn top_repos_most_recent_holds_ten_newest() {
    let repos: Vec<RepositoryRecord> =
        (1..=12).map(|d| record(&format!("me/r{}", d), 0, 0, (2024, 3, d))).collect();
    let top = top_repos(&repos);
    assert_eq!(top.most_recent.len(), 10);
    let days: Vec<u32> = top.most_recent.iter().map(|r| r.pushed_date.day).collect();
    assert_eq!(days, vec![12, 11, 10, 9, 8, 7, 6, 5, 4, 3]);
}

#[test]
fn top_repos_stable_on_ties() {
    let repos = vec![
        record("me/a", 1, 9, (2024, 1, 1)),
        record("me/b", 5, 9, (2023, 1, 1)),
        record("me/c", 1, 2, (2024, 1, 1)),
        record("me/d", 5, 1, (2022, 12, 31)),
    ];
    let top = top_repos(&repos);
    let forked: Vec<&str> = top.most_forked.iter().map(|r| r.full_name.as_str()).collect();
    assert_eq!(forked, vec!["me/b", "me/d", "me/a", "me/c"]);
    let starred: Vec<&str> = top.most_starred.iter().map(|r| r.full_name.as_str()).collect();
    assert_eq!(starred, vec!["me/a", "me/b", "me/c", "me/d"]);
    let recent: Vec<&str> = top.most_recent.iter().map(|r| r.full_name.as_str()).collect();
    assert_eq!(recent, vec!["me/a", "me/c", "me/b", "me/d"]);
}

#[test]
fn top_n_truncates() {
    let repos: Vec<RepositoryRecord> =
        (0..8).map(|i| record(&format!("me/r{}", i), i, 0, (2024, 1, 1))).collect();
    let top = top_n(&repos, 5, RepoOrder::Forks);
    let forks: Vec<i64> = top.iter().map(|r| r.fork_count).collect();
    assert_eq!(forks, vec![7, 6, 5, 4, 3]);
    assert!(top_n(&Vec::new(), 5, RepoOrder::Stars).is_empty());
}

#[test]
fn commit_at_cutoff_is_recent() {
    let c = cutoff();
    assert!(is_recent(&c, &c));
    let mut earlier = c;
    earlier.nanosecond = 0;
    earlier.second = 59;
    earlier.minute = 59;
    earlier.hour = 23;
    earlier.day = 31;
    earlier.month = 5;
    assert!(!is_recent(&earlier, &c));
    assert!(is_recent(&at(2023, 6, 1, 0, 0, 1), &c));
}

#[test]
fn cutoff_is_two_years_back() {
    let now = UtcDateTime { nanosecond: 500, ..at(2025, 10, 18, 7, 30, 12) };
    assert_eq!(two_years_before(&now), at(2023, 10, 18, 7, 30, 12));
}

#[test]
fn cutoff_from_leap_day_is_twenty_eighth() {
    assert_eq!(two_years_before(&at(2024, 2, 29, 1, 2, 3)), at(2022, 2, 28, 1, 2, 3));
}

#[test]
fn current_cutoff_is_in_range() {
    let c = current_cutoff();
    assert!((1..=12).contains(&c.month));
    assert!(c.year >= 2000);
}

#[test]
fn backoff_doubles() {
    let d: Vec<u64> = (1..=4).map(backoff_delay_ms).collect();
    assert_eq!(d, vec![1000, 2000, 4000, 8000]);
}

/// Drives the retry decisions over the given attempt outcomes; returns
/// whether the request was delivered, the waits and the attempts made.
fn drive(outcomes: &[bool]) -> (bool, Vec<u64>, u32) {
    let mut waits = vec![];
    let mut attempt = 1;
    loop {
        match after_attempt(attempt, outcomes[(attempt - 1) as usize]) {
            RetryDecision::Deliver => return (true, waits, attempt),
            RetryDecision::RetryAfter { delay_ms } => waits.push(delay_ms),
            RetryDecision::GiveUp { attempts } => return (false, waits, attempts),
        }
        attempt += 1;
    }
}

#[test]
fn retry_succeeds_on_third_attempt() {
    assert_eq!(drive(&[false, false, true, true, true]), (true, vec![1000, 2000], 3));
}

#[test]
fn retry_gives_up_after_four_attempts() {
    assert_eq!(drive(&[false, false, false, false, true]), (false, vec![1000, 2000, 4000], 4));
    assert_eq!(MAX_ATTEMPTS, 4);
}

#[test]
fn first_attempt_success_has_no_wait() {
    assert_eq!(drive(&[true]), (true, vec![], 1));
}

#[test]
fn skipped_repository_is_not_counted() {
    let mut st = AggregateStats::new();
    let mut n = node("me/a", "me", Some("2024-01-01T00:00:00Z"), &[("C", 5)]);
    n.is_private = true;
    assert_eq!(collect_repo_stats(&mut st, &n, &cutoff(), &vec![]), Ok(()));
    assert_eq!(st.total_repo_count, 0);
    assert_eq!(st.owned_repo_count, 0);
}

#[test]
fn fork_counts_but_adds_no_languages() {
    let mut st = AggregateStats::new();
    let mut n = node("me/a", "me", Some("2024-01-01T00:00:00Z"), &[("C", 5)]);
    n.is_fork = true;
    assert_eq!(collect_repo_stats(&mut st, &n, &cutoff(), &vec![]), Ok(()));
    assert_eq!((st.total_repo_count, st.forked_repo_count, st.owned_repo_count), (1, 1, 0));
    assert_eq!(st.all_time_languages.len(), 0);
}

#[test]
fn recent_repository_is_live_and_listed() {
    let mut st = AggregateStats::new();
    let n = node("me/a", "me", Some("2024-01-02T23:30:00-02:00"), &[("C", 5), ("Rust", 9)]);
    assert_eq!(collect_repo_stats(&mut st, &n, &cutoff(), &vec![]), Ok(()));
    assert_eq!(st.live_repo_count, 1);
    assert_eq!(st.repositories.len(), 1);
    let r = &st.repositories[0];
    assert_eq!(r.pushed_date, CalendarDate { year: 2024, month: 1, day: 3 });
    assert_eq!((r.fork_count, r.star_count), (3, 7));
    assert_eq!(st.recent_languages.bytes_for(&s("Rust")), Some(9));
    assert_eq!(st.all_time_languages.bytes_for(&s("C")), Some(5));
}

#[test]
fn old_repository_counts_only_all_time() {
    let mut st = AggregateStats::new();
    let n = node("me/a", "me", Some("2020-01-01T00:00:00Z"), &[("C", 5)]);
    assert_eq!(collect_repo_stats(&mut st, &n, &cutoff(), &vec![]), Ok(()));
    assert_eq!((st.owned_repo_count, st.live_repo_count), (1, 0));
    assert_eq!(st.all_time_languages.bytes_for(&s("C")), Some(5));
    assert_eq!(st.recent_languages.len(), 0);
}

#[test]
fn repository_without_commit_date_is_not_live() {
    let mut st = AggregateStats::new();
    let mut n = node("me/a", "me", None, &[("C", 5)]);
    assert_eq!(collect_repo_stats(&mut st, &n, &cutoff(), &vec![]), Ok(()));
    n.refs = Some(vec![Some(RefTarget::Other)]);
    assert_eq!(collect_repo_stats(&mut st, &n, &cutoff(), &vec![]), Ok(()));
    n.refs = Some(vec![]);
    assert_eq!(collect_repo_stats(&mut st, &n, &cutoff(), &vec![]), Ok(()));
    assert_eq!((st.owned_repo_count, st.live_repo_count), (3, 0));
}

#[test]
fn bad_commit_date_stops_the_run() {
    let mut st = AggregateStats::new();
    let n = node("me/a", "me", Some("yesterday"), &[("C", 5)]);
    assert_eq!(collect_repo_stats(&mut st, &n, &cutoff(), &vec![]), Err(AggregateError::DateParse));
    assert_eq!((st.total_repo_count, st.owned_repo_count, st.forked_repo_count), (1, 1, 0));
    assert_eq!((st.live_repo_count, st.repositories.len()), (0, 0));
    assert_eq!(st.all_time_languages.bytes_for(&s("C")), Some(5));
    assert_eq!(st.recent_languages.len(), 0);
}

#[test]
fn bad_commit_date_in_a_list_keeps_earlier_repositories() {
    let mut st = AggregateStats::new();
    let repos = vec![
        node("me/a", "me", Some("2024-05-01T00:00:00Z"), &[("C", 5)]),
        node("me/b", "me", Some("not a date"), &[("C", 1)]),
        node("me/c", "me", Some("2024-05-01T00:00:00Z"), &[("C", 7)]),
    ];
    assert_eq!(
        collect_user_repo_stats(&mut st, &repos, &cutoff(), &vec![]),
        Err(AggregateError::DateParse)
    );
    assert_eq!((st.total_repo_count, st.owned_repo_count, st.live_repo_count), (2, 2, 1));
    assert_eq!(st.repositories[0].full_name, "me/a");
    assert_eq!(st.all_time_languages.bytes_for(&s("C")), Some(6));
    assert_eq!(st.recent_languages.bytes_for(&s("C")), Some(5));
}

#[test]
fn repository_without_language_data_can_be_live() {
    let mut st = AggregateStats::new();
    let mut n = node("me/a", "me", Some("2024-01-01T00:00:00Z"), &[]);
    n.languages = None;
    assert_eq!(collect_repo_stats(&mut st, &n, &cutoff(), &vec![]), Ok(()));
    assert_eq!((st.owned_repo_count, st.live_repo_count), (1, 1));
    assert_eq!(st.repositories[0].full_name, "me/a");
    assert_eq!(st.all_time_languages.len(), 0);
    assert_eq!(st.recent_languages.len(), 0);
}

#[test]
fn commit_exactly_at_cutoff_is_listed() {
    let mut st = AggregateStats::new();
    let n = node("me/a", "me", Some("2023-06-01T00:00:00Z"), &[("C", 5)]);
    assert_eq!(collect_repo_stats(&mut st, &n, &cutoff(), &vec![]), Ok(()));
    assert_eq!(st.live_repo_count, 1);
    let n = node("me/b", "me", Some("2023-05-31T23:59:59Z"), &[("C", 5)]);
    assert_eq!(collect_repo_stats(&mut st, &n, &cutoff(), &vec![]), Ok(()));
    assert_eq!((st.owned_repo_count, st.live_repo_count), (2, 1));
}

#[test]
fn recent_languages_stay_within_all_time() {
    let mut st = AggregateStats::new();
    let repos = vec![
        node("me/a", "me", Some("2019-05-01T00:00:00Z"), &[("C", 5), ("Go", 2)]),
        node("me/b", "me", Some("2024-05-01T00:00:00Z"), &[("Go", 3), ("C", 4)]),
    ];
    assert_eq!(collect_user_repo_stats(&mut st, &repos, &cutoff(), &vec![]), Ok(()));
    for i in 0..st.recent_languages.len() {
        let e = st.recent_languages.entry(i);
        let all = st.all_time_languages.bytes_for(&e.name).unwrap();
        assert!(e.bytes <= all);
    }
    assert_eq!(st.recent_languages.bytes_for(&s("Go")), Some(3));
    assert_eq!(st.all_time_languages.bytes_for(&s("Go")), Some(5));
}

#[test]
fn counts_add_up_over_a_page() {
    let mut st = AggregateStats::new();
    let mut fork = node("me/f", "me", None, &[]);
    fork.is_fork = true;
    let mut archived = node("me/x", "me", None, &[]);
    archived.is_archived = true;
    let repos = vec![
        node("me/a", "me", Some("2024-05-01T00:00:00Z"), &[("C", 5)]),
        fork,
        archived,
        node("me/b", "me", Some("2019-05-01T00:00:00Z"), &[("C", 1)]),
    ];
    assert_eq!(collect_user_repo_stats(&mut st, &repos, &cutoff(), &vec![]), Ok(()));
    assert_eq!(st.total_repo_count, st.owned_repo_count + st.forked_repo_count);
    assert_eq!((st.total_repo_count, st.owned_repo_count, st.forked_repo_count), (3, 2, 1));
    assert_eq!(st.live_repo_count as usize, st.repositories.len());
    assert_eq!(st.all_time_languages.bytes_for(&s("C")), Some(6));
    assert_eq!(st.recent_languages.bytes_for(&s("C")), Some(5));
}

fn page(nodes: Option<Vec<Option<RepoNode>>>, next: bool) -> Option<UserReposData> {
    Some(UserReposData {
        user: Some(UserPage {
            created_at: s("2011-01-01T00:00:00Z"),
            nodes,
            has_next_page: next,
            end_cursor: Some(s("cursor-1")),
        }),
    })
}

#[test]
fn page_without_data_is_missing_data() {
    let mut st = AggregateStats::new();
    let login = s("me");
    assert!(matches!(
        fold_page(&mut st, 0, &None, &login, &cutoff(), &vec![]),
        Err(AggregateError::MissingData)
    ));
    let no_user = Some(UserReposData { user: None });
    assert!(matches!(
        fold_page(&mut st, 0, &no_user, &login, &cutoff(), &vec![]),
        Err(AggregateError::MissingData)
    ));
    assert!(matches!(
        fold_page(&mut st, 0, &page(None, false), &login, &cutoff(), &vec![]),
        Err(AggregateError::MissingData)
    ));
}

#[test]
fn page_folds_owned_nodes_and_asks_for_next() {
    let mut st = AggregateStats::new();
    let nodes = vec![
        Some(node("me/a", "me", Some("2024-05-01T00:00:00Z"), &[("C", 5)])),
        None,
        Some(node("other/b", "other", Some("2024-05-01T00:00:00Z"), &[("C", 5)])),
    ];
    let r = fold_page(&mut st, 0, &page(Some(nodes), true), &s("me"), &cutoff(), &vec![]);
    match r {
        Ok(PageAction::Fetch { after }) => assert_eq!(after, Some(s("cursor-1"))),
        _ => panic!("expected a next page"),
    }
    assert_eq!(st.created_at, "2011-01-01T00:00:00Z");
    assert_eq!(st.total_repo_count, 1);
    let r = fold_page(&mut st, 1, &page(Some(vec![]), false), &s("me"), &cutoff(), &vec![]);
    assert!(matches!(r, Ok(PageAction::Finished)));
}

#[test]
fn endless_pages_are_a_runaway() {
    let mut st = AggregateStats::new();
    let r = fold_page(&mut st, MAX_PAGES - 1, &page(Some(vec![]), true), &s("me"), &cutoff(), &vec![]);
    assert!(matches!(r, Err(AggregateError::PaginationRunaway)));
}

#[test]
fn issue_stats_need_data() {
    let d = IssueAndPrStats { issues_created: 4, issues_closed: 3, prs_created: 2, prs_merged: 1 };
    assert_eq!(issue_and_pr_stats(Some(d)), Ok(d));
    assert_eq!(issue_and_pr_stats(None), Err(AggregateError::MissingData));
}
