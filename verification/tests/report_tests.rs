use standup_report::get_commits;
use standup_report::get_repo_info;
use standup_report::RawCommit;
use standup_report::RepoSource;

const NOW: i64 = 1_000_000_000;

fn commit(
    id: &str,
    summary: &str,
    name: Option<&str>,
    email: Option<&str>,
    t: i64,
    offset_minutes: i32,
) -> RawCommit {
    RawCommit {
        id: String::from(id),
        summary: String::from(summary),
        author_name: name.map(String::from),
        author_email: email.map(String::from),
        timestamp_secs: t,
        offset_minutes,
    }
}

fn alice(id: &str, summary: &str, t: i64) -> RawCommit {
    commit(id, summary, Some("Alice"), Some("alice@example.com"), t, 0)
}

fn bob(id: &str, summary: &str, t: i64) -> RawCommit {
    commit(id, summary, Some("Bob"), Some("bob@example.com"), t, 0)
}

#[test]
fn scenario_two_repos_three_matches() {
    // Repository A: 3 commits by Alice within 7 days, 1 older Alice commit,
    // 1 recent commit by another author. Repository B: no matching commits.
    let repo_a = RepoSource {
        path: String::from("/work/a"),
        commits: Some(vec![
            alice("a1", "newest", NOW - 100),
            bob("x1", "not hers", NOW - 200),
            alice("a2", "middle", NOW - 3 * 86400),
            alice("a3", "oldest kept", NOW - 7 * 86400 + 1),
            alice("a4", "too old", NOW - 9 * 86400),
        ]),
    };
    let repo_b = RepoSource {
        path: String::from("/work/b"),
        commits: Some(vec![bob("x2", "only bob", NOW - 100)]),
    };
    let report = get_repo_info(&vec![repo_a, repo_b], "Alice", 7, NOW);
    assert_eq!(report.len(), 1);
    assert_eq!(report[0].0, "/work/a");
    let ids: Vec<&str> = report[0].1.iter().map(|g| g.id.as_str()).collect();
    assert_eq!(ids, vec!["a1", "a2", "a3"]);
}

#[test]
fn traversal_order_is_kept() {
    let raws = vec![
        alice("c", "third in walk", NOW - 30),
        alice("a", "first in walk", NOW - 10),
        alice("b", "second in walk", NOW - 20),
    ];
    let recs = get_commits(&raws, "Alice", 7, NOW);
    let ids: Vec<&str> = recs.iter().map(|g| g.id.as_str()).collect();
    // order mirrors the walk, no re-sorting by timestamp
    assert_eq!(ids, vec!["c", "a", "b"]);
}

#[test]
fn record_carries_commit_data() {
    let raws = vec![commit(
        "deadbeef",
        "fix the frobnicator",
        Some("Alice"),
        Some("alice@example.com"),
        NOW - 50,
        90,
    )];
    let recs = get_commits(&raws, "Alice", 7, NOW);
    assert_eq!(recs.len(), 1);
    assert_eq!(recs[0].id, "deadbeef");
    assert_eq!(recs[0].summary, "fix the frobnicator");
    assert_eq!(recs[0].timestamp_secs, NOW - 50);
    assert_eq!(recs[0].offset_minutes, 90);
    assert_eq!(recs[0].author_name, "Alice");
    assert_eq!(recs[0].author_email, "alice@example.com");
}

#[test]
fn missing_author_field_is_rendered_empty() {
    let raws = vec![commit("1", "s", None, Some("alice@example.com"), NOW - 1, 0)];
    let recs = get_commits(&raws, "alice", 7, NOW);
    assert_eq!(recs.len(), 1);
    assert_eq!(recs[0].author_name, "");
    assert_eq!(recs[0].author_email, "alice@example.com");
}

#[test]
fn epoch_timestamp_renders_fixed_shape() {
    // a window reaching back to the epoch keeps a commit dated 0;
    // the day of month is space-padded
    let raws = vec![commit("1", "s", Some("A"), None, 0, 0)];
    let recs = get_commits(&raws, "A", 20000, 86400);
    assert_eq!(recs.len(), 1);
    assert_eq!(recs[0].authored_at, "Thu Jan  1 00:00:00 1970");
}

#[test]
fn timestamp_rendering_honours_offset() {
    let raws = vec![commit("1", "s", Some("A"), None, 0, 60)];
    let recs = get_commits(&raws, "A", 20000, 86400);
    assert_eq!(recs.len(), 1);
    assert_eq!(recs[0].authored_at, "Thu Jan  1 01:00:00 1970");
}

#[test]
fn two_digit_day_renders_without_padding() {
    let raws = vec![commit("1", "s", Some("A"), None, 1_000_000, 0)];
    let recs = get_commits(&raws, "A", 20000, 1_000_001);
    assert_eq!(recs.len(), 1);
    assert_eq!(recs[0].authored_at, "Mon Jan 12 13:46:40 1970");
}

#[test]
fn pre_epoch_timestamp_still_renders() {
    let raws = vec![commit("1", "s", Some("A"), None, -86399, 0)];
    let recs = get_commits(&raws, "A", 1, 0);
    assert_eq!(recs.len(), 1);
    assert_eq!(recs[0].authored_at, "Wed Dec 31 00:00:01 1969");
}

#[test]
fn far_future_commit_with_offset_does_not_panic() {
    // the latest representable timestamp, shifted east past the renderer's
    // range: the shift is skipped rather than panicking
    let t: i64 = 253_402_300_799;
    let raws = vec![commit("1", "s", Some("A"), None, t, 60)];
    let recs = get_commits(&raws, "A", 1, t);
    assert_eq!(recs.len(), 1);
    assert_eq!(recs[0].authored_at, "Fri Dec 31 23:59:59 9999");
}

#[test]
fn failed_traversal_is_skipped_not_fatal() {
    let good1 = RepoSource {
        path: String::from("/work/one"),
        commits: Some(vec![alice("g1", "kept", NOW - 100)]),
    };
    let bad = RepoSource { path: String::from("/work/corrupt"), commits: None };
    let good2 = RepoSource {
        path: String::from("/work/two"),
        commits: Some(vec![alice("g2", "kept too", NOW - 200)]),
    };
    let report = get_repo_info(&vec![good1, bad, good2], "Alice", 7, NOW);
    assert_eq!(report.len(), 2);
    assert_eq!(report[0].0, "/work/one");
    assert_eq!(report[1].0, "/work/two");
}

#[test]
fn unborn_head_yields_no_entry() {
    let empty_walk = RepoSource { path: String::from("/work/new"), commits: Some(vec![]) };
    let report = get_repo_info(&vec![empty_walk], "Alice", 7, NOW);
    assert!(report.is_empty());
}

#[test]
fn no_matches_is_a_quiet_empty_report() {
    let only_bob = RepoSource {
        path: String::from("/work/b"),
        commits: Some(vec![bob("x", "s", NOW - 10)]),
    };
    let report = get_repo_info(&vec![only_bob], "Alice", 7, NOW);
    assert!(report.is_empty());
}

#[test]
fn zero_day_window_empties_the_report() {
    let repo = RepoSource {
        path: String::from("/work/a"),
        commits: Some(vec![alice("a1", "s", NOW - 1), alice("a2", "s", NOW)]),
    };
    let report = get_repo_info(&vec![repo], "Alice", 0, NOW);
    assert!(report.is_empty());
}

fn sources() -> Vec<RepoSource> {
    vec![
        RepoSource {
            path: String::from("/work/a"),
            commits: Some(vec![
                alice("a1", "one", NOW - 100),
                bob("b1", "skip", NOW - 150),
                alice("a2", "two", NOW - 200),
            ]),
        },
        RepoSource { path: String::from("/work/corrupt"), commits: None },
        RepoSource {
            path: String::from("/work/c"),
            commits: Some(vec![alice("c1", "three", NOW - 300)]),
        },
    ]
}

#[test]
fn aggregation_is_idempotent() {
    let first = get_repo_info(&sources(), "Alice", 7, NOW);
    let second = get_repo_info(&sources(), "Alice", 7, NOW);
    assert_eq!(first.len(), second.len());
    for (x, y) in first.iter().zip(second.iter()) {
        assert_eq!(x.0, y.0);
        assert_eq!(x.1.len(), y.1.len());
        for (g, h) in x.1.iter().zip(y.1.iter()) {
            assert_eq!(g.id, h.id);
            assert_eq!(g.summary, h.summary);
            assert_eq!(g.authored_at, h.authored_at);
            assert_eq!(g.timestamp_secs, h.timestamp_secs);
            assert_eq!(g.offset_minutes, h.offset_minutes);
            assert_eq!(g.author_name, h.author_name);
            assert_eq!(g.author_email, h.author_email);
        }
    }
}
