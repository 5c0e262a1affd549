use aosc_kpi::records::{Account, CommitDates, CommitRecord, Repo, WalkError};
use aosc_kpi::walker::{
    classify_fetch_failure, walk_pages, walk_step, FetchEvent, WalkState, WalkStep,
    EMPTY_REPO_STATUS,
};
use aosc_kpi::window::{filter_repos, in_window};

// 2024-01-01T00:00:00Z as Unix seconds.
const BASE: i64 = 1704067200;

fn dated_commit(date: &str, login: &str, url: &str) -> CommitRecord {
    CommitRecord {
        dates: Some(CommitDates {
            author_date: date.to_string(),
            committer_date: date.to_string(),
        }),
        author: Some(Account {
            login: Some(login.to_string()),
            html_url: Some(url.to_string()),
        }),
        committer: None,
    }
}

#[test]
fn window_boundary_exact() {
    // now - ts <= window, at the boundary and one second past it
    assert!(in_window(100, 200, 100));
    assert!(!in_window(99, 200, 100));
    assert!(in_window(200, 200, 0));
    // a timestamp in the future is always within a trailing window
    assert!(in_window(300, 200, 0));
}

#[test]
fn filter_repos_keeps_recent() {
    let repos = vec![
        Repo {
            url: "https://example.test/repos/fresh".to_string(),
            pushed_at: "2023-12-31T23:50:00Z".to_string(), // BASE - 600
        },
        Repo {
            url: "https://example.test/repos/stale".to_string(),
            pushed_at: "2023-12-31T23:00:00Z".to_string(), // BASE - 3600
        },
    ];
    let kept = filter_repos(&repos, BASE, 1000).unwrap();
    assert_eq!(kept.len(), 1);
    assert_eq!(kept[0].url, "https://example.test/repos/fresh");
}

#[test]
fn filter_repos_window_monotonic() {
    let repos = vec![
        Repo {
            url: "a".to_string(),
            pushed_at: "2023-12-31T23:50:00Z".to_string(),
        },
        Repo {
            url: "b".to_string(),
            pushed_at: "2023-12-31T23:00:00Z".to_string(),
        },
    ];
    let narrow = filter_repos(&repos, BASE, 1000).unwrap();
    let wide = filter_repos(&repos, BASE, 4000).unwrap();
    // enlarging the window only adds: everything narrow kept, wide keeps too
    for repo in &narrow {
        assert!(wide.iter().any(|r| r.url == repo.url));
    }
    assert_eq!(narrow.len(), 1);
    assert_eq!(wide.len(), 2);
}

#[test]
fn filter_repos_normalizes_offsets() {
    // the same instant written with a non-UTC offset must filter the same
    let repos = vec![Repo {
        url: "offset".to_string(),
        pushed_at: "2024-01-01T00:50:00+01:00".to_string(), // BASE - 600 in UTC
    }];
    let kept = filter_repos(&repos, BASE, 1000).unwrap();
    assert_eq!(kept.len(), 1);
    let none = filter_repos(&repos, BASE, 300).unwrap();
    assert_eq!(none.len(), 0);
}

#[test]
fn filter_repos_rejects_malformed_timestamp() {
    let repos = vec![Repo {
        url: "broken".to_string(),
        pushed_at: "yesterday-ish".to_string(),
    }];
    let err = filter_repos(&repos, BASE, 1000).unwrap_err();
    assert_eq!(err, "yesterday-ish");
}

#[test]
fn early_termination_stops_at_first_outside_page() {
    // strictly decreasing timestamps; window of 1000 seconds before BASE
    let page1 = vec![
        dated_commit("2023-12-31T23:59:00Z", "u1", "h1"), // BASE - 60
        dated_commit("2023-12-31T23:58:00Z", "u2", "h2"), // BASE - 120
        dated_commit("2023-12-31T23:57:00Z", "u3", "h3"), // BASE - 180
    ];
    let page2 = vec![
        dated_commit("2023-12-31T23:00:00Z", "u4", "h4"), // BASE - 3600: outside
        dated_commit("2023-12-31T22:00:00Z", "u5", "h5"),
    ];
    let page3 = vec![dated_commit("2023-12-31T21:00:00Z", "u6", "h6")];
    let pages = vec![page1, page2, page3];
    let (result, fetched) = walk_pages(&pages, BASE, 1000);
    let records = result.unwrap();
    // stopped exactly at the first page with an outside commit ...
    assert_eq!(fetched, 2);
    // ... and retained nothing from that page or later
    assert_eq!(records.len(), 3);
    let logins: Vec<String> = records
        .iter()
        .map(|r| r.author.as_ref().unwrap().login.clone().unwrap())
        .collect();
    assert_eq!(logins, vec!["u1", "u2", "u3"]);
}

#[test]
fn early_termination_mid_page() {
    let page1 = vec![
        dated_commit("2023-12-31T23:59:00Z", "keep", "h"), // inside
        dated_commit("2023-12-31T23:00:00Z", "drop1", "h"), // outside: stop here
        dated_commit("2023-12-31T22:00:00Z", "drop2", "h"),
    ];
    let pages = vec![page1];
    let (result, fetched) = walk_pages(&pages, BASE, 1000);
    let records = result.unwrap();
    assert_eq!(fetched, 1);
    assert_eq!(records.len(), 1);
    assert_eq!(
        records[0].author.as_ref().unwrap().login.as_deref(),
        Some("keep")
    );
}

#[test]
fn termination_needs_both_timestamps_outside() {
    // author outside, committer inside: the commit stays and the walk goes on
    let mixed = CommitRecord {
        dates: Some(CommitDates {
            author_date: "2023-12-31T22:00:00Z".to_string(), // outside
            committer_date: "2023-12-31T23:59:00Z".to_string(), // inside
        }),
        author: Some(Account {
            login: Some("mixed".to_string()),
            html_url: Some("h".to_string()),
        }),
        committer: None,
    };
    let pages = vec![vec![mixed]];
    let (result, fetched) = walk_pages(&pages, BASE, 1000);
    let records = result.unwrap();
    assert_eq!(records.len(), 1);
    // the page was exhausted without termination, so the next (empty) page
    // was fetched to learn the history ended
    assert_eq!(fetched, 2);
}

#[test]
fn undated_commits_are_skipped_not_retained() {
    let undated = CommitRecord {
        dates: None,
        author: Some(Account {
            login: Some("ghost".to_string()),
            html_url: Some("h".to_string()),
        }),
        committer: None,
    };
    let pages = vec![vec![undated, dated_commit("2023-12-31T23:59:00Z", "real", "h")]];
    let (result, _) = walk_pages(&pages, BASE, 1000);
    let records = result.unwrap();
    assert_eq!(records.len(), 1);
    assert_eq!(
        records[0].author.as_ref().unwrap().login.as_deref(),
        Some("real")
    );
}

#[test]
fn walk_exhausts_history_on_empty_page() {
    let pages: Vec<Vec<CommitRecord>> = vec![];
    let (result, fetched) = walk_pages(&pages, BASE, 1000);
    assert_eq!(result.unwrap().len(), 0);
    assert_eq!(fetched, 1);
}

#[test]
fn empty_repository_signal_is_success() {
    // the conflict status classifies as the empty-repository signal ...
    let ev = classify_fetch_failure(Some(EMPTY_REPO_STATUS), "conflict".to_string());
    assert!(matches!(ev, FetchEvent::EmptyRepo));
    // ... and the walk treats it as a successful empty result, not an error
    let st = WalkState {
        next_page: 1,
        acc: Vec::new(),
    };
    match walk_step(st, ev, BASE, 1000) {
        WalkStep::Done(records) => assert_eq!(records.len(), 0),
        _ => panic!("the empty-repository signal must end the walk successfully"),
    }
}

#[test]
fn other_fetch_failures_are_transport_errors() {
    let ev = classify_fetch_failure(Some(500), "server fell over".to_string());
    match &ev {
        FetchEvent::FetchFailed(msg) => assert_eq!(msg, "server fell over"),
        _ => panic!("a non-conflict failure is no empty-repository signal"),
    }
    let st = WalkState {
        next_page: 1,
        acc: Vec::new(),
    };
    match walk_step(st, ev, BASE, 1000) {
        WalkStep::Failed(WalkError::Transport(msg)) => assert_eq!(msg, "server fell over"),
        _ => panic!("a transport failure must fail the walk"),
    }
    let no_status = classify_fetch_failure(None, "connection refused".to_string());
    assert!(matches!(no_status, FetchEvent::FetchFailed(_)));
}

#[test]
fn malformed_commit_timestamp_fails_the_walk() {
    let bad = CommitRecord {
        dates: Some(CommitDates {
            author_date: "2023-12-31T23:59:00Z".to_string(),
            committer_date: "three days ago".to_string(),
        }),
        author: None,
        committer: None,
    };
    let pages = vec![vec![bad]];
    let (result, fetched) = walk_pages(&pages, BASE, 1000);
    match result {
        Err(WalkError::BadTimestamp(s)) => assert_eq!(s, "three days ago"),
        _ => panic!("a malformed timestamp must fail the walk"),
    }
    assert_eq!(fetched, 1);
}

#[test]
fn walk_twice_same_pages_same_result() {
    let pages = vec![vec![
        dated_commit("2023-12-31T23:59:00Z", "u1", "h1"),
        dated_commit("2023-12-31T23:58:00Z", "u2", "h2"),
    ]];
    let (r1, f1) = walk_pages(&pages, BASE, 1000);
    let (r2, f2) = walk_pages(&pages, BASE, 1000);
    let v1 = r1.unwrap();
    let v2 = r2.unwrap();
    assert_eq!(f1, f2);
    assert_eq!(v1.len(), v2.len());
    for (a, b) in v1.iter().zip(v2.iter()) {
        assert_eq!(
            a.author.as_ref().unwrap().login,
            b.author.as_ref().unwrap().login
        );
    }
}
