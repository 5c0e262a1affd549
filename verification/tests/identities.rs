use aosc_kpi::aggregate::AggregatedIdentities;
use aosc_kpi::coordinator::{collect_results, RepoOutcome, Scheduler};
use aosc_kpi::membership::{
    apply_membership, classify_membership, restrict_to_members, MembershipClass,
    NOT_MEMBER_STATUS,
};
use aosc_kpi::records::{Account, CommitDates, CommitRecord, WalkError};

fn identity_commit(login: &str, url: &str) -> CommitRecord {
    CommitRecord {
        dates: Some(CommitDates {
            author_date: "2024-01-01T00:00:00Z".to_string(),
            committer_date: "2024-01-01T00:00:00Z".to_string(),
        }),
        author: Some(Account {
            login: Some(login.to_string()),
            html_url: Some(url.to_string()),
        }),
        committer: None,
    }
}

fn url_of(agg: &AggregatedIdentities, login: &str) -> Option<String> {
    agg.get(&login.to_string()).cloned()
}

#[test]
fn aggregate_last_write_wins() {
    let mut agg = AggregatedIdentities::new();
    agg.insert("alice".to_string(), "https://example.test/old".to_string());
    agg.insert("alice".to_string(), "https://example.test/new".to_string());
    assert_eq!(agg.len(), 1);
    assert_eq!(
        url_of(&agg, "alice").as_deref(),
        Some("https://example.test/new")
    );
}

#[test]
fn aggregate_reads_author_and_committer_independently() {
    let record = CommitRecord {
        dates: None,
        author: Some(Account {
            login: Some("author1".to_string()),
            html_url: Some("https://example.test/a".to_string()),
        }),
        committer: Some(Account {
            login: Some("committer1".to_string()),
            html_url: Some("https://example.test/c".to_string()),
        }),
    };
    let mut agg = AggregatedIdentities::new();
    agg.add_records(&vec![record]);
    assert_eq!(agg.len(), 2);
    assert_eq!(url_of(&agg, "author1").as_deref(), Some("https://example.test/a"));
    assert_eq!(
        url_of(&agg, "committer1").as_deref(),
        Some("https://example.test/c")
    );
}

#[test]
fn aggregate_skips_incomplete_accounts() {
    let record = CommitRecord {
        dates: None,
        author: Some(Account {
            login: Some("nameless".to_string()),
            html_url: None,
        }),
        committer: Some(Account {
            login: None,
            html_url: Some("https://example.test/void".to_string()),
        }),
    };
    let mut agg = AggregatedIdentities::new();
    agg.add_records(&vec![record]);
    assert_eq!(agg.len(), 0);
}

#[test]
fn deduplication_across_repositories() {
    // the same identity from two different repositories: exactly one entry
    let outcomes = vec![
        RepoOutcome {
            url: "repo-a".to_string(),
            result: Ok(vec![identity_commit("alice", "https://example.test/alice")]),
        },
        RepoOutcome {
            url: "repo-b".to_string(),
            result: Ok(vec![identity_commit("alice", "https://example.test/alice")]),
        },
    ];
    let report = collect_results(&outcomes);
    assert_eq!(report.identities.len(), 1);
    assert_eq!(
        url_of(&report.identities, "alice").as_deref(),
        Some("https://example.test/alice")
    );
    assert_eq!(report.failures.len(), 0);
}

#[test]
fn failure_isolation() {
    let outcomes = vec![
        RepoOutcome {
            url: "repo-broken".to_string(),
            result: Err(WalkError::Transport("connection reset".to_string())),
        },
        RepoOutcome {
            url: "repo-fine".to_string(),
            result: Ok(vec![identity_commit("bob", "https://example.test/bob")]),
        },
    ];
    let report = collect_results(&outcomes);
    // B's identities are present ...
    assert_eq!(
        url_of(&report.identities, "bob").as_deref(),
        Some("https://example.test/bob")
    );
    // ... and A's failure is reported, not propagated
    assert_eq!(report.failures.len(), 1);
    assert_eq!(report.failures[0].0, "repo-broken");
    match &report.failures[0].1 {
        WalkError::Transport(msg) => assert_eq!(msg, "connection reset"),
        _ => panic!("the transport failure must be reported as such"),
    }
}

#[test]
fn crawl_idempotent_under_completion_order() {
    let first = vec![
        RepoOutcome {
            url: "a".to_string(),
            result: Ok(vec![identity_commit("alice", "https://example.test/alice")]),
        },
        RepoOutcome {
            url: "b".to_string(),
            result: Ok(vec![identity_commit("bob", "https://example.test/bob")]),
        },
    ];
    let second = vec![
        RepoOutcome {
            url: "b".to_string(),
            result: Ok(vec![identity_commit("bob", "https://example.test/bob")]),
        },
        RepoOutcome {
            url: "a".to_string(),
            result: Ok(vec![identity_commit("alice", "https://example.test/alice")]),
        },
    ];
    let r1 = collect_results(&first);
    let r2 = collect_results(&second);
    assert_eq!(r1.identities.len(), r2.identities.len());
    for login in ["alice", "bob"] {
        assert_eq!(url_of(&r1.identities, login), url_of(&r2.identities, login));
    }
}

#[test]
fn membership_classification() {
    assert!(matches!(
        classify_membership(true, None),
        MembershipClass::Member
    ));
    assert!(matches!(
        classify_membership(false, Some(NOT_MEMBER_STATUS)),
        MembershipClass::NotMember
    ));
    assert!(matches!(
        classify_membership(false, Some(500)),
        MembershipClass::Indeterminate
    ));
    assert!(matches!(
        classify_membership(false, None),
        MembershipClass::Indeterminate
    ));
}

#[test]
fn membership_filter_keeps_members_only() {
    let mut agg = AggregatedIdentities::new();
    agg.insert("alice".to_string(), "url1".to_string());
    agg.insert("bob".to_string(), "url2".to_string());
    let checks = vec![
        ("alice".to_string(), MembershipClass::Member),
        ("bob".to_string(), MembershipClass::NotMember),
    ];
    let kept = apply_membership(&agg, &checks).unwrap();
    assert_eq!(kept.len(), 1);
    assert_eq!(url_of(&kept, "alice").as_deref(), Some("url1"));
    assert_eq!(url_of(&kept, "bob"), None);
}

#[test]
fn membership_indeterminate_is_fatal() {
    let mut agg = AggregatedIdentities::new();
    agg.insert("carol".to_string(), "url3".to_string());
    let checks = vec![("carol".to_string(), MembershipClass::Indeterminate)];
    let err = apply_membership(&agg, &checks).unwrap_err();
    assert_eq!(err, "carol");
}

#[test]
fn membership_disabled_passes_everything_through() {
    let mut agg = AggregatedIdentities::new();
    agg.insert("dave".to_string(), "url4".to_string());
    let out = restrict_to_members(agg, false, &Vec::new()).unwrap();
    assert_eq!(out.len(), 1);
    assert_eq!(url_of(&out, "dave").as_deref(), Some("url4"));
}

#[test]
fn concurrency_never_exceeds_limit() {
    // five tasks under a cap of two: drive the stage to completion,
    // checking the bound at every step
    let mut sched = Scheduler::new(2, 5);
    let mut max_in_flight: usize = 0;
    while !sched.all_done() {
        while sched.can_start() {
            sched.start();
            if sched.in_flight > max_in_flight {
                max_in_flight = sched.in_flight;
            }
            assert!(sched.in_flight <= 2);
        }
        assert!(!sched.can_start());
        sched.complete();
        assert!(sched.in_flight <= 2);
    }
    assert_eq!(max_in_flight, 2);
    assert_eq!(sched.completed, 5);
    assert_eq!(sched.in_flight, 0);
}
