use fcp_notify::data::{
    FCPInfo, FcpProposal, FcpWithInfo, GitHubUser, Issue, IssueComment, Messages, SentMsg,
    Timestamp,
};

fn at(secs: i64) -> Timestamp {
    Timestamp { secs, nanos: 0 }
}

fn user(id: i32, login: &str) -> GitHubUser {
    GitHubUser { id, login: login.to_string() }
}

fn record() -> FcpWithInfo {
    FcpWithInfo {
        fcp: FcpProposal {
            id: 77,
            fk_issue: 5,
            fk_initiator: 1,
            fk_initiating_comment: 2,
            disposition: "merge".to_string(),
            fk_bot_tracking_comment: 3,
            fcp_start: Some(at(1_600_000_000)),
            fcp_closed: false,
        },
        reviews: vec![
            (user(1, "alice"), true),
            (user(2, "bob"), false),
            (user(3, "carol"), true),
            (user(4, "dave"), false),
        ],
        issue: Issue {
            id: 5,
            number: 1234,
            fk_milestone: None,
            fk_user: 1,
            fk_assignee: None,
            open: true,
            is_pull_request: true,
            title: "Stabilize it".to_string(),
            body: "text".to_string(),
            locked: false,
            closed_at: None,
            created_at: at(1_500_000_000),
            updated_at: at(1_600_000_100),
            labels: vec!["T-lang".to_string(), "disposition-merge".to_string()],
            repository: "rust-lang/rust".to_string(),
        },
        status_comment: IssueComment {
            id: 9,
            fk_issue: 5,
            fk_user: 1,
            body: "status".to_string(),
            created_at: at(1_600_000_000),
            updated_at: at(1_600_000_050),
            repository: "rust-lang/rust".to_string(),
        },
    }
}

#[test]
fn summary_takes_the_issue_and_splits_the_users() {
    let info = FCPInfo::from(record());
    assert_eq!(info.id, 77);
    assert_eq!(info.tags, vec!["T-lang".to_string(), "disposition-merge".to_string()]);
    assert_eq!(info.title, "Stabilize it");
    assert_eq!(info.repo, "rust-lang/rust");
    assert_eq!(info.issue, 1234);
    assert!(info.is_pr);
    assert_eq!(info.created_at, at(1_500_000_000));
    assert_eq!(info.updated_at, at(1_600_000_100));
    assert_eq!(info.approved, vec!["alice".to_string(), "carol".to_string()]);
    assert_eq!(info.pending, vec!["bob".to_string(), "dave".to_string()]);
}

#[test]
fn summary_of_a_record_without_users_or_labels() {
    let mut raw = record();
    raw.reviews = Vec::new();
    raw.issue.labels = Vec::new();
    let info: FCPInfo = raw.into();
    assert!(info.tags.is_empty());
    assert!(info.approved.is_empty());
    assert!(info.pending.is_empty());
}

#[test]
fn every_user_is_in_one_list() {
    let raw = record();
    let logins: Vec<String> = raw.reviews.iter().map(|r| r.0.login.clone()).collect();
    let info = FCPInfo::from(raw);
    for login in logins {
        let approved = info.approved.iter().filter(|l| **l == login).count();
        let pending = info.pending.iter().filter(|l| **l == login).count();
        assert_eq!(approved + pending, 1);
    }
}

#[test]
fn messages_hold_one_entry_for_each_channel() {
    let mut messages = Messages::new();
    assert_eq!(messages.get("@a"), None);
    assert!(messages.entries().is_empty());
    let first = SentMsg { id: 1, version: at(10), format: 1 };
    let second = SentMsg { id: 2, version: at(20), format: 1 };
    let third = SentMsg { id: 1, version: at(30), format: 2 };
    messages.insert("@a", first);
    messages.insert("@b", second);
    assert_eq!(messages.get("@a"), Some(first));
    assert_eq!(messages.get("@b"), Some(second));
    assert_eq!(messages.get("@c"), None);
    messages.insert("@a", third);
    assert_eq!(messages.get("@a"), Some(third));
    assert_eq!(messages.get("@b"), Some(second));
    assert_eq!(messages.entries().len(), 2);
    let mut listed: Vec<(String, SentMsg)> = messages.entries().clone();
    listed.sort_by(|a, b| a.0.cmp(&b.0));
    assert_eq!(listed, vec![("@a".to_string(), third), ("@b".to_string(), second)]);
}

#[test]
fn timestamps_compare_by_seconds_then_nanoseconds() {
    assert_eq!(Timestamp { secs: 5, nanos: 7 }, Timestamp { secs: 5, nanos: 7 });
    assert_ne!(Timestamp { secs: 5, nanos: 7 }, Timestamp { secs: 5, nanos: 8 });
    assert!(Timestamp { secs: 5, nanos: 9 } < Timestamp { secs: 6, nanos: 0 });
    assert!(Timestamp { secs: -1, nanos: 0 } < Timestamp { secs: -1, nanos: 1 });
}
