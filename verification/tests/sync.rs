use fcp_notify::data::{FCPInfo, FCPStorage, Messages, SentMsg, Timestamp};
use fcp_notify::msg::{format_msg, MSG_FORMAT};
use fcp_notify::sync::{
    parse_targets, plan, settle, store_key, Action, Followup, Outcome, Pass, Plan,
    SLEEP_DURATION_MS,
};

fn owned(items: &[&str]) -> Vec<String> {
    items.iter().map(|s| s.to_string()).collect()
}

fn summary(approved: &[&str], pending: &[&str], updated: i64) -> FCPInfo {
    FCPInfo {
        id: 42,
        tags: owned(&["T-lang"]),
        title: "Stabilize foo".to_string(),
        repo: "rust-lang/rust".to_string(),
        issue: 9,
        is_pr: false,
        created_at: Timestamp { secs: 1, nanos: 0 },
        updated_at: Timestamp { secs: updated, nanos: 0 },
        approved: owned(approved),
        pending: owned(pending),
    }
}

fn noted() -> Followup {
    Followup { persist: true, pause_ms: 2000 }
}

fn failed() -> Followup {
    Followup { persist: false, pause_ms: 2000 }
}

fn first_pass() -> Pass {
    let mut pass = Pass::begin(summary(&["alice"], &["bob"], 100), None, parse_targets("@chan")).unwrap();
    assert_eq!(pass.next_action(), Action::Send(0));
    assert_eq!(pass.record(Outcome::Sent(555)), noted());
    assert_eq!(pass.next_action(), Action::Done);
    pass
}

#[test]
fn pause_is_two_seconds() {
    assert_eq!(SLEEP_DURATION_MS, 2000);
}

#[test]
fn store_key_is_the_decimal_id() {
    assert_eq!(store_key(&summary(&[], &[], 1)), "42");
    let mut info = summary(&[], &[], 1);
    info.id = -7;
    assert_eq!(store_key(&info), "-7");
}

#[test]
fn targets_are_split_and_trimmed() {
    assert_eq!(parse_targets("@a, @b ,@c"), owned(&["@a", "@b", "@c"]));
    assert_eq!(parse_targets("  @only\n"), owned(&["@only"]));
    assert_eq!(parse_targets(""), owned(&[""]));
    assert_eq!(parse_targets("@a,, @b,"), owned(&["@a", "", "@b", ""]));
}

#[test]
fn targets_agree_with_std() {
    for setting in ["@a,@b", " @a ,\t@b\n", ",", "", "x , y,z ,", "\u{3000}@w\u{A0},"] {
        let expected: Vec<String> = setting.split(",").map(|e| e.trim().to_string()).collect();
        assert_eq!(parse_targets(setting), expected);
    }
}

#[test]
fn plan_follows_what_the_channel_holds() {
    let mut storage = FCPStorage { info: summary(&[], &[], 100), messages: Messages::new() };
    assert_eq!(plan(&storage, "@a"), Plan::Send);
    let version = Timestamp { secs: 100, nanos: 0 };
    storage.messages.insert("@a", SentMsg { id: 5, version, format: MSG_FORMAT });
    assert_eq!(plan(&storage, "@a"), Plan::Skip);
    assert_eq!(plan(&storage, "@b"), Plan::Send);
    storage.messages.insert("@a", SentMsg { id: 5, version, format: MSG_FORMAT + 1 });
    assert_eq!(plan(&storage, "@a"), Plan::Edit(5));
    let earlier = Timestamp { secs: 99, nanos: 0 };
    storage.messages.insert("@a", SentMsg { id: 6, version: earlier, format: MSG_FORMAT });
    assert_eq!(plan(&storage, "@a"), Plan::Edit(6));
    let later = Timestamp { secs: 100, nanos: 1 };
    storage.messages.insert("@a", SentMsg { id: 7, version: later, format: MSG_FORMAT });
    assert_eq!(plan(&storage, "@a"), Plan::Edit(7));
}

#[test]
fn settle_notes_only_the_success_of_what_was_needed() {
    let version = Timestamp { secs: 100, nanos: 0 };
    let mut storage = FCPStorage { info: summary(&[], &[], 100), messages: Messages::new() };
    assert!(!settle(&mut storage, "@a", Outcome::Failed));
    assert!(!settle(&mut storage, "@a", Outcome::Edited));
    assert_eq!(storage.messages.get("@a"), None);
    assert!(settle(&mut storage, "@a", Outcome::Sent(8)));
    assert_eq!(storage.messages.get("@a"), Some(SentMsg { id: 8, version, format: MSG_FORMAT }));
    assert!(!settle(&mut storage, "@a", Outcome::Sent(9)));
    assert!(!settle(&mut storage, "@a", Outcome::Edited));
    assert_eq!(storage.messages.get("@a"), Some(SentMsg { id: 8, version, format: MSG_FORMAT }));
    storage.info.updated_at = Timestamp { secs: 101, nanos: 0 };
    assert!(!settle(&mut storage, "@a", Outcome::Sent(9)));
    assert!(!settle(&mut storage, "@a", Outcome::Failed));
    assert_eq!(storage.messages.get("@a"), Some(SentMsg { id: 8, version, format: MSG_FORMAT }));
    assert!(settle(&mut storage, "@a", Outcome::Edited));
    assert_eq!(
        storage.messages.get("@a"),
        Some(SentMsg { id: 8, version: Timestamp { secs: 101, nanos: 0 }, format: MSG_FORMAT })
    );
}

#[test]
fn first_delivery() {
    let info = summary(&["alice"], &["bob"], 100);
    let expected = format_msg(&summary(&["alice"], &["bob"], 100));
    let mut pass = Pass::begin(info, None, parse_targets("@chan")).unwrap();
    assert_eq!(pass.text, expected.0);
    assert_eq!(pass.entities, expected.1);
    assert_eq!(pass.targets, owned(&["@chan"]));
    assert_eq!(pass.next_action(), Action::Send(0));
    assert_eq!(pass.record(Outcome::Sent(555)), noted());
    assert_eq!(
        pass.storage.messages.get("@chan"),
        Some(SentMsg { id: 555, version: Timestamp { secs: 100, nanos: 0 }, format: MSG_FORMAT })
    );
    assert_eq!(pass.next_action(), Action::Done);
}

#[test]
fn unchanged_reflight() {
    let saved = first_pass().storage;
    let mut pass = Pass::begin(summary(&["alice"], &["bob"], 100), Some(saved), parse_targets("@chan")).unwrap();
    assert_eq!(pass.next_action(), Action::Done);
    assert_eq!(pass.next, 1);
    assert_eq!(pass.record(Outcome::Sent(1)), Followup { persist: false, pause_ms: 0 });
    assert_eq!(pass.storage.messages.entries().len(), 1);
    assert_eq!(pass.storage.messages.get("@chan").map(|m| m.id), Some(555));
}

#[test]
fn user_moves_from_pending_to_approved() {
    let saved = first_pass().storage;
    let mut pass =
        Pass::begin(summary(&["alice", "bob"], &[], 200), Some(saved), parse_targets("@chan")).unwrap();
    assert_eq!(pass.next_action(), Action::Edit(0, 555));
    assert!(pass.text.contains("\u{23F3} \n\u{2705} @alice @bob\n"));
    assert!(pass.entities.iter().all(|e| e.type_ != "text_link"));
    assert_eq!(pass.record(Outcome::Edited), noted());
    assert_eq!(
        pass.storage.messages.get("@chan"),
        Some(SentMsg { id: 555, version: Timestamp { secs: 200, nanos: 0 }, format: MSG_FORMAT })
    );
    assert_eq!(pass.next_action(), Action::Done);
}

#[test]
fn send_failure_is_tried_again() {
    let mut pass = Pass::begin(summary(&["alice"], &["bob"], 100), None, parse_targets("@chan")).unwrap();
    assert_eq!(pass.next_action(), Action::Send(0));
    assert_eq!(pass.record(Outcome::Failed), failed());
    assert_eq!(pass.storage.messages.get("@chan"), None);
    assert_eq!(pass.next_action(), Action::Done);
    let saved = pass.storage;
    let mut again = Pass::begin(summary(&["alice"], &["bob"], 100), Some(saved), parse_targets("@chan")).unwrap();
    assert_eq!(again.next_action(), Action::Send(0));
}

#[test]
fn edit_failure_keeps_the_earlier_state() {
    let saved = first_pass().storage;
    let mut pass = Pass::begin(summary(&["alice"], &["bob"], 300), Some(saved), parse_targets("@chan")).unwrap();
    assert_eq!(pass.next_action(), Action::Edit(0, 555));
    assert_eq!(pass.record(Outcome::Failed), failed());
    assert_eq!(
        pass.storage.messages.get("@chan"),
        Some(SentMsg { id: 555, version: Timestamp { secs: 100, nanos: 0 }, format: MSG_FORMAT })
    );
}

#[test]
fn channels_are_seen_to_in_order_and_current_ones_passed_over() {
    let version = Timestamp { secs: 100, nanos: 0 };
    let mut messages = Messages::new();
    messages.insert("@b", SentMsg { id: 2, version, format: MSG_FORMAT });
    messages.insert("@c", SentMsg { id: 3, version, format: MSG_FORMAT + 1 });
    let saved = FCPStorage { info: summary(&[], &[], 50), messages };
    let mut pass =
        Pass::begin(summary(&[], &[], 100), Some(saved), parse_targets("@a, @b, @c, @d")).unwrap();
    assert_eq!(pass.storage.info.updated_at, version);
    assert_eq!(pass.next_action(), Action::Send(0));
    assert_eq!(pass.next_action(), Action::Send(0));
    assert_eq!(pass.record(Outcome::Failed), failed());
    assert_eq!(pass.next_action(), Action::Edit(2, 3));
    assert_eq!(pass.record(Outcome::Edited), noted());
    assert_eq!(pass.next_action(), Action::Send(3));
    assert_eq!(pass.record(Outcome::Sent(4)), noted());
    assert_eq!(pass.next_action(), Action::Done);
    assert_eq!(pass.storage.messages.get("@a"), None);
    assert_eq!(pass.storage.messages.get("@b"), Some(SentMsg { id: 2, version, format: MSG_FORMAT }));
    assert_eq!(pass.storage.messages.get("@c"), Some(SentMsg { id: 3, version, format: MSG_FORMAT }));
    assert_eq!(pass.storage.messages.get("@d"), Some(SentMsg { id: 4, version, format: MSG_FORMAT }));
}
