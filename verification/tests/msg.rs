use fcp_notify::data::{FCPInfo, Timestamp};
use fcp_notify::msg::{
    format_msg, format_msg_tokens, hashtag_of, tag_kind_of, try_format_msg, TagKind, TokenMeta,
    MSG_FORMAT,
};
use telegram_bot::RawMessageEntity;

fn owned(items: &[&str]) -> Vec<String> {
    items.iter().map(|s| s.to_string()).collect()
}

fn sample() -> FCPInfo {
    FCPInfo {
        id: 7,
        tags: owned(&["T-lang", "disposition-merge", "A-async", "x", "T-compiler"]),
        title: "Stabilize foo".to_string(),
        repo: "rust-lang/rust".to_string(),
        issue: 123,
        is_pr: true,
        created_at: Timestamp { secs: 100, nanos: 0 },
        updated_at: Timestamp { secs: 200, nanos: 0 },
        approved: owned(&["alice", "carol"]),
        pending: owned(&["bob", "dave"]),
    }
}

fn bare(title: &str) -> FCPInfo {
    FCPInfo {
        id: 1,
        tags: Vec::new(),
        title: title.to_string(),
        repo: "o/r".to_string(),
        issue: -5,
        is_pr: false,
        created_at: Timestamp { secs: 0, nanos: 0 },
        updated_at: Timestamp { secs: 0, nanos: 0 },
        approved: Vec::new(),
        pending: Vec::new(),
    }
}

fn entity(kind: &str, offset: i64, length: i64, url: Option<&str>) -> RawMessageEntity {
    RawMessageEntity {
        type_: kind.to_string(),
        offset,
        length,
        url: url.map(|u| u.to_string()),
        user: None,
    }
}

#[test]
fn layout_version_is_one() {
    assert_eq!(MSG_FORMAT, 1);
}

#[test]
fn entity_names_the_formatting() {
    assert_eq!(TokenMeta::Bold.entity(3, 4), entity("bold", 3, 4, None));
    assert_eq!(TokenMeta::Url.entity(0, 9), entity("url", 0, 9, None));
    assert_eq!(TokenMeta::Hashtag.entity(5, 1), entity("hashtag", 5, 1, None));
    assert_eq!(
        TokenMeta::TextLink("https://github.com/bob".to_string()).entity(120, 4),
        entity("text_link", 120, 4, Some("https://github.com/bob"))
    );
}

#[test]
fn cloned_formatting_gives_the_same_entity() {
    let link = TokenMeta::TextLink("https://github.com/carol".to_string());
    assert_eq!(link.clone().entity(1, 2), link.entity(1, 2));
    assert_eq!(TokenMeta::Hashtag.clone().entity(0, 3), entity("hashtag", 0, 3, None));
}

#[test]
fn tags_fall_into_three_groups() {
    assert_eq!(tag_kind_of("T-lang"), TagKind::Team);
    assert_eq!(tag_kind_of("T-"), TagKind::Team);
    assert_eq!(tag_kind_of("A-async"), TagKind::Category);
    assert_eq!(tag_kind_of("--"), TagKind::Category);
    assert_eq!(tag_kind_of("disposition-merge"), TagKind::Other);
    assert_eq!(tag_kind_of("Tx-"), TagKind::Other);
    assert_eq!(tag_kind_of("T"), TagKind::Other);
    assert_eq!(tag_kind_of("-"), TagKind::Other);
    assert_eq!(tag_kind_of(""), TagKind::Other);
}

#[test]
fn hashtag_replaces_each_dash() {
    assert_eq!(hashtag_of("T-lang"), "#T_lang");
    assert_eq!(hashtag_of("a-b-c-"), "#a_b_c_");
    assert_eq!(hashtag_of("plain"), "#plain");
    assert_eq!(hashtag_of(""), "#");
}

#[test]
fn message_text_of_a_full_summary() {
    let (text, _) = format_msg(&sample());
    assert_eq!(
        text,
        "Stabilize foo\nhttps://github.com/rust-lang/rust/pull/123\n\n#T_compiler #T_lang\n#A_async\n#disposition_merge #x\n--------\n\u{23F3} @bob @dave\n\u{2705} @alice @carol\n\u{200B}"
    );
}

#[test]
fn message_entities_of_a_full_summary() {
    let (_, entities) = format_msg(&sample());
    assert_eq!(
        entities,
        vec![
            entity("bold", 0, 13, None),
            entity("url", 14, 42, None),
            entity("hashtag", 58, 11, None),
            entity("hashtag", 70, 7, None),
            entity("hashtag", 78, 8, None),
            entity("hashtag", 87, 18, None),
            entity("hashtag", 106, 2, None),
            entity("text_link", 120, 4, Some("https://github.com/bob")),
            entity("text_link", 125, 5, Some("https://github.com/dave")),
        ]
    );
}

#[test]
fn message_of_an_empty_summary_keeps_both_marker_lines() {
    let (text, entities) = format_msg(&bare("t"));
    assert_eq!(
        text,
        "t\nhttps://github.com/o/r/issues/-5\n\n--------\n\u{23F3} \n\u{2705} \n\u{200B}"
    );
    assert_eq!(entities, vec![entity("bold", 0, 1, None), entity("url", 2, 32, None)]);
}

#[test]
fn emoji_in_the_title_counts_two_units() {
    let (text, entities) = format_msg(&bare("a\u{1F600}b"));
    assert!(text.starts_with("a\u{1F600}b\n"));
    assert_eq!(entities[0], entity("bold", 0, 4, None));
    assert_eq!(entities[1], entity("url", 5, 32, None));
}

#[test]
fn single_character_tag_lands_in_the_last_group() {
    let mut info = bare("t");
    info.tags = owned(&["x", "T-b", "T-a", "B-z", "A-z", "zeta", "T"]);
    let (text, _) = format_msg(&info);
    assert!(text.contains("\n\n#T_a #T_b\n#A_z #B_z\n#T #x #zeta\n--------\n"));
}

#[test]
fn every_tag_is_written_once() {
    let info = sample();
    let (text, _) = format_msg(&info);
    for tag in &info.tags {
        let hashtag = hashtag_of(tag);
        let count = text.split(|c| c == ' ' || c == '\n').filter(|w| *w == hashtag).count();
        assert_eq!(count, 1);
    }
}

#[test]
fn empty_group_has_no_line() {
    let mut info = bare("t");
    info.tags = owned(&["C-bug"]);
    let (text, entities) = format_msg(&info);
    assert_eq!(
        text,
        "t\nhttps://github.com/o/r/issues/-5\n\n#C_bug\n--------\n\u{23F3} \n\u{2705} \n\u{200B}"
    );
    assert_eq!(entities[2], entity("hashtag", 36, 6, None));
}

#[test]
fn tokens_join_to_the_text() {
    let info = sample();
    let tokens = format_msg_tokens(&info);
    let joined: String = tokens.iter().map(|t| t.0.as_str()).collect();
    let (text, entities) = format_msg(&info);
    assert_eq!(joined, text);
    assert_eq!(tokens.iter().filter(|t| t.1.is_some()).count(), entities.len());
    assert_eq!(tokens[0].0, "Stabilize foo");
    assert_eq!(tokens.last().map(|t| t.0.as_str()), Some("\u{200B}"));
}

#[test]
fn same_summary_gives_the_same_message() {
    let first = format_msg(&sample());
    let second = format_msg(&sample());
    assert_eq!(first, second);
    assert_eq!(try_format_msg(&sample()), Some(first));
}

#[test]
fn entities_lie_in_order_within_the_text() {
    let (text, entities) = format_msg(&sample());
    let total = text.encode_utf16().count() as i64;
    let mut end = 0;
    for e in &entities {
        assert!(e.offset >= end);
        assert!(e.length >= 0);
        end = e.offset + e.length;
        assert!(end <= total);
    }
}

#[test]
fn entity_covers_its_piece_of_the_text() {
    let (text, entities) = format_msg(&sample());
    let units: Vec<u16> = text.encode_utf16().collect();
    let piece = |e: &RawMessageEntity| {
        String::from_utf16(&units[e.offset as usize..(e.offset + e.length) as usize]).unwrap()
    };
    assert_eq!(piece(&entities[0]), "Stabilize foo");
    assert_eq!(piece(&entities[1]), "https://github.com/rust-lang/rust/pull/123");
    assert_eq!(piece(&entities[2]), "#T_compiler");
    assert_eq!(piece(&entities[6]), "#x");
    assert_eq!(piece(&entities[7]), "@bob");
    assert_eq!(piece(&entities[8]), "@dave");
}
