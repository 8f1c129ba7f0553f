//! Tests for Slack payload parsing and rendering.

use serde_json::Value;
use tinyconnectors_sync::error::Error;
use tinyconnectors_sync::json::{Json, Number};
use tinyconnectors_sync::table::Table;
use tinyconnectors_sync::toolkits::slack::Channel;
use tinyconnectors_sync::toolkits::slack_parse::{
    author_of, has_replies, is_fatal, messages_in, millis_in_range, next_cursor, page_in_range,
    permalink, record_from, records_from, render, resolve, to_millis, truncate, MAX_BODY_CHARS,
};

fn convert(value: &Value) -> Json {
    match value {
        Value::Null => Json::Null,
        Value::Bool(on) => Json::Bool(*on),
        Value::Number(number) => Json::Number(match (number.as_u64(), number.as_i64()) {
            (Some(n), _) => Number::PosInt(n),
            (None, Some(n)) => Number::NegInt(n),
            (None, None) => Number::Float(number.to_string()),
        }),
        Value::String(text) => Json::Str(text.clone()),
        Value::Array(items) => Json::Array(items.iter().map(convert).collect()),
        Value::Object(members) => Json::Object(
            members
                .iter()
                .map(|(name, member)| (name.clone(), convert(member)))
                .collect(),
        ),
    }
}

fn json(text: &str) -> Json {
    convert(&serde_json::from_str(text).unwrap())
}

fn channel(id: &str, name: &str) -> Channel {
    Channel {
        id: id.to_string(),
        name: name.to_string(),
    }
}

fn users() -> Table {
    let mut users = Table::new();
    users.insert("U1".to_string(), "Ada".to_string());
    users
}

fn action_error(message: &str) -> Error {
    Error::Action {
        action: "SLACK_FETCH_CONVERSATION_HISTORY".to_string(),
        message: message.to_string(),
    }
}

#[test]
fn slack_parse_test_references_resolve_to_something_a_person_can_read() {
    let mut users = Table::new();
    users.insert("U1".to_string(), "Ada".to_string());

    assert_eq!(render("hi <@U1>", &users), "hi @Ada");
    assert_eq!(render("see <#C7|deploys>", &users), "see #deploys");
    assert_eq!(
        render("read <https://example.com|the docs>", &users),
        "read the docs"
    );
    assert_eq!(
        render("bare <https://example.com>", &users),
        "bare https://example.com"
    );
}

#[test]
fn slack_parse_test_an_unknown_user_degrades_rather_than_dropping_the_message() {
    let users = Table::new();
    assert_eq!(render("ping <@U404>", &users), "ping @U404");
    assert_eq!(render("ping <@U404|ada>", &users), "ping @ada");
    // An unmatched bracket is text, not a broken reference.
    assert_eq!(render("2 < 3 and more", &users), "2 < 3 and more");
}

#[test]
fn slack_parse_test_a_channel_reference_without_a_label_keeps_its_id() {
    let users = Table::new();
    assert_eq!(render("see <#C7>", &users), "see #C7");
}

#[test]
fn slack_parse_test_a_slack_timestamp_becomes_milliseconds() {
    assert_eq!(to_millis("1700000000.000100"), Some(1_700_000_000_000));
    assert_eq!(to_millis("1700000000.123456"), Some(1_700_000_000_123));
    // A short fraction is padded, not read as a smaller number.
    assert_eq!(to_millis("1700000000.5"), Some(1_700_000_000_500));
    assert_eq!(to_millis("nonsense"), None);
}

#[test]
fn a_comment_and_its_file_are_two_records_rather_than_one() {
    // The comment is what someone said; the file is what they attached.
    let message = json(
        r#"{
            "ts": "1700000000.000100",
            "user": "U1",
            "text": "here is the trace",
            "files": [{ "id": "F1", "name": "trace.txt" }]
        }"#,
    );
    let channel = channel("C1", "eng");

    let (records, versions) = records_from(&[&message], &channel, &users(), None);

    assert_eq!(records.len(), 2);
    assert_eq!(records[0].item_id, "C1:1700000000.000100");
    assert_eq!(records[0].content, "here is the trace");
    assert_eq!(records[1].item_id, "C1:1700000000.000100:F1");
    assert!(
        versions.is_empty(),
        "an unedited message reports no version, and a file never does"
    );
}

#[test]
fn an_edit_versions_the_comment_and_leaves_the_file_alone() {
    // `edited.ts` describes the message body. A file's bytes do not change.
    let message = json(
        r#"{
            "ts": "1700000000.000100",
            "user": "U1",
            "text": "fixed typo",
            "edited": { "ts": "1700000001.000000" },
            "files": [{ "id": "F1", "name": "trace.txt" }]
        }"#,
    );

    let (records, versions) = records_from(&[&message], &channel("C1", "eng"), &users(), None);

    assert_eq!(records.len(), 2);
    assert_eq!(
        versions,
        vec![(
            "C1:1700000000.000100".to_string(),
            "1700000001.000000".to_string()
        )]
    );
}

#[test]
fn the_same_file_timestamp_in_two_channels_does_not_collide() {
    let message = json(
        r#"{
            "ts": "1700000000.000100",
            "user": "U1",
            "files": [{ "id": "F1", "name": "x.png" }]
        }"#,
    );

    let one = [&message];
    let (first, _) = records_from(&one, &channel("C1", "eng"), &users(), None);
    let (second, _) = records_from(&one, &channel("C2", "ops"), &users(), None);

    assert_ne!(first[0].item_id, second[0].item_id);
    assert_eq!(first[0].item_id, "C1:1700000000.000100:F1");
    assert_eq!(second[0].item_id, "C2:1700000000.000100:F1");
}

#[test]
fn a_join_notice_carrying_no_files_is_still_nothing() {
    // No text and no files means no record.
    let message = json(r#"{ "ts": "1700000000.000100", "user": "U1", "text": "" }"#);

    let (records, _) = records_from(&[&message], &channel("C1", "eng"), &users(), None);

    assert!(records.is_empty());
}

#[test]
fn the_parent_at_the_head_of_its_thread_is_left_out_with_its_files() {
    let parent = json(
        r#"{
            "ts": "1700000000.000100",
            "user": "U1",
            "text": "question",
            "edited": { "ts": "1700000001.000000" },
            "files": [{ "id": "F1", "name": "x.png" }]
        }"#,
    );
    let answer = json(r#"{ "ts": "1700000002.000100", "user": "U1", "text": "answer" }"#);

    let (records, versions) = records_from(
        &[&parent, &answer],
        &channel("C1", "eng"),
        &users(),
        Some("1700000000.000100"),
    );

    assert_eq!(records.len(), 1);
    assert_eq!(records[0].item_id, "C1:1700000002.000100");
    assert_eq!(records[0].title, "#eng — Ada (reply)");
    assert!(versions.is_empty());
}

#[test]
fn a_record_links_to_its_message() {
    let linked = json(
        r#"{ "ts": "1.5", "text": "x", "permalink": "https://acme.slack.com/archives/C1/p15" }"#,
    );
    let record = record_from(&linked, &channel("C1", "eng"), &users(), false).unwrap();
    assert_eq!(
        record.url.as_deref(),
        Some("https://acme.slack.com/archives/C1/p15")
    );
    assert_eq!(record.mime.as_deref(), Some("text/plain"));
    assert_eq!(record.title, "#eng — unknown");
    assert!(record.tags.is_empty());

    assert_eq!(
        permalink("C1", "1700000000.000100"),
        "https://slack.com/archives/C1/p1700000000000100"
    );
}

#[test]
fn an_author_is_a_name_else_an_id_else_a_bot() {
    let users = users();
    assert_eq!(author_of(&json(r#"{ "user": "U1" }"#), &users), "Ada");
    assert_eq!(author_of(&json(r#"{ "user": "U2" }"#), &users), "U2");
    assert_eq!(
        author_of(&json(r#"{ "username": "bot", "bot_id": "B1" }"#), &users),
        "bot"
    );
    assert_eq!(author_of(&json(r#"{ "bot_id": "B1" }"#), &users), "B1");
    assert_eq!(author_of(&json("{}"), &users), "unknown");
}

#[test]
fn every_connection_level_code_is_fatal_and_no_other_is() {
    for code in [
        "invalid_auth",
        "not_authed",
        "token_revoked",
        "token_expired",
        "account_inactive",
        "missing_scope",
    ] {
        assert!(is_fatal(&action_error(code)), "{code}");
        let loud = format!("slack said: {}!", code.to_uppercase());
        assert!(is_fatal(&action_error(&loud)), "{loud}");
    }
    for code in ["not_in_channel", "is_archived", "ratelimited", "", "auth"] {
        assert!(!is_fatal(&action_error(code)), "{code}");
    }
    assert!(is_fatal(&Error::Decode {
        key: "k".to_string(),
        message: "token_expired".to_string(),
    }));
}

#[test]
fn a_failure_reads_as_what_failed_and_what_it_said() {
    assert_eq!(
        action_error("ratelimited").to_text(),
        "SLACK_FETCH_CONVERSATION_HISTORY: ratelimited"
    );
    let undecoded = Error::Decode {
        key: "slack-walk:conn_1".to_string(),
        message: "bad".to_string(),
    };
    assert_eq!(undecoded.to_text(), "slack-walk:conn_1: bad");
}

#[test]
fn a_marker_is_found_in_every_envelope_and_trimmed() {
    for payload in [
        r#"{ "data": { "response_metadata": { "next_cursor": " abc " } } }"#,
        r#"{ "response_metadata": { "next_cursor": "abc" } }"#,
        r#"{ "data": { "data": { "response_metadata": { "next_cursor": "abc" } } } }"#,
        r#"{ "data": { "next_cursor": "abc" } }"#,
        r#"{ "next_cursor": "abc" }"#,
    ] {
        assert_eq!(next_cursor(&json(payload)).as_deref(), Some("abc"));
    }
    for payload in [
        "{}",
        r#"{ "next_cursor": "  " }"#,
        r#"{ "next_cursor": 7 }"#,
        // The first text decides, blank or not.
        r#"{ "data": { "next_cursor": "" }, "next_cursor": "abc" }"#,
    ] {
        assert_eq!(next_cursor(&json(payload)), None, "{payload}");
    }
}

#[test]
fn messages_are_found_in_every_envelope() {
    for payload in [
        r#"{ "data": { "messages": [1] } }"#,
        r#"{ "messages": [1] }"#,
        r#"{ "data": { "data": { "messages": [1] } } }"#,
    ] {
        assert_eq!(messages_in(&json(payload)).len(), 1);
    }
    assert!(messages_in(&json(r#"{ "messages": { "0": 1 } }"#)).is_empty());
}

#[test]
fn only_a_message_with_replies_owes_a_thread() {
    assert_eq!(
        has_replies(&json(r#"{ "ts": "1.1", "reply_count": 2 }"#)).as_deref(),
        Some("1.1")
    );
    for message in [
        r#"{ "ts": "1.1" }"#,
        r#"{ "ts": "1.1", "reply_count": 0 }"#,
        r#"{ "ts": "1.1", "reply_count": -1 }"#,
        r#"{ "ts": "1.1", "reply_count": 1.5 }"#,
        r#"{ "ts": "1.1", "reply_count": "2" }"#,
        r#"{ "reply_count": 2 }"#,
    ] {
        assert_eq!(has_replies(&json(message)), None, "{message}");
    }
}

#[test]
fn references_follow_one_another() {
    let users = users();
    assert_eq!(render("<@U1><#C7> > <>", &users), "@Ada#C7 > ");
    assert_eq!(render("<@U1|ada>", &users), "@Ada", "the directory wins");
    assert_eq!(render("<@U2> <", &users), "@U2 <");
    assert_eq!(render("", &users), "");
    assert_eq!(resolve("@", &users), "@");
    assert_eq!(resolve("a|b|c", &users), "b|c");
    assert_eq!(resolve("|b", &users), "b");
}

#[test]
fn text_without_a_reference_is_untouched() {
    let users = users();
    for text in ["plain", "a > b", "a < b", "日本語 <", "\u{1f600}"] {
        assert_eq!(render(text, &users), text);
    }
}

#[test]
fn a_long_body_is_cut_on_a_character() {
    assert_eq!(MAX_BODY_CHARS, 20_000);
    let long = "é".repeat(20_001);
    let body = truncate(&long);
    assert_eq!(body.chars().count(), 20_000);
    assert!(long.starts_with(&body));

    let fits = "é".repeat(20_000);
    assert_eq!(truncate(&format!("\u{3000} {fits}\n")), fits);
    assert_eq!(truncate(" \t "), "");
}

#[test]
fn a_timestamp_without_a_fraction_counts_whole_seconds() {
    assert_eq!(to_millis("1700000000"), Some(1_700_000_000_000));
    assert_eq!(to_millis("-2.25"), Some(-1_750));
    assert_eq!(to_millis("7.x"), Some(7_000));
    assert_eq!(to_millis("7."), Some(7_000));
    assert_eq!(to_millis("+7.0019"), Some(7_001));
    assert_eq!(to_millis(""), None);
    assert_eq!(to_millis("9223372036854775808"), None);
    assert_eq!(
        to_millis("9223372036854775.807"),
        Some(9_223_372_036_854_775_807)
    );
}

#[test]
fn a_timestamp_that_milliseconds_cannot_count_is_noticed() {
    assert!(millis_in_range("9223372036854775.807"));
    assert!(!millis_in_range("9223372036854775.808"));
    assert!(!millis_in_range("9223372036854776"));
    assert!(millis_in_range("9223372036854775808"), "no timestamp at all");

    let late = json(r#"{ "ts": "9223372036854776", "text": "x" }"#);
    assert!(!page_in_range(&[&late], &users(), None));
    assert!(page_in_range(&[&late], &users(), Some("9223372036854776")));
    let silent = json(r#"{ "ts": "9223372036854776" }"#);
    assert!(page_in_range(&[&silent], &users(), None));
}

#[test]
fn two_colons_never_make_a_message_of_a_file() {
    let message = json(
        r#"{ "ts": "1.5", "text": "x", "files": [{ "id": "F1", "name": "a" }, { "id": "F2", "name": "b" }] }"#,
    );
    let (records, _) = records_from(&[&message], &channel("C1", "eng"), &users(), None);
    let ids: Vec<&str> = records.iter().map(|r| r.item_id.as_str()).collect();
    assert_eq!(ids, vec!["C1:1.5", "C1:1.5:F1", "C1:1.5:F2"]);
}

#[test]
fn two_pages_joined_carry_what_each_carries() {
    let said = json(
        r#"{ "ts": "2.5", "text": "x", "edited": { "ts": "3.0" }, "files": [{ "id": "F1", "name": "a" }] }"#,
    );
    let silent = json(r#"{ "ts": "2.0" }"#);
    let more = json(r#"{ "ts": "1.5", "text": "y", "edited": { "ts": "4.0" } }"#);
    let channel = channel("C1", "eng");
    let users = users();

    let (mut records, mut versions) = records_from(&[&said, &silent], &channel, &users, None);
    let (later, later_versions) = records_from(&[&more], &channel, &users, None);
    records.extend(later);
    versions.extend(later_versions);

    let joined = records_from(&[&said, &silent, &more], &channel, &users, None);
    assert_eq!(joined, (records, versions));
    assert_eq!(joined.0.len(), 3);
    let (none, no_versions) = records_from(&[], &channel, &users, None);
    assert!(none.is_empty() && no_versions.is_empty());
}

#[test]
fn a_thread_page_reads_as_without_its_parent_and_marks_every_reply() {
    let parent = json(
        r#"{ "ts": "1.0", "text": "q", "edited": { "ts": "9.0" }, "files": [{ "id": "F1", "name": "a" }] }"#,
    );
    let reply = json(
        r#"{ "ts": "2.0", "text": "a", "edited": { "ts": "9.5" }, "files": [{ "id": "F2", "name": "b" }] }"#,
    );
    let channel = channel("C1", "eng");
    let users = users();

    let page = records_from(&[&parent, &reply, &parent], &channel, &users, Some("1.0"));
    let without = records_from(&[&reply], &channel, &users, Some("1.0"));
    assert_eq!(page, without);
    assert_eq!(page.0.len(), 2);
    assert!(page.0.iter().all(|record| record.title.ends_with(" (reply)")));
    assert_eq!(page.1, vec![("C1:2.0".to_string(), "9.5".to_string())]);
}

#[test]
fn a_timestamp_of_digits_stays_within_its_second() {
    for (fraction, ms) in [
        ("", 0),
        ("0", 0),
        ("9", 900),
        ("99", 990),
        ("999", 999),
        ("9999", 999),
        ("0010", 1),
    ] {
        let ts = format!("12.{fraction}");
        assert_eq!(to_millis(&ts), Some(12_000 + ms), "{ts}");
        assert_eq!(to_millis(&format!("{ts}0")), Some(12_000 + ms), "{ts}0");
    }
    assert_eq!(to_millis("12"), Some(12_000));
}
