//! Tests for Slack file shares becoming records.

use serde_json::Value;
use tinyconnectors_sync::json::{Json, Number};
use tinyconnectors_sync::table::Table;
use tinyconnectors_sync::toolkits::slack::Channel;
use tinyconnectors_sync::toolkits::slack_files::{
    created_millis, describe, file_records_from, files_in_range,
};

fn convert(value: &Value) -> Json {
    match value {
        Value::Null => Json::Null,
        Value::Bool(on) => Json::Bool(*on),
        Value::Number(number) => Json::Number(match (number.as_u64(), number.as_i64()) {
            (Some(n), _) => Number::PosInt(n),
            (None, Some(n)) => Number::NegInt(n),
            (None, None) => Number::Float(number.to_string()),
        }),
        Value::String(text) => Json::Str(text.clone()),
        Value::Array(items) => Json::Array(items.iter().map(convert).collect()),
        Value::Object(members) => Json::Object(
            members
                .iter()
                .map(|(name, member)| (name.clone(), convert(member)))
                .collect(),
        ),
    }
}

fn json(text: &str) -> Json {
    convert(&serde_json::from_str(text).unwrap())
}

fn channel() -> Channel {
    Channel {
        id: "C1".to_string(),
        name: "eng".to_string(),
    }
}

fn users() -> Table {
    let mut users = Table::new();
    users.insert("U1".to_string(), "Ada".to_string());
    users
}

#[test]
fn a_file_share_with_no_message_text_still_becomes_a_record() {
    let message = json(
        r#"{
            "ts": "1700000000.000100",
            "user": "U1",
            "text": "",
            "files": [{
                "id": "F1",
                "name": "screenshot.png",
                "mimetype": "image/png",
                "permalink": "https://slack.com/files/F1",
                "created": 1700000500
            }]
        }"#,
    );

    let records = file_records_from(&message, &channel(), &users(), false);

    assert_eq!(records.len(), 1);
    assert_eq!(records[0].item_id, "C1:1700000000.000100:F1");
    assert_eq!(records[0].title, "#eng — Ada shared screenshot.png");
    assert!(records[0].content.contains("screenshot.png"));
    assert!(records[0].content.contains("image/png"));
    assert_eq!(records[0].mime.as_deref(), Some("text/plain"));
    assert_eq!(
        records[0].url.as_deref(),
        Some("https://slack.com/files/F1")
    );
    // The file's own clock, not the message's.
    assert_eq!(records[0].updated_at_ms, Some(1_700_000_500_000));
}

#[test]
fn every_file_on_one_message_gets_its_own_id() {
    let message = json(
        r#"{
            "ts": "1700000000.000100",
            "user": "U1",
            "files": [
                { "id": "F1", "name": "one.png" },
                { "id": "F2", "name": "two.png" }
            ]
        }"#,
    );

    let records = file_records_from(&message, &channel(), &users(), false);

    assert_eq!(records.len(), 2);
    assert_ne!(records[0].item_id, records[1].item_id);
    assert_eq!(records[0].item_id, "C1:1700000000.000100:F1");
    assert_eq!(records[1].item_id, "C1:1700000000.000100:F2");
}

#[test]
fn a_file_without_an_id_or_a_name_is_skipped() {
    // Both are required: the id tells it from every other record, and a
    // nameless file tells a reader nothing.
    let message = json(
        r#"{
            "ts": "1700000000.000100",
            "user": "U1",
            "files": [
                { "name": "no-id.png" },
                { "id": "F2" },
                { "id": "F3", "name": "kept.png" }
            ]
        }"#,
    );

    let records = file_records_from(&message, &channel(), &users(), false);

    assert_eq!(records.len(), 1);
    assert_eq!(records[0].item_id, "C1:1700000000.000100:F3");
}

#[test]
fn a_message_without_files_or_a_timestamp_yields_nothing() {
    let plain = json(r#"{ "ts": "1700000000.000100", "user": "U1", "text": "hello" }"#);
    assert!(file_records_from(&plain, &channel(), &users(), false).is_empty());

    let undated = json(r#"{ "user": "U1", "files": [{ "id": "F1", "name": "x.png" }] }"#);
    assert!(file_records_from(&undated, &channel(), &users(), false).is_empty());

    // `files` present but not a list.
    let malformed = json(r#"{ "ts": "1700000000.000100", "files": "nope" }"#);
    assert!(file_records_from(&malformed, &channel(), &users(), false).is_empty());
}

#[test]
fn a_snippets_preview_is_kept_as_body_text() {
    let message = json(
        r#"{
            "ts": "1700000000.000100",
            "user": "U1",
            "files": [{
                "id": "F1",
                "name": "deploy.log",
                "title": "Deploy output",
                "mimetype": "text/plain",
                "preview": "line one\nline two"
            }]
        }"#,
    );

    let records = file_records_from(&message, &channel(), &users(), false);

    assert_eq!(records.len(), 1);
    let content = &records[0].content;
    assert!(content.contains("deploy.log"), "{content}");
    // The human title is kept because it says something the filename does not.
    assert!(content.contains("Deploy output"), "{content}");
    assert!(content.contains("line one"), "{content}");
    assert_eq!(
        content,
        "deploy.log\nDeploy output\ntext/plain\nline one\nline two"
    );
}

#[test]
fn a_title_matching_the_filename_is_not_repeated() {
    let message = json(
        r#"{
            "ts": "1700000000.000100",
            "user": "U1",
            "files": [{ "id": "F1", "name": "same.png", "title": "same.png" }]
        }"#,
    );

    let records = file_records_from(&message, &channel(), &users(), false);

    assert_eq!(records[0].content, "same.png");
}

#[test]
fn a_file_in_a_thread_reply_is_marked_as_one() {
    let message = json(
        r#"{
            "ts": "1700000000.000100",
            "user": "U1",
            "files": [{ "id": "F1", "name": "patch.diff" }]
        }"#,
    );

    let records = file_records_from(&message, &channel(), &users(), true);

    assert_eq!(records[0].title, "#eng — Ada shared patch.diff (reply)");
}

#[test]
fn an_unresolved_uploader_keeps_its_id_rather_than_collapsing() {
    let message = json(
        r#"{
            "ts": "1700000000.000100",
            "user": "U9",
            "files": [{ "id": "F1", "name": "x.png" }]
        }"#,
    );

    let records = file_records_from(&message, &channel(), &users(), false);

    assert_eq!(records[0].title, "#eng — U9 shared x.png");
}

#[test]
fn a_file_without_its_own_clock_falls_back_to_the_message() {
    let message = json(
        r#"{
            "ts": "1700000000.000100",
            "user": "U1",
            "files": [{ "id": "F1", "name": "x.png" }]
        }"#,
    );

    let records = file_records_from(&message, &channel(), &users(), false);

    assert_eq!(records[0].updated_at_ms, Some(1_700_000_000_000));
    assert_eq!(
        records[0].url, None,
        "no permalink means no url, not a guess"
    );
}

#[test]
fn a_title_stands_in_for_a_missing_name() {
    let message = json(
        r#"{
            "ts": "1700000000.000100",
            "username": "deploybot",
            "files": [{ "id": "F1", "title": "Notes", "created": "soon" }]
        }"#,
    );

    let records = file_records_from(&message, &channel(), &users(), false);

    assert_eq!(records[0].title, "#eng — deploybot shared Notes");
    assert_eq!(records[0].content, "Notes");
    assert_eq!(records[0].updated_at_ms, Some(1_700_000_000_000));
}

#[test]
fn a_description_has_a_line_per_part() {
    let file = json(r#"{ "title": "Trace", "preview": "boom" }"#);
    assert_eq!(describe(&file, "trace.txt"), "trace.txt\nTrace\nboom");
    assert_eq!(describe(&file, "Trace"), "Trace\nboom");
}

#[test]
fn an_upload_is_dated_in_whole_seconds() {
    assert_eq!(
        created_millis(&json(r#"{ "created": 1700000500 }"#)),
        Some(1_700_000_500_000)
    );
    assert_eq!(created_millis(&json("{}")), None);
    assert_eq!(created_millis(&json(r#"{ "created": "then" }"#)), None);
}

#[test]
fn a_clock_that_cannot_be_counted_is_noticed() {
    let late = json(
        r#"{
            "ts": "1700000000.000100",
            "files": [{ "id": "F1", "name": "x.png", "created": 9223372036854775807 }]
        }"#,
    );
    assert!(!files_in_range(&late));

    let nameless = json(
        r#"{
            "ts": "1700000000.000100",
            "files": [{ "id": "F1", "created": 9223372036854775807 }]
        }"#,
    );
    assert!(files_in_range(&nameless), "it makes no record to be dated");
}
