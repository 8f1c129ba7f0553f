//! Tests for numbered pages, and for reading payloads.

use serde_json::Value;
use tinyconnectors_sync::json::{Json, Number};
use tinyconnectors_sync::pipeline::{
    first_array, follow, next_page_number, page_number, pick_str,
};

fn convert(value: &Value) -> Json {
    match value {
        Value::Null => Json::Null,
        Value::Bool(on) => Json::Bool(*on),
        Value::Number(number) => Json::Number(match (number.as_u64(), number.as_i64()) {
            (Some(n), _) => Number::PosInt(n),
            (None, Some(n)) => Number::NegInt(n),
            (None, None) => Number::Float(number.to_string()),
        }),
        Value::String(text) => Json::Str(text.clone()),
        Value::Array(items) => Json::Array(items.iter().map(convert).collect()),
        Value::Object(members) => Json::Object(
            members
                .iter()
                .map(|(name, member)| (name.clone(), convert(member)))
                .collect(),
        ),
    }
}

fn json(text: &str) -> Json {
    convert(&serde_json::from_str(text).unwrap())
}

#[test]
fn a_numbered_read_starts_at_page_one() {
    assert_eq!(page_number(None), 1);
    assert_eq!(page_number(Some(" 4 ")), 4);
    // A position that cannot be read starts the walk over rather than stalling
    // it: what was ingested already is skipped.
    for unreadable in ["", "0", "-2", "page-2"] {
        assert_eq!(page_number(Some(unreadable)), 1, "{unreadable:?}");
    }
}

#[test]
fn a_full_page_is_followed_by_the_next() {
    assert_eq!(next_page_number(1, 50, 50, 1_000), Some(2));
    // A provider that hands back more than was asked for has not run out.
    assert_eq!(next_page_number(1, 60, 50, 1_000), Some(2));
}

#[test]
fn a_short_page_is_the_last() {
    assert_eq!(next_page_number(3, 49, 50, 1_000), None);
    assert_eq!(next_page_number(1, 0, 50, 1_000), None);
}

#[test]
fn a_walk_stops_where_the_provider_stops_serving() {
    // GitHub's search answers a page past its thousandth result with an error.
    assert_eq!(next_page_number(19, 50, 50, 1_000), Some(20));
    assert_eq!(next_page_number(20, 50, 50, 1_000), None);
    assert_eq!(next_page_number(u32::MAX, 100, 100, u32::MAX), None);
}

#[test]
fn a_page_number_survives_being_written_down() {
    for page in [1, 2, 9, 10, 999, u32::MAX] {
        assert_eq!(page_number(Some(&page.to_string())), page);
    }
    assert_eq!(page_number(Some("4294967296")), 1, "too large to be a page");
    assert_eq!(page_number(Some("+7")), 7);
}

#[test]
fn a_page_size_that_reaches_further_than_can_be_counted_ends_the_walk() {
    assert_eq!(next_page_number(4, usize::MAX, usize::MAX, u32::MAX), None);
}

#[test]
fn items_come_from_the_first_pointer_to_lead_to_a_list() {
    let payload = json(r#"{ "data": { "messages": [1, 2] }, "messages": [3] }"#);
    let found = first_array(&payload, &["/data/messages", "/messages"]);
    assert_eq!(found.len(), 2);
    let found = first_array(&payload, &["/absent", "/data", "/messages"]);
    assert_eq!(found, vec![&Json::Number(Number::PosInt(3))]);
    assert!(first_array(&payload, &["messages", "/data/messages/0"]).is_empty());
    assert!(first_array(&payload, &[]).is_empty());
}

#[test]
fn a_pointer_leads_to_a_member() {
    let payload = json(r#"{ "a": { "b": true, "": null } }"#);
    assert_eq!(follow(&payload, "/a/b"), Some(&Json::Bool(true)));
    assert_eq!(follow(&payload, "/a/"), Some(&Json::Null));
    assert_eq!(follow(&payload, "/a/c"), None);
    assert_eq!(follow(&payload, "a/b"), None);
    assert_eq!(follow(&payload, ""), None);
}

#[test]
fn a_text_comes_from_the_first_path_to_have_one() {
    let value = json(
        r#"{ "blank": "  ", "n": 1700000500, "less": -3, "half": 1.5, "deep": { "name": " Ada " } }"#,
    );
    let pick = |paths: &[&str]| pick_str(&value, paths);
    assert_eq!(pick(&["blank", "deep.name"]).as_deref(), Some("Ada"));
    assert_eq!(pick(&["n"]).as_deref(), Some("1700000500"));
    assert_eq!(pick(&["less"]).as_deref(), Some("-3"));
    assert_eq!(pick(&["half"]).as_deref(), Some("1.5"));
    assert_eq!(pick(&["deep", "deep.title", "n.name"]), None);
    assert_eq!(pick(&[]), None);
}
