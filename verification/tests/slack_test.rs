//! Tests for the Slack provider's channel walk.
//!
//! A host double runs the actions: each answers with what was queued for it.

use std::collections::{HashMap, VecDeque};
use std::time::{SystemTime, UNIX_EPOCH};

use serde_json::Value;
use tinyconnectors_sync::error::Error;
use tinyconnectors_sync::json::{Json, Number};
use tinyconnectors_sync::provider::{Argument, Request, SyncLimits, Toolkit};
use tinyconnectors_sync::records::{ProviderPage, ProviderUserProfile};
use tinyconnectors_sync::scope::ToolScope;
use tinyconnectors_sync::table::Table;
use tinyconnectors_sync::toolkits::default_registry;
use tinyconnectors_sync::toolkits::slack::{
    after_thread, empty_page, Channel, Cursor, SlackProvider, UsersRefresh, WalkState,
};
use tinyconnectors_sync::toolkits::slack_fetch::{PageFetch, Step};
use tinyconnectors_sync::toolkits::slack_parse::{render, to_millis};

// ── doubles ─────────────────────────────────────────────────────────

fn convert(value: &Value) -> Json {
    match value {
        Value::Null => Json::Null,
        Value::Bool(on) => Json::Bool(*on),
        Value::Number(number) => Json::Number(match (number.as_u64(), number.as_i64()) {
            (Some(n), _) => Number::PosInt(n),
            (None, Some(n)) => Number::NegInt(n),
            (None, None) => Number::Float(number.to_string()),
        }),
        Value::String(text) => Json::Str(text.clone()),
        Value::Array(items) => Json::Array(items.iter().map(convert).collect()),
        Value::Object(members) => Json::Object(
            members
                .iter()
                .map(|(name, member)| (name.clone(), convert(member)))
                .collect(),
        ),
    }
}

fn json(text: &str) -> Json {
    convert(&serde_json::from_str(text).unwrap())
}

fn copy_table(table: &Table) -> Table {
    let mut copy = Table::new();
    for (key, value) in table.pairs() {
        copy.insert(key.clone(), value.clone());
    }
    copy
}

fn copy_walk(walk: &WalkState) -> WalkState {
    WalkState {
        channels: walk.channels.clone(),
        channels_cursor: walk.channels_cursor.clone(),
        threads: walk.threads.clone(),
        high_water: copy_table(&walk.high_water),
        pending: copy_table(&walk.pending),
        users: copy_table(&walk.users),
        users_fetched_ms: walk.users_fetched_ms,
    }
}

/// A host that remembers the walk, and answers every action as it was told.
struct Host {
    replies: HashMap<String, VecDeque<Result<Json, Error>>>,
    calls: Vec<Request>,
    walk: WalkState,
    saves: usize,
    limits: SyncLimits,
}

impl Host {
    fn new() -> Self {
        Host {
            replies: HashMap::new(),
            calls: Vec::new(),
            walk: WalkState::default(),
            saves: 0,
            limits: SyncLimits {
                max_items: 100,
                depth_days: Some(30),
            },
        }
    }

    fn queue(&mut self, action: &str, reply: Result<Json, Error>) {
        self.replies
            .entry(action.to_string())
            .or_default()
            .push_back(reply);
    }

    /// Every call made against `action`, in order.
    fn calls_to(&self, action: &str) -> Vec<&Request> {
        self.calls
            .iter()
            .filter(|request| request.action == action)
            .collect()
    }

    fn run(&mut self, request: Request) -> Result<Json, Error> {
        let queued = self
            .replies
            .get_mut(request.action)
            .and_then(VecDeque::pop_front);
        self.calls.push(request);
        queued.unwrap_or_else(|| Ok(json("{}")))
    }

    fn fetch_page(&mut self, cursor: Option<&str>) -> Result<ProviderPage, Error> {
        let mut step = SlackProvider
            .fetch_page(cursor, copy_walk(&self.walk), self.limits)
            .unwrap();
        loop {
            step = match step {
                Step::Run(fetch, request) => {
                    let reply = self.run(request);
                    fetch.resume(reply).unwrap()
                }
                Step::Done(page, saved) => {
                    if let Some(walk) = saved {
                        self.walk = walk;
                        self.saves += 1;
                    }
                    return Ok(page);
                }
                Step::Failed(error) => return Err(error),
            };
        }
    }

    /// Walks until the walk is over, and gives the ids of what it read.
    fn walk_through(&mut self, most_pages: usize) -> Vec<String> {
        let mut cursor: Option<String> = None;
        let mut seen = Vec::new();
        let mut pages = 0;
        loop {
            let page = self.fetch_page(cursor.as_deref()).unwrap();
            seen.extend(page.records.iter().map(|record| record.item_id.clone()));
            pages += 1;
            assert!(pages < most_pages, "the walk did not terminate");
            match page.next_cursor {
                Some(next) => cursor = Some(next),
                None => return seen,
            }
        }
    }

    fn fetch_user_profile(&mut self) -> Result<ProviderUserProfile, Error> {
        let payload = self.run(SlackProvider.profile_request())?;
        Ok(SlackProvider.fetch_user_profile("conn_1", payload))
    }
}

fn text_of<'a>(request: &'a Request, name: &str) -> Option<&'a str> {
    request
        .arguments
        .iter()
        .find(|(argument, _)| *argument == name)
        .map(|(_, value)| match value {
            Argument::Text(text) => text.as_str(),
            _ => panic!("{name} is no text"),
        })
}

fn number_of(request: &Request, name: &str) -> Option<usize> {
    request
        .arguments
        .iter()
        .find(|(argument, _)| *argument == name)
        .map(|(_, value)| match value {
            Argument::Number(n) => *n,
            _ => panic!("{name} is no number"),
        })
}

fn flag_of(request: &Request, name: &str) -> Option<bool> {
    request
        .arguments
        .iter()
        .find(|(argument, _)| *argument == name)
        .map(|(_, value)| match value {
            Argument::Flag(on) => *on,
            _ => panic!("{name} is no flag"),
        })
}

fn action_error(message: &str) -> Error {
    Error::Action {
        action: "SLACK_FETCH_CONVERSATION_HISTORY".to_string(),
        message: message.to_string(),
    }
}

fn channels(entries: &[(&str, &str)], next: &str) -> Json {
    let list: Vec<String> = entries
        .iter()
        .map(|(id, name)| format!(r#"{{ "id": "{id}", "name": "{name}" }}"#))
        .collect();
    let list = list.join(", ");
    json(&format!(
        r#"{{ "data": {{ "channels": [{list}], "response_metadata": {{ "next_cursor": "{next}" }} }} }}"#
    ))
}

fn history(messages: &[String], next: &str) -> Json {
    let list = messages.join(", ");
    json(&format!(
        r#"{{ "data": {{ "messages": [{list}], "response_metadata": {{ "next_cursor": "{next}" }} }} }}"#
    ))
}

fn message(ts: &str, text: &str) -> String {
    format!(r#"{{ "ts": "{ts}", "user": "U1", "text": "{text}" }}"#)
}

fn asked(ts: &str, text: &str, replies: usize) -> String {
    format!(r#"{{ "ts": "{ts}", "user": "U1", "text": "{text}", "reply_count": {replies} }}"#)
}

const ROSTER: &str = "SLACK_LIST_CONVERSATIONS";
const HISTORY: &str = "SLACK_FETCH_CONVERSATION_HISTORY";
const THREAD: &str = "SLACK_FETCH_MESSAGE_THREAD_FROM_A_CONVERSATION";
const USERS: &str = "SLACK_LIST_ALL_USERS";

// ── the cursor ──────────────────────────────────────────────────────

#[test]
fn a_cursor_survives_a_round_trip() {
    let cursor = Cursor::new(3, Some("dXNlcjpVMDYx".to_string()));
    assert_eq!(Cursor::decode(Some(&cursor.encode())), cursor);

    let start = Cursor::new(0, None);
    assert_eq!(Cursor::decode(Some(&start.encode())), start);
}

#[test]
fn an_unreadable_cursor_restarts_the_walk_rather_than_failing_it() {
    for raw in ["", "not-a-number|abc", "|", "garbage"] {
        assert_eq!(Cursor::decode(Some(raw)).index, 0, "{raw}");
    }
    assert_eq!(Cursor::decode(None), Cursor::new(0, None));
}

#[test]
fn a_cursor_in_a_thread_survives_a_round_trip() {
    let cursor = Cursor::in_thread(
        12,
        Some("aGlzdG9yeQ==".to_string()),
        "1700000000.000100".to_string(),
        Some("cmVwbGllcw==".to_string()),
    );
    assert_eq!(
        cursor.encode(),
        "12|aGlzdG9yeQ==|1700000000.000100|cmVwbGllcw=="
    );
    assert_eq!(Cursor::decode(Some(&cursor.encode())), cursor);

    let first = Cursor::in_thread(0, None, "1.1".to_string(), None);
    assert_eq!(first.encode(), "0||1.1|");
    assert_eq!(Cursor::decode(Some("0||1.1|")), first);
}

#[test]
fn a_cursor_of_fewer_fields_is_in_no_thread() {
    assert_eq!(Cursor::decode(Some("4|abc")), Cursor::new(4, Some("abc".to_string())));
    assert_eq!(Cursor::decode(Some("4")), Cursor::new(4, None));
    assert_eq!(Cursor::decode(Some("+4|")), Cursor::new(4, None));
    assert_eq!(Cursor::decode(Some("99999999999999999999|a")).index, 0);
}

#[test]
fn a_cursor_without_an_index_is_the_first_position_whatever_follows() {
    for raw in ["not-a-number|abc", "|abc|1.1|x", "-1|abc", "99999999999999999999|a", " 1|a"] {
        assert_eq!(Cursor::decode(Some(raw)), Cursor::new(0, None), "{raw}");
    }
    assert_eq!(
        Cursor::decode(Some("0|abc")),
        Cursor::new(0, Some("abc".to_string()))
    );
}

#[test]
fn what_stands_behind_the_last_bar_is_kept_whole() {
    let cursor = Cursor::decode(Some("1|h|t|a|b"));
    assert_eq!(cursor.reply_page.as_deref(), Some("a|b"));
}

// ── the walk ────────────────────────────────────────────────────────

#[test]
fn the_walk_pages_each_channel_then_moves_to_the_next_and_ends_once() {
    let mut host = Host::new();
    host.queue(ROSTER, Ok(channels(&[("C1", "eng"), ("C2", "ops")], "")));
    // C1 has two pages, C2 has one.
    host.queue(
        HISTORY,
        Ok(history(&[message("1700000002.000100", "newest")], "page2")),
    );
    host.queue(
        HISTORY,
        Ok(history(&[message("1700000001.000100", "older")], "")),
    );
    host.queue(
        HISTORY,
        Ok(history(&[message("1700000003.000100", "ops news")], "")),
    );

    let seen = host.walk_through(10);

    assert_eq!(
        seen,
        vec![
            "C1:1700000002.000100",
            "C1:1700000001.000100",
            "C2:1700000003.000100"
        ]
    );
    assert_eq!(
        host.calls_to(ROSTER).len(),
        1,
        "the roster is read once per walk, not once per channel"
    );
    assert_eq!(text_of(host.calls_to(HISTORY)[0], "cursor"), None);
    assert_eq!(text_of(host.calls_to(HISTORY)[1], "cursor"), Some("page2"));
}

#[test]
fn the_same_timestamp_in_two_channels_yields_two_records() {
    // A Slack `ts` is unique within a channel only.
    let mut host = Host::new();
    host.queue(ROSTER, Ok(channels(&[("C1", "eng"), ("C2", "ops")], "")));
    for _ in 0..2 {
        host.queue(
            HISTORY,
            Ok(history(&[message("1700000000.000100", "same")], "")),
        );
    }

    let first = host.fetch_page(None).unwrap();
    let second = host.fetch_page(first.next_cursor.as_deref()).unwrap();

    assert_eq!(first.records[0].item_id, "C1:1700000000.000100");
    assert_eq!(second.records[0].item_id, "C2:1700000000.000100");
}

#[test]
fn one_unreadable_channel_is_skipped_not_fatal() {
    let mut host = Host::new();
    host.queue(
        ROSTER,
        Ok(channels(&[("C1", "private"), ("C2", "ops")], "")),
    );
    host.queue(HISTORY, Err(action_error("not_in_channel")));
    host.queue(
        HISTORY,
        Ok(history(&[message("1700000000.000100", "readable")], "")),
    );

    let skipped = host.fetch_page(None).unwrap();
    assert!(skipped.records.is_empty());
    let next = skipped.next_cursor.expect("the walk must move past it");

    let page = host.fetch_page(Some(&next)).unwrap();
    assert_eq!(page.records.len(), 1, "the other channel still syncs");
}

#[test]
fn a_revoked_token_fails_the_run_instead_of_every_channel() {
    let mut host = Host::new();
    host.queue(ROSTER, Ok(channels(&[("C1", "eng")], "")));
    host.queue(HISTORY, Err(action_error("token_revoked")));

    assert!(host.fetch_page(None).is_err());
}

#[test]
fn a_finished_channel_is_read_from_its_newest_message_next_time() {
    let mut host = Host::new();
    for _ in 0..2 {
        host.queue(ROSTER, Ok(channels(&[("C1", "eng")], "")));
    }
    host.queue(
        HISTORY,
        Ok(history(&[message("1700000009.000100", "newest")], "")),
    );
    host.queue(HISTORY, Ok(history(&[], "")));

    // First walk: no mark yet, so the depth bound is the floor.
    host.fetch_page(None).unwrap();
    assert_ne!(
        text_of(host.calls_to(HISTORY)[0], "oldest"),
        Some("1700000009.000100")
    );

    // Second walk, after the channel was exhausted: start at the mark.
    host.fetch_page(None).unwrap();
    assert_eq!(
        text_of(host.calls_to(HISTORY)[1], "oldest"),
        Some("1700000009.000100")
    );
}

#[test]
fn a_run_without_a_depth_bound_asks_for_everything() {
    let mut host = Host::new();
    host.queue(ROSTER, Ok(channels(&[("C1", "eng")], "")));
    host.queue(HISTORY, Ok(history(&[], "")));
    host.limits = SyncLimits {
        max_items: 50,
        depth_days: None,
    };

    host.fetch_page(None).unwrap();
    assert!(
        text_of(host.calls_to(HISTORY)[0], "oldest").is_none(),
        "an unbounded run must not invent a floor"
    );
}

#[test]
fn a_join_notice_with_no_text_is_not_a_memory() {
    let mut host = Host::new();
    host.queue(ROSTER, Ok(channels(&[("C1", "eng")], "")));
    host.queue(
        HISTORY,
        Ok(history(
            &[
                r#"{ "ts": "1700000000.000100", "subtype": "channel_join" }"#.to_string(),
                message("1700000001.000100", "real content"),
            ],
            "",
        )),
    );

    let page = host.fetch_page(None).unwrap();
    assert_eq!(page.records.len(), 1);
    assert_eq!(page.records[0].content, "real content");
}

#[test]
fn an_edited_message_reports_a_version_so_it_re_ingests() {
    let mut host = Host::new();
    host.queue(ROSTER, Ok(channels(&[("C1", "eng")], "")));
    host.queue(
        HISTORY,
        Ok(history(
            &[r#"{
                "ts": "1700000000.000100",
                "user": "U1",
                "text": "fixed a typo",
                "edited": { "ts": "1700000050.000200" }
            }"#
            .to_string()],
            "",
        )),
    );

    let page = host.fetch_page(None).unwrap();
    assert_eq!(
        page.versions,
        vec![(
            "C1:1700000000.000100".to_string(),
            "1700000050.000200".to_string()
        )]
    );
}

// ── rendering ───────────────────────────────────────────────────────

#[test]
fn slack_test_references_resolve_to_something_a_person_can_read() {
    let mut users = Table::new();
    users.insert("U1".to_string(), "Ada".to_string());

    assert_eq!(render("hi <@U1>", &users), "hi @Ada");
    assert_eq!(render("see <#C7|deploys>", &users), "see #deploys");
    assert_eq!(
        render("read <https://example.com|the docs>", &users),
        "read the docs"
    );
    assert_eq!(
        render("bare <https://example.com>", &users),
        "bare https://example.com"
    );
}

#[test]
fn slack_test_an_unknown_user_degrades_rather_than_dropping_the_message() {
    let users = Table::new();
    assert_eq!(render("ping <@U404>", &users), "ping @U404");
    assert_eq!(render("ping <@U404|ada>", &users), "ping @ada");
    // An unmatched bracket is text, not a broken reference.
    assert_eq!(render("2 < 3 and more", &users), "2 < 3 and more");
}

#[test]
fn slack_test_a_slack_timestamp_becomes_milliseconds() {
    assert_eq!(to_millis("1700000000.000100"), Some(1_700_000_000_000));
    assert_eq!(to_millis("1700000000.123456"), Some(1_700_000_000_123));
    // A short fraction is padded, not read as a smaller number.
    assert_eq!(to_millis("1700000000.5"), Some(1_700_000_000_500));
    assert_eq!(to_millis("nonsense"), None);
}

#[test]
fn the_profile_names_the_workspace() {
    // A Slack connection is *of* a workspace.
    let mut host = Host::new();
    host.queue(
        "SLACK_FETCH_TEAM_INFO",
        Ok(json(
            r#"{
                "team": {
                    "name": "Tiny Humans",
                    "domain": "tinyhumans",
                    "icon": { "image_132": "https://example.com/team.png" }
                }
            }"#,
        )),
    );

    let profile = host.fetch_user_profile().unwrap();

    assert_eq!(profile.toolkit, "slack");
    assert_eq!(profile.connection_id.as_deref(), Some("conn_1"));
    assert_eq!(profile.display_name.as_deref(), Some("Tiny Humans"));
    assert_eq!(profile.username.as_deref(), Some("tinyhumans"));
    assert_eq!(
        profile.avatar_url.as_deref(),
        Some("https://example.com/team.png")
    );
    assert!(profile.extras.get("team").is_some());
    assert!(host.calls_to("SLACK_FETCH_TEAM_INFO")[0].arguments.is_empty());
}

#[test]
fn a_workspace_reporting_nothing_yields_an_empty_profile_not_an_error() {
    let mut host = Host::new();
    let profile = host.fetch_user_profile().unwrap();
    assert_eq!(profile.toolkit, "slack");
    assert!(profile.display_name.is_none());
}

#[test]
fn the_roster_is_walked_one_page_at_a_time() {
    // A workspace larger than one roster page costs one extra request per page.
    let mut host = Host::new();
    host.queue(ROSTER, Ok(channels(&[("C1", "eng")], "roster2")));
    host.queue(ROSTER, Ok(channels(&[("C2", "ops")], "")));
    for ts in ["1700000001.000100", "1700000002.000100"] {
        host.queue(HISTORY, Ok(history(&[message(ts, "hello")], "")));
    }

    let mut cursor: Option<String> = None;
    let mut seen = Vec::new();
    for _ in 0..6 {
        let page = host.fetch_page(cursor.as_deref()).unwrap();
        seen.extend(page.records.iter().map(|record| record.item_id.clone()));
        match page.next_cursor {
            Some(next) => cursor = Some(next),
            None => break,
        }
    }

    assert_eq!(seen, vec!["C1:1700000001.000100", "C2:1700000002.000100"]);
    assert_eq!(host.calls_to(ROSTER).len(), 2);
    assert_eq!(text_of(host.calls_to(ROSTER)[1], "cursor"), Some("roster2"));
}

#[test]
fn a_roster_cursor_that_does_not_advance_ends_the_walk() {
    let mut host = Host::new();
    host.queue(ROSTER, Ok(channels(&[("C1", "eng")], "stuck")));
    host.queue(ROSTER, Ok(channels(&[], "stuck")));
    host.queue(HISTORY, Ok(history(&[], "")));

    host.walk_through(8);
    assert_eq!(host.calls_to(ROSTER).len(), 2);
}

#[test]
fn authors_and_mentions_read_as_names_and_the_directory_is_cached() {
    let mut host = Host::new();
    for _ in 0..2 {
        host.queue(ROSTER, Ok(channels(&[("C1", "eng")], "")));
    }
    host.queue(
        USERS,
        Ok(json(
            r#"{ "data": { "members": [
                { "id": "U1", "profile": { "display_name": "Ada" } },
                { "id": "U2", "real_name": "Grace" }
            ] } }"#,
        )),
    );
    host.queue(
        HISTORY,
        Ok(history(
            &[r#"{ "ts": "1700000000.000100", "user": "U1", "text": "ping <@U2>" }"#.to_string()],
            "",
        )),
    );
    host.queue(HISTORY, Ok(history(&[], "")));

    let page = host.fetch_page(None).unwrap();
    assert_eq!(page.records[0].title, "#eng — Ada");
    assert_eq!(page.records[0].content, "ping @Grace");
    assert_eq!(
        page.records[0].url.as_deref(),
        Some("https://slack.com/archives/C1/p1700000000000100")
    );
    assert_eq!(page.records[0].updated_at_ms, Some(1_700_000_000_000));

    // A second walk reuses the directory rather than paying for it again.
    host.fetch_page(None).unwrap();
    assert_eq!(host.calls_to(USERS).len(), 1);
}

#[test]
fn a_directory_that_will_not_load_leaves_ids_raw_rather_than_failing() {
    let mut host = Host::new();
    host.queue(ROSTER, Ok(channels(&[("C1", "eng")], "")));
    host.queue(
        USERS,
        Err(Error::Action {
            action: "SLACK_LIST_ALL_USERS".to_string(),
            message: "ratelimited".to_string(),
        }),
    );
    host.queue(
        HISTORY,
        Ok(history(
            &[r#"{ "ts": "1700000000.000100", "user": "U9", "text": "hi <@U9>" }"#.to_string()],
            "",
        )),
    );

    let page = host.fetch_page(None).unwrap();

    assert_eq!(page.records.len(), 1, "the walk still ingests");
    assert_eq!(page.records[0].content, "hi @U9");
    assert_eq!(page.records[0].title, "#eng — U9");
}

#[test]
fn a_message_that_is_only_an_empty_reference_is_not_a_memory() {
    let mut host = Host::new();
    host.queue(ROSTER, Ok(channels(&[("C1", "eng")], "")));
    host.queue(
        HISTORY,
        Ok(history(&[message("1700000000.000100", "<>")], "")),
    );

    let page = host.fetch_page(None).unwrap();
    assert!(page.records.is_empty());
}

#[test]
fn slack_test_a_channel_reference_without_a_label_keeps_its_id() {
    let users = Table::new();
    assert_eq!(render("see <#C7>", &users), "see #C7");
}

#[test]
fn slack_re_syncs_on_the_interval_its_host_has_always_advertised() {
    // Fifteen minutes.
    assert_eq!(SlackProvider.sync_interval_secs(), Some(900));
}

#[test]
fn slack_says_what_it_is() {
    assert_eq!(SlackProvider.toolkit_slug(), "slack");
    assert_eq!(
        SlackProvider.description(),
        "Read and send Slack messages, and ingest channel history as memory."
    );
}

// ── requests ────────────────────────────────────────────────────────

#[test]
fn the_roster_asks_for_channels_and_for_nothing_else() {
    let mut host = Host::new();
    host.fetch_page(None).unwrap();
    let roster = host.calls_to(ROSTER)[0];
    assert_eq!(
        text_of(roster, "types"),
        Some("public_channel,private_channel")
    );
    assert_eq!(number_of(roster, "limit"), Some(200));
    assert_eq!(flag_of(roster, "exclude_archived"), Some(true));
    assert_eq!(text_of(roster, "cursor"), None);
    assert_eq!(number_of(host.calls_to(USERS)[0], "limit"), Some(200));
}

#[test]
fn a_page_asks_for_what_the_run_may_take() {
    for (max_items, limit) in [(0, 1), (1, 1), (199, 199), (200, 200), (5_000, 200)] {
        let mut host = Host::new();
        host.limits.max_items = max_items;
        host.queue(ROSTER, Ok(channels(&[("C1", "eng")], "")));
        host.fetch_page(None).unwrap();
        let page = host.calls_to(HISTORY)[0];
        assert_eq!(number_of(page, "limit"), Some(limit));
        assert_eq!(flag_of(page, "inclusive"), Some(false));
        assert_eq!(text_of(page, "channel"), Some("C1"));
    }
}

#[test]
fn the_floor_is_counted_back_from_the_clock() {
    let before = SystemTime::now()
        .duration_since(UNIX_EPOCH)
        .unwrap()
        .as_secs();
    let from = WalkState::default().oldest_for("C1", Some(30)).unwrap();
    let after = SystemTime::now()
        .duration_since(UNIX_EPOCH)
        .unwrap()
        .as_secs();

    let seconds: u64 = from.strip_suffix(".000000").unwrap().parse().unwrap();
    assert!(before - 30 * 86_400 <= seconds && seconds <= after - 30 * 86_400);
}

#[test]
fn a_mark_wins_over_the_depth_bound() {
    let mut walk = WalkState::default();
    assert_eq!(walk.oldest_for("C1", None), None);
    walk.high_water
        .insert("C1".to_string(), "1700000009.000100".to_string());
    assert_eq!(
        walk.oldest_for("C1", Some(30)).as_deref(),
        Some("1700000009.000100")
    );
    assert_eq!(
        walk.oldest_at("C2", Some(2), 1_700_000_000_999).as_deref(),
        Some("1699827200.000000")
    );
    assert_eq!(
        walk.oldest_at("C2", Some(20_000), 1_700_000_000_000)
            .as_deref(),
        Some("-28000000.000000")
    );
    assert_eq!(
        walk.oldest_at("C2", Some(0), 0).as_deref(),
        Some("0.000000")
    );
}

#[test]
fn a_run_that_looks_back_further_than_dates_go_is_refused() {
    let mut walk = WalkState::default();
    walk.channels.push(Channel {
        id: "C1".to_string(),
        name: "eng".to_string(),
    });
    let limits = SyncLimits {
        max_items: 1,
        depth_days: Some(u32::MAX),
    };
    assert!(SlackProvider
        .fetch_page(Some("0|||"), copy_walk(&walk), limits)
        .is_none());
    assert!(!SlackProvider.can_fetch_page(Some("0|||"), &walk, limits, 1_700_000_000_000));
    assert!(SlackProvider.can_fetch_page(Some("1|||"), &walk, limits, 1_700_000_000_000));
    assert!(SlackProvider.can_fetch_page(None, &walk, limits, 1_700_000_000_000));
    walk.high_water.insert("C1".to_string(), "1.1".to_string());
    assert!(SlackProvider.can_fetch_page(Some("0|||"), &walk, limits, 1_700_000_000_000));
}

#[test]
fn a_date_that_milliseconds_cannot_count_is_refused() {
    let mut walk = WalkState::default();
    walk.channels.push(Channel {
        id: "C1".to_string(),
        name: "eng".to_string(),
    });
    let limits = SyncLimits {
        max_items: 1,
        depth_days: None,
    };
    let step = SlackProvider.fetch_page(Some("0|||"), walk, limits).unwrap();
    let Step::Run(fetch, _) = step else {
        panic!("a page of history is asked for");
    };
    let reply = Ok(history(&[message("9223372036854776", "late")], ""));
    assert!(fetch.resume(reply).is_none());
}

// ── threads ─────────────────────────────────────────────────────────

#[test]
fn the_answers_follow_the_page_that_asked_in_the_order_it_listed_them() {
    let mut host = Host::new();
    host.queue(ROSTER, Ok(channels(&[("C1", "eng")], "")));
    host.queue(
        HISTORY,
        Ok(history(
            &[
                asked("5.0", "five", 1),
                message("4.0", "four"),
                asked("3.0", "three", 2),
            ],
            "page2",
        )),
    );
    host.queue(HISTORY, Ok(history(&[message("1.0", "one")], "")));
    // The first thread has two pages, the parent at the head of the first.
    host.queue(
        THREAD,
        Ok(history(
            &[asked("5.0", "five", 1), message("5.1", "re five")],
            "more",
        )),
    );
    host.queue(THREAD, Ok(history(&[message("5.2", "re five")], "")));
    host.queue(
        THREAD,
        Ok(history(
            &[asked("3.0", "three", 2), message("3.1", "re three")],
            "",
        )),
    );

    let seen = host.walk_through(10);

    assert_eq!(
        seen,
        vec!["C1:5.0", "C1:4.0", "C1:3.0", "C1:5.1", "C1:5.2", "C1:3.1", "C1:1.0"]
    );
    let threads = host.calls_to(THREAD);
    assert_eq!(threads.len(), 3);
    assert_eq!(text_of(threads[0], "channel"), Some("C1"));
    assert_eq!(text_of(threads[0], "ts"), Some("5.0"));
    assert_eq!(text_of(threads[0], "cursor"), None);
    assert_eq!(number_of(threads[0], "limit"), Some(200));
    assert_eq!(text_of(threads[1], "cursor"), Some("more"));
    assert_eq!(text_of(threads[2], "ts"), Some("3.0"));
    assert_eq!(
        host.walk.high_water.get("C1").map(String::as_str),
        Some("5.0")
    );
    assert!(host.walk.pending.is_empty());
}

#[test]
fn a_history_marker_that_does_not_advance_ends_the_channel() {
    let mut host = Host::new();
    host.walk.channels.push(Channel {
        id: "C1".to_string(),
        name: "eng".to_string(),
    });
    host.queue(HISTORY, Ok(history(&[message("5.0", "five")], "h")));

    let page = host.fetch_page(Some("0|h||")).unwrap();
    assert_eq!(page.records.len(), 1);
    assert_eq!(page.next_cursor.as_deref(), Some("1|||"));

    // The threads of the page are still read first.
    host.queue(HISTORY, Ok(history(&[asked("4.0", "four", 1)], "h")));
    let page = host.fetch_page(Some("0|h||")).unwrap();
    assert_eq!(page.next_cursor.as_deref(), Some("0||4.0|"));
}

#[test]
fn a_reply_marker_that_does_not_advance_ends_the_thread() {
    let mut host = Host::new();
    host.walk.channels.push(Channel {
        id: "C1".to_string(),
        name: "eng".to_string(),
    });
    host.walk
        .pending
        .insert("C1".to_string(), "5.0".to_string());
    host.queue(THREAD, Ok(history(&[message("5.1", "re")], "m")));
    let page = host.fetch_page(Some("0|h|5.0|m")).unwrap();
    assert_eq!(page.records.len(), 1);
    assert_eq!(page.next_cursor.as_deref(), Some("0|h||"));
    assert!(host.walk.high_water.is_empty());

    host.queue(THREAD, Ok(history(&[], "m")));
    let page = host.fetch_page(Some("0||5.0|m")).unwrap();
    assert_eq!(page.next_cursor.as_deref(), Some("1|||"));
    assert_eq!(
        host.walk.high_water.get("C1").map(String::as_str),
        Some("5.0")
    );
}

#[test]
fn a_parent_is_queued_once() {
    let mut host = Host::new();
    host.queue(ROSTER, Ok(channels(&[("C1", "eng")], "")));
    host.queue(
        HISTORY,
        Ok(history(
            &[
                asked("5.0", "five", 1),
                asked("4.0", "four", 1),
                asked("5.0", "five", 1),
            ],
            "",
        )),
    );
    let first = host.fetch_page(None).unwrap();
    assert_eq!(first.next_cursor.as_deref(), Some("0||5.0|"));
    assert_eq!(host.walk.threads, vec!["4.0"]);
    let second = host.fetch_page(first.next_cursor.as_deref()).unwrap();
    assert_eq!(second.next_cursor.as_deref(), Some("0||4.0|"));
    let third = host.fetch_page(second.next_cursor.as_deref()).unwrap();
    assert_eq!(third.next_cursor.as_deref(), Some("1|||"));

    // Nor is one that an earlier page queued.
    host.walk.threads.push("3.0".to_string());
    host.queue(
        HISTORY,
        Ok(history(&[asked("2.0", "x", 1), asked("3.0", "y", 1)], "")),
    );
    let page = host.fetch_page(Some("0|h||")).unwrap();
    assert_eq!(page.next_cursor.as_deref(), Some("0||2.0|"));
    assert_eq!(host.walk.threads, vec!["3.0"]);
}

#[test]
fn an_empty_roster_page_leads_to_the_next_one() {
    let mut host = Host::new();
    host.queue(ROSTER, Ok(channels(&[], "r1")));
    host.queue(ROSTER, Ok(channels(&[], "r2")));
    host.queue(ROSTER, Ok(channels(&[("C1", "eng")], "")));

    let first = host.fetch_page(None).unwrap();
    assert_eq!(first.next_cursor.as_deref(), Some("0|||"));
    assert_eq!(host.walk.channels_cursor.as_deref(), Some("r2"));
    // Written alike, and another place: the position is one of another page.
    let second = host.fetch_page(first.next_cursor.as_deref()).unwrap();
    assert_eq!(second.next_cursor.as_deref(), Some("0|||"));
    assert_eq!(host.walk.channels_cursor, None);
    assert_eq!(host.walk.channels.len(), 1);
}

#[test]
fn a_mark_waits_until_the_channel_and_its_threads_are_read() {
    let mut host = Host::new();
    host.queue(ROSTER, Ok(channels(&[("C1", "eng")], "")));
    host.queue(HISTORY, Ok(history(&[asked("5.0", "five", 1)], "")));
    host.queue(THREAD, Ok(history(&[message("5.1", "re")], "")));

    let first = host.fetch_page(None).unwrap();
    assert_eq!(first.next_cursor.as_deref(), Some("0||5.0|"));
    assert!(host.walk.high_water.is_empty());
    assert_eq!(host.walk.pending.get("C1").map(String::as_str), Some("5.0"));

    let second = host.fetch_page(first.next_cursor.as_deref()).unwrap();
    assert_eq!(second.records[0].title, "#eng — U1 (reply)");
    assert_eq!(second.next_cursor.as_deref(), Some("1|||"));
    assert_eq!(
        host.walk.high_water.get("C1").map(String::as_str),
        Some("5.0")
    );

    let saves = host.saves;
    let last = host.fetch_page(second.next_cursor.as_deref()).unwrap();
    assert!(last.next_cursor.is_none());
    assert_eq!(host.saves, saves, "the end of a walk changes nothing");
}

#[test]
fn an_unreadable_thread_costs_its_replies_and_a_revoked_token_the_run() {
    let mut host = Host::new();
    host.queue(ROSTER, Ok(channels(&[("C1", "eng")], "")));
    host.queue(
        HISTORY,
        Ok(history(
            &[asked("5.0", "five", 1), asked("3.0", "three", 1)],
            "",
        )),
    );
    host.queue(THREAD, Err(action_error("thread_not_found")));
    host.queue(THREAD, Err(action_error("INVALID_AUTH")));

    let first = host.fetch_page(None).unwrap();
    let skipped = host.fetch_page(first.next_cursor.as_deref()).unwrap();
    assert!(skipped.records.is_empty());
    assert_eq!(skipped.next_cursor.as_deref(), Some("0||3.0|"));
    assert!(host.fetch_page(skipped.next_cursor.as_deref()).is_err());
    assert!(host.walk.high_water.is_empty());
}

#[test]
fn a_skipped_channel_keeps_its_mark_and_drops_its_queue() {
    let mut host = Host::new();
    host.queue(ROSTER, Ok(channels(&[("C1", "eng")], "")));
    host.walk
        .high_water
        .insert("C1".to_string(), "1.0".to_string());
    host.walk
        .pending
        .insert("C1".to_string(), "2.0".to_string());
    host.walk.threads.push("1.5".to_string());
    host.queue(HISTORY, Err(action_error("is_archived")));

    let page = host.fetch_page(None).unwrap();
    assert_eq!(page.next_cursor.as_deref(), Some("1|||"));
    assert_eq!(
        host.walk.high_water.get("C1").map(String::as_str),
        Some("1.0")
    );
    assert_eq!(host.walk.pending.get("C1").map(String::as_str), Some("2.0"));
    assert!(host.walk.threads.is_empty());
}

#[test]
fn a_queue_left_by_another_channel_is_not_drained_here() {
    let mut host = Host::new();
    host.queue(ROSTER, Ok(channels(&[("C1", "eng")], "")));
    host.walk.threads.push("9.9".to_string());
    host.queue(HISTORY, Ok(history(&[message("1.0", "one")], "")));

    let page = host.fetch_page(None).unwrap();
    assert_eq!(page.next_cursor.as_deref(), Some("1|||"));
    assert!(host.walk.threads.is_empty());
}

#[test]
fn a_later_page_keeps_what_is_owed() {
    let mut walk = WalkState::default();
    walk.channels.push(Channel {
        id: "C1".to_string(),
        name: "eng".to_string(),
    });
    walk.threads.push("9.0".to_string());
    let channel = walk.channels[0].clone();
    let position = Cursor::new(0, Some("page2".to_string()));
    let reply = Ok(history(
        &[asked("5.0", "five", 1), asked("4.0", "four", 1)],
        "page3",
    ));
    let read = SlackProvider
        .read_history(&mut walk, &position, &channel, reply)
        .unwrap();
    assert!(read.changed);
    assert_eq!(read.page.next_cursor.as_deref(), Some("0|page3|5.0|"));
    assert_eq!(walk.threads, vec!["9.0", "4.0"]);
    assert!(walk.pending.is_empty(), "only a first page names the newest");
}

#[test]
fn a_thread_page_without_a_thread_ends_the_walk_where_it_has_more() {
    let mut walk = WalkState::default();
    let channel = Channel {
        id: "C1".to_string(),
        name: "eng".to_string(),
    };
    let nowhere = Cursor::new(0, None);
    let read = after_thread(
        &mut walk,
        &nowhere,
        &channel,
        Vec::new(),
        Some("more".to_string()),
    );
    assert!(read.page.next_cursor.is_none());
    let read = after_thread(&mut walk, &nowhere, &channel, Vec::new(), None);
    assert_eq!(read.page.next_cursor.as_deref(), Some("1|||"));
}

#[test]
fn a_page_carries_what_was_said_and_what_was_attached() {
    let mut host = Host::new();
    host.queue(ROSTER, Ok(channels(&[("C1", "eng")], "")));
    host.queue(
        HISTORY,
        Ok(history(
            &[
                r#"{ "ts": "3.0", "user": "U1", "files": [{ "id": "F1", "name": "shot.png" }] }"#
                    .to_string(),
                r#"{ "ts": "2.0", "user": "U1", "text": "x", "reply_count": 1, "edited": { "ts": "4.0" },
                     "files": [{ "id": "F2", "name": "a.txt" }] }"#
                    .to_string(),
            ],
            "",
        )),
    );
    host.queue(
        THREAD,
        Ok(history(
            &[
                r#"{ "ts": "2.0", "text": "x", "files": [{ "id": "F2", "name": "a.txt" }] }"#
                    .to_string(),
                r#"{ "ts": "2.1", "user": "U1", "files": [{ "id": "F3", "name": "b.txt" }] }"#
                    .to_string(),
            ],
            "",
        )),
    );

    let page = host.fetch_page(None).unwrap();
    let ids: Vec<&str> = page.records.iter().map(|r| r.item_id.as_str()).collect();
    assert_eq!(ids, vec!["C1:3.0:F1", "C1:2.0", "C1:2.0:F2"]);
    assert_eq!(page.records[0].title, "#eng — U1 shared shot.png");
    assert_eq!(page.versions, vec![("C1:2.0".to_string(), "4.0".to_string())]);

    let thread = host.fetch_page(page.next_cursor.as_deref()).unwrap();
    assert_eq!(thread.records.len(), 1, "the parent is left out with its file");
    assert_eq!(thread.records[0].item_id, "C1:2.1:F3");
    assert_eq!(
        thread.records[0].title,
        "#eng — U1 shared b.txt (reply)"
    );
}

#[test]
fn a_file_that_milliseconds_cannot_date_is_refused() {
    let mut walk = WalkState::default();
    walk.channels.push(Channel {
        id: "C1".to_string(),
        name: "eng".to_string(),
    });
    let limits = SyncLimits {
        max_items: 1,
        depth_days: None,
    };
    let Some(Step::Run(fetch, _)) = SlackProvider.fetch_page(Some("0|||"), walk, limits) else {
        panic!("a page of history is asked for");
    };
    let late = r#"{ "ts": "1.0", "files": [{ "id": "F1", "name": "a", "created": 9223372036854775807 }] }"#;
    assert!(fetch.resume(Ok(history(&[late.to_string()], ""))).is_none());
}

#[test]
fn a_channel_of_many_pages_and_threads_is_read_from_its_newest_next_time() {
    let mut host = Host::new();
    host.queue(ROSTER, Ok(channels(&[("C1", "eng")], "")));
    host.queue(HISTORY, Ok(history(&[asked("9.0", "nine", 1)], "h2")));
    host.queue(HISTORY, Ok(history(&[asked("5.0", "five", 2)], "h3")));
    host.queue(HISTORY, Ok(history(&[message("1.0", "one")], "")));
    host.queue(THREAD, Ok(history(&[message("9.1", "re nine")], "t2")));
    host.queue(THREAD, Ok(history(&[message("9.2", "re nine")], "")));
    host.queue(THREAD, Err(action_error("ratelimited")));

    let mut cursor: Option<String> = None;
    let mut seen = Vec::new();
    for _ in 0..6 {
        assert!(host.walk.high_water.is_empty());
        let page = host.fetch_page(cursor.as_deref()).unwrap();
        seen.extend(page.records.iter().map(|r| r.item_id.clone()));
        cursor = page.next_cursor;
    }
    assert_eq!(cursor.as_deref(), Some("1|||"));
    assert_eq!(seen, vec!["C1:9.0", "C1:9.1", "C1:9.2", "C1:5.0", "C1:1.0"]);
    assert_eq!(
        host.walk.oldest_for("C1", Some(30)).as_deref(),
        Some("9.0")
    );
}

// ── the roster and the directory ────────────────────────────────────

#[test]
fn a_channel_needs_an_id_and_goes_by_it_without_a_name() {
    let mut host = Host::new();
    host.queue(
        ROSTER,
        Ok(json(
            r#"{ "channels": [
                { "name": "ghost" },
                { "id": "C1" },
                { "data": { "id": "C2", "name": "ops" } }
            ] }"#,
        )),
    );
    host.fetch_page(None).unwrap();
    let listed: Vec<(&str, &str)> = host
        .walk
        .channels
        .iter()
        .map(|channel| (channel.id.as_str(), channel.name.as_str()))
        .collect();
    assert_eq!(listed, vec![("C1", "C1"), ("C2", "ops")]);
}

#[test]
fn a_roster_that_cannot_be_read_fails_the_run() {
    let mut host = Host::new();
    host.queue(ROSTER, Err(action_error("ratelimited")));
    let failed = host.fetch_page(None).unwrap_err();
    assert_eq!(
        failed.to_text(),
        "SLACK_FETCH_CONVERSATION_HISTORY: ratelimited"
    );
    assert_eq!(host.saves, 0);
}

#[test]
fn the_directory_is_read_up_to_five_pages() {
    let mut host = Host::new();
    host.queue(ROSTER, Ok(channels(&[("C1", "eng")], "")));
    for page in 0..7 {
        host.queue(
            USERS,
            Ok(json(&format!(
                r#"{{ "members": [{{ "id": "U{page}", "name": "n{page}" }}], "next_cursor": "p{page}" }}"#
            ))),
        );
    }
    host.fetch_page(None).unwrap();
    assert_eq!(host.calls_to(USERS).len(), 5);
    assert_eq!(text_of(host.calls_to(USERS)[1], "cursor"), Some("p0"));
    assert_eq!(host.walk.users.get("U4").map(String::as_str), Some("n4"));
    assert!(host.walk.users.get("U5").is_none());
    assert_eq!(host.calls.len(), 7, "the roster, the directory, the page");
}

#[test]
fn a_directory_that_does_not_advance_is_read_once() {
    let mut refresh = UsersRefresh::new(0);
    let reply = Ok(json(
        r#"{ "members": [{ "id": "U1", "name": "a" }], "next_cursor": "p" }"#,
    ));
    assert!(refresh.absorb(&reply));
    assert!(!refresh.absorb(&reply), "the same cursor leads nowhere");
    assert_eq!(refresh.pages_left, 3);
}

#[test]
fn a_directory_failure_keeps_the_names_that_were_known() {
    let mut walk = WalkState::default();
    walk.users.insert("U1".to_string(), "Ada".to_string());
    walk.users_fetched_ms = 5;
    let mut refresh = UsersRefresh::new(9);
    assert!(!refresh.absorb(&Err(action_error("ratelimited"))));
    assert!(!SlackProvider.refresh_users(&mut walk, refresh));
    assert_eq!(walk.users.get("U1").map(String::as_str), Some("Ada"));
    assert_eq!(walk.users_fetched_ms, 5);
}

#[test]
fn a_directory_is_trusted_for_a_day() {
    let mut walk = WalkState::default();
    assert!(walk.users_are_stale(0), "there is none yet");
    walk.users.insert("U1".to_string(), "Ada".to_string());
    walk.users_fetched_ms = 1_000;
    assert!(!walk.users_are_stale(1_000 + 86_400_000));
    assert!(walk.users_are_stale(1_001 + 86_400_000));
}

#[test]
fn a_directory_whose_age_cannot_be_counted_is_refused() {
    let mut walk = WalkState::default();
    walk.users.insert("U1".to_string(), "Ada".to_string());
    walk.users_fetched_ms = i64::MIN;
    let limits = SyncLimits {
        max_items: 1,
        depth_days: None,
    };
    let step = SlackProvider.fetch_page(None, walk, limits).unwrap();
    let Step::Run(fetch, _) = step else {
        panic!("the roster is asked for");
    };
    assert!(!PageFetch::can_resume_at(&fetch, &Ok(json("{}")), 1));
    assert!(fetch.resume(Ok(json("{}"))).is_none());
}

#[test]
fn a_walk_is_stored_under_a_key_of_its_own() {
    assert_eq!(WalkState::key("conn_1"), "slack-walk:conn_1");
    assert_ne!(WalkState::key("conn_1"), "slack:conn_1");
}

#[test]
fn an_empty_page_carries_nothing() {
    let page = empty_page(Some("0|||".to_string()));
    assert!(page.records.is_empty() && page.versions.is_empty());
    assert_eq!(page.next_cursor.as_deref(), Some("0|||"));
}

#[test]
fn a_mark_is_promoted_once() {
    let mut walk = WalkState::default();
    walk.pending.insert("C1".to_string(), "2.0".to_string());
    walk.high_water.insert("C2".to_string(), "1.0".to_string());
    walk.commit_high_water("C1");
    assert_eq!(walk.high_water.get("C1").map(String::as_str), Some("2.0"));
    assert!(walk.pending.get("C1").is_none());
    walk.commit_high_water("C2");
    assert_eq!(walk.high_water.get("C2").map(String::as_str), Some("1.0"));
}

#[test]
fn every_page_moves_the_walk() {
    let mut host = Host::new();
    host.queue(ROSTER, Ok(channels(&[("C1", "eng"), ("C2", "ops")], "more")));
    host.queue(ROSTER, Ok(channels(&[], "more2")));
    host.queue(HISTORY, Ok(history(&[asked("2.0", "x", 1)], "h2")));
    host.queue(HISTORY, Err(action_error("is_archived")));
    host.queue(HISTORY, Ok(history(&[], "")));

    let mut cursor: Option<String> = None;
    let mut steps = 0;
    loop {
        let page = host.fetch_page(cursor.as_deref()).unwrap();
        let Some(next) = page.next_cursor else {
            break;
        };
        let roster_moved = next == "0|||";
        assert!(cursor.as_deref() != Some(next.as_str()) || roster_moved);
        cursor = Some(next);
        steps += 1;
        assert!(steps < 12);
    }
}

// ── what stands around the provider ─────────────────────────────────

#[test]
fn the_catalog_lists_what_the_walk_runs_as_reads() {
    let tools = SlackProvider.curated_tools().unwrap();
    assert_eq!(tools.len(), 27);
    for action in [ROSTER, HISTORY, THREAD, USERS, "SLACK_FETCH_TEAM_INFO"] {
        let tool = tools.iter().find(|tool| tool.slug == action).unwrap();
        assert_eq!(tool.scope, ToolScope::Read);
    }
    let mut slugs: Vec<&str> = tools.iter().map(|tool| tool.slug).collect();
    slugs.sort_unstable();
    slugs.dedup();
    assert_eq!(slugs.len(), 27);
    let invite = tools
        .iter()
        .find(|tool| tool.slug == "SLACK_INVITE_USERS_TO_A_SLACK_CHANNEL")
        .unwrap();
    assert_eq!(invite.scope, ToolScope::Admin);
    let writes = tools
        .iter()
        .filter(|tool| tool.scope == ToolScope::Write)
        .count();
    assert_eq!(writes, 8);
}

#[test]
fn the_build_ships_six_toolkits() {
    let registry = default_registry();
    assert_eq!(
        registry.toolkits(),
        &vec![
            Toolkit::Clickup,
            Toolkit::Github,
            Toolkit::Gmail,
            Toolkit::Linear,
            Toolkit::Notion,
            Toolkit::Slack(SlackProvider),
        ]
    );
    assert!(registry.toolkits().iter().all(Toolkit::can_sync));
    assert_eq!(
        registry.get("slack"),
        Some(Toolkit::Slack(SlackProvider))
    );
    for toolkit in registry.toolkits() {
        assert_eq!(registry.get(toolkit.slug()), Some(*toolkit));
    }
    assert_eq!(
        Toolkit::Slack(SlackProvider).slug(),
        SlackProvider.toolkit_slug()
    );
    assert_eq!(registry.get("jira"), None);
}
