//! Reading Slack's payloads, and rendering what they carry.
//!
//! `slack` decides *where to read next*; this decides *what a page said*.

use vstd::prelude::*;
use vstd::string::*;

use super::slack::{Channel, ChannelView};
use super::slack_files::{file_records, file_records_fit, file_records_from, files_in_range};
use crate::decimal::{read_signed, signed_i64};
use crate::error::Error;
use crate::json::{referents, Json};
use crate::pipeline::{first_array, first_items, follow, pick, pick_one, pick_two, pointed};
use crate::records::{pairs_view, records_view, ConnectorRecord, RecordView};
use crate::table::Table;
use crate::text::{
    chars_of, contains, cut_once, has, lemma_find, lowercased, option_str_view, option_view, same,
    split_once, strings_view, strip, strs_view, to_ascii_lowercase, trim, trimmed, without,
};

verus! {

/// Longest body kept, in characters.
pub const MAX_BODY_CHARS: usize = 20_000;

// ---------------------------------------------------------------- models

/// The messages in a history or thread payload, across its envelopes.
pub open spec fn messages(payload: Json) -> Seq<Json> {
    first_items(payload, seq!["/data/messages"@, "/messages"@, "/data/data/messages"@])
}

/// The timestamp of a message.
pub open spec fn stamp(message: Json) -> Option<Seq<char>> {
    pick(message, seq!["ts"@])
}

/// The timestamp of a message that has replies.
pub open spec fn owed(message: Json) -> Option<Seq<char>> {
    match message.member("reply_count"@) {
        Some(count) => match count.natural() {
            Some(n) if n > 0 => stamp(message),
            _ => None,
        },
        None => None,
    }
}

/// The codes of failures that no later channel will escape either.
pub open spec fn fatal_codes() -> Seq<Seq<char>> {
    seq![
        "invalid_auth"@,
        "not_authed"@,
        "token_revoked"@,
        "token_expired"@,
        "account_inactive"@,
        "missing_scope"@,
    ]
}

/// Whether a failure means that the whole connection is unusable.
pub open spec fn fatal(error: Error) -> bool {
    exists|i: int|
        0 <= i < fatal_codes().len() && contains(
            to_ascii_lowercase(error.text()),
            #[trigger] fatal_codes()[i],
        )
}

/// The text that the first pointer to lead to one leads to.
pub open spec fn first_string(payload: Json, pointers: Seq<Seq<char>>) -> Option<Seq<char>>
    decreases pointers.len(),
{
    if pointers.len() == 0 {
        None
    } else {
        match pointed(payload, pointers[0]) {
            Some(Json::Str(text)) => Some(text@),
            _ => first_string(payload, pointers.drop_first()),
        }
    }
}

/// Where a payload says that the next page starts.
pub open spec fn marker(payload: Json) -> Option<Seq<char>> {
    match first_string(
        payload,
        seq![
            "/data/response_metadata/next_cursor"@,
            "/response_metadata/next_cursor"@,
            "/data/data/response_metadata/next_cursor"@,
            "/data/next_cursor"@,
            "/next_cursor"@,
        ],
    ) {
        Some(text) => if trim(text).len() > 0 {
            Some(trim(text))
        } else {
            None
        },
        None => None,
    }
}

/// Who a message is from: the name the directory has for its author, else the
/// author's id, else the name or the id of the bot that posted it.
pub open spec fn author(message: Json, users: Map<Seq<char>, Seq<char>>) -> Seq<char> {
    match pick(message, seq!["user"@]) {
        Some(id) => if users.contains_key(id) {
            users[id]
        } else {
            id
        },
        None => match pick(message, seq!["username"@, "bot_id"@]) {
            Some(name) => name,
            None => "unknown"@,
        },
    }
}

/// A link to one message.
pub open spec fn message_link(channel: Seq<char>, ts: Seq<char>) -> Seq<char> {
    "https://slack.com/archives/"@ + channel + "/p"@ + without(ts, '.')
}

/// The two halves of a timestamp, around its first dot.
pub open spec fn stamp_halves(ts: Seq<char>) -> (Seq<char>, Seq<char>) {
    match split_once(ts, '.') {
        Some(halves) => halves,
        None => (ts, "0"@),
    }
}

/// The first three characters of a fraction, with zeros behind a shorter one.
pub open spec fn three_digits(fraction: Seq<char>) -> Seq<char> {
    Seq::new(
        3,
        |i: int|
            if i < fraction.len() {
                fraction[i]
            } else {
                '0'
            },
    )
}

/// The milliseconds that a fraction of a second amounts to.
pub open spec fn fraction_millis(fraction: Seq<char>) -> int {
    match signed_i64(three_digits(fraction)) {
        Some(n) => n,
        None => 0,
    }
}

/// A `seconds.microseconds` timestamp in milliseconds.
pub open spec fn millis(ts: Seq<char>) -> Option<int> {
    match signed_i64(stamp_halves(ts).0) {
        Some(seconds) => Some(seconds * 1000 + fraction_millis(stamp_halves(ts).1)),
        None => None,
    }
}

/// Whether the milliseconds of a timestamp can be counted in 64 bits.
pub open spec fn millis_fit(ts: Seq<char>) -> bool {
    match signed_i64(stamp_halves(ts).0) {
        Some(seconds) => {
            &&& i64::MIN <= seconds * 1000 <= i64::MAX
            &&& i64::MIN <= seconds * 1000 + fraction_millis(stamp_halves(ts).1) <= i64::MAX
        },
        None => true,
    }
}

/// What one `<...>` reference reads as; `token` is what stands between the
/// angle brackets.
pub open spec fn resolved(token: Seq<char>, users: Map<Seq<char>, Seq<char>>) -> Seq<char> {
    let (target, label) = match split_once(token, '|') {
        Some(halves) => halves,
        None => (token, Seq::empty()),
    };
    if target.len() > 0 && target[0] == '@' {
        let id = target.skip(1);
        seq!['@'] + (if users.contains_key(id) {
            users[id]
        } else if label.len() > 0 {
            label
        } else {
            id
        })
    } else if target.len() > 0 && target[0] == '#' {
        seq!['#'] + (if label.len() > 0 {
            label
        } else {
            target.skip(1)
        })
    } else if label.len() > 0 {
        label
    } else {
        target
    }
}

/// A text with its references resolved. A `<` without a `>` behind it is text.
pub open spec fn rendered(raw: Seq<char>, users: Map<Seq<char>, Seq<char>>) -> Seq<char>
    decreases raw.len(),
{
    proof {
        lemma_find(raw, '<');
    }
    match split_once(raw, '<') {
        Some((before, after)) => {
            proof {
                lemma_find(after, '>');
            }
            match split_once(after, '>') {
                Some((token, rest)) => before + resolved(token, users) + rendered(rest, users),
                None => raw,
            }
        },
        None => raw,
    }
}

/// A text without the white space around it, cut off after `MAX_BODY_CHARS`
/// characters.
pub open spec fn truncated(text: Seq<char>) -> Seq<char> {
    if trim(text).len() <= MAX_BODY_CHARS {
        trim(text)
    } else {
        trim(text).take(MAX_BODY_CHARS as int)
    }
}

/// What the title of a reply ends in.
pub open spec fn reply_mark(reply: bool) -> Seq<char> {
    if reply {
        " (reply)"@
    } else {
        ""@
    }
}

/// The id of the record of one message.
pub open spec fn message_id(channel: Seq<char>, ts: Seq<char>) -> Seq<char> {
    channel + ":"@ + ts
}

/// The record of what a message said, when it said something and when.
pub open spec fn text_record(
    message: Json,
    channel: ChannelView,
    users: Map<Seq<char>, Seq<char>>,
    reply: bool,
) -> Option<RecordView> {
    match (stamp(message), pick(message, seq!["text"@])) {
        (Some(ts), Some(text)) => if trim(rendered(text, users)).len() > 0 {
            Some(
                RecordView {
                    item_id: message_id(channel.id, ts),
                    title: "#"@ + channel.name + " — "@ + author(message, users) + reply_mark(
                        reply,
                    ),
                    content: truncated(rendered(text, users)),
                    mime: Some("text/plain"@),
                    url: match pick(message, seq!["permalink"@]) {
                        Some(url) => Some(url),
                        None => Some(message_link(channel.id, ts)),
                    },
                    updated_at_ms: millis(ts),
                    tags: Seq::empty(),
                },
            )
        } else {
            None
        },
        _ => None,
    }
}

/// Whether the record of a message, if it has one, can be dated.
pub open spec fn text_record_fits(message: Json, users: Map<Seq<char>, Seq<char>>) -> bool {
    match (stamp(message), pick(message, seq!["text"@])) {
        (Some(ts), Some(text)) => trim(rendered(text, users)).len() > 0 ==> millis_fit(ts),
        _ => true,
    }
}

/// Whether a message is the one that is to be left out.
pub open spec fn left_out(message: Json, skip: Option<Seq<char>>) -> bool {
    skip is Some && stamp(message) == skip
}

/// The record of what a message said, unless the message is left out.
pub open spec fn kept_record(
    message: Json,
    channel: ChannelView,
    users: Map<Seq<char>, Seq<char>>,
    skip: Option<Seq<char>>,
) -> Option<RecordView> {
    if left_out(message, skip) {
        None
    } else {
        text_record(message, channel, users, skip is Some)
    }
}

/// The version that a message reports: when its text was last edited.
pub open spec fn kept_version(
    message: Json,
    channel: ChannelView,
    users: Map<Seq<char>, Seq<char>>,
    skip: Option<Seq<char>>,
) -> Option<(Seq<char>, Seq<char>)> {
    match (kept_record(message, channel, users, skip), pick(message, seq!["edited.ts"@])) {
        (Some(record), Some(edited)) => Some((record.item_id, edited)),
        _ => None,
    }
}

/// The versions that the messages of a page report.
pub open spec fn text_versions(
    messages: Seq<Json>,
    channel: ChannelView,
    users: Map<Seq<char>, Seq<char>>,
    skip: Option<Seq<char>>,
) -> Seq<(Seq<char>, Seq<char>)>
    decreases messages.len(),
{
    if messages.len() == 0 {
        Seq::empty()
    } else {
        let front = text_versions(messages.drop_last(), channel, users, skip);
        match kept_version(messages.last(), channel, users, skip) {
            Some(version) => front.push(version),
            None => front,
        }
    }
}

/// Everything that a message carries: what it said, then its files.
pub open spec fn message_records(
    message: Json,
    channel: ChannelView,
    users: Map<Seq<char>, Seq<char>>,
    skip: Option<Seq<char>>,
) -> Seq<RecordView> {
    if left_out(message, skip) {
        Seq::empty()
    } else {
        let files = file_records(message, channel, users, skip is Some);
        match text_record(message, channel, users, skip is Some) {
            Some(record) => seq![record] + files,
            None => files,
        }
    }
}

/// Everything that the messages of a page carry.
pub open spec fn page_records(
    messages: Seq<Json>,
    channel: ChannelView,
    users: Map<Seq<char>, Seq<char>>,
    skip: Option<Seq<char>>,
) -> Seq<RecordView>
    decreases messages.len(),
{
    if messages.len() == 0 {
        Seq::empty()
    } else {
        page_records(messages.drop_last(), channel, users, skip) + message_records(
            messages.last(),
            channel,
            users,
            skip,
        )
    }
}

/// Whether all the records of a page can be dated.
pub open spec fn page_fits(
    messages: Seq<Json>,
    users: Map<Seq<char>, Seq<char>>,
    skip: Option<Seq<char>>,
) -> bool {
    forall|i: int|
        0 <= i < messages.len() && !left_out(#[trigger] messages[i], skip) ==> text_record_fits(
            messages[i],
            users,
        ) && file_records_fit(messages[i])
}

// ---------------------------------------------------------------- code

/// The messages in a history or thread payload, across its envelopes.
pub fn messages_in(payload: &Json) -> (found: Vec<&Json>)
    ensures
        referents(found@) == messages(*payload),
{
    let pointers: [&str; 3] = ["/data/messages", "/messages", "/data/data/messages"];
    assert(strs_view(pointers@) =~= seq![
        "/data/messages"@,
        "/messages"@,
        "/data/data/messages"@,
    ]);
    first_array(payload, &pointers)
}

/// The timestamp of a message that has replies, if it has any.
pub fn has_replies(message: &Json) -> (ts: Option<String>)
    ensures
        option_view(ts) == owed(*message),
{
    match message.get("reply_count") {
        Some(count) => match count.as_u64() {
            Some(n) => if n > 0 {
                pick_one(message, "ts")
            } else {
                None
            },
            None => None,
        },
        None => None,
    }
}

/// Whether a failure means that the whole connection is unusable.
///
/// Everything else (a channel the account is not in, an archived conversation,
/// a rate limit on one busy channel) concerns one channel and must not fail
/// the workspace.
pub fn is_fatal(error: &Error) -> (whole: bool)
    ensures
        whole == fatal(*error),
{
    let text = error.to_text();
    let message = lowercased(text.as_str());
    let codes: [&str; 6] = [
        "invalid_auth",
        "not_authed",
        "token_revoked",
        "token_expired",
        "account_inactive",
        "missing_scope",
    ];
    assert(strs_view(codes@) =~= fatal_codes());
    let mut i: usize = 0;
    while i < 6
        invariant
            i <= 6,
            codes@.len() == 6,
            strs_view(codes@) == fatal_codes(),
            message@ == to_ascii_lowercase(error.text()),
            forall|j: int| 0 <= j < i ==> !contains(message@, #[trigger] fatal_codes()[j]),
        decreases 6 - i,
    {
        assert(fatal_codes()[i as int] == codes@[i as int]@);
        if has(message.as_str(), codes[i]) {
            return true;
        }
        i = i + 1;
    }
    false
}

/// Slack's next page marker, across its envelopes.
pub fn next_cursor(payload: &Json) -> (next: Option<String>)
    ensures
        option_view(next) == marker(*payload),
{
    let pointers: [&str; 5] = [
        "/data/response_metadata/next_cursor",
        "/response_metadata/next_cursor",
        "/data/data/response_metadata/next_cursor",
        "/data/next_cursor",
        "/next_cursor",
    ];
    let ghost views = seq![
        "/data/response_metadata/next_cursor"@,
        "/response_metadata/next_cursor"@,
        "/data/data/response_metadata/next_cursor"@,
        "/data/next_cursor"@,
        "/next_cursor"@,
    ];
    assert(strs_view(pointers@) =~= views);
    let mut i: usize = 0;
    assert(views.skip(0) =~= views);
    while i < 5
        invariant
            i <= 5,
            pointers@.len() == 5,
            views.len() == 5,
            strs_view(pointers@) == views,
            marker(*payload) == (match first_string(*payload, views) {
                Some(text) => if trim(text).len() > 0 {
                    Some(trim(text))
                } else {
                    None
                },
                None => None,
            }),
            first_string(*payload, views) == first_string(*payload, views.skip(i as int)),
        decreases 5 - i,
    {
        assert(views.skip(i as int).drop_first() =~= views.skip(i + 1));
        assert(views[i as int] == pointers@[i as int]@);
        match follow(payload, pointers[i]) {
            Some(Json::Str(text)) => {
                let inner = trimmed(text.as_str());
                if inner.unicode_len() > 0 {
                    return Some(inner.to_owned());
                } else {
                    return None;
                }
            },
            _ => {},
        }
        i = i + 1;
    }
    None
}

/// Who a message is from, for display.
///
/// An id the directory cannot resolve is still worth keeping: a reader can
/// look it up, and collapsing every unresolved author into one word would make
/// messages from different people indistinguishable.
pub fn author_of(message: &Json, users: &Table) -> (name: String)
    ensures
        name@ == author(*message, users@),
{
    match pick_one(message, "user") {
        Some(id) => match users.get(id.as_str()) {
            Some(name) => name.clone(),
            None => id,
        },
        None => match pick_two(message, "username", "bot_id") {
            Some(name) => name,
            None => "unknown".to_owned(),
        },
    }
}

/// A link back to one message.
///
/// `slack.com` rather than the workspace's own domain: the workspace is not
/// known here, and Slack redirects this form to the right one.
pub fn permalink(channel: &str, ts: &str) -> (link: String)
    ensures
        link@ == message_link(channel@, ts@),
{
    let link = "https://slack.com/archives/".to_owned().concat(channel).concat("/p");
    let digits = strip(ts, '.');
    link.concat(digits.as_str())
}

/// The first three characters of a fraction, with zeros behind a shorter one.
fn first_three(fraction: &str) -> (three: String)
    ensures
        three@ == three_digits(fraction@),
{
    let chars = chars_of(fraction);
    let mut three = String::new();
    let mut i: usize = 0;
    while i < 3
        invariant
            i <= 3,
            chars@ == fraction@,
            three@ =~= three_digits(fraction@).take(i as int),
        decreases 3 - i,
    {
        let c: char = if i < chars.len() {
            chars[i]
        } else {
            '0'
        };
        three.push(c);
        i = i + 1;
    }
    assert(three_digits(fraction@).take(3) =~= three_digits(fraction@));
    three
}

/// The two numbers in a timestamp: its seconds, and the milliseconds after
/// them.
fn stamp_parts(ts: &str) -> (parts: Option<(i64, i64)>)
    ensures
        match parts {
            Some((seconds, rest)) => {
                &&& signed_i64(stamp_halves(ts@).0) == Some(seconds as int)
                &&& rest == fraction_millis(stamp_halves(ts@).1)
            },
            None => signed_i64(stamp_halves(ts@).0) is None,
        },
{
    let (seconds, fraction) = match cut_once(ts, '.') {
        Some(halves) => halves,
        None => (ts, "0"),
    };
    match read_signed(seconds) {
        Some(seconds) => {
            let three = first_three(fraction);
            let rest: i64 = match read_signed(three.as_str()) {
                Some(n) => n,
                None => 0,
            };
            Some((seconds, rest))
        },
        None => None,
    }
}

/// Whether the milliseconds of a timestamp can be counted in 64 bits.
pub fn millis_in_range(ts: &str) -> (fits: bool)
    ensures
        fits == millis_fit(ts@),
{
    match stamp_parts(ts) {
        Some((seconds, rest)) => match seconds.checked_mul(1000) {
            Some(whole) => match whole.checked_add(rest) {
                Some(_) => true,
                None => false,
            },
            None => false,
        },
        None => true,
    }
}

/// Slack's `seconds.microseconds` stamp in milliseconds.
///
/// Three digits of the fraction are milliseconds; a shorter one is padded
/// rather than misread as a smaller number.
pub fn to_millis(ts: &str) -> (ms: Option<i64>)
    requires
        millis_fit(ts@),
    ensures
        match ms {
            Some(ms) => millis(ts@) == Some(ms as int),
            None => millis(ts@) is None,
        },
{
    match stamp_parts(ts) {
        Some((seconds, rest)) => Some(seconds * 1000 + rest),
        None => None,
    }
}

/// One `<...>` reference, without its angle brackets.
///
/// A user reads as the directory's name, the inline label or the bare id; a
/// channel as its label, or its id; a link as its label, or its target.
pub fn resolve(token: &str, users: &Table) -> (text: String)
    ensures
        text@ == resolved(token@, users@),
{
    let (target, label) = match cut_once(token, '|') {
        Some(halves) => halves,
        None => {
            proof {
                reveal_strlit("");
                assert(""@ =~= Seq::<char>::empty());
            }
            (token, "")
        },
    };
    let n: usize = target.unicode_len();
    let labelled: bool = label.unicode_len() > 0;
    if n > 0 && target.get_char(0) == '@' {
        let id = target.substring_char(1, n);
        assert(id@ =~= target@.skip(1));
        let mut text = String::new();
        text.push('@');
        match users.get(id) {
            Some(name) => {
                text.append(name.as_str());
            },
            None => {
                if labelled {
                    text.append(label);
                } else {
                    text.append(id);
                }
            },
        }
        assert(text@ =~= resolved(token@, users@));
        text
    } else if n > 0 && target.get_char(0) == '#' {
        let id = target.substring_char(1, n);
        assert(id@ =~= target@.skip(1));
        let mut text = String::new();
        text.push('#');
        if labelled {
            text.append(label);
        } else {
            text.append(id);
        }
        assert(text@ =~= resolved(token@, users@));
        text
    } else if labelled {
        label.to_owned()
    } else {
        target.to_owned()
    }
}

/// Message text with Slack's reference syntax resolved.
pub fn render(raw: &str, users: &Table) -> (text: String)
    ensures
        text@ == rendered(raw@, users@),
{
    let mut out = String::new();
    let mut rest = raw;
    loop
        invariant
            rendered(raw@, users@) == out@ + rendered(rest@, users@),
        decreases rest@.len(),
    {
        proof {
            lemma_find(rest@, '<');
        }
        match cut_once(rest, '<') {
            Some((before, after)) => {
                proof {
                    lemma_find(after@, '>');
                }
                match cut_once(after, '>') {
                    Some((token, remainder)) => {
                        let reference = resolve(token, users);
                        out.append(before);
                        out.append(reference.as_str());
                        assert(rendered(raw@, users@) =~= out@ + rendered(remainder@, users@));
                        rest = remainder;
                    },
                    None => {
                        out.append(rest);
                        return out;
                    },
                }
            },
            None => {
                out.append(rest);
                return out;
            },
        }
    }
}

/// Cap a body at [`MAX_BODY_CHARS`], on a character boundary.
pub fn truncate(text: &str) -> (body: String)
    ensures
        body@ == truncated(text@),
{
    let inner = trimmed(text);
    if inner.unicode_len() <= MAX_BODY_CHARS {
        inner.to_owned()
    } else {
        let head = inner.substring_char(0, MAX_BODY_CHARS);
        assert(head@ =~= inner@.take(MAX_BODY_CHARS as int));
        head.to_owned()
    }
}

/// What the title of a reply ends in.
pub(crate) fn kind_of(reply: bool) -> (mark: &'static str)
    ensures
        mark@ == reply_mark(reply),
{
    if reply {
        " (reply)"
    } else {
        ""
    }
}

/// Whether the record of a message, if it has one, can be dated.
pub fn record_in_range(message: &Json, users: &Table) -> (fits: bool)
    ensures
        fits == text_record_fits(*message, users@),
{
    match pick_one(message, "ts") {
        Some(ts) => match pick_one(message, "text") {
            Some(text) => {
                let body = render(text.as_str(), users);
                if trimmed(body.as_str()).unicode_len() > 0 {
                    millis_in_range(ts.as_str())
                } else {
                    true
                }
            },
            None => true,
        },
        None => true,
    }
}

/// One message's *text* as a record, or `None` when it carries none.
///
/// A message with no timestamp has no stable id, and one with no text is a
/// join notice or a file share whose body is elsewhere. A row for either would
/// say nothing.
pub fn record_from(message: &Json, channel: &Channel, users: &Table, reply: bool) -> (record:
    Option<ConnectorRecord>)
    requires
        text_record_fits(*message, users@),
    ensures
        match record {
            Some(record) => text_record(*message, channel@, users@, reply) == Some(record@),
            None => text_record(*message, channel@, users@, reply) is None,
        },
{
    let ts = match pick_one(message, "ts") {
        Some(ts) => ts,
        None => {
            return None;
        },
    };
    let text = match pick_one(message, "text") {
        Some(text) => text,
        None => {
            return None;
        },
    };
    let body = render(text.as_str(), users);
    if trimmed(body.as_str()).unicode_len() == 0 {
        return None;
    }
    let author = author_of(message, users);
    let title = "#".to_owned().concat(channel.name.as_str()).concat(" — ").concat(
        author.as_str(),
    ).concat(kind_of(reply));
    let item_id = channel.id.clone().concat(":").concat(ts.as_str());
    let url = match pick_one(message, "permalink") {
        Some(url) => url,
        None => permalink(channel.id.as_str(), ts.as_str()),
    };
    let record = ConnectorRecord {
        item_id,
        title,
        content: truncate(body.as_str()),
        mime: Some("text/plain".to_owned()),
        url: Some(url),
        updated_at_ms: to_millis(ts.as_str()),
        tags: Vec::new(),
    };
    assert(strings_view(record.tags@) =~= Seq::empty());
    Some(record)
}

/// Whether a message is the one that is to be left out.
fn is_left_out(message: &Json, skip: Option<&str>) -> (out: bool)
    ensures
        out == left_out(*message, option_str_view(skip)),
{
    match skip {
        Some(skip) => match pick_one(message, "ts") {
            Some(ts) => same(ts.as_str(), skip),
            None => false,
        },
        None => false,
    }
}

/// Turn a page of messages into records and the versions they report.
///
/// `skip` names a timestamp to leave out: the parent that Slack repeats at the
/// head of its own thread. An edited message reports a version, so that it is
/// ingested again. Files are records of their own and carry no version: a
/// re-upload arrives under a new id.
pub fn records_from(messages: &[&Json], channel: &Channel, users: &Table, skip: Option<&str>) -> (page:
    (Vec<ConnectorRecord>, Vec<(String, String)>))
    requires
        page_fits(referents(messages@), users@, option_str_view(skip)),
    ensures
        records_view(page.0@) == page_records(
            referents(messages@),
            channel@,
            users@,
            option_str_view(skip),
        ),
        pairs_view(page.1@) == text_versions(
            referents(messages@),
            channel@,
            users@,
            option_str_view(skip),
        ),
{
    let ghost list = referents(messages@);
    let ghost left = option_str_view(skip);
    let mut records: Vec<ConnectorRecord> = Vec::new();
    let mut versions: Vec<(String, String)> = Vec::new();
    let mut i: usize = 0;
    assert(list.take(0) =~= Seq::empty());
    while i < messages.len()
        invariant
            i <= messages@.len(),
            list == referents(messages@),
            left == option_str_view(skip),
            page_fits(list, users@, left),
            records_view(records@) =~= page_records(list.take(i as int), channel@, users@, left),
            pairs_view(versions@) =~= text_versions(list.take(i as int), channel@, users@, left),
        decreases messages@.len() - i,
    {
        let message = messages[i];
        assert(list[i as int] == *message);
        assert(list.take(i + 1).drop_last() =~= list.take(i as int));
        if !is_left_out(message, skip) {
            let ghost before = records@;
            let ghost versions_before = versions@;
            match record_from(message, channel, users, skip.is_some()) {
                Some(record) => {
                    match pick_one(message, "edited.ts") {
                        Some(edited) => {
                            versions.push((record.item_id.clone(), edited));
                            assert(pairs_view(versions@) =~= pairs_view(versions_before).push(
                                (record.item_id@, edited@),
                            ));
                        },
                        None => {},
                    }
                    records.push(record);
                    assert(records_view(records@) =~= records_view(before).push(record@));
                },
                None => {},
            }
            let mut files = file_records_from(message, channel, users, skip.is_some());
            let ghost spoken = records@;
            let ghost attached = files@;
            records.append(&mut files);
            assert(records_view(records@) =~= records_view(spoken) + records_view(attached));
        }
        i = i + 1;
    }
    assert(list.take(list.len() as int) =~= list);
    (records, versions)
}

/// Whether all the records of a page can be dated.
pub fn page_in_range(messages: &[&Json], users: &Table, skip: Option<&str>) -> (fits: bool)
    ensures
        fits == page_fits(referents(messages@), users@, option_str_view(skip)),
{
    let ghost list = referents(messages@);
    let mut i: usize = 0;
    while i < messages.len()
        invariant
            i <= messages@.len(),
            list == referents(messages@),
            page_fits(list.take(i as int), users@, option_str_view(skip)),
        decreases messages@.len() - i,
    {
        let message = messages[i];
        assert(list[i as int] == *message);
        if !is_left_out(message, skip) {
            if !record_in_range(message, users) || !files_in_range(message) {
                return false;
            }
        }
        assert forall|j: int|
            0 <= j < list.take(i + 1).len() && !left_out(
                #[trigger] list.take(i + 1)[j],
                option_str_view(skip),
            ) implies text_record_fits(list.take(i + 1)[j], users@) && file_records_fit(
            list.take(i + 1)[j],
        ) by {
            if j < i {
                assert(list.take(i as int)[j] == list.take(i + 1)[j]);
            }
        }
        i = i + 1;
    }
    assert(list.take(list.len() as int) =~= list);
    true
}

} // verus!
