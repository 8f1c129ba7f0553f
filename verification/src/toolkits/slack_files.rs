//! Slack file shares as records.
//!
//! A file is not a message: a message is what someone *said*, a file is what
//! they *attached*, and the two have different ids and different bodies.
//!
//! Metadata only. The record names the file, links to it, and carries whatever
//! text Slack already handed over in `preview`; it does not fetch the bytes.

use vstd::prelude::*;
use vstd::string::*;

use super::slack::{Channel, ChannelView};
use super::slack_parse::{
    author, author_of, kind_of, millis, millis_fit, millis_in_range, reply_mark, stamp, to_millis,
    truncate, truncated,
};
use crate::json::Json;
use crate::pipeline::{pick, pick_one, pick_two};
use crate::records::{records_view, ConnectorRecord, RecordView};
use crate::table::Table;
use crate::text::{join, join_with, same, strings_view};

verus! {

// ---------------------------------------------------------------- models

/// The files attached to a message.
pub open spec fn files(message: Json) -> Seq<Json> {
    match message.member("files"@) {
        Some(Json::Array(items)) => items@,
        _ => Seq::empty(),
    }
}

/// The text at the end of a path as a list of at most one part.
pub open spec fn part(text: Option<Seq<char>>) -> Seq<Seq<char>> {
    match text {
        Some(text) => seq![text],
        None => Seq::empty(),
    }
}

/// The title of a file, when it says something that its name does not.
pub open spec fn own_title(file: Json, name: Seq<char>) -> Option<Seq<char>> {
    match pick(file, seq!["title"@]) {
        Some(title) if title != name => Some(title),
        _ => None,
    }
}

/// What the record says about a file: its name, its title when that differs,
/// its type and its opening lines, each on a line of its own.
pub open spec fn description(file: Json, name: Seq<char>) -> Seq<char> {
    join(
        seq![name] + part(own_title(file, name)) + part(pick(file, seq!["mimetype"@])) + part(
            pick(file, seq!["preview"@]),
        ),
        "\n"@,
    )
}

/// When a file was uploaded, in milliseconds.
pub open spec fn created(file: Json) -> Option<int> {
    match pick(file, seq!["created"@]) {
        Some(seconds) => millis(seconds),
        None => None,
    }
}

/// The id of the record of one file.
pub open spec fn file_id(channel: Seq<char>, ts: Seq<char>, id: Seq<char>) -> Seq<char> {
    channel + ":"@ + ts + ":"@ + id
}

/// The record of one file, when it can be identified.
pub open spec fn file_record(
    file: Json,
    channel: ChannelView,
    ts: Seq<char>,
    author: Seq<char>,
    kind: Seq<char>,
) -> Option<RecordView> {
    match (pick(file, seq!["id"@]), pick(file, seq!["name"@, "title"@])) {
        (Some(id), Some(name)) => Some(
            RecordView {
                item_id: file_id(channel.id, ts, id),
                title: "#"@ + channel.name + " — "@ + author + " shared "@ + name + kind,
                content: truncated(description(file, name)),
                mime: Some("text/plain"@),
                url: pick(file, seq!["permalink"@]),
                updated_at_ms: match created(file) {
                    Some(ms) => Some(ms),
                    None => millis(ts),
                },
                tags: Seq::empty(),
            },
        ),
        _ => None,
    }
}

/// Whether the record of a file, if it has one, can be dated.
pub open spec fn file_record_fits(file: Json, ts: Seq<char>) -> bool {
    pick(file, seq!["id"@]) is Some && pick(file, seq!["name"@, "title"@]) is Some ==> {
        &&& pick(file, seq!["created"@]) matches Some(seconds) ==> millis_fit(seconds)
        &&& created(file) is None ==> millis_fit(ts)
    }
}

/// The records of a list of files.
pub open spec fn records_of_files(
    files: Seq<Json>,
    channel: ChannelView,
    ts: Seq<char>,
    author: Seq<char>,
    kind: Seq<char>,
) -> Seq<RecordView>
    decreases files.len(),
{
    if files.len() == 0 {
        Seq::empty()
    } else {
        let front = records_of_files(files.drop_last(), channel, ts, author, kind);
        match file_record(files.last(), channel, ts, author, kind) {
            Some(record) => front.push(record),
            None => front,
        }
    }
}

/// The records of the files attached to a message.
pub open spec fn file_records(
    message: Json,
    channel: ChannelView,
    users: Map<Seq<char>, Seq<char>>,
    reply: bool,
) -> Seq<RecordView> {
    match stamp(message) {
        Some(ts) => records_of_files(
            files(message),
            channel,
            ts,
            author(message, users),
            reply_mark(reply),
        ),
        None => Seq::empty(),
    }
}

/// Whether the records of the files of a message can be dated.
pub open spec fn file_records_fit(message: Json) -> bool {
    match stamp(message) {
        Some(ts) => forall|i: int|
            0 <= i < files(message).len() ==> file_record_fits(#[trigger] files(message)[i], ts),
        None => true,
    }
}

// ---------------------------------------------------------------- code

/// What the record says about a file.
pub fn describe(file: &Json, name: &str) -> (text: String)
    ensures
        text@ == description(*file, name@),
{
    let mut parts: Vec<String> = Vec::new();
    parts.push(name.to_owned());
    assert(strings_view(parts@) =~= seq![name@]);
    let ghost mut said = seq![name@];
    match pick_one(file, "title") {
        Some(title) => {
            if !same(title.as_str(), name) {
                parts.push(title);
            }
        },
        None => {},
    }
    proof {
        said = said + part(own_title(*file, name@));
        assert(strings_view(parts@) =~= said);
    }
    match pick_one(file, "mimetype") {
        Some(mimetype) => {
            parts.push(mimetype);
        },
        None => {},
    }
    proof {
        said = said + part(pick(*file, seq!["mimetype"@]));
        assert(strings_view(parts@) =~= said);
    }
    match pick_one(file, "preview") {
        Some(preview) => {
            parts.push(preview);
        },
        None => {},
    }
    proof {
        said = said + part(pick(*file, seq!["preview"@]));
        assert(strings_view(parts@) =~= said);
    }
    join_with(&parts, "\n")
}

/// Slack's `created`, which is whole seconds, in milliseconds.
pub fn created_millis(file: &Json) -> (ms: Option<i64>)
    requires
        pick(*file, seq!["created"@]) matches Some(seconds) ==> millis_fit(seconds),
    ensures
        match ms {
            Some(ms) => created(*file) == Some(ms as int),
            None => created(*file) is None,
        },
{
    match pick_one(file, "created") {
        Some(seconds) => to_millis(seconds.as_str()),
        None => None,
    }
}

/// One file as a record, or `None` when it cannot be identified.
///
/// Both the id and the name are required: the id is the dedupe key, so a file
/// without one would be ingested as something new on every run, and a file
/// without a name gives a reader nothing to recognise it by.
pub fn record_for(file: &Json, channel: &Channel, ts: &str, author: &str, kind: &str) -> (record:
    Option<ConnectorRecord>)
    requires
        file_record_fits(*file, ts@),
    ensures
        match record {
            Some(record) => file_record(*file, channel@, ts@, author@, kind@) == Some(record@),
            None => file_record(*file, channel@, ts@, author@, kind@) is None,
        },
{
    let id = match pick_one(file, "id") {
        Some(id) => id,
        None => {
            return None;
        },
    };
    let name = match pick_two(file, "name", "title") {
        Some(name) => name,
        None => {
            return None;
        },
    };
    let item_id = channel.id.clone().concat(":").concat(ts).concat(":").concat(id.as_str());
    let title = "#".to_owned().concat(channel.name.as_str()).concat(" — ").concat(author).concat(
        " shared ",
    ).concat(name.as_str()).concat(kind);
    let about = describe(file, name.as_str());
    let updated_at_ms: Option<i64> = match created_millis(file) {
        Some(ms) => Some(ms),
        None => to_millis(ts),
    };
    let record = ConnectorRecord {
        item_id,
        title,
        content: truncate(about.as_str()),
        mime: Some("text/plain".to_owned()),
        url: pick_one(file, "permalink"),
        updated_at_ms,
        tags: Vec::new(),
    };
    assert(strings_view(record.tags@) =~= Seq::empty());
    Some(record)
}

/// One record per file attached to `message`.
///
/// Empty for a message that carries no files, and for one with no timestamp:
/// without one there is no stable id to hang a file off.
pub fn file_records_from(message: &Json, channel: &Channel, users: &Table, reply: bool) -> (records:
    Vec<ConnectorRecord>)
    requires
        file_records_fit(*message),
    ensures
        records_view(records@) == file_records(*message, channel@, users@, reply),
{
    let mut records: Vec<ConnectorRecord> = Vec::new();
    assert(records_view(records@) =~= Seq::empty());
    let ts = match pick_one(message, "ts") {
        Some(ts) => ts,
        None => {
            return records;
        },
    };
    match message.get("files") {
        Some(Json::Array(list)) => {
            let author = author_of(message, users);
            let kind = kind_of(reply);
            let mut i: usize = 0;
            assert(list@.take(0) =~= Seq::empty());
            while i < list.len()
                invariant
                    i <= list@.len(),
                    files(*message) == list@,
                    stamp(*message) == Some(ts@),
                    file_records_fit(*message),
                    records_view(records@) =~= records_of_files(
                        list@.take(i as int),
                        channel@,
                        ts@,
                        author@,
                        kind@,
                    ),
                decreases list@.len() - i,
            {
                let ghost before = records@;
                assert(list@.take(i + 1).drop_last() =~= list@.take(i as int));
                assert(file_record_fits(files(*message)[i as int], ts@));
                match record_for(&list[i], channel, ts.as_str(), author.as_str(), kind) {
                    Some(record) => {
                        records.push(record);
                        assert(records_view(records@) =~= records_view(before).push(record@));
                    },
                    None => {},
                }
                i = i + 1;
            }
            assert(list@.take(list@.len() as int) =~= list@);
        },
        _ => {},
    }
    records
}

/// Whether the records of the files of a message can be dated.
pub fn files_in_range(message: &Json) -> (fits: bool)
    ensures
        fits == file_records_fit(*message),
{
    let ts = match pick_one(message, "ts") {
        Some(ts) => ts,
        None => {
            return true;
        },
    };
    match message.get("files") {
        Some(Json::Array(list)) => {
            let mut i: usize = 0;
            while i < list.len()
                invariant
                    i <= list@.len(),
                    files(*message) == list@,
                    stamp(*message) == Some(ts@),
                    forall|j: int|
                        0 <= j < i ==> file_record_fits(#[trigger] files(*message)[j], ts@),
                decreases list@.len() - i,
            {
                if !file_in_range(&list[i], ts.as_str()) {
                    assert(!file_record_fits(files(*message)[i as int], ts@));
                    return false;
                }
                i = i + 1;
            }
            true
        },
        _ => true,
    }
}

/// Whether the record of a file, if it has one, can be dated.
fn file_in_range(file: &Json, ts: &str) -> (fits: bool)
    ensures
        fits == file_record_fits(*file, ts@),
{
    if pick_one(file, "id").is_none() || pick_two(file, "name", "title").is_none() {
        return true;
    }
    match pick_one(file, "created") {
        Some(seconds) => {
            if !millis_in_range(seconds.as_str()) {
                return false;
            }
            match to_millis(seconds.as_str()) {
                Some(_) => true,
                None => millis_in_range(ts),
            }
        },
        None => millis_in_range(ts),
    }
}

} // verus!
