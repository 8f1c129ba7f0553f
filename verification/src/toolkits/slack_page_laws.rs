//! What a page says: how payloads are read, and what records are made of them.
//!
//! Each law says what an answer must be in terms of what the payload holds.

use vstd::prelude::*;
use vstd::string::*;

use super::slack::ChannelView;
use super::slack_files::{
    description, file_record, file_record_fits, file_records, file_records_fit, files,
    records_of_files,
};
use super::slack_parse::{
    author, fatal, kept_record, left_out, marker, message_id, message_link, message_records,
    messages, millis, millis_fit, owed, page_fits, page_records, rendered, resolved, stamp,
    text_record, text_record_fits, text_versions,
};
use crate::decimal::{all_digits, is_digit, law_only_digits_are_a_number, signed_i64, value};
use crate::error::Error;
use crate::json::{Json, Number};
use crate::pipeline::{law_items_come_from_the_first_list, pick, pointed};
use crate::text::{
    blank, contains, cut, law_blanks_are_trimmed, law_contains, law_cut, law_join, law_without,
    snug, to_ascii_lowercase, trim, without,
};

verus! {

// ---------------------------------------------------------------- payloads

/// Whether a payload has a list behind a pointer.
pub open spec fn lists(payload: Json, pointer: Seq<char>) -> bool {
    pointed(payload, pointer) matches Some(end) && end is Array
}

/// Whether a payload has a text behind a pointer.
pub open spec fn says(payload: Json, pointer: Seq<char>) -> bool {
    pointed(payload, pointer) matches Some(end) && end is Str
}

/// The messages of a payload are the list under `messages`, in the envelope
/// `data`, else in none, else in two; all of them, in their order.
pub proof fn law_messages_stand_in_an_envelope(payload: Json)
    ensures
        pointed(payload, "/data/messages"@) matches Some(Json::Array(items)) ==> messages(payload)
            == items@,
        !lists(payload, "/data/messages"@) ==> {
            &&& pointed(payload, "/messages"@) matches Some(Json::Array(items)) ==> messages(
                payload,
            ) == items@
            &&& !lists(payload, "/messages"@) ==> {
                &&& pointed(payload, "/data/data/messages"@) matches Some(Json::Array(items))
                    ==> messages(payload) == items@
                &&& !lists(payload, "/data/data/messages"@) ==> messages(payload).len() == 0
            }
        },
{
    let pointers = seq!["/data/messages"@, "/messages"@, "/data/data/messages"@];
    let none = Seq::<Seq<char>>::empty();
    law_items_come_from_the_first_list(payload, none, pointers[0], pointers.skip(1));
    assert(none.push(pointers[0]) + pointers.skip(1) =~= pointers);
    if !lists(payload, "/data/messages"@) {
        law_items_come_from_the_first_list(payload, pointers.take(1), pointers[1], pointers.skip(2));
        assert(pointers.take(1).push(pointers[1]) + pointers.skip(2) =~= pointers);
        if !lists(payload, "/messages"@) {
            law_items_come_from_the_first_list(
                payload,
                pointers.take(2),
                pointers[2],
                pointers.skip(3),
            );
            assert(pointers.take(2).push(pointers[2]) + pointers.skip(3) =~= pointers);
            if !lists(payload, "/data/data/messages"@) {
                law_items_come_from_the_first_list(payload, pointers, pointers[0], none);
            }
        }
    }
}

/// The next marker is the first text that stands where a marker can, without the
/// blanks around it; one that is all blank is none.
pub proof fn law_markers_stand_in_an_envelope(
    payload: Json,
    before: Seq<char>,
    text: Seq<char>,
    after: Seq<char>,
)
    requires
        blank(before),
        blank(after),
        snug(text),
    ensures
        ({
            let places = seq![
                "/data/response_metadata/next_cursor"@,
                "/response_metadata/next_cursor"@,
                "/data/data/response_metadata/next_cursor"@,
                "/data/next_cursor"@,
                "/next_cursor"@,
            ];
            &&& forall|k: int|
                #![trigger places[k]]
                0 <= k < 5 && (forall|i: int| 0 <= i < k ==> !says(payload, #[trigger] places[i]))
                    ==> (pointed(payload, places[k]) matches Some(Json::Str(held)) ==> (held@
                    == before + text + after ==> marker(payload) == (if text.len() > 0 {
                    Some(text)
                } else {
                    None::<Seq<char>>
                })))
            &&& (forall|i: int| 0 <= i < 5 ==> !says(payload, #[trigger] places[i])) ==> marker(
                payload,
            ) is None
        }),
{
    let places = seq![
        "/data/response_metadata/next_cursor"@,
        "/response_metadata/next_cursor"@,
        "/data/data/response_metadata/next_cursor"@,
        "/data/next_cursor"@,
        "/next_cursor"@,
    ];
    law_blanks_are_trimmed(before, text, after);
    reveal_with_fuel(super::slack_parse::first_string, 7);
    assert(places.drop_first()[0] == places[1]);
    assert(places.drop_first().drop_first()[0] == places[2]);
    assert(places.drop_first().drop_first().drop_first()[0] == places[3]);
    assert(places.drop_first().drop_first().drop_first().drop_first()[0] == places[4]);
    assert(places.drop_first().drop_first().drop_first().drop_first().drop_first().len() == 0);
    assert forall|k: int|
        #![trigger places[k]]
        0 <= k < 5 && (forall|i: int| 0 <= i < k ==> !says(payload, #[trigger] places[i])) && (
        pointed(payload, places[k]) matches Some(Json::Str(held)) && held@ == before + text
            + after) implies marker(payload) == (if text.len() > 0 {
        Some(text)
    } else {
        None::<Seq<char>>
    }) by {
        if k > 0 {
            assert(!says(payload, places[0]));
        }
        if k > 1 {
            assert(!says(payload, places[1]));
        }
        if k > 2 {
            assert(!says(payload, places[2]));
        }
        if k > 3 {
            assert(!says(payload, places[3]));
        }
    }
    if forall|i: int| 0 <= i < 5 ==> !says(payload, #[trigger] places[i]) {
        assert(!says(payload, places[0]) && !says(payload, places[1]) && !says(payload, places[2])
            && !says(payload, places[3]) && !says(payload, places[4]));
    }
}

/// A message owes a thread exactly when its `reply_count` is a whole number above
/// zero and it has a timestamp, whatever its other members are.
pub proof fn law_replies_are_owed(message: Json)
    ensures
        owed(message) is Some <==> (message.member("reply_count"@) matches Some(Json::Number(
            Number::PosInt(n),
        )) && n > 0) && pick(message, seq!["ts"@]) is Some,
        owed(message) matches Some(ts) ==> pick(message, seq!["ts"@]) == Some(ts),
{
}

/// Two messages with the same `reply_count` and the same timestamp owe the same.
pub proof fn law_only_replies_and_timestamp_decide_what_is_owed(a: Json, b: Json)
    requires
        a.member("reply_count"@) == b.member("reply_count"@),
        pick(a, seq!["ts"@]) == pick(b, seq!["ts"@]),
    ensures
        owed(a) == owed(b),
{
}

// ---------------------------------------------------------------- failures

/// Whether a text names a failure of the whole connection, in lower case.
pub open spec fn names_a_dead_connection(text: Seq<char>) -> bool {
    ||| contains(text, "invalid_auth"@)
    ||| contains(text, "not_authed"@)
    ||| contains(text, "token_revoked"@)
    ||| contains(text, "token_expired"@)
    ||| contains(text, "account_inactive"@)
    ||| contains(text, "missing_scope"@)
}

/// A failure is one of the whole connection exactly when what it says, whatever
/// its capitals, names one of six codes; what an action or a store said is part
/// of it.
pub proof fn law_dead_connections_are_fatal(error: Error)
    ensures
        fatal(error) <==> names_a_dead_connection(to_ascii_lowercase(error.text())),
        error matches Error::Action { action, message } ==> contains(error.text(), message@)
            && contains(error.text(), action@),
        error matches Error::Decode { key, message } ==> contains(error.text(), message@)
            && contains(error.text(), key@),
{
    let codes = super::slack_parse::fatal_codes();
    let text = to_ascii_lowercase(error.text());
    assert(codes[0] == "invalid_auth"@ && codes[1] == "not_authed"@ && codes[2]
        == "token_revoked"@ && codes[3] == "token_expired"@ && codes[4] == "account_inactive"@
        && codes[5] == "missing_scope"@);
    let none = Seq::<char>::empty();
    match error {
        Error::Action { action, message } => {
            law_contains(none, message@, action@ + ": "@, none);
            assert(action@ + ": "@ + message@ + none =~= error.text());
            law_contains(none, action@, none, ": "@ + message@);
            assert(none + action@ + (": "@ + message@) =~= error.text());
        },
        Error::Decode { key, message } => {
            law_contains(none, message@, key@ + ": "@, none);
            assert(key@ + ": "@ + message@ + none =~= error.text());
            law_contains(none, key@, none, ": "@ + message@);
            assert(none + key@ + (": "@ + message@) =~= error.text());
        },
    }
}

// ---------------------------------------------------------------- people, links, time

/// The author is the name that the directory has for the user, else the user's
/// id; a message of no user is by the name of its bot, else by the bot's id, else
/// by nobody known.
pub proof fn law_authors(message: Json, users: Map<Seq<char>, Seq<char>>)
    ensures
        pick(message, seq!["user"@]) matches Some(id) ==> author(message, users) == (
        if users.dom().contains(id) {
            users[id]
        } else {
            id
        }),
        pick(message, seq!["user"@]) is None ==> {
            &&& pick(message, seq!["username"@]) matches Some(name) ==> author(message, users)
                == name
            &&& pick(message, seq!["username"@]) is None ==> {
                &&& pick(message, seq!["bot_id"@]) matches Some(id) ==> author(message, users)
                    == id
                &&& pick(message, seq!["bot_id"@]) is None ==> author(message, users)
                    == "unknown"@
            }
        },
{
    reveal_with_fuel(pick, 3);
    assert(seq!["username"@, "bot_id"@].drop_first() =~= seq!["bot_id"@]);
    assert(seq!["username"@].drop_first() =~= Seq::empty());
}

/// A link to a message is made of its channel and its timestamp, without the dot.
pub proof fn law_links(channel: Seq<char>, seconds: Seq<char>, fraction: Seq<char>)
    requires
        !seconds.contains('.'),
        !fraction.contains('.'),
    ensures
        message_link(channel, seconds + seq!['.'] + fraction) == "https://slack.com/archives/"@
            + channel + "/p"@ + seconds + fraction,
        message_link(channel, seconds) == "https://slack.com/archives/"@ + channel + "/p"@
            + seconds,
{
    lemma_without_nothing(seconds, '.');
    lemma_without_nothing(fraction, '.');
    law_without(seconds + seq!['.'], fraction, '.', ' ');
    law_without(seconds, seq!['.'], '.', ' ');
    assert(without(seconds + seq!['.'] + fraction, '.') =~= seconds + fraction);
    assert("https://slack.com/archives/"@ + channel + "/p"@ + (seconds + fraction)
        =~= "https://slack.com/archives/"@ + channel + "/p"@ + seconds + fraction);
}

/// Where a character does not occur there is nothing to take out.
proof fn lemma_without_nothing(s: Seq<char>, c: char)
    requires
        !s.contains(c),
    ensures
        without(s, c) == s,
    decreases s.len(),
{
    if s.len() > 0 {
        let front = s.drop_last();
        assert forall|i: int| 0 <= i < front.len() implies front[i] != c by {
            assert(front[i] == s[i]);
            assert(s.contains(s[i]));
        }
        lemma_without_nothing(front, c);
        law_without(front, seq![s.last()], c, s.last());
        assert(front + seq![s.last()] =~= s);
        assert(s.contains(s[s.len() - 1]));
    } else {
        reveal_with_fuel(Seq::filter, 1);
        assert(without(s, c) =~= s);
    }
}

/// A timestamp counts a thousand for each second, and its fraction as digits
/// behind the point: the first three are the milliseconds, and a shorter one is
/// filled up with zeros. One that is no number counts nothing.
pub proof fn law_timestamps_count_milliseconds(seconds: Seq<char>, fraction: Seq<char>)
    requires
        !seconds.contains('.'),
    ensures
        signed_i64(seconds) is None ==> millis(seconds + seq!['.'] + fraction) is None && millis(
            seconds,
        ) is None,
        signed_i64(seconds) matches Some(s) ==> {
            &&& millis(seconds) == Some(s * 1000)
            &&& fraction.len() == 0 ==> millis(seconds + seq!['.'] + fraction) == Some(s * 1000)
            &&& all_digits(fraction) && fraction.len() == 1 ==> millis(
                seconds + seq!['.'] + fraction,
            ) == Some(s * 1000 + 100 * value(fraction))
            &&& all_digits(fraction) && fraction.len() == 2 ==> millis(
                seconds + seq!['.'] + fraction,
            ) == Some(s * 1000 + 10 * value(fraction))
            &&& fraction.len() >= 3 && all_digits(fraction.take(3)) ==> millis(
                seconds + seq!['.'] + fraction,
            ) == Some(s * 1000 + value(fraction.take(3)))
            &&& fraction.len() > 0 && !is_digit(fraction[0]) && fraction[0] != '+' && fraction[0]
                != '-' ==> millis(seconds + seq!['.'] + fraction) == Some(s * 1000)
            &&& fraction.len() > 1 && !is_digit(fraction[1]) ==> millis(
                seconds + seq!['.'] + fraction,
            ) == Some(s * 1000)
            &&& fraction.len() > 2 && !is_digit(fraction[2]) ==> millis(
                seconds + seq!['.'] + fraction,
            ) == Some(s * 1000)
        },
{
    law_cut(seconds, fraction, '.');
    reveal_strlit("0");
    lemma_three("0"@);
    lemma_three(fraction);
    law_only_digits_are_a_number(super::slack_parse::three_digits(fraction), 1);
    law_only_digits_are_a_number(super::slack_parse::three_digits(fraction), 2);
    assert("0"@.len() == 1 && is_digit("0"@[0]));
    assert(value("0"@) == 0) by {
        reveal_with_fuel(value, 2);
        assert("0"@.drop_last() =~= Seq::empty());
    }
}

/// What the first three digits behind the point are worth.
proof fn lemma_three(fraction: Seq<char>)
    ensures
        ({
            let ms = super::slack_parse::fraction_millis(fraction);
            &&& fraction.len() == 0 ==> ms == 0
            &&& all_digits(fraction) && fraction.len() == 1 ==> ms == 100 * value(fraction)
            &&& all_digits(fraction) && fraction.len() == 2 ==> ms == 10 * value(fraction)
            &&& fraction.len() >= 3 && all_digits(fraction.take(3)) ==> ms == value(
                fraction.take(3),
            )
        }),
{
    let three = super::slack_parse::three_digits(fraction);
    reveal_with_fuel(value, 4);
    if fraction.len() >= 3 {
        assert(three =~= fraction.take(3));
        if all_digits(three) {
            law_only_digits_are_a_number(three, 0);
            lemma_value_of_three(three);
        }
    } else if fraction.len() == 0 || all_digits(fraction) {
        assert forall|i: int| 0 <= i < 3 implies is_digit(#[trigger] three[i]) by {
            if i < fraction.len() {
                assert(is_digit(fraction[i]));
            }
        }
        law_only_digits_are_a_number(three, 0);
        lemma_value_of_three(three);
        if fraction.len() == 1 {
            assert(fraction.drop_last() =~= Seq::empty());
        }
        if fraction.len() == 2 {
            assert(fraction.drop_last().drop_last() =~= Seq::empty());
        }
    }
}

/// What three digits are worth.
proof fn lemma_value_of_three(three: Seq<char>)
    requires
        three.len() == 3,
        all_digits(three),
    ensures
        value(three) == 100 * (three[0] as int - 48) + 10 * (three[1] as int - 48) + (three[2] as int
            - 48),
        value(three) < 1000,
{
    reveal_with_fuel(value, 4);
    assert(is_digit(three[0]) && is_digit(three[1]) && is_digit(three[2]));
    assert(three.drop_last().drop_last().drop_last().len() == 0);
    assert(three.drop_last().last() == three[1]);
    assert(three.drop_last().drop_last().last() == three[0]);
}

/// A timestamp can be dated where its seconds, and the milliseconds it makes of
/// them, fit in 64 bits; and one that has no date needs none.
pub proof fn law_dates_that_fit(ts: Seq<char>)
    ensures
        millis(ts) is None ==> millis_fit(ts),
        signed_i64(cut(ts, '.').0) matches Some(s) ==> (-9_223_372_036_854_774 <= s
            <= 9_223_372_036_854_774 ==> millis_fit(ts)),
        millis_fit(ts) ==> (millis(ts) matches Some(ms) ==> i64::MIN <= ms <= i64::MAX),
{
    let halves = super::slack_parse::stamp_halves(ts);
    lemma_fraction_is_small(halves.1);
}

/// Three characters make at most three digits.
proof fn lemma_fraction_is_small(fraction: Seq<char>)
    ensures
        -1000 < super::slack_parse::fraction_millis(fraction) < 1000,
{
    let three = super::slack_parse::three_digits(fraction);
    reveal_with_fuel(value, 4);
    if all_digits(three) {
        lemma_value_of_three(three);
    }
    let two = three.drop_first();
    if all_digits(two) {
        assert(is_digit(two[0]) && is_digit(two[1]));
        assert(two.drop_last().drop_last().len() == 0);
        assert(two.drop_last().last() == two[0]);
        assert(value(two) < 100);
    }
}

// ---------------------------------------------------------------- rendering

/// Text around a reference is kept, before it and behind it, and what stands
/// behind it is rendered in turn.
pub proof fn law_text_around_a_reference_is_kept(
    before: Seq<char>,
    token: Seq<char>,
    rest: Seq<char>,
    users: Map<Seq<char>, Seq<char>>,
)
    requires
        !before.contains('<'),
        !token.contains('>'),
    ensures
        rendered(before + seq!['<'] + token + seq!['>'] + rest, users) == before + resolved(
            token,
            users,
        ) + rendered(rest, users),
{
    let after = token + seq!['>'] + rest;
    law_cut(before, after, '<');
    law_cut(token, rest, '>');
    assert(before + seq!['<'] + token + seq!['>'] + rest =~= before + seq!['<'] + after);
}

/// A text without an opening bracket reads as it is, and so does one whose first
/// opening bracket is never closed.
pub proof fn law_text_without_a_reference_is_kept(
    before: Seq<char>,
    after: Seq<char>,
    users: Map<Seq<char>, Seq<char>>,
)
    requires
        !before.contains('<'),
        !after.contains('>'),
    ensures
        rendered(before, users) == before,
        rendered(before + seq!['<'] + after, users) == before + seq!['<'] + after,
{
    law_cut(before, after, '<');
    law_cut(after, Seq::empty(), '>');
}

/// A reference to a channel reads as its label, else as its id; a link as its
/// label, else as its target.
pub proof fn law_channels_and_links_read_as_their_labels(
    target: Seq<char>,
    label: Seq<char>,
    users: Map<Seq<char>, Seq<char>>,
)
    requires
        !target.contains('|'),
    ensures
        label.len() > 0 ==> resolved(seq!['#'] + target + seq!['|'] + label, users) == seq!['#']
            + label,
        resolved(seq!['#'] + target + seq!['|'], users) == seq!['#'] + target,
        resolved(seq!['#'] + target, users) == seq!['#'] + target,
        target.len() == 0 || (target[0] != '@' && target[0] != '#') ==> {
            &&& label.len() > 0 ==> resolved(target + seq!['|'] + label, users) == label
            &&& resolved(target + seq!['|'], users) == target
            &&& resolved(target, users) == target
        },
{
    let channel = seq!['#'] + target;
    assert forall|i: int| 0 <= i < channel.len() implies channel[i] != '|' by {
        if i > 0 {
            assert(channel[i] == target[i - 1]);
            assert(target.contains(target[i - 1]));
        }
    }
    law_cut(channel, label, '|');
    law_cut(channel, Seq::empty(), '|');
    law_cut(target, label, '|');
    law_cut(target, Seq::empty(), '|');
    assert(channel + seq!['|'] + Seq::empty() =~= channel + seq!['|']);
    assert(target + seq!['|'] + Seq::empty() =~= target + seq!['|']);
    assert(channel.skip(1) =~= target);
}

// ---------------------------------------------------------------- records of texts

/// A message makes a record of its text exactly when it has a timestamp and a
/// text that does not read as nothing.
pub proof fn law_what_makes_a_record(
    message: Json,
    channel: ChannelView,
    users: Map<Seq<char>, Seq<char>>,
    reply: bool,
)
    ensures
        text_record(message, channel, users, reply) is Some <==> {
            &&& pick(message, seq!["ts"@]) is Some
            &&& pick(message, seq!["text"@]) matches Some(text) && !blank(rendered(text, users))
        },
{
    if let Some(text) = pick(message, seq!["text"@]) {
        let body = rendered(text, users);
        let none = Seq::<char>::empty();
        let (a, b) = crate::text::law_trimming_takes_off_blanks(body);
        if blank(body) {
            law_blanks_are_trimmed(body, none, none);
            assert(body + none + none =~= body);
        } else if trim(body).len() == 0 {
            let i = choose|i: int| 0 <= i < body.len() && !crate::text::is_white_space(body[i]);
            assert(body =~= a + b);
            if i < a.len() {
                assert(body[i] == a[i]);
            } else {
                assert(body[i] == b[i - a.len()]);
            }
        }
    }
}

/// What the record of a message says: its id is that of the message in the
/// channel, its title names the channel and the author, its body is the text as
/// it reads, its link is the one it came with, else one made of its id, and its
/// date is its timestamp.
pub proof fn law_what_a_record_says(
    message: Json,
    channel: ChannelView,
    users: Map<Seq<char>, Seq<char>>,
    reply: bool,
)
    ensures
        text_record(message, channel, users, reply) matches Some(record) ==> ({
            let ts = pick(message, seq!["ts"@])->0;
            let body = trim(rendered(pick(message, seq!["text"@])->0, users));
            let title = "#"@ + channel.name + " — "@ + author(message, users);
            &&& record.item_id == channel.id + ":"@ + ts
            &&& record.title == (if reply {
                title + " (reply)"@
            } else {
                title
            })
            &&& record.content == (if body.len() <= 20_000 {
                body
            } else {
                body.take(20_000)
            })
            &&& record.mime == Some("text/plain"@)
            &&& pick(message, seq!["permalink"@]) matches Some(link) ==> record.url == Some(link)
            &&& pick(message, seq!["permalink"@]) is None ==> record.url == Some(
                message_link(channel.id, ts),
            )
            &&& record.updated_at_ms == millis(ts)
            &&& record.tags.len() == 0
        }),
{
    reveal_strlit("");
    let title = "#"@ + channel.name + " — "@ + author(message, users);
    assert(title + ""@ =~= title);
}

/// A message is left out exactly when its timestamp is the one that is asked to
/// be left out; every other one makes the record that it makes, marked as a reply
/// where one is asked to be left out.
pub proof fn law_what_is_left_out(
    message: Json,
    channel: ChannelView,
    users: Map<Seq<char>, Seq<char>>,
    ts: Seq<char>,
)
    ensures
        stamp(message) == pick(message, seq!["ts"@]),
        !left_out(message, None),
        left_out(message, Some(ts)) <==> pick(message, seq!["ts"@]) == Some(ts),
        kept_record(message, channel, users, None) == text_record(message, channel, users, false),
        pick(message, seq!["ts"@]) != Some(ts) ==> kept_record(message, channel, users, Some(ts))
            == text_record(message, channel, users, true),
        pick(message, seq!["ts"@]) == Some(ts) ==> kept_record(message, channel, users, Some(ts))
            is None,
{
}

// ---------------------------------------------------------------- versions

/// The version that a message reports is the time of its last edit, under the id
/// of its record. A message that makes no record, or was not edited, reports
/// none.
pub proof fn law_a_version_is_the_time_of_the_edit(
    message: Json,
    channel: ChannelView,
    users: Map<Seq<char>, Seq<char>>,
    skip: Option<Seq<char>>,
)
    ensures
        kept_record(message, channel, users, skip) is Some && pick(
            message,
            seq!["edited.ts"@],
        ) is Some ==> text_versions(seq![message], channel, users, skip) == seq![
            (
                message_id(channel.id, pick(message, seq!["ts"@])->0),
                pick(message, seq!["edited.ts"@])->0,
            ),
        ],
        kept_record(message, channel, users, skip) is None || pick(
            message,
            seq!["edited.ts"@],
        ) is None ==> text_versions(seq![message], channel, users, skip).len() == 0,
{
    reveal_with_fuel(text_versions, 2);
    assert(seq![message].drop_last() =~= Seq::empty());
    assert(text_versions(Seq::empty(), channel, users, skip) =~= Seq::empty());
}

/// Every version that a page reports is that of one of its messages: its id is
/// the message's, and its value the time of the message's last edit.
pub proof fn law_versions_are_of_edited_messages(
    list: Seq<Json>,
    channel: ChannelView,
    users: Map<Seq<char>, Seq<char>>,
    skip: Option<Seq<char>>,
    i: int,
) -> (j: int)
    requires
        0 <= i < text_versions(list, channel, users, skip).len(),
    ensures
        0 <= j < list.len(),
        kept_record(list[j], channel, users, skip) is Some,
        pick(list[j], seq!["ts"@]) is Some,
        text_versions(list, channel, users, skip)[i].0 == message_id(
            channel.id,
            pick(list[j], seq!["ts"@])->0,
        ),
        Some(text_versions(list, channel, users, skip)[i].1) == pick(list[j], seq!["edited.ts"@]),
    decreases list.len(),
{
    let front = text_versions(list.drop_last(), channel, users, skip);
    if i < front.len() {
        law_versions_are_of_edited_messages(list.drop_last(), channel, users, skip, i)
    } else {
        list.len() - 1
    }
}

/// Every message of a page that makes a record and was edited is among the
/// versions, with the time of its last edit.
pub proof fn law_every_edit_is_reported(
    list: Seq<Json>,
    channel: ChannelView,
    users: Map<Seq<char>, Seq<char>>,
    skip: Option<Seq<char>>,
    j: int,
)
    requires
        0 <= j < list.len(),
        kept_record(list[j], channel, users, skip) is Some,
        pick(list[j], seq!["edited.ts"@]) is Some,
    ensures
        text_versions(list, channel, users, skip).contains(
            (
                message_id(channel.id, pick(list[j], seq!["ts"@])->0),
                pick(list[j], seq!["edited.ts"@])->0,
            ),
        ),
    decreases list.len(),
{
    let version = (
        message_id(channel.id, pick(list[j], seq!["ts"@])->0),
        pick(list[j], seq!["edited.ts"@])->0,
    );
    let front = text_versions(list.drop_last(), channel, users, skip);
    let all = text_versions(list, channel, users, skip);
    if j < list.len() - 1 {
        law_every_edit_is_reported(list.drop_last(), channel, users, skip, j);
        let i = choose|i: int| 0 <= i < front.len() && front[i] == version;
        assert(all[i] == version);
    } else {
        assert(all[front.len() as int] == version);
    }
}

/// A page of one message carries what that message makes.
pub proof fn law_page_of_one_message(
    message: Json,
    channel: ChannelView,
    users: Map<Seq<char>, Seq<char>>,
    skip: Option<Seq<char>>,
)
    ensures
        page_records(seq![message], channel, users, skip) == message_records(
            message,
            channel,
            users,
            skip,
        ),
{
    reveal_with_fuel(page_records, 2);
    assert(seq![message].drop_last() =~= Seq::empty());
    assert(page_records(seq![message], channel, users, skip) =~= message_records(
        message,
        channel,
        users,
        skip,
    ));
}

// ---------------------------------------------------------------- records of files

/// The files of a message are read one by one and in their order, under its
/// timestamp and by its author. A message without a timestamp, or without a list
/// of files, has none.
pub proof fn law_files_are_read_one_by_one(
    message: Json,
    channel: ChannelView,
    users: Map<Seq<char>, Seq<char>>,
    reply: bool,
    a: Seq<Json>,
    b: Seq<Json>,
    file: Json,
    ts: Seq<char>,
    by: Seq<char>,
    kind: Seq<char>,
)
    ensures
        pick(message, seq!["ts"@]) is None ==> file_records(message, channel, users, reply).len()
            == 0,
        !(message.member("files"@) matches Some(list) && list is Array) ==> file_records(
            message,
            channel,
            users,
            reply,
        ).len() == 0,
        pick(message, seq!["ts"@]) matches Some(at) ==> (message.member("files"@) matches Some(
            Json::Array(list),
        ) ==> file_records(message, channel, users, reply) == records_of_files(
            list@,
            channel,
            at,
            author(message, users),
            if reply {
                " (reply)"@
            } else {
                ""@
            },
        )),
        records_of_files(a + b, channel, ts, by, kind) == records_of_files(a, channel, ts, by, kind)
            + records_of_files(b, channel, ts, by, kind),
        file_record(file, channel, ts, by, kind) matches Some(record) ==> records_of_files(
            seq![file],
            channel,
            ts,
            by,
            kind,
        ) == seq![record],
        file_record(file, channel, ts, by, kind) is None ==> records_of_files(
            seq![file],
            channel,
            ts,
            by,
            kind,
        ).len() == 0,
    decreases b.len(),
{
    reveal_with_fuel(records_of_files, 2);
    assert(seq![file].drop_last() =~= Seq::empty());
    if b.len() == 0 {
        assert(a + b =~= a);
        assert(records_of_files(a, channel, ts, by, kind) + records_of_files(
            b,
            channel,
            ts,
            by,
            kind,
        ) =~= records_of_files(a, channel, ts, by, kind));
    } else {
        law_files_are_read_one_by_one(
            message,
            channel,
            users,
            reply,
            a,
            b.drop_last(),
            file,
            ts,
            by,
            kind,
        );
        assert((a + b).drop_last() =~= a + b.drop_last());
        assert((a + b).last() == b.last());
        assert(records_of_files(a + b, channel, ts, by, kind) =~= records_of_files(
            a,
            channel,
            ts,
            by,
            kind,
        ) + records_of_files(b, channel, ts, by, kind));
    }
}

/// The name that a file goes by: its name, else its title.
pub open spec fn file_name(file: Json) -> Option<Seq<char>> {
    match pick(file, seq!["name"@]) {
        Some(name) => Some(name),
        None => pick(file, seq!["title"@]),
    }
}

/// A file makes a record exactly when it has an id and a name or a title. The
/// record's id is that of the file under its message, its title names the
/// channel, who shared it and the file, its link is the file's own, and its date
/// is the file's own, else that of the message.
pub proof fn law_what_a_file_record_says(
    file: Json,
    channel: ChannelView,
    ts: Seq<char>,
    by: Seq<char>,
    kind: Seq<char>,
)
    ensures
        file_record(file, channel, ts, by, kind) is Some <==> pick(file, seq!["id"@]) is Some
            && file_name(file) is Some,
        file_record(file, channel, ts, by, kind) matches Some(record) ==> ({
            let name = file_name(file)->0;
            let body = trim(description(file, name));
            &&& record.item_id == channel.id + ":"@ + ts + ":"@ + pick(file, seq!["id"@])->0
            &&& record.title == "#"@ + channel.name + " — "@ + by + " shared "@ + name + kind
            &&& record.content == (if body.len() <= 20_000 {
                body
            } else {
                body.take(20_000)
            })
            &&& record.mime == Some("text/plain"@)
            &&& record.url == pick(file, seq!["permalink"@])
            &&& pick(file, seq!["created"@]) matches Some(seconds) ==> (millis(seconds) is Some
                ==> record.updated_at_ms == millis(seconds))
            &&& pick(file, seq!["created"@]) is None ==> record.updated_at_ms == millis(ts)
            &&& pick(file, seq!["created"@]) matches Some(seconds) ==> (millis(seconds) is None
                ==> record.updated_at_ms == millis(ts))
            &&& record.tags.len() == 0
        }),
{
    reveal_with_fuel(pick, 3);
    assert(seq!["name"@, "title"@].drop_first() =~= seq!["title"@]);
    assert(seq!["name"@].drop_first() =~= Seq::empty());
}

/// A text on a line of its own, if there is one.
pub open spec fn line(text: Option<Seq<char>>) -> Seq<char> {
    match text {
        Some(text) => "\n"@ + text,
        None => Seq::empty(),
    }
}

/// The body of a file's record is its name, and on lines of their own its title,
/// unless that is the name again, its type and its opening lines, as far as there
/// are any.
pub proof fn law_what_a_file_is_described_by(file: Json, name: Seq<char>)
    ensures
        description(file, name) == name + (if pick(file, seq!["title"@]) == Some(name) {
            Seq::empty()
        } else {
            line(pick(file, seq!["title"@]))
        }) + line(pick(file, seq!["mimetype"@])) + line(pick(file, seq!["preview"@])),
{
    let title = super::slack_files::own_title(file, name);
    let mime = pick(file, seq!["mimetype"@]);
    let preview = pick(file, seq!["preview"@]);
    let first = seq![name];
    let second = first + super::slack_files::part(title);
    let third = second + super::slack_files::part(mime);
    let fourth = third + super::slack_files::part(preview);
    law_join(first, name, "\n"@);
    lemma_one_more_line(first, title);
    lemma_one_more_line(second, mime);
    lemma_one_more_line(third, preview);
    assert(description(file, name) =~= name + line(title) + line(mime) + line(preview));
}

/// One more part is one more line.
proof fn lemma_one_more_line(parts: Seq<Seq<char>>, text: Option<Seq<char>>)
    requires
        parts.len() > 0,
    ensures
        crate::text::join(parts + super::slack_files::part(text), "\n"@) == crate::text::join(
            parts,
            "\n"@,
        ) + line(text),
{
    match text {
        Some(text) => {
            law_join(parts, text, "\n"@);
            assert(parts + seq![text] =~= parts.push(text));
            assert(crate::text::join(parts, "\n"@) + "\n"@ + text =~= crate::text::join(
                parts,
                "\n"@,
            ) + ("\n"@ + text));
        },
        None => {
            assert(parts + Seq::empty() =~= parts);
            assert(crate::text::join(parts, "\n"@) + Seq::<char>::empty() =~= crate::text::join(
                parts,
                "\n"@,
            ));
        },
    }
}

// ---------------------------------------------------------------- pages that can be dated

/// Whether a timestamp counts seconds that milliseconds can count.
pub open spec fn ordinary(ts: Seq<char>) -> bool {
    signed_i64(cut(ts, '.').0) matches Some(s) ==> -9_223_372_036_854_774 <= s
        <= 9_223_372_036_854_774
}

/// A page whose timestamps and upload times count seconds that milliseconds can
/// count is one that can be read; so is one of messages without timestamps.
pub proof fn law_ordinary_pages_can_be_read(
    list: Seq<Json>,
    users: Map<Seq<char>, Seq<char>>,
    skip: Option<Seq<char>>,
)
    requires
        forall|i: int|
            0 <= i < list.len() ==> (pick(#[trigger] list[i], seq!["ts"@]) matches Some(ts)
                ==> ordinary(ts)),
        forall|i: int, k: int|
            0 <= i < list.len() && 0 <= k < files(list[i]).len() ==> (pick(
                #[trigger] files(list[i])[k],
                seq!["created"@],
            ) matches Some(seconds) ==> ordinary(seconds)),
    ensures
        page_fits(list, users, skip),
{
    assert forall|i: int| 0 <= i < list.len() && !left_out(#[trigger] list[i], skip) implies
        text_record_fits(list[i], users) && file_records_fit(list[i]) by {
        if let Some(ts) = pick(list[i], seq!["ts"@]) {
            law_dates_that_fit(ts);
            assert forall|k: int| 0 <= k < files(list[i]).len() implies file_record_fits(
                #[trigger] files(list[i])[k],
                ts,
            ) by {
                if let Some(seconds) = pick(files(list[i])[k], seq!["created"@]) {
                    law_dates_that_fit(seconds);
                }
            }
        }
    }
}

} // verus!
