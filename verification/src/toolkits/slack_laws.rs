//! What holds of the walk as a whole.
//!
//! Each law is stated over the models that the contracts of the provider's
//! functions speak of, so it holds of whatever those functions hand back.

use vstd::prelude::*;
use vstd::string::*;

use super::slack::{
    absorbed, after_history, after_replies, at_history, at_thread, committed, decoded, encoded,
    field, filled, head_of, moved, new_refresh, newest, newly_owed, oldest, onward, page_limit,
    queued, rest_of, roster_query, stale, walk_key, with_directory, with_roster, ChannelView,
    CursorView, RefreshView, WalkView, ACTION_CONVERSATIONS, ACTION_HISTORY, ACTION_THREAD,
    ACTION_USERS, MESSAGES_PER_PAGE, USERS_TTL_MS, USER_PAGES_MAX,
};
use super::slack_catalog::catalog;
use super::slack_fetch::{opened, resumed, sound, FetchView, StageView, StepView};
use super::slack_files::{file_id, file_records, files, records_of_files};
use super::slack_parse::{
    author, fatal, fraction_millis, kept_record, kept_version, left_out, marker, message_id,
    message_records, messages, millis, millis_fit, owed, page_records, rendered, reply_mark,
    resolved, stamp, text_record, text_versions, three_digits, truncated, MAX_BODY_CHARS,
};
use crate::decimal::{
    all_digits, digits, is_digit, law_only_digits_are_a_number, lemma_digits_only,
    lemma_digits_round_trip, signed_i64, unsigned, unsigned_up_to, value,
};
use crate::error::Error;
use crate::json::Json;
use crate::pipeline::pick;
use crate::provider::{ArgumentView, RequestView, SyncLimits};
use crate::records::RecordView;
use crate::scope::ToolScope;
use crate::text::{
    cut, find, law_cut, lemma_find, lemma_find_none, lemma_split_once_joined, split_once, trim,
};

verus! {

// ---------------------------------------------------------------- the cursor

/// Whether an optional field can be written between bars and read back.
pub open spec fn plain(text: Option<Seq<char>>) -> bool {
    match text {
        Some(text) => text.len() > 0 && !text.contains('|'),
        None => true,
    }
}

/// Whether a position can be written and read back. No field of Slack's has a
/// bar in it; what stands behind the last bar could.
pub open spec fn writable(position: CursorView) -> bool {
    &&& position.index <= usize::MAX
    &&& plain(position.history)
    &&& plain(position.thread)
    &&& position.reply_page matches Some(text) ==> text.len() > 0
}

/// Reading a field that was just written, and what stands behind it.
proof fn lemma_field_read_back(text: Option<Seq<char>>, rest: Seq<char>)
    requires
        plain(text),
    ensures
        filled(head_of(Some(field(text) + seq!['|'] + rest))) == text,
        rest_of(Some(field(text) + seq!['|'] + rest)) == Some(rest),
{
    lemma_split_once_joined(field(text), '|', rest);
}

/// A cursor survives a round trip: a position that was written reads back as
/// itself.
pub proof fn law_cursor_round_trip(position: CursorView)
    requires
        writable(position),
    ensures
        decoded(Some(encoded(position))) == position,
{
    let number = crate::decimal::digits(position.index);
    let reply = field(position.reply_page);
    let from_thread = field(position.thread) + seq!['|'] + reply;
    let from_history = field(position.history) + seq!['|'] + from_thread;
    let raw = encoded(position);
    assert(raw =~= number + seq!['|'] + from_history);
    lemma_digits_only(position.index, '|');
    lemma_digits_round_trip(position.index);
    lemma_split_once_joined(number, '|', from_history);
    lemma_field_read_back(position.history, from_thread);
    lemma_field_read_back(position.thread, reply);
    assert(decoded(Some(raw)) =~= position);
}

/// Two positions that can be written are the same when they read the same.
pub proof fn law_cursors_tell_positions_apart(a: CursorView, b: CursorView)
    requires
        writable(a),
        writable(b),
        a != b,
    ensures
        encoded(a) != encoded(b),
{
    law_cursor_round_trip(a);
    law_cursor_round_trip(b);
}

/// A cursor that does not parse restarts the walk rather than failing it: one
/// that starts with no index is the first position of all, whatever follows,
/// and so is no cursor at all.
pub proof fn law_unreadable_cursor_restarts(raw: Seq<char>)
    ensures
        unsigned_up_to(cut(raw, '|').0, usize::MAX as nat) is None ==> decoded(Some(raw))
            == at_history(0, None),
        decoded(None) == at_history(0, None),
{
}

/// A cursor of fewer fields reads as "not in a thread".
pub proof fn law_short_cursor_is_in_no_thread(raw: Seq<char>)
    requires
        rest_of(rest_of(Some(raw))) is None,
    ensures
        decoded(Some(raw)).thread is None,
        decoded(Some(raw)).reply_page is None,
{
}

/// A cursor is an index, a place in the history, a thread and a place in the
/// thread, with a bar between each two; an empty field names nothing.
pub proof fn law_cursor_is_read_field_by_field(
    number: Seq<char>,
    history: Seq<char>,
    thread: Seq<char>,
    reply_page: Seq<char>,
    index: nat,
)
    requires
        unsigned_up_to(number, usize::MAX as nat) == Some(index),
        !history.contains('|'),
        !thread.contains('|'),
    ensures
        ({
            let position = decoded(
                Some(number + seq!['|'] + history + seq!['|'] + thread + seq!['|'] + reply_page),
            );
            &&& position.index == index
            &&& position.history == (if history.len() > 0 {
                Some(history)
            } else {
                None
            })
            &&& position.thread == (if thread.len() > 0 {
                Some(thread)
            } else {
                None
            })
            &&& position.reply_page == (if reply_page.len() > 0 {
                Some(reply_page)
            } else {
                None
            })
        }),
        decoded(Some(number)) == at_history(index, None),
        history.len() > 0 ==> decoded(Some(number + seq!['|'] + history)) == at_history(
            index,
            Some(history),
        ),
{
    let from_thread = thread + seq!['|'] + reply_page;
    let from_history = history + seq!['|'] + from_thread;
    assert(number + seq!['|'] + history + seq!['|'] + thread + seq!['|'] + reply_page =~= number
        + seq!['|'] + from_history);
    lemma_number_has_no_bar(number);
    law_cut(number, from_history, '|');
    law_cut(history, from_thread, '|');
    law_cut(thread, reply_page, '|');
    law_cut(number, history, '|');
}

/// No number has a bar in it.
proof fn lemma_number_has_no_bar(number: Seq<char>)
    requires
        unsigned(number) is Some,
    ensures
        !number.contains('|'),
{
    assert forall|i: int| 0 <= i < number.len() implies number[i] != '|' by {
        law_only_digits_are_a_number(number, i);
    }
}

/// A position is written as its index, in digits, and its three places, with a
/// bar before each; a place that it does not have is empty. A position in a
/// history is in no thread.
pub proof fn law_cursor_is_written_field_by_field(
    index: nat,
    history: Seq<char>,
    thread: Seq<char>,
    reply_page: Seq<char>,
)
    ensures
        encoded(at_history(index, None)) == digits(index) + seq!['|', '|', '|'],
        encoded(at_history(index, Some(history))) == digits(index) + seq!['|'] + history + seq![
            '|',
            '|',
        ],
        encoded(at_thread(index, None, thread, None)) == digits(index) + seq!['|', '|'] + thread
            + seq!['|'],
        encoded(at_thread(index, Some(history), thread, Some(reply_page))) == digits(index) + seq![
            '|',
        ] + history + seq!['|'] + thread + seq!['|'] + reply_page,
        at_history(index, Some(history)).thread is None,
        at_history(index, Some(history)).reply_page is None,
        at_history(index, None).history is None,
{
}

/// Every connection's walk has a key of its own, which ends in the connection's
/// id.
pub proof fn law_walks_of_two_connections_have_two_keys(a: Seq<char>, b: Seq<char>)
    ensures
        a != b ==> walk_key(a) != walk_key(b),
        ends_in(walk_key(a), a),
{
    lemma_ends_in("slack-walk:"@, a);
    let front = "slack-walk:"@.len() as int;
    assert(walk_key(a).skip(front) =~= a);
    assert(walk_key(b).skip(front) =~= b);
}

/// The key of a walk is never the key under which the host keeps its own state
/// of a Slack connection, `"slack:<connection>"`.
pub proof fn law_walk_has_its_own_key(a: Seq<char>, b: Seq<char>)
    ensures
        walk_key(a) != "slack:"@ + b,
{
    reveal_strlit("slack-walk:");
    reveal_strlit("slack:");
    assert(walk_key(a)[5] == '-');
    assert(("slack:"@ + b)[5] == ':');
}

// ---------------------------------------------------------------- moving on

/// A page of history moves the walk to another position, whatever Slack
/// answers.
pub proof fn law_history_page_moves(
    walk: WalkView,
    position: CursorView,
    channel: Seq<char>,
    payload: Json,
)
    requires
        position.thread is None,
    ensures
        after_history(walk, position, channel, payload).1 != position,
{
}

/// Whether the queue names each thread once, and not the one that is being
/// read.
pub open spec fn well_queued(walk: WalkView, position: CursorView) -> bool {
    &&& walk.threads.no_duplicates()
    &&& position.thread matches Some(parent) ==> !walk.threads.contains(parent)
}

/// A page of replies, or a failure to read one, moves the walk to another
/// position, whatever Slack answers. Only a queue that names the thread in hand
/// leads back into it, and then it is shorter.
pub proof fn law_thread_page_moves(
    walk: WalkView,
    position: CursorView,
    channel: Seq<char>,
    payload: Json,
    more: Option<Seq<char>>,
)
    requires
        position.thread is Some,
        more is None || more == moved(payload, position.reply_page),
    ensures
        ({
            let (after, next) = after_replies(walk, position, channel, more);
            &&& next is Some
            &&& next == Some(position) ==> {
                &&& !well_queued(walk, position)
                &&& after.threads.len() < walk.threads.len()
            }
        }),
{
    if walk.threads.len() > 0 {
        assert(walk.threads.contains(walk.threads.last()));
    }
}

/// What a page owes is named once, and is not owed already.
proof fn lemma_newly_owed(list: Seq<Json>, queue: Seq<Seq<char>>)
    ensures
        newly_owed(list, queue).no_duplicates(),
        forall|i: int|
            0 <= i < newly_owed(list, queue).len() ==> !queue.contains(
                #[trigger] newly_owed(list, queue)[i],
            ),
    decreases list.len(),
{
    if list.len() > 0 {
        let front = newly_owed(list.drop_last(), queue);
        lemma_newly_owed(list.drop_last(), queue);
        let all = newly_owed(list, queue);
        assert forall|i: int, j: int| 0 <= i < j < all.len() implies all[i] != all[j] by {
            assert(all[i] == front[i]);
            if j == front.len() {
                assert(front.contains(front[i]));
            }
        }
    }
}

/// A queue without its last entry, which is then read, is as good a queue.
proof fn lemma_taken_from_queue(queue: Seq<Seq<char>>)
    requires
        queue.no_duplicates(),
        queue.len() > 0,
    ensures
        queue.drop_last().no_duplicates(),
        !queue.drop_last().contains(queue.last()),
{
    assert forall|i: int| 0 <= i < queue.drop_last().len() implies queue.drop_last()[i]
        != queue.last() by {
        assert(queue[i] != queue[queue.len() - 1]);
    }
}

/// No thread is queued twice: a walk whose queue names each thread once, and
/// not the one that is being read, stays one.
pub proof fn law_threads_are_queued_once(
    walk: WalkView,
    position: CursorView,
    channel: Seq<char>,
    payload: Json,
    more: Option<Seq<char>>,
)
    requires
        well_queued(walk, position),
    ensures
        well_queued(
            after_history(walk, position, channel, payload).0,
            after_history(walk, position, channel, payload).1,
        ),
        after_replies(walk, position, channel, more).1 matches Some(next) ==> well_queued(
            after_replies(walk, position, channel, more).0,
            next,
        ),
{
    let kept = if position.history is None {
        Seq::empty()
    } else {
        walk.threads
    };
    let found = newly_owed(messages(payload), kept);
    let queue = queued(walk, position.history is None, channel, messages(payload)).threads;
    lemma_newly_owed(messages(payload), kept);
    assert(queue == kept + found.reverse());
    assert forall|i: int, j: int| 0 <= i < j < queue.len() implies queue[i] != queue[j] by {
        if j < kept.len() {
            assert(queue[i] == kept[i] && queue[j] == kept[j]);
        } else {
            let b = found.len() - 1 - (j - kept.len());
            assert(queue[j] == found[b]);
            if i < kept.len() {
                assert(kept.contains(kept[i]));
                assert(queue[i] == kept[i]);
            } else {
                let a = found.len() - 1 - (i - kept.len());
                assert(queue[i] == found[a]);
            }
        }
    }
    if queue.len() > 0 {
        lemma_taken_from_queue(queue);
    }
    if walk.threads.len() > 0 {
        lemma_taken_from_queue(walk.threads);
    }
}

/// A roster page never leads back to where it started.
pub proof fn law_roster_moves(walk: WalkView, payload: Json, cursor: Option<Seq<char>>)
    ensures
        with_roster(walk, payload, cursor).channels_cursor is Some ==> with_roster(
            walk,
            payload,
            cursor,
        ).channels_cursor != cursor,
{
}

/// Whether every stamp of a list can be written between bars and read back.
pub open spec fn all_plain(stamps: Seq<Seq<char>>) -> bool {
    forall|i: int| 0 <= i < stamps.len() ==> plain(Some(#[trigger] stamps[i]))
}

/// Every page either moves the cursor forward or says that the walk is over,
/// whatever the actions answer: the cursor it reports is not the one it was
/// asked with. A position is relative to its roster page: the first position of
/// the next roster page may be written like the one that was asked for, and it
/// is another place, since that roster page is then in hand.
///
/// Where the queue names the thread in hand, the page may lead back into that
/// thread, with a shorter queue; a walk that has no such queue never gets one
/// ([`law_threads_are_queued_once`]). No marker of a channel's history and no
/// timestamp has a bar in it.
pub proof fn law_every_page_moves(
    fetch: FetchView,
    cursor: Option<Seq<char>>,
    reply: Result<Json, Error>,
    now_ms: int,
)
    requires
        sound(fetch),
        fetch.position == decoded(cursor),
        fetch.position.index < usize::MAX,
        all_plain(fetch.walk.threads),
        reply matches Ok(payload) ==> (fetch.stage is History ==> plain(marker(payload))
            && all_plain(newly_owed(messages(payload), Seq::empty()))),
    ensures
        resumed(fetch, reply, now_ms) matches StepView::Done(page, saved) ==> {
            ||| page.next_cursor is None
            ||| page.next_cursor != cursor
            ||| fetch.stage is Advance && (saved matches Some(after) && after.channels_cursor
                != fetch.walk.channels_cursor)
            ||| !well_queued(fetch.walk, fetch.position) && (saved matches Some(after)
                && after.threads.len() < fetch.walk.threads.len())
        },
{
    lemma_decoded_is_plain(cursor);
    match fetch.stage {
        StageView::Thread => {
            let channel = fetch.walk.channels[fetch.position.index as int].id;
            let payload = match reply {
                Ok(payload) => payload,
                Err(_) => Json::Null,
            };
            let more = match reply {
                Ok(payload) => moved(payload, fetch.position.reply_page),
                Err(_) => None,
            };
            law_thread_page_moves(fetch.walk, fetch.position, channel, payload, more);
            let next = after_replies(fetch.walk, fetch.position, channel, more).1->0;
            law_cursor_round_trip(next);
        },
        StageView::History => match reply {
            Ok(payload) => {
                let channel = fetch.walk.channels[fetch.position.index as int].id;
                law_history_page_moves(fetch.walk, fetch.position, channel, payload);
                let next = after_history(fetch.walk, fetch.position, channel, payload).1;
                let kept = if fetch.position.history is None {
                    Seq::empty()
                } else {
                    fetch.walk.threads
                };
                let found = newly_owed(messages(payload), kept);
                lemma_owed_is_plain(messages(payload), kept);
                lemma_queue_is_plain(kept + found.reverse(), kept, found);
                law_cursor_round_trip(next);
            },
            Err(_) => {
                law_cursor_round_trip(at_history(fetch.position.index + 1, None));
            },
        },
        StageView::Advance => {
            if let Ok(payload) = reply {
                law_roster_moves(fetch.walk, payload, fetch.walk.channels_cursor);
            }
        },
        _ => {},
    }
}

/// What a page owes beyond a queue is among what it owes.
proof fn lemma_owed_is_plain(list: Seq<Json>, queue: Seq<Seq<char>>)
    requires
        all_plain(newly_owed(list, Seq::empty())),
    ensures
        all_plain(newly_owed(list, queue)),
{
    let some = newly_owed(list, queue);
    let all = newly_owed(list, Seq::empty());
    assert forall|i: int| 0 <= i < some.len() implies plain(Some(#[trigger] some[i])) by {
        law_threads_are_of_messages_with_replies(list, queue, some[i]);
        law_threads_are_of_messages_with_replies(list, Seq::empty(), some[i]);
        assert(some.contains(some[i]));
        assert(all.contains(some[i]));
        let k = choose|k: int| 0 <= k < all.len() && all[k] == some[i];
        assert(plain(Some(all[k])));
    }
}

/// Whatever queue is made of plain stamps is made of plain stamps.
proof fn lemma_queue_is_plain(queue: Seq<Seq<char>>, kept: Seq<Seq<char>>, found: Seq<Seq<char>>)
    requires
        queue == kept + found.reverse(),
        all_plain(kept),
        all_plain(found),
    ensures
        all_plain(queue),
{
    assert forall|i: int| 0 <= i < queue.len() implies plain(Some(#[trigger] queue[i])) by {
        if i < kept.len() {
            assert(queue[i] == kept[i]);
        } else {
            let j = i - kept.len();
            assert(found.reverse()[j] == found[found.len() - 1 - j]);
            assert(queue[i] == found.reverse()[j]);
        }
    }
}

/// What was read out of a cursor can be written into one again.
proof fn lemma_decoded_is_plain(raw: Option<Seq<char>>)
    ensures
        plain(decoded(raw).history),
        plain(decoded(raw).thread),
        decoded(raw).reply_page matches Some(text) ==> text.len() > 0,
{
    lemma_head_has_no_bar(rest_of(raw));
    lemma_head_has_no_bar(rest_of(rest_of(raw)));
}

/// What precedes the first bar has no bar in it.
proof fn lemma_head_has_no_bar(text: Option<Seq<char>>)
    ensures
        head_of(text) matches Some(head) ==> !head.contains('|'),
{
    if let Some(text) = text {
        lemma_find(text, '|');
    }
}

/// A page that is being read stays the page that was asked for: whatever action
/// comes next, the position and the limits are those it began with.
pub proof fn law_reading_keeps_its_position(
    fetch: FetchView,
    reply: Result<Json, Error>,
    cursor: Option<Seq<char>>,
    walk: WalkView,
    limits: SyncLimits,
    now_ms: int,
)
    requires
        sound(fetch),
    ensures
        opened(cursor, walk, limits, now_ms) matches StepView::Run(first, _) ==> first.position
            == decoded(cursor) && first.limits == limits && sound(first),
        resumed(fetch, reply, now_ms) matches StepView::Run(next, _) ==> next.position
            == fetch.position && next.limits == fetch.limits && sound(next),
{
}

/// How many more actions the reading of a page can take: the roster page, then
/// the directory pages, then the page itself.
pub open spec fn actions_left(fetch: FetchView) -> nat {
    match fetch.stage {
        StageView::Roster => 2 + USER_PAGES_MAX as nat,
        StageView::Users(refresh) => 1 + refresh.pages_left,
        _ => 1,
    }
}

/// However the actions answer, a page takes few of them: each leaves fewer to
/// be run.
pub proof fn law_page_takes_few_actions(fetch: FetchView, reply: Result<Json, Error>, now_ms: int)
    requires
        sound(fetch),
    ensures
        actions_left(fetch) > 0,
        resumed(fetch, reply, now_ms) matches StepView::Run(next, _) ==> actions_left(next)
            < actions_left(fetch),
{
}

/// The walk is over only when its last roster page is walked to the end.
pub proof fn law_walk_ends_with_the_roster(
    fetch: FetchView,
    reply: Result<Json, Error>,
    now_ms: int,
)
    requires
        sound(fetch),
    ensures
        resumed(fetch, reply, now_ms) matches StepView::Done(page, saved) ==> (
        page.next_cursor is None ==> {
            &&& page.records.len() == 0
            &&& fetch.stage is Roster || fetch.stage is Users
            &&& saved matches Some(after) ==> {
                &&& fetch.position.index >= after.channels.len()
                &&& after.channels_cursor is None
            }
        }),
{
}

/// A page asked for at a position beyond the last channel, with no roster page
/// left, ends the walk and changes nothing; at any other position there is
/// something to read.
pub proof fn law_page_is_read_where_there_is_one(
    cursor: Seq<char>,
    walk: WalkView,
    limits: SyncLimits,
    now_ms: int,
)
    ensures
        opened(Some(cursor), walk, limits, now_ms) is Done <==> decoded(Some(cursor)).index
            >= walk.channels.len() && walk.channels_cursor is None,
        opened(Some(cursor), walk, limits, now_ms) matches StepView::Done(page, saved) ==> {
            &&& page.next_cursor is None
            &&& page.records.len() == 0
            &&& saved is None
        },
{
}

// ---------------------------------------------------------------- marks

/// A mark advances when its channel is exhausted, and at no other time: then
/// the queue of threads is drained, the history has no further page, and the
/// walk goes on to the next channel. The mark becomes what was pending, and no
/// other channel's mark is touched.
pub proof fn law_mark_waits_for_the_channel(
    walk: WalkView,
    index: nat,
    history: Option<Seq<char>>,
    channel: Seq<char>,
)
    ensures
        ({
            let (after, next) = onward(walk, index, history, channel);
            &&& after.high_water != walk.high_water ==> {
                &&& walk.threads.len() == 0
                &&& history is None
                &&& next == at_history(index + 1, None)
                &&& walk.pending.contains_key(channel)
                &&& after.high_water == walk.high_water.insert(channel, walk.pending[channel])
            }
            &&& next.index != index ==> {
                &&& after.threads.len() == 0
                &&& walk.pending.contains_key(channel) ==> {
                    &&& after.high_water.contains_key(channel)
                    &&& after.high_water[channel] == walk.pending[channel]
                }
            }
            &&& forall|other: Seq<char>|
                other != channel ==> {
                    &&& #[trigger] after.high_water.contains_key(other)
                        == walk.high_water.contains_key(other)
                    &&& after.high_water[other] == walk.high_water[other]
                }
        }),
{
}

/// A walk stopped half way through a channel resumes where it stopped: until
/// the channel is left behind, nothing about from when on any channel is read
/// has changed.
pub proof fn law_half_read_channel_keeps_its_floor(
    walk: WalkView,
    position: CursorView,
    channel: Seq<char>,
    payload: Json,
    any: Seq<char>,
    depth_days: Option<u32>,
    now_ms: int,
)
    ensures
        ({
            let (after, next) = after_history(walk, position, channel, payload);
            next.index == position.index ==> oldest(after, any, depth_days, now_ms) == oldest(
                walk,
                any,
                depth_days,
                now_ms,
            )
        }),
        ({
            let (after, next) = after_replies(
                walk,
                position,
                channel,
                moved(payload, position.reply_page),
            );
            next matches Some(next) && next.index == position.index ==> oldest(
                after,
                any,
                depth_days,
                now_ms,
            ) == oldest(walk, any, depth_days, now_ms)
        }),
{
}

/// The walk and its position after some pages of a channel, in the order in
/// which the walk asks for them; no page counts once the channel is left. A
/// thread that cannot be read is as good as one without replies.
pub open spec fn read_on(
    walk: WalkView,
    position: CursorView,
    channel: Seq<char>,
    replies: Seq<Json>,
) -> (WalkView, CursorView)
    decreases replies.len(),
{
    if replies.len() == 0 {
        (walk, position)
    } else {
        let (after, next) = match position.thread {
            Some(parent) => {
                let more = moved(replies[0], position.reply_page);
                let (after, next) = after_replies(walk, position, channel, more);
                (after, next->0)
            },
            None => after_history(walk, position, channel, replies[0]),
        };
        if next.index == position.index {
            read_on(after, next, channel, replies.drop_first())
        } else {
            (after, next)
        }
    }
}

/// Until a channel is left, what is pending for it is kept, by the later pages
/// of its history and by those of its threads. Once it is left, it is read from
/// there.
pub proof fn law_pending_becomes_the_mark(
    walk: WalkView,
    position: CursorView,
    channel: Seq<char>,
    payload: Json,
    more: Option<Seq<char>>,
    depth_days: Option<u32>,
    now_ms: int,
)
    requires
        walk.pending.contains_key(channel),
    ensures
        position.history is Some ==> ({
            let (after, next) = after_history(walk, position, channel, payload);
            if next.index == position.index {
                after.pending == walk.pending
            } else {
                oldest(after, channel, depth_days, now_ms) == Some(walk.pending[channel])
            }
        }),
        after_replies(walk, position, channel, more).1 matches Some(next) ==> ({
            let after = after_replies(walk, position, channel, more).0;
            if next.index == position.index {
                after.pending == walk.pending
            } else {
                oldest(after, channel, depth_days, now_ms) == Some(walk.pending[channel])
            }
        }),
{
}

/// A channel that is being read ends up half read, with its pending mark kept
/// and no mark changed, or finished, and read from that mark next time.
proof fn lemma_read_on(
    walk: WalkView,
    position: CursorView,
    channel: Seq<char>,
    replies: Seq<Json>,
    depth_days: Option<u32>,
    now_ms: int,
)
    requires
        walk.pending.contains_key(channel),
        position.history is Some || position.thread is Some,
    ensures
        ({
            let (last, end) = read_on(walk, position, channel, replies);
            if end.index == position.index {
                &&& last.high_water == walk.high_water
                &&& last.pending == walk.pending
            } else {
                &&& end == at_history(position.index + 1, None)
                &&& oldest(last, channel, depth_days, now_ms) == Some(walk.pending[channel])
            }
        }),
    decreases replies.len(),
{
    if replies.len() > 0 {
        let more = moved(replies[0], position.reply_page);
        let (after, next) = match position.thread {
            Some(parent) => {
                let (after, next) = after_replies(walk, position, channel, more);
                (after, next->0)
            },
            None => after_history(walk, position, channel, replies[0]),
        };
        law_pending_becomes_the_mark(
            walk,
            position,
            channel,
            replies[0],
            more,
            depth_days,
            now_ms,
        );
        if next.index == position.index {
            lemma_read_on(after, next, channel, replies.drop_first(), depth_days, now_ms);
        }
    }
}

/// A channel read to its end is read from its newest message next time: from
/// the first timestamp of its first page, however many pages its history and
/// its threads have. Until then every channel is read from where it was.
pub proof fn law_finished_channel_is_read_from_its_newest(
    walk: WalkView,
    index: nat,
    channel: Seq<char>,
    first: Json,
    replies: Seq<Json>,
    depth_days: Option<u32>,
    now_ms: int,
)
    requires
        newest(messages(first)) is Some,
    ensures
        ({
            let (last, end) = read_on(
                walk,
                at_history(index, None),
                channel,
                seq![first] + replies,
            );
            if end.index == index {
                last.high_water == walk.high_water
            } else {
                &&& end == at_history(index + 1, None)
                &&& oldest(last, channel, depth_days, now_ms) == newest(messages(first))
            }
        }),
{
    let (after, next) = after_history(walk, at_history(index, None), channel, first);
    assert((seq![first] + replies).drop_first() =~= replies);
    if next.index == index {
        lemma_read_on(after, next, channel, replies, depth_days, now_ms);
    }
}

/// What is pending for a channel is the newest message of its first page; the
/// later pages of the channel do not change it.
pub proof fn law_pending_is_set_on_entering(
    walk: WalkView,
    position: CursorView,
    channel: Seq<char>,
    payload: Json,
)
    requires
        position.history is Some,
    ensures
        queued(walk, position.history is None, channel, messages(payload)).pending == walk.pending,
        queued(walk, true, channel, messages(payload)).pending == (match newest(messages(payload)) {
            Some(ts) => walk.pending.insert(channel, ts),
            None => walk.pending,
        }),
{
}

// ---------------------------------------------------------------- threads

/// The threads of a channel come back in the order in which Slack listed their
/// parents: entering a channel leads into the first of them, and leaves the
/// others, in that order, to be drained.
pub proof fn law_threads_come_in_listed_order(
    walk: WalkView,
    index: nat,
    channel: Seq<char>,
    payload: Json,
)
    ensures
        ({
            let owed = newly_owed(messages(payload), Seq::empty());
            let (after, next) = after_history(walk, at_history(index, None), channel, payload);
            if owed.len() > 0 {
                &&& next == at_thread(index, marker(payload), owed[0], None)
                &&& after.threads.reverse() == owed.drop_first()
            } else {
                next.thread is None
            }
        }),
{
    let owed = newly_owed(messages(payload), Seq::empty());
    let queue = queued(walk, true, channel, messages(payload)).threads;
    assert(queue =~= owed.reverse());
    if owed.len() > 0 {
        assert(queue.drop_last().reverse() =~= owed.drop_first());
    }
}

/// No conversation is lost: the threads that a page adds to a queue are those of
/// its messages that have replies, but for those that the queue names already.
pub proof fn law_threads_are_of_messages_with_replies(
    list: Seq<Json>,
    queue: Seq<Seq<char>>,
    ts: Seq<char>,
)
    ensures
        newly_owed(list, queue).contains(ts) <==> !queue.contains(ts) && exists|j: int|
            0 <= j < list.len() && owed(#[trigger] list[j]) == Some(ts),
    decreases list.len(),
{
    if list.len() > 0 {
        let before = list.drop_last();
        law_threads_are_of_messages_with_replies(before, queue, ts);
        let all = newly_owed(list, queue);
        let front = newly_owed(before, queue);
        if front.contains(ts) {
            let i = choose|i: int| 0 <= i < front.len() && front[i] == ts;
            assert(all[i] == ts);
            let j = choose|j: int| 0 <= j < before.len() && owed(#[trigger] before[j]) == Some(ts);
            assert(owed(list[j]) == Some(ts));
        }
        if all.contains(ts) && !front.contains(ts) {
            let i = choose|i: int| 0 <= i < all.len() && all[i] == ts;
            if i < front.len() {
                assert(front[i] == ts);
            }
            assert(owed(list[list.len() - 1]) == Some(ts));
        }
        if exists|j: int| 0 <= j < list.len() && owed(#[trigger] list[j]) == Some(ts) {
            let j = choose|j: int| 0 <= j < list.len() && owed(#[trigger] list[j]) == Some(ts);
            if j < before.len() {
                assert(owed(before[j]) == Some(ts));
            } else if !queue.contains(ts) && !front.contains(ts) {
                assert(all[front.len() as int] == ts);
            }
        }
    }
}

/// A thread that has no more replies leads into the next one owed, and the
/// others stay owed, in their order.
pub proof fn law_drained_thread_leads_to_the_next(
    walk: WalkView,
    position: CursorView,
    channel: Seq<char>,
)
    requires
        walk.threads.len() > 0,
    ensures
        ({
            let (after, next) = after_replies(walk, position, channel, None);
            &&& next == Some(
                at_thread(position.index, position.history, walk.threads.reverse()[0], None),
            )
            &&& after.threads.reverse() == walk.threads.reverse().drop_first()
        }),
{
    assert(walk.threads.drop_last().reverse() =~= walk.threads.reverse().drop_first());
}

/// A later page of a channel adds the threads it finds to those still owed: no
/// thread is lost but the one that is read next.
pub proof fn law_later_page_keeps_what_is_owed(
    walk: WalkView,
    position: CursorView,
    channel: Seq<char>,
    payload: Json,
)
    requires
        position.history is Some,
    ensures
        ({
            let queue = walk.threads + newly_owed(messages(payload), walk.threads).reverse();
            let (after, next) = after_history(walk, position, channel, payload);
            match next.thread {
                Some(parent) => after.threads.push(parent) == queue,
                None => after.threads == queue && queue.len() == 0,
            }
        }),
{
    let queue = walk.threads + newly_owed(messages(payload), walk.threads).reverse();
    if queue.len() > 0 {
        assert(queue.drop_last().push(queue.last()) =~= queue);
    }
}

/// The walk is in no thread only where none is owed: whatever page was read, the
/// threads in the queue come first.
pub proof fn law_no_thread_is_passed_over(
    walk: WalkView,
    position: CursorView,
    channel: Seq<char>,
    payload: Json,
    more: Option<Seq<char>>,
)
    ensures
        after_history(walk, position, channel, payload).1.thread is None ==> {
            &&& after_history(walk, position, channel, payload).0.threads.len() == 0
            &&& queued(
                walk,
                position.history is None,
                channel,
                messages(payload),
            ).threads.len() == 0
        },
        after_replies(walk, position, channel, more).1 matches Some(next) ==> (
        next.thread is None ==> more is None && walk.threads.len() == 0 && after_replies(
            walk,
            position,
            channel,
            more,
        ).0.threads.len() == 0),
{
}

/// The threads that are read to their end by some pages of replies, in the
/// order in which the walk asks for the pages, and the walk and its position
/// then. No page counts once the walk is in no thread.
pub open spec fn detour(
    walk: WalkView,
    position: CursorView,
    channel: Seq<char>,
    replies: Seq<Json>,
) -> (Seq<Seq<char>>, WalkView, CursorView)
    decreases replies.len(),
{
    match position.thread {
        Some(parent) if replies.len() > 0 => {
            let more = moved(replies[0], position.reply_page);
            let (after, next) = after_replies(walk, position, channel, more);
            let (parents, last, end) = detour(after, next->0, channel, replies.drop_first());
            (
                if more is Some {
                    parents
                } else {
                    seq![parent] + parents
                },
                last,
                end,
            )
        },
        _ => (Seq::empty(), walk, position),
    }
}

/// The threads still to be read at a position: the one in hand, and the queue
/// from its end.
pub open spec fn ahead(walk: WalkView, position: CursorView) -> Seq<Seq<char>> {
    match position.thread {
        Some(parent) => seq![parent] + walk.threads.reverse(),
        None => Seq::empty(),
    }
}

/// A detour reads the threads ahead one after the other, and is over when all
/// are read.
#[verifier::spinoff_prover]
#[verifier::rlimit(40)]
proof fn lemma_detour(
    walk: WalkView,
    position: CursorView,
    channel: Seq<char>,
    replies: Seq<Json>,
)
    requires
        position.thread is Some,
    ensures
        ({
            let (parents, last, end) = detour(walk, position, channel, replies);
            &&& parents + ahead(last, end) == ahead(walk, position)
            &&& if end.thread is Some {
                &&& end.index == position.index
                &&& end.history == position.history
                &&& last == WalkView { threads: last.threads, ..walk }
            } else {
                (last, end) == onward(
                    WalkView { threads: Seq::empty(), ..walk },
                    position.index,
                    position.history,
                    channel,
                )
            }
        }),
    decreases replies.len(),
{
    let (parents, last, end) = detour(walk, position, channel, replies);
    if replies.len() == 0 {
        assert(parents + ahead(last, end) =~= ahead(walk, position));
        assert(last =~= (WalkView { threads: last.threads, ..walk }));
    } else {
        let parent = position.thread->0;
        let more = moved(replies[0], position.reply_page);
        let (after, next) = after_replies(walk, position, channel, more);
        let later = detour(after, next->0, channel, replies.drop_first()).0;
        if next->0.thread is Some {
            lemma_detour(after, next->0, channel, replies.drop_first());
            if more is None {
                assert(ahead(after, next->0) =~= walk.threads.reverse()) by {
                    assert(seq![walk.threads.last()] + walk.threads.drop_last().reverse()
                        =~= walk.threads.reverse());
                }
                assert(seq![parent] + later + ahead(last, end) =~= seq![parent] + (later + ahead(
                    last,
                    end,
                )));
                assert((WalkView { threads: Seq::empty(), ..after }) =~= (WalkView {
                    threads: Seq::empty(),
                    ..walk
                }));
            }
        } else {
            assert(walk.threads.reverse() =~= Seq::empty());
            assert(later =~= Seq::empty());
            assert(parents + ahead(last, end) =~= ahead(walk, position));
            assert(walk =~= (WalkView { threads: Seq::empty(), ..walk }));
        }
    }
}

/// A page of history, be it the first of its channel or a later one, is followed
/// by the threads that are owed then, however many pages each of them has: those
/// of its messages that have replies, in the order in which the messages are
/// listed, and then those that were owed before. Only behind the last of them
/// comes the next page of history, and only where there is none does the walk
/// leave the channel, and promote what was seen of it.
#[verifier::spinoff_prover]
#[verifier::rlimit(40)]
pub proof fn law_answers_come_before_the_next_page(
    walk: WalkView,
    position: CursorView,
    channel: Seq<char>,
    payload: Json,
    replies: Seq<Json>,
)
    requires
        position.thread is None,
    ensures
        ({
            let kept = if position.history is None {
                Seq::empty()
            } else {
                walk.threads
            };
            let owed = newly_owed(messages(payload), kept) + kept.reverse();
            let (after, next) = after_history(walk, position, channel, payload);
            let (parents, last, end) = detour(after, next, channel, replies);
            let seen = WalkView {
                threads: Seq::empty(),
                ..queued(walk, position.history is None, channel, messages(payload))
            };
            &&& parents + ahead(last, end) == owed
            &&& end.thread is Some ==> {
                &&& end.index == position.index
                &&& end.history == moved(payload, position.history)
                &&& last == WalkView { threads: last.threads, ..seen }
            }
            &&& end.thread is None ==> match moved(payload, position.history) {
                Some(history) => end == at_history(position.index, Some(history)) && last == seen,
                None => end == at_history(position.index + 1, None) && last == committed(
                    seen,
                    channel,
                ),
            }
        }),
{
    let kept = if position.history is None {
        Seq::empty()
    } else {
        walk.threads
    };
    let found = newly_owed(messages(payload), kept);
    let owed = found + kept.reverse();
    let all = queued(walk, position.history is None, channel, messages(payload));
    let seen = WalkView { threads: Seq::empty(), ..all };
    let (after, next) = after_history(walk, position, channel, payload);
    let (parents, last, end) = detour(after, next, channel, replies);
    assert(all.threads.reverse() =~= owed);
    if next.thread is Some {
        lemma_detour(after, next, channel, replies);
        assert(ahead(after, next) =~= owed) by {
            assert(seq![all.threads.last()] + all.threads.drop_last().reverse()
                =~= all.threads.reverse());
        }
        assert((WalkView { threads: Seq::empty(), ..after }) =~= seen);
        assert((WalkView { threads: last.threads, ..after }) =~= (WalkView {
            threads: last.threads,
            ..seen
        }));
    } else {
        assert(all =~= seen);
        assert(parents + ahead(last, end) =~= owed);
    }
}

/// A detour into the threads of a channel keeps the place in its history.
pub proof fn law_detour_keeps_the_place_in_history(
    walk: WalkView,
    position: CursorView,
    channel: Seq<char>,
    more: Option<Seq<char>>,
)
    ensures
        after_replies(walk, position, channel, more).1 matches Some(next) ==> (next.index
            == position.index ==> next.history == position.history),
{
}

// ---------------------------------------------------------------- failures

/// A failure that concerns one channel or one thread costs that channel or
/// thread: the walk goes on behind it. One that concerns the connection is
/// reported as it is. A directory that cannot be read costs nothing.
pub proof fn law_one_channel_never_fails_the_walk(fetch: FetchView, error: Error, now_ms: int)
    requires
        sound(fetch),
    ensures
        fetch.stage is Thread || fetch.stage is History ==> match resumed(
            fetch,
            Err(error),
            now_ms,
        ) {
            StepView::Done(page, saved) => !fatal(error) && page.next_cursor is Some
                && page.records.len() == 0 && saved is Some,
            StepView::Failed(reported) => fatal(error) && reported == error,
            StepView::Run(_, _) => false,
        },
        fetch.stage is Users ==> !(resumed(fetch, Err(error), now_ms) is Failed),
        fetch.stage is Roster || fetch.stage is Advance ==> resumed(fetch, Err(error), now_ms)
            == StepView::Failed(error),
{
}

/// A channel that cannot be read is left with its mark where it was.
pub proof fn law_skipped_channel_keeps_its_mark(fetch: FetchView, error: Error, now_ms: int)
    requires
        sound(fetch),
        fetch.stage is History,
        !fatal(error),
    ensures
        resumed(fetch, Err(error), now_ms) matches StepView::Done(page, Some(after))
            && after.high_water == fetch.walk.high_water && after.pending == fetch.walk.pending
            && page.next_cursor == Some(encoded(at_history(fetch.position.index + 1, None))),
{
}

// ---------------------------------------------------------------- requests

/// Whatever action the reading of a page runs, the catalog lists it as one
/// that only reads.
pub proof fn law_the_walk_only_reads(
    fetch: FetchView,
    reply: Result<Json, Error>,
    cursor: Option<Seq<char>>,
    walk: WalkView,
    limits: SyncLimits,
    now_ms: int,
)
    ensures
        resumed(fetch, reply, now_ms) matches StepView::Run(_, request) ==> catalog().contains(
            (request.action, ToolScope::Read),
        ),
        opened(cursor, walk, limits, now_ms) matches StepView::Run(_, request)
            ==> catalog().contains((request.action, ToolScope::Read)),
{
    assert(catalog()[2] == (ACTION_HISTORY@, ToolScope::Read));
    assert(catalog()[3] == (ACTION_THREAD@, ToolScope::Read));
    assert(catalog()[5] == (ACTION_USERS@, ToolScope::Read));
    assert(catalog()[6] == (ACTION_CONVERSATIONS@, ToolScope::Read));
}

/// Whether a request asks for public and private channels.
pub open spec fn asks_for_channels(request: RequestView) -> bool {
    request.arguments.contains(("types"@, ArgumentView::Text("public_channel,private_channel"@)))
}

/// Whenever a page of the roster is asked for, it is one of public and private
/// channels: direct messages are not read.
pub proof fn law_only_channels_are_listed(
    fetch: FetchView,
    reply: Result<Json, Error>,
    cursor: Option<Seq<char>>,
    walk: WalkView,
    limits: SyncLimits,
    now_ms: int,
)
    ensures
        resumed(fetch, reply, now_ms) matches StepView::Run(_, request) ==> (request.action
            == ACTION_CONVERSATIONS@ ==> asks_for_channels(request)),
        opened(cursor, walk, limits, now_ms) matches StepView::Run(_, request) ==> (request.action
            == ACTION_CONVERSATIONS@ ==> asks_for_channels(request)),
{
    reveal_strlit("SLACK_LIST_CONVERSATIONS");
    reveal_strlit("SLACK_FETCH_CONVERSATION_HISTORY");
    reveal_strlit("SLACK_FETCH_MESSAGE_THREAD_FROM_A_CONVERSATION");
    reveal_strlit("SLACK_LIST_ALL_USERS");
    assert(ACTION_HISTORY@.len() != ACTION_CONVERSATIONS@.len());
    assert(ACTION_THREAD@.len() != ACTION_CONVERSATIONS@.len());
    assert(ACTION_USERS@.len() != ACTION_CONVERSATIONS@.len());
    assert forall|from: Option<Seq<char>>| asks_for_channels(#[trigger] roster_query(from)) by {
        assert(roster_query(from).arguments[1] == (
            "types"@,
            ArgumentView::Text("public_channel,private_channel"@),
        ));
    }
}

/// A page of history is asked for with at least one message and at most
/// `MESSAGES_PER_PAGE`, and with no more than the run may take.
pub proof fn law_page_limit(max_items: nat)
    ensures
        1 <= page_limit(max_items) <= MESSAGES_PER_PAGE,
        max_items > 0 ==> page_limit(max_items) <= max_items,
{
}

// ---------------------------------------------------------------- the directory

/// How many of the replies a reading of the directory takes before it ends.
pub open spec fn replies_taken(refresh: RefreshView, replies: Seq<Result<Json, Error>>) -> nat
    decreases replies.len(),
{
    if replies.len() == 0 {
        0
    } else {
        let (next, more) = absorbed(refresh, replies[0]);
        1 + (if more {
            replies_taken(next, replies.drop_first())
        } else {
            0
        })
    }
}

/// A reading takes no more replies than it may still read pages.
proof fn lemma_replies_taken(refresh: RefreshView, replies: Seq<Result<Json, Error>>)
    requires
        refresh.pages_left > 0,
    ensures
        replies_taken(refresh, replies) <= refresh.pages_left,
    decreases replies.len(),
{
    if replies.len() > 0 && absorbed(refresh, replies[0]).1 {
        lemma_replies_taken(absorbed(refresh, replies[0]).0, replies.drop_first());
    }
}

/// However the directory answers, a walk reads at most `USER_PAGES_MAX` pages
/// of it.
pub proof fn law_directory_is_bounded(now_ms: int, replies: Seq<Result<Json, Error>>)
    ensures
        replies_taken(new_refresh(now_ms), replies) <= USER_PAGES_MAX,
{
    lemma_replies_taken(new_refresh(now_ms), replies);
}

/// A directory that will not load leaves the names as they were.
pub proof fn law_unreadable_directory_changes_nothing(walk: WalkView, now_ms: int, error: Error)
    ensures
        with_directory(walk, absorbed(new_refresh(now_ms), Err(error)).0) == walk,
        !absorbed(new_refresh(now_ms), Err(error)).1,
{
}

/// A directory that was read is not read again for a day.
pub proof fn law_directory_is_cached(walk: WalkView, refresh: RefreshView, later_ms: int)
    requires
        refresh.directory != Map::<Seq<char>, Seq<char>>::empty(),
        later_ms - refresh.now_ms <= USERS_TTL_MS,
    ensures
        !stale(with_directory(walk, refresh), later_ms),
{
}

// ---------------------------------------------------------------- records

/// The same timestamp in two channels makes two ids.
pub proof fn law_ids_tell_channels_apart(a: Seq<char>, b: Seq<char>, ts: Seq<char>)
    requires
        a != b,
    ensures
        message_id(a, ts) != message_id(b, ts),
{
    if message_id(a, ts) == message_id(b, ts) {
        assert(message_id(a, ts).len() == a.len() + ":"@.len() + ts.len());
        assert(message_id(b, ts).len() == b.len() + ":"@.len() + ts.len());
        assert(a =~= message_id(a, ts).take(a.len() as int));
        assert(b =~= message_id(b, ts).take(b.len() as int));
    }
}

/// Where no channel id has a colon, as none of Slack's does, two messages have
/// one id only if they are one message.
pub proof fn law_message_ids_are_distinct(
    channel: Seq<char>,
    ts: Seq<char>,
    other: Seq<char>,
    other_ts: Seq<char>,
)
    requires
        !channel.contains(':'),
        !other.contains(':'),
        message_id(channel, ts) == message_id(other, other_ts),
    ensures
        channel == other,
        ts == other_ts,
{
    reveal_strlit(":");
    assert(":"@ =~= seq![':']);
    lemma_split_once_joined(channel, ':', ts);
    lemma_split_once_joined(other, ':', other_ts);
}

/// Every file of a workspace has an id of its own, which is no message's.
pub proof fn law_file_ids_are_distinct(
    channel: Seq<char>,
    ts: Seq<char>,
    id: Seq<char>,
    other: Seq<char>,
    other_ts: Seq<char>,
    other_id: Seq<char>,
)
    requires
        !channel.contains(':'),
        !other.contains(':'),
        !ts.contains(':'),
        !other_ts.contains(':'),
    ensures
        file_id(channel, ts, id) == file_id(other, other_ts, other_id) ==> channel == other && ts
            == other_ts && id == other_id,
        file_id(channel, ts, id) != message_id(other, other_ts),
{
    reveal_strlit(":");
    assert(":"@ =~= seq![':']);
    let tail = ts + seq![':'] + id;
    let other_tail = other_ts + seq![':'] + other_id;
    assert(file_id(channel, ts, id) =~= channel + seq![':'] + tail);
    assert(file_id(other, other_ts, other_id) =~= other + seq![':'] + other_tail);
    lemma_split_once_joined(channel, ':', tail);
    lemma_split_once_joined(other, ':', other_tail);
    lemma_split_once_joined(other, ':', other_ts);
    lemma_split_once_joined(ts, ':', id);
    lemma_split_once_joined(other_ts, ':', other_id);
    lemma_find_none(other_ts, ':');
}

/// Two files of one message have two ids.
pub proof fn law_files_of_a_message_differ(
    channel: Seq<char>,
    ts: Seq<char>,
    id: Seq<char>,
    other_id: Seq<char>,
)
    requires
        id != other_id,
    ensures
        file_id(channel, ts, id) != file_id(channel, ts, other_id),
{
    let front = channel + ":"@ + ts + ":"@;
    assert(file_id(channel, ts, id).skip(front.len() as int) =~= id);
    assert(file_id(channel, ts, other_id).skip(front.len() as int) =~= other_id);
}

/// One file in two channels has two ids, and so never looks ingested already.
pub proof fn law_file_ids_tell_channels_apart(
    a: Seq<char>,
    b: Seq<char>,
    ts: Seq<char>,
    id: Seq<char>,
)
    requires
        a != b,
    ensures
        file_id(a, ts, id) != file_id(b, ts, id),
{
    if file_id(a, ts, id) == file_id(b, ts, id) {
        let tail = ":"@ + ts + ":"@ + id;
        assert(file_id(a, ts, id) =~= a + tail);
        assert(file_id(b, ts, id) =~= b + tail);
        assert((a + tail).len() == (b + tail).len());
        assert(a =~= (a + tail).take(a.len() as int));
        assert(b =~= (b + tail).take(b.len() as int));
    }
}

/// A message that said something makes a record of it, which comes before those
/// of its files. It says something, in at most `MAX_BODY_CHARS` characters. A
/// message that is left out makes no record and reports no version.
pub proof fn law_text_comes_before_its_files(
    message: Json,
    channel: ChannelView,
    users: Map<Seq<char>, Seq<char>>,
    skip: Option<Seq<char>>,
)
    ensures
        message_records(message, channel, users, skip) == (match kept_record(
            message,
            channel,
            users,
            skip,
        ) {
            Some(record) => seq![record],
            None => Seq::empty(),
        }) + (if left_out(message, skip) {
            Seq::empty()
        } else {
            file_records(message, channel, users, skip is Some)
        }),
        kept_record(message, channel, users, skip) matches Some(record) ==> 1
            <= record.content.len() <= MAX_BODY_CHARS,
        left_out(message, skip) ==> {
            &&& message_records(message, channel, users, skip).len() == 0
            &&& kept_version(message, channel, users, skip) is None
        },
{
    let files = file_records(message, channel, users, skip is Some);
    assert(Seq::<RecordView>::empty() + files =~= files);
    assert(Seq::<RecordView>::empty() + Seq::<RecordView>::empty() =~= Seq::empty());
}

/// Every record of a file bears the id of the file under its message.
proof fn lemma_file_record_ids(
    list: Seq<Json>,
    channel: ChannelView,
    ts: Seq<char>,
    author: Seq<char>,
    kind: Seq<char>,
    i: int,
)
    requires
        0 <= i < records_of_files(list, channel, ts, author, kind).len(),
    ensures
        exists|id: Seq<char>|
            records_of_files(list, channel, ts, author, kind)[i].item_id == #[trigger] file_id(
                channel.id,
                ts,
                id,
            ),
        records_of_files(list, channel, ts, author, kind)[i].content.len() <= MAX_BODY_CHARS,
    decreases list.len(),
{
    let front = records_of_files(list.drop_last(), channel, ts, author, kind);
    if i < front.len() {
        lemma_file_record_ids(list.drop_last(), channel, ts, author, kind, i);
    } else {
        let id = pick(list.last(), seq!["id"@])->0;
        assert(records_of_files(list, channel, ts, author, kind)[i].item_id == file_id(
            channel.id,
            ts,
            id,
        ));
    }
}

/// Every record that a message makes bears the id of that message in that
/// channel, or that of one of its files under it, and has at most
/// `MAX_BODY_CHARS` characters.
pub proof fn law_records_are_of_their_message(
    message: Json,
    channel: ChannelView,
    users: Map<Seq<char>, Seq<char>>,
    skip: Option<Seq<char>>,
    i: int,
)
    requires
        0 <= i < message_records(message, channel, users, skip).len(),
    ensures
        !left_out(message, skip),
        stamp(message) is Some,
        ({
            let record = message_records(message, channel, users, skip)[i];
            let ts = stamp(message)->0;
            &&& record.content.len() <= MAX_BODY_CHARS
            &&& record.item_id == message_id(channel.id, ts) || exists|id: Seq<char>|
                record.item_id == #[trigger] file_id(channel.id, ts, id)
        }),
{
    let k = match kept_record(message, channel, users, skip) {
        Some(_) => i - 1,
        None => i,
    };
    if k >= 0 {
        lemma_file_record_ids(
            files(message),
            channel,
            stamp(message)->0,
            author(message, users),
            reply_mark(skip is Some),
            k,
        );
    }
}

/// Every record of a page is one that a message of the page makes.
pub proof fn law_records_are_of_messages(
    list: Seq<Json>,
    channel: ChannelView,
    users: Map<Seq<char>, Seq<char>>,
    skip: Option<Seq<char>>,
    i: int,
) -> (source: (int, int))
    requires
        0 <= i < page_records(list, channel, users, skip).len(),
    ensures
        0 <= source.0 < list.len(),
        0 <= source.1 < message_records(list[source.0], channel, users, skip).len(),
        page_records(list, channel, users, skip)[i] == message_records(
            list[source.0],
            channel,
            users,
            skip,
        )[source.1],
    decreases list.len(),
{
    let front = page_records(list.drop_last(), channel, users, skip);
    if i < front.len() {
        law_records_are_of_messages(list.drop_last(), channel, users, skip, i)
    } else {
        (list.len() - 1, i - front.len())
    }
}

/// No message is lost, and the order is kept: what a message makes stands whole
/// in its page, behind what the messages before it make and before what those
/// behind it make.
pub proof fn law_every_message_is_carried(
    list: Seq<Json>,
    channel: ChannelView,
    users: Map<Seq<char>, Seq<char>>,
    skip: Option<Seq<char>>,
    j: int,
)
    requires
        0 <= j < list.len(),
    ensures
        page_records(list, channel, users, skip) == page_records(
            list.take(j),
            channel,
            users,
            skip,
        ) + message_records(list[j], channel, users, skip) + page_records(
            list.skip(j + 1),
            channel,
            users,
            skip,
        ),
{
    let upto = list.take(j + 1);
    assert(upto.drop_last() =~= list.take(j));
    assert(upto + list.skip(j + 1) =~= list);
    law_pages_join(upto, list.skip(j + 1), channel, users, skip);
}

/// The parent that Slack repeats at the head of its own thread makes no record
/// there. No timestamp has a colon in it.
pub proof fn law_parent_is_left_out(
    list: Seq<Json>,
    channel: ChannelView,
    users: Map<Seq<char>, Seq<char>>,
    parent: Seq<char>,
    i: int,
)
    requires
        !parent.contains(':'),
        0 <= i < page_records(list, channel, users, Some(parent)).len(),
    ensures
        page_records(list, channel, users, Some(parent))[i].item_id != message_id(
            channel.id,
            parent,
        ),
{
    let source = law_records_are_of_messages(list, channel, users, Some(parent), i);
    let message = list[source.0];
    law_records_are_of_their_message(message, channel, users, Some(parent), source.1);
    let record = page_records(list, channel, users, Some(parent))[i];
    let ts = stamp(message)->0;
    let front = (channel.id + ":"@).len() as int;
    assert(message_id(channel.id, ts).skip(front) =~= ts);
    assert(message_id(channel.id, parent).skip(front) =~= parent);
    if record.item_id != message_id(channel.id, ts) {
        let id = choose|id: Seq<char>| record.item_id == #[trigger] file_id(channel.id, ts, id);
        reveal_strlit(":");
        assert(file_id(channel.id, ts, id).skip(front) =~= ts + ":"@ + id);
        assert((ts + ":"@ + id)[ts.len() as int] == ':');
        assert((ts + ":"@ + id).contains(':'));
    }
}

/// Every version that a page reports is that of a record which the page
/// carries: an edited message is ingested again, and nothing else is.
pub proof fn law_versions_are_of_records(
    list: Seq<Json>,
    channel: ChannelView,
    users: Map<Seq<char>, Seq<char>>,
    skip: Option<Seq<char>>,
    i: int,
)
    requires
        0 <= i < text_versions(list, channel, users, skip).len(),
    ensures
        exists|j: int|
            0 <= j < page_records(list, channel, users, skip).len() && (#[trigger] page_records(
                list,
                channel,
                users,
                skip,
            )[j]).item_id == text_versions(list, channel, users, skip)[i].0,
    decreases list.len(),
{
    let front = list.drop_last();
    let versions = text_versions(front, channel, users, skip);
    let records = page_records(front, channel, users, skip);
    let all = page_records(list, channel, users, skip);
    if i < versions.len() {
        law_versions_are_of_records(front, channel, users, skip, i);
        let j = choose|j: int|
            0 <= j < records.len() && (#[trigger] records[j]).item_id == versions[i].0;
        assert(all[j] == records[j]);
    } else {
        assert(all[records.len() as int].item_id == text_versions(list, channel, users, skip)[i].0);
    }
}

/// Each message is read on its own, and the order of a page is kept: two lists
/// joined carry what the first carries and then what the second carries. An
/// empty list carries nothing.
pub proof fn law_pages_join(
    a: Seq<Json>,
    b: Seq<Json>,
    channel: ChannelView,
    users: Map<Seq<char>, Seq<char>>,
    skip: Option<Seq<char>>,
)
    ensures
        page_records(a + b, channel, users, skip) == page_records(a, channel, users, skip)
            + page_records(b, channel, users, skip),
        text_versions(a + b, channel, users, skip) == text_versions(a, channel, users, skip)
            + text_versions(b, channel, users, skip),
        page_records(Seq::empty(), channel, users, skip).len() == 0,
        text_versions(Seq::empty(), channel, users, skip).len() == 0,
    decreases b.len(),
{
    if b.len() == 0 {
        assert(a + b =~= a);
    } else {
        law_pages_join(a, b.drop_last(), channel, users, skip);
        assert((a + b).drop_last() =~= a + b.drop_last());
        assert((a + b).last() == b.last());
    }
}

/// The messages of a list that are not left out, in their order.
pub open spec fn not_left_out(list: Seq<Json>, skip: Option<Seq<char>>) -> Seq<Json>
    decreases list.len(),
{
    if list.len() == 0 {
        Seq::empty()
    } else {
        let front = not_left_out(list.drop_last(), skip);
        if left_out(list.last(), skip) {
            front
        } else {
            front.push(list.last())
        }
    }
}

/// Neither the text nor a file nor a version of a message that is left out comes
/// of a page: it reads as the page without that message does.
pub proof fn law_page_reads_as_without_its_parent(
    list: Seq<Json>,
    channel: ChannelView,
    users: Map<Seq<char>, Seq<char>>,
    skip: Option<Seq<char>>,
)
    ensures
        page_records(list, channel, users, skip) == page_records(
            not_left_out(list, skip),
            channel,
            users,
            skip,
        ),
        text_versions(list, channel, users, skip) == text_versions(
            not_left_out(list, skip),
            channel,
            users,
            skip,
        ),
    decreases list.len(),
{
    if list.len() > 0 {
        law_page_reads_as_without_its_parent(list.drop_last(), channel, users, skip);
        let front = not_left_out(list.drop_last(), skip);
        if left_out(list.last(), skip) {
            assert(page_records(list, channel, users, skip) =~= page_records(
                list.drop_last(),
                channel,
                users,
                skip,
            ));
        } else {
            assert(front.push(list.last()).drop_last() =~= front);
        }
    }
}

/// Whether a text ends in another.
pub open spec fn ends_in(text: Seq<char>, end: Seq<char>) -> bool {
    text.len() >= end.len() && text.skip(text.len() - end.len()) == end
}

/// A text ends in what it was joined from.
proof fn lemma_ends_in(front: Seq<char>, end: Seq<char>)
    ensures
        ends_in(front + end, end),
{
    assert((front + end).skip(front.len() as int) =~= end);
}

/// The records of files of a reply are marked as such.
proof fn lemma_file_titles(
    list: Seq<Json>,
    channel: ChannelView,
    ts: Seq<char>,
    author: Seq<char>,
    kind: Seq<char>,
    i: int,
)
    requires
        0 <= i < records_of_files(list, channel, ts, author, kind).len(),
    ensures
        ends_in(records_of_files(list, channel, ts, author, kind)[i].title, kind),
    decreases list.len(),
{
    let front = records_of_files(list.drop_last(), channel, ts, author, kind);
    if i < front.len() {
        lemma_file_titles(list.drop_last(), channel, ts, author, kind, i);
    } else {
        let name = pick(list.last(), seq!["name"@, "title"@])->0;
        lemma_ends_in("#"@ + channel.name + " — "@ + author + " shared "@ + name, kind);
    }
}

/// Every record of a thread page, be it of a text or of a file, is marked as a
/// reply in its title.
pub proof fn law_replies_are_marked(
    list: Seq<Json>,
    channel: ChannelView,
    users: Map<Seq<char>, Seq<char>>,
    parent: Seq<char>,
    i: int,
)
    requires
        0 <= i < page_records(list, channel, users, Some(parent)).len(),
    ensures
        ends_in(page_records(list, channel, users, Some(parent))[i].title, " (reply)"@),
    decreases list.len(),
{
    let front = page_records(list.drop_last(), channel, users, Some(parent));
    let message = list.last();
    if i < front.len() {
        law_replies_are_marked(list.drop_last(), channel, users, parent, i);
    } else {
        let k = i - front.len();
        match text_record(message, channel, users, true) {
            Some(record) => {
                lemma_ends_in(
                    "#"@ + channel.name + " — "@ + author(message, users),
                    " (reply)"@,
                );
                if k > 0 {
                    lemma_marked_files(message, channel, users, k - 1);
                }
            },
            None => {
                lemma_marked_files(message, channel, users, k);
            },
        }
    }
}

/// The records of the files of a reply are marked as such.
proof fn lemma_marked_files(
    message: Json,
    channel: ChannelView,
    users: Map<Seq<char>, Seq<char>>,
    k: int,
)
    requires
        0 <= k < file_records(message, channel, users, true).len(),
    ensures
        ends_in(file_records(message, channel, users, true)[k].title, " (reply)"@),
{
    lemma_file_titles(
        files(message),
        channel,
        stamp(message)->0,
        author(message, users),
        " (reply)"@,
        k,
    );
}

// ---------------------------------------------------------------- text

/// A text without a reference reads as it is: one with no `<` in it, and one
/// with no `>` behind the first `<`.
pub proof fn law_plain_text_is_untouched(raw: Seq<char>, users: Map<Seq<char>, Seq<char>>)
    requires
        !raw.contains('<') || !raw.contains('>'),
    ensures
        rendered(raw, users) == raw,
{
    lemma_find(raw, '<');
    if let Some((before, after)) = split_once(raw, '<') {
        lemma_find(after, '>');
        if let Some(k) = find(after, '>') {
            let i = find(raw, '<')->0;
            assert(raw[i] == '<');
            assert(raw[i + 1 + k] == '>');
        }
    } else {
        assert(raw.len() == 0 || find(raw, '<') is None);
    }
}

/// A mention reads as the name the directory has, else as the label it came
/// with, else as the bare id.
pub proof fn law_mentions_degrade(
    id: Seq<char>,
    label: Seq<char>,
    users: Map<Seq<char>, Seq<char>>,
)
    requires
        !id.contains('|'),
    ensures
        resolved(seq!['@'] + id + seq!['|'] + label, users) == seq!['@'] + (
        if users.contains_key(id) {
            users[id]
        } else if label.len() > 0 {
            label
        } else {
            id
        }),
        resolved(seq!['@'] + id, users) == seq!['@'] + (if users.contains_key(id) {
            users[id]
        } else {
            id
        }),
{
    let target = seq!['@'] + id;
    assert forall|i: int| 0 <= i < target.len() implies target[i] != '|' by {
        if i > 0 {
            assert(target[i] == id[i - 1]);
            assert(id.contains(id[i - 1]));
        }
    }
    lemma_split_once_joined(target, '|', label);
    lemma_find_none(target, '|');
    assert(target.skip(1) =~= id);
}

/// A body is the start of the trimmed text: it has at most `MAX_BODY_CHARS`
/// characters, and is the whole of it where that many hold it.
pub proof fn law_body_is_bounded(text: Seq<char>)
    ensures
        truncated(text).len() <= MAX_BODY_CHARS,
        truncated(text) == trim(text).take(truncated(text).len() as int),
        trim(text).len() <= MAX_BODY_CHARS ==> truncated(text) == trim(text),
        trim(text).len() > MAX_BODY_CHARS ==> truncated(text).len() == MAX_BODY_CHARS,
{
    assert(trim(text).take(trim(text).len() as int) =~= trim(text));
}

/// A short fraction of a second is padded, not read as a smaller number, and
/// digits behind the third do not count.
pub proof fn law_fraction_is_padded(fraction: Seq<char>, more: Seq<char>)
    ensures
        fraction_millis(fraction.push('0')) == fraction_millis(fraction),
        fraction.len() >= 3 ==> fraction_millis(fraction + more) == fraction_millis(fraction),
{
    assert(three_digits(fraction.push('0')) =~= three_digits(fraction));
    if fraction.len() >= 3 {
        assert(three_digits(fraction + more) =~= three_digits(fraction));
    }
}

/// Three digits are worth less than a thousand.
proof fn lemma_three_digits(fraction: Seq<char>)
    requires
        fraction.len() > 0 ==> all_digits(fraction),
    ensures
        0 <= fraction_millis(fraction) < 1000,
{
    let three = three_digits(fraction);
    assert forall|i: int| 0 <= i < three.len() implies is_digit(#[trigger] three[i]) by {
        if i < fraction.len() {
            assert(is_digit(fraction[i]));
        }
    }
    reveal_with_fuel(value, 4);
    assert(is_digit(three[0]) && is_digit(three[1]) && is_digit(three[2]));
    assert(three.drop_last().drop_last().drop_last().len() == 0);
    assert(three.drop_last().last() == three[1]);
    assert(three.drop_last().drop_last().last() == three[0]);
    assert(value(three) < 1000);
}

/// A timestamp of digits stays within its second, and one of a whole second is
/// that second.
pub proof fn law_timestamp_stays_within_its_second(seconds: Seq<char>, fraction: Seq<char>)
    requires
        all_digits(seconds),
        value(seconds) * 1000 + 999 <= i64::MAX,
        fraction.len() > 0 ==> all_digits(fraction),
    ensures
        millis_fit(seconds + seq!['.'] + fraction),
        millis(seconds + seq!['.'] + fraction) matches Some(ms) && value(seconds) * 1000 <= ms
            < value(seconds) * 1000 + 1000,
        millis(seconds + seq!['.'] + fraction + seq!['0']) == millis(
            seconds + seq!['.'] + fraction,
        ),
        forall|more: Seq<char>|
            fraction.len() >= 3 ==> #[trigger] millis(seconds + seq!['.'] + fraction + more)
                == millis(seconds + seq!['.'] + fraction),
        millis_fit(seconds),
        millis(seconds) == Some(value(seconds) as int * 1000),
{
    assert(is_digit(seconds[0]));
    assert(!seconds.contains('.')) by {
        assert forall|i: int| 0 <= i < seconds.len() implies seconds[i] != '.' by {
            assert(is_digit(seconds[i]));
        }
    }
    lemma_three_digits(fraction);
    lemma_split_once_joined(seconds, '.', fraction);
    lemma_find_none(seconds, '.');
    law_fraction_is_padded(fraction, Seq::empty());
    assert(fraction + seq!['0'] =~= fraction.push('0'));
    assert(seconds + seq!['.'] + fraction + seq!['0'] =~= seconds + seq!['.'] + (fraction + seq![
        '0',
    ]));
    lemma_split_once_joined(seconds, '.', fraction + seq!['0']);
    assert forall|more: Seq<char>| fraction.len() >= 3 implies #[trigger] millis(
        seconds + seq!['.'] + fraction + more,
    ) == millis(seconds + seq!['.'] + fraction) by {
        law_fraction_is_padded(fraction, more);
        assert(seconds + seq!['.'] + fraction + more =~= seconds + seq!['.'] + (fraction + more));
        lemma_split_once_joined(seconds, '.', fraction + more);
    }
    reveal_strlit("0");
    assert(three_digits("0"@) =~= three_digits(Seq::empty()));
    lemma_whole_second();
}

/// No fraction is no milliseconds.
proof fn lemma_whole_second()
    ensures
        fraction_millis(Seq::empty()) == 0,
{
    let three = three_digits(Seq::empty());
    reveal_with_fuel(value, 4);
    assert(is_digit(three[0]) && is_digit(three[1]) && is_digit(three[2]));
    assert(three.drop_last().drop_last().drop_last().len() == 0);
    assert(three.drop_last().last() == '0');
    assert(three.drop_last().drop_last().last() == '0');
    assert(value(three) == 0);
}

/// A timestamp has no date if and only if what precedes its first dot is no
/// 64-bit number.
pub proof fn law_undated_timestamp(ts: Seq<char>)
    ensures
        millis(ts) is None <==> signed_i64(cut(ts, '.').0) is None,
{
}

// ---------------------------------------------------------------- the catalog

/// No action is listed twice.
pub proof fn law_catalog_lists_each_action_once(i: int, j: int)
    requires
        0 <= i < j < catalog().len(),
    ensures
        catalog()[i].0 != catalog()[j].0,
{
    reveal_strlit("SLACK_FIND_CHANNELS");
    reveal_strlit("SLACK_FIND_USERS");
    reveal_strlit("SLACK_FETCH_CONVERSATION_HISTORY");
    reveal_strlit("SLACK_FETCH_MESSAGE_THREAD_FROM_A_CONVERSATION");
    reveal_strlit("SLACK_LIST_ALL_CHANNELS");
    reveal_strlit("SLACK_LIST_ALL_USERS");
    reveal_strlit("SLACK_LIST_CONVERSATIONS");
    reveal_strlit("SLACK_FETCH_TEAM_INFO");
    reveal_strlit("SLACK_GET_USER_PRESENCE");
    reveal_strlit("SLACK_ASSISTANT_SEARCH_CONTEXT");
    reveal_strlit("SLACK_SEND_MESSAGE");
    reveal_strlit("SLACK_POST_MESSAGE_TO_CHANNEL");
    reveal_strlit("SLACK_SEND_MESSAGE_TO_CHANNEL");
    reveal_strlit("SLACK_CREATE_CHANNEL");
    reveal_strlit("SLACK_ADD_REACTION_TO_AN_ITEM");
    reveal_strlit("SLACK_UPLOAD_FILE");
    reveal_strlit("SLACK_CREATE_A_REMINDER");
    reveal_strlit("SLACK_CREATE_USER_GROUP");
    reveal_strlit("SLACK_DELETE_CHANNEL");
    reveal_strlit("SLACK_ARCHIVE_CONVERSATION");
    reveal_strlit("SLACK_DELETE_FILE");
    reveal_strlit("SLACK_DELETES_A_MESSAGE_FROM_A_CHAT");
    reveal_strlit("SLACK_DELETE_REMINDER");
    reveal_strlit("SLACK_LEAVE_CONVERSATION");
    reveal_strlit("SLACK_INVITE_USER_TO_WORKSPACE");
    reveal_strlit("SLACK_CONVERT_CHANNEL_TO_PRIVATE");
    reveal_strlit("SLACK_INVITE_USERS_TO_A_SLACK_CHANNEL");
    let a = catalog()[i].0;
    let b = catalog()[j].0;
    assert(a.len() != b.len() || a[6] != b[6] || a[13] != b[13]);
}

/// Whether the word behind `SLACK_` in an action's name starts with two letters.
pub open spec fn verb_starts(slug: Seq<char>, first: char, second: char) -> bool {
    slug.len() > 7 && slug[6] == first && slug[7] == second
}

/// An action that deletes, archives, leaves, invites or converts changes who can
/// reach what, and is for an admin; one that sends, posts, creates, adds or
/// uploads writes; and one that finds, fetches, lists, gets or assists reads.
/// Every action is one of these, and one of Slack's.
pub proof fn law_what_an_action_does_fixes_its_scope(i: int)
    requires
        0 <= i < catalog().len(),
    ensures
        ({
            let (slug, scope) = catalog()[i];
            &&& slug.take(6) == "SLACK_"@
            &&& scope == ToolScope::Admin <==> verb_starts(slug, 'D', 'E') || verb_starts(
                slug,
                'A',
                'R',
            ) || verb_starts(slug, 'L', 'E') || verb_starts(slug, 'I', 'N') || verb_starts(
                slug,
                'C',
                'O',
            )
            &&& scope == ToolScope::Write <==> verb_starts(slug, 'S', 'E') || verb_starts(
                slug,
                'P',
                'O',
            ) || verb_starts(slug, 'C', 'R') || verb_starts(slug, 'A', 'D') || verb_starts(
                slug,
                'U',
                'P',
            )
            &&& scope == ToolScope::Read <==> verb_starts(slug, 'F', 'I') || verb_starts(
                slug,
                'F',
                'E',
            ) || verb_starts(slug, 'L', 'I') || verb_starts(slug, 'G', 'E') || verb_starts(
                slug,
                'A',
                'S',
            )
        }),
{
    reveal_strlit("SLACK_");
    reveal_strlit("SLACK_FIND_CHANNELS");
    reveal_strlit("SLACK_FIND_USERS");
    reveal_strlit("SLACK_FETCH_CONVERSATION_HISTORY");
    reveal_strlit("SLACK_FETCH_MESSAGE_THREAD_FROM_A_CONVERSATION");
    reveal_strlit("SLACK_LIST_ALL_CHANNELS");
    reveal_strlit("SLACK_LIST_ALL_USERS");
    reveal_strlit("SLACK_LIST_CONVERSATIONS");
    reveal_strlit("SLACK_FETCH_TEAM_INFO");
    reveal_strlit("SLACK_GET_USER_PRESENCE");
    reveal_strlit("SLACK_ASSISTANT_SEARCH_CONTEXT");
    reveal_strlit("SLACK_SEND_MESSAGE");
    reveal_strlit("SLACK_POST_MESSAGE_TO_CHANNEL");
    reveal_strlit("SLACK_SEND_MESSAGE_TO_CHANNEL");
    reveal_strlit("SLACK_CREATE_CHANNEL");
    reveal_strlit("SLACK_ADD_REACTION_TO_AN_ITEM");
    reveal_strlit("SLACK_UPLOAD_FILE");
    reveal_strlit("SLACK_CREATE_A_REMINDER");
    reveal_strlit("SLACK_CREATE_USER_GROUP");
    reveal_strlit("SLACK_DELETE_CHANNEL");
    reveal_strlit("SLACK_ARCHIVE_CONVERSATION");
    reveal_strlit("SLACK_DELETE_FILE");
    reveal_strlit("SLACK_DELETES_A_MESSAGE_FROM_A_CHAT");
    reveal_strlit("SLACK_DELETE_REMINDER");
    reveal_strlit("SLACK_LEAVE_CONVERSATION");
    reveal_strlit("SLACK_INVITE_USER_TO_WORKSPACE");
    reveal_strlit("SLACK_CONVERT_CHANNEL_TO_PRIVATE");
    reveal_strlit("SLACK_INVITE_USERS_TO_A_SLACK_CHANNEL");
    assert(catalog()[i].0.take(6) =~= "SLACK_"@);
}

} // verus!
