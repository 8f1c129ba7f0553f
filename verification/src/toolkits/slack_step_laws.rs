//! What one page takes: which action is run with which arguments, and what its
//! reply makes of the walk.

use vstd::prelude::*;
use vstd::string::*;

use super::slack::{
    absorbed, after_history, after_replies, age_fits, committed, decoded, encoded, history_query,
    moved, new_refresh, newest, newly_owed, oldest, onward, page_limit, queued, roster_query, stale,
    thread_query, users_query, with_directory, with_roster, Channel, Cursor, CursorView, WalkState,
    WalkView,
};
use super::slack_fetch::{
    can_open, can_resume, opened, resumed, sound, FetchView, StageView, StepView,
};
use super::slack_parse::{fatal, messages, page_fits, page_records, text_versions};
use crate::clock::{law_ordinary_depths_are_in_range, LAST_MILLI, MAX_DEPTH_DAYS};
use crate::error::Error;
use crate::json::Json;
use crate::provider::{ArgumentView, RequestView, SyncLimits};

verus! {

// ---------------------------------------------------------------- requests

/// Whether a request gives `name` the value `value`.
pub open spec fn gives(request: RequestView, name: Seq<char>, value: ArgumentView) -> bool {
    request.arguments.contains((name, value))
}

/// Whether a request gives a text under `name`, where there is one to give.
pub open spec fn gives_any(
    request: RequestView,
    name: Seq<char>,
    text: Option<Seq<char>>,
) -> bool {
    text matches Some(text) ==> gives(request, name, ArgumentView::Text(text))
}

/// How many arguments an optional text makes.
pub open spec fn one_if(text: Option<Seq<char>>) -> nat {
    if text is Some {
        1
    } else {
        0
    }
}

/// A text argument is added behind the others.
proof fn lemma_with_text(request: RequestView, name: Seq<char>, text: Option<Seq<char>>)
    ensures
        request.with_text(name, text).action == request.action,
        request.with_text(name, text).arguments.len() == request.arguments.len() + one_if(text),
        gives_any(request.with_text(name, text), name, text),
        forall|i: int|
            0 <= i < request.arguments.len() ==> #[trigger] request.with_text(
                name,
                text,
            ).arguments[i] == request.arguments[i],
{
    if let Some(held) = text {
        let all = request.with_text(name, text).arguments;
        assert(all[request.arguments.len() as int] == (name, ArgumentView::Text(held)));
    }
}

/// An argument that a request gives is still given when more are added.
proof fn lemma_still_given(a: RequestView, b: RequestView, name: Seq<char>, value: ArgumentView)
    requires
        gives(a, name, value),
        a.arguments.len() <= b.arguments.len(),
        forall|i: int| 0 <= i < a.arguments.len() ==> #[trigger] b.arguments[i] == a.arguments[i],
    ensures
        gives(b, name, value),
{
    let i = choose|i: int| 0 <= i < a.arguments.len() && a.arguments[i] == (name, value);
    assert(b.arguments[i] == (name, value));
}

/// A page of the roster is asked for by two hundred public and private channels
/// that are not archived, from where the cursor says, and by nothing else.
pub proof fn law_what_a_roster_page_is_asked_with(cursor: Option<Seq<char>>)
    ensures
        ({
            let request = roster_query(cursor);
            &&& request.action == "SLACK_LIST_CONVERSATIONS"@
            &&& gives(request, "limit"@, ArgumentView::Number(200))
            &&& gives(request, "types"@, ArgumentView::Text("public_channel,private_channel"@))
            &&& gives(request, "exclude_archived"@, ArgumentView::Flag(true))
            &&& gives_any(request, "cursor"@, cursor)
            &&& request.arguments.len() == 3 + one_if(cursor)
        }),
{
    let fixed = roster_query(None);
    assert(fixed.arguments[0] == ("limit"@, ArgumentView::Number(200)));
    assert(fixed.arguments[1] == ("types"@, ArgumentView::Text("public_channel,private_channel"@)));
    assert(fixed.arguments[2] == ("exclude_archived"@, ArgumentView::Flag(true)));
    lemma_with_text(fixed, "cursor"@, cursor);
    let request = roster_query(cursor);
    assert(request == fixed.with_text("cursor"@, cursor));
    assert(request.arguments[0] == fixed.arguments[0]);
    assert(request.arguments[1] == fixed.arguments[1]);
    assert(request.arguments[2] == fixed.arguments[2]);
}

/// A page of the directory is asked for by two hundred people, from where the
/// cursor says, and by nothing else.
pub proof fn law_what_a_directory_page_is_asked_with(cursor: Option<Seq<char>>)
    ensures
        ({
            let request = users_query(cursor);
            &&& request.action == "SLACK_LIST_ALL_USERS"@
            &&& gives(request, "limit"@, ArgumentView::Number(200))
            &&& gives_any(request, "cursor"@, cursor)
            &&& request.arguments.len() == 1 + one_if(cursor)
        }),
{
    let fixed = users_query(None);
    assert(fixed.arguments[0] == ("limit"@, ArgumentView::Number(200)));
    lemma_with_text(fixed, "cursor"@, cursor);
    let request = users_query(cursor);
    assert(request == fixed.with_text("cursor"@, cursor));
    assert(request.arguments[0] == fixed.arguments[0]);
}

/// A page of replies is asked for by its channel, the timestamp of its parent and
/// two hundred messages, from where the cursor says, and by nothing else.
pub proof fn law_what_a_thread_page_is_asked_with(
    channel: Seq<char>,
    parent: Seq<char>,
    reply_page: Option<Seq<char>>,
)
    ensures
        ({
            let request = thread_query(channel, parent, reply_page);
            &&& request.action == "SLACK_FETCH_MESSAGE_THREAD_FROM_A_CONVERSATION"@
            &&& gives(request, "channel"@, ArgumentView::Text(channel))
            &&& gives(request, "ts"@, ArgumentView::Text(parent))
            &&& gives(request, "limit"@, ArgumentView::Number(200))
            &&& gives_any(request, "cursor"@, reply_page)
            &&& request.arguments.len() == 3 + one_if(reply_page)
        }),
{
    let fixed = thread_query(channel, parent, None);
    assert(fixed.arguments[0] == ("channel"@, ArgumentView::Text(channel)));
    assert(fixed.arguments[1] == ("ts"@, ArgumentView::Text(parent)));
    assert(fixed.arguments[2] == ("limit"@, ArgumentView::Number(200)));
    lemma_with_text(fixed, "cursor"@, reply_page);
    let request = thread_query(channel, parent, reply_page);
    assert(request == fixed.with_text("cursor"@, reply_page));
    assert(request.arguments[0] == fixed.arguments[0]);
    assert(request.arguments[1] == fixed.arguments[1]);
    assert(request.arguments[2] == fixed.arguments[2]);
}

/// A page of history is asked for by its channel, without the message it starts
/// from, and by as many messages as the run may take, from one to two hundred;
/// from when on and from where, as far as that is known; and by nothing else.
pub proof fn law_what_a_history_page_is_asked_with(
    channel: Seq<char>,
    max_items: nat,
    from: Option<Seq<char>>,
    history: Option<Seq<char>>,
)
    ensures
        ({
            let request = history_query(channel, max_items, from, history);
            &&& request.action == "SLACK_FETCH_CONVERSATION_HISTORY"@
            &&& gives(request, "channel"@, ArgumentView::Text(channel))
            &&& gives(request, "inclusive"@, ArgumentView::Flag(false))
            &&& gives(request, "limit"@, ArgumentView::Number(page_limit(max_items)))
            &&& gives_any(request, "oldest"@, from)
            &&& gives_any(request, "cursor"@, history)
            &&& request.arguments.len() == 3 + one_if(from) + one_if(history)
        }),
        max_items == 0 ==> page_limit(max_items) == 1,
        1 <= max_items <= 200 ==> page_limit(max_items) == max_items,
        max_items > 200 ==> page_limit(max_items) == 200,
{
    let fixed = history_query(channel, max_items, None, None);
    assert(fixed.arguments[0] == ("channel"@, ArgumentView::Text(channel)));
    assert(fixed.arguments[1] == ("inclusive"@, ArgumentView::Flag(false)));
    assert(fixed.arguments[2] == ("limit"@, ArgumentView::Number(page_limit(max_items))));
    let dated = fixed.with_text("oldest"@, from);
    lemma_with_text(fixed, "oldest"@, from);
    lemma_with_text(dated, "cursor"@, history);
    let request = history_query(channel, max_items, from, history);
    assert(request == dated.with_text("cursor"@, history));
    assert(dated.arguments[0] == fixed.arguments[0] && request.arguments[0]
        == dated.arguments[0]);
    assert(dated.arguments[1] == fixed.arguments[1] && request.arguments[1]
        == dated.arguments[1]);
    assert(dated.arguments[2] == fixed.arguments[2] && request.arguments[2]
        == dated.arguments[2]);
    if let Some(held) = from {
        lemma_still_given(dated, request, "oldest"@, ArgumentView::Text(held));
    }
}

// ---------------------------------------------------------------- the next action

/// Whether a request asks for what is being waited for: the page of the channel,
/// or of the thread, that stands at the position, or the roster or directory page
/// that comes next.
pub open spec fn asks_for_what_is_awaited(
    fetch: FetchView,
    request: RequestView,
    now_ms: int,
) -> bool {
    match fetch.stage {
        StageView::Roster => request == roster_query(None),
        StageView::Users(refresh) => request == users_query(refresh.cursor),
        StageView::Advance => {
            &&& fetch.walk.channels_cursor is Some
            &&& request == roster_query(fetch.walk.channels_cursor)
        },
        StageView::Thread => {
            &&& fetch.position.index < fetch.walk.channels.len()
            &&& fetch.position.thread is Some
            &&& request.action == "SLACK_FETCH_MESSAGE_THREAD_FROM_A_CONVERSATION"@
            &&& gives(
                request,
                "channel"@,
                ArgumentView::Text(fetch.walk.channels[fetch.position.index as int].id),
            )
            &&& gives(request, "ts"@, ArgumentView::Text(fetch.position.thread->0))
            &&& gives(request, "limit"@, ArgumentView::Number(200))
            &&& gives_any(request, "cursor"@, fetch.position.reply_page)
            &&& request.arguments.len() == 3 + one_if(fetch.position.reply_page)
        },
        StageView::History => {
            let channel = fetch.walk.channels[fetch.position.index as int].id;
            let from = oldest(fetch.walk, channel, fetch.limits.depth_days, now_ms);
            &&& fetch.position.index < fetch.walk.channels.len()
            &&& fetch.position.thread is None
            &&& request.action == "SLACK_FETCH_CONVERSATION_HISTORY"@
            &&& gives(request, "channel"@, ArgumentView::Text(channel))
            &&& gives(request, "inclusive"@, ArgumentView::Flag(false))
            &&& gives(
                request,
                "limit"@,
                ArgumentView::Number(page_limit(fetch.limits.max_items as nat)),
            )
            &&& gives_any(request, "oldest"@, from)
            &&& gives_any(request, "cursor"@, fetch.position.history)
            &&& request.arguments.len() == 3 + one_if(from) + one_if(fetch.position.history)
        },
    }
}

/// Whatever action is run for a page, it asks for what is being waited for: a
/// page of a channel or of a thread is one of the channel at the index that the
/// cursor names.
pub proof fn law_every_action_asks_for_what_is_awaited(
    fetch: FetchView,
    reply: Result<Json, Error>,
    cursor: Option<Seq<char>>,
    walk: WalkView,
    limits: SyncLimits,
    now_ms: int,
)
    ensures
        opened(cursor, walk, limits, now_ms) matches StepView::Run(next, request)
            ==> asks_for_what_is_awaited(next, request, now_ms) && next.position == decoded(cursor)
            && next.limits == limits,
        resumed(fetch, reply, now_ms) matches StepView::Run(next, request)
            ==> asks_for_what_is_awaited(next, request, now_ms) && next.position == fetch.position
            && next.limits == fetch.limits,
{
    if let StepView::Run(next, _) = opened(cursor, walk, limits, now_ms) {
        lemma_asked(next, now_ms);
    }
    if let StepView::Run(next, _) = resumed(fetch, reply, now_ms) {
        lemma_asked(next, now_ms);
    }
}

/// The arguments of the two requests that a position makes.
proof fn lemma_asked(fetch: FetchView, now_ms: int)
    ensures
        fetch.position.index < fetch.walk.channels.len() ==> ({
            let channel = fetch.walk.channels[fetch.position.index as int].id;
            let from = oldest(fetch.walk, channel, fetch.limits.depth_days, now_ms);
            &&& fetch.stage is History && fetch.position.thread is None ==> asks_for_what_is_awaited(
                fetch,
                history_query(
                    channel,
                    fetch.limits.max_items as nat,
                    from,
                    fetch.position.history,
                ),
                now_ms,
            )
            &&& fetch.stage is Thread && fetch.position.thread is Some ==> asks_for_what_is_awaited(
                fetch,
                thread_query(channel, fetch.position.thread->0, fetch.position.reply_page),
                now_ms,
            )
        }),
{
    if fetch.position.index < fetch.walk.channels.len() {
        let channel = fetch.walk.channels[fetch.position.index as int].id;
        let from = oldest(fetch.walk, channel, fetch.limits.depth_days, now_ms);
        law_what_a_history_page_is_asked_with(
            channel,
            fetch.limits.max_items as nat,
            from,
            fetch.position.history,
        );
        law_what_a_thread_page_is_asked_with(
            channel,
            fetch.position.thread->0,
            fetch.position.reply_page,
        );
    }
}

/// Whether a step goes on where a position points to: into the thread or the
/// channel there; behind the last channel, to the next roster page; and where
/// there is none, to the end of the walk.
pub open spec fn goes_on_at(
    step: StepView,
    position: CursorView,
    walk: WalkView,
    changed: bool,
) -> bool {
    if position.index < walk.channels.len() {
        &&& step matches StepView::Run(next, _)
        &&& next.walk == walk
        &&& next.changed == changed
        &&& if position.thread is Some {
            next.stage is Thread
        } else {
            next.stage is History
        }
    } else if walk.channels_cursor is Some {
        &&& step matches StepView::Run(next, _)
        &&& next.walk == walk
        &&& next.changed == changed
        &&& next.stage is Advance
    } else {
        &&& step matches StepView::Done(page, saved)
        &&& page.next_cursor is None
        &&& page.records.len() == 0
        &&& page.versions.len() == 0
        &&& saved == (if changed {
            Some(walk)
        } else {
            None
        })
    }
}

/// A page that has a cursor is read where the cursor points to, with the walk as
/// it is stored. One that has none starts a walk: its first roster page is read,
/// and the walk is saved whatever comes of it.
pub proof fn law_where_a_page_is_read(
    cursor: Seq<char>,
    walk: WalkView,
    limits: SyncLimits,
    now_ms: int,
)
    ensures
        goes_on_at(
            opened(Some(cursor), walk, limits, now_ms),
            decoded(Some(cursor)),
            walk,
            false,
        ),
        opened(None, walk, limits, now_ms) matches StepView::Run(first, _) && first.stage is Roster
            && first.walk == walk && first.changed,
{
}

/// The first roster page of a walk takes the place of the one in hand. Where the
/// directory is old it is read next, from its start; else the page is read.
pub proof fn law_what_the_first_roster_page_does(fetch: FetchView, payload: Json, now_ms: int)
    requires
        fetch.stage is Roster,
    ensures
        ({
            let walk = with_roster(fetch.walk, payload, None);
            let step = resumed(fetch, Ok(payload), now_ms);
            if stale(walk, now_ms) {
                &&& step matches StepView::Run(next, _)
                &&& next.stage == StageView::Users(new_refresh(now_ms))
                &&& next.walk == walk
                &&& next.changed == fetch.changed
            } else {
                goes_on_at(step, fetch.position, walk, fetch.changed)
            }
        }),
{
}

/// A page of the directory is followed by the next one, as long as there is one
/// and it may be read; then the page is read with the names that were found.
pub proof fn law_what_a_directory_page_does(
    fetch: FetchView,
    reply: Result<Json, Error>,
    now_ms: int,
)
    ensures
        fetch.stage matches StageView::Users(refresh) ==> ({
            let (after, more) = absorbed(refresh, reply);
            let step = resumed(fetch, reply, now_ms);
            if more {
                &&& step matches StepView::Run(next, _)
                &&& next.stage == StageView::Users(after)
                &&& next.walk == fetch.walk
                &&& next.changed == fetch.changed
            } else {
                goes_on_at(step, fetch.position, with_directory(fetch.walk, after), fetch.changed)
            }
        }),
{
}

/// The next roster page takes the place of the one in hand, and the walk goes on
/// at its first channel. The page carries nothing.
pub proof fn law_what_the_next_roster_page_does(fetch: FetchView, payload: Json, now_ms: int)
    requires
        fetch.stage is Advance,
    ensures
        resumed(fetch, Ok(payload), now_ms) matches StepView::Done(page, saved) && {
            &&& page.records.len() == 0
            &&& page.versions.len() == 0
            &&& page.next_cursor == Some(
                encoded(CursorView { index: 0, history: None, thread: None, reply_page: None }),
            )
            &&& saved == Some(with_roster(fetch.walk, payload, fetch.walk.channels_cursor))
        },
{
}

// ---------------------------------------------------------------- where the walk goes

/// Whether a walk differs from another in its queue, its marks and what is
/// pending at most.
pub open spec fn keeps_roster_and_names(after: WalkView, walk: WalkView) -> bool {
    &&& after.channels == walk.channels
    &&& after.channels_cursor == walk.channels_cursor
    &&& after.users == walk.users
    &&& after.users_fetched_ms == walk.users_fetched_ms
}

/// A page of history queues the threads that its messages owe behind those that
/// are owed already; entering a channel drops those, and notes its newest
/// message. Nothing else changes.
pub proof fn law_what_a_history_page_queues(
    walk: WalkView,
    channel: Seq<char>,
    list: Seq<Json>,
    other: Seq<char>,
)
    ensures
        queued(walk, true, channel, list).threads == newly_owed(list, Seq::empty()).reverse(),
        queued(walk, false, channel, list).threads == walk.threads + newly_owed(
            list,
            walk.threads,
        ).reverse(),
        newest(list) matches Some(ts) ==> {
            &&& queued(walk, true, channel, list).pending.dom().contains(channel)
            &&& queued(walk, true, channel, list).pending[channel] == ts
        },
        newest(list) is None ==> queued(walk, true, channel, list).pending == walk.pending,
        other != channel ==> {
            &&& queued(walk, true, channel, list).pending.dom().contains(other)
                == walk.pending.dom().contains(other)
            &&& walk.pending.dom().contains(other) ==> queued(
                walk,
                true,
                channel,
                list,
            ).pending[other] == walk.pending[other]
        },
        queued(walk, false, channel, list).pending == walk.pending,
        queued(walk, true, channel, list).high_water == walk.high_water,
        queued(walk, false, channel, list).high_water == walk.high_water,
        keeps_roster_and_names(queued(walk, true, channel, list), walk),
        keeps_roster_and_names(queued(walk, false, channel, list), walk),
{
    assert(Seq::<Seq<char>>::empty() + newly_owed(list, Seq::empty()).reverse() =~= newly_owed(
        list,
        Seq::empty(),
    ).reverse());
}

/// Behind a page the walk goes into the thread at the end of the queue; where the
/// queue is empty, on through the history; and where that has no more, to the
/// start of the next channel, with what was pending as the mark.
pub proof fn law_where_the_walk_goes(
    walk: WalkView,
    index: nat,
    history: Option<Seq<char>>,
    channel: Seq<char>,
)
    ensures
        ({
            let (after, next) = onward(walk, index, history, channel);
            &&& keeps_roster_and_names(after, walk)
            &&& walk.threads.len() > 0 ==> {
                &&& next.index == index
                &&& next.history == history
                &&& next.thread == Some(walk.threads[walk.threads.len() - 1])
                &&& next.reply_page is None
                &&& after.threads == walk.threads.take(walk.threads.len() - 1)
                &&& after.high_water == walk.high_water
                &&& after.pending == walk.pending
            }
            &&& walk.threads.len() == 0 && history is Some ==> {
                &&& next.index == index
                &&& next.history == history
                &&& next.thread is None
                &&& next.reply_page is None
                &&& after == walk
            }
            &&& walk.threads.len() == 0 && history is None ==> {
                &&& next.index == index + 1
                &&& next.history is None
                &&& next.thread is None
                &&& next.reply_page is None
                &&& after == committed(walk, channel)
            }
        }),
{
}

/// A page of history leads on from the position it was asked for, with the
/// threads of its messages queued; a page of replies that goes on leads on in the
/// same thread; and one that does not leads on from the position in the history.
pub proof fn law_each_page_leads_on(
    walk: WalkView,
    position: CursorView,
    channel: Seq<char>,
    payload: Json,
    more: Seq<char>,
)
    ensures
        after_history(walk, position, channel, payload) == onward(
            queued(walk, position.history is None, channel, messages(payload)),
            position.index,
            moved(payload, position.history),
            channel,
        ),
        position.thread matches Some(parent) ==> {
            &&& after_replies(walk, position, channel, Some(more)).0 == walk
            &&& after_replies(walk, position, channel, Some(more)).1 matches Some(next)
            &&& next.index == position.index
            &&& next.history == position.history
            &&& next.thread == Some(parent)
            &&& next.reply_page == Some(more)
        },
        position.thread is None ==> after_replies(walk, position, channel, Some(more)).1 is None,
        after_replies(walk, position, channel, None).0 == onward(
            walk,
            position.index,
            position.history,
            channel,
        ).0,
        after_replies(walk, position, channel, None).1 == Some(
            onward(walk, position.index, position.history, channel).1,
        ),
{
}

// ---------------------------------------------------------------- replies

/// A page of history carries what its messages make in the channel at the
/// position, and reports where the walk goes on; the walk is saved.
pub proof fn law_what_a_page_of_history_does(fetch: FetchView, payload: Json, now_ms: int)
    requires
        sound(fetch),
        fetch.stage is History,
    ensures
        resumed(fetch, Ok(payload), now_ms) matches StepView::Done(page, saved) && ({
            let channel = fetch.walk.channels[fetch.position.index as int];
            let (after, next) = after_history(fetch.walk, fetch.position, channel.id, payload);
            &&& page.records == page_records(messages(payload), channel, fetch.walk.users, None)
            &&& page.versions == text_versions(messages(payload), channel, fetch.walk.users, None)
            &&& page.next_cursor == Some(encoded(next))
            &&& saved == Some(after)
        }),
{
}

/// A page of replies carries what its messages make in the channel at the
/// position, the parent left out, and reports where the walk goes on; the walk is
/// saved.
pub proof fn law_what_a_page_of_replies_does(fetch: FetchView, payload: Json, now_ms: int)
    requires
        sound(fetch),
        fetch.stage is Thread,
    ensures
        resumed(fetch, Ok(payload), now_ms) matches StepView::Done(page, saved) && ({
            let channel = fetch.walk.channels[fetch.position.index as int];
            let (after, next) = after_replies(
                fetch.walk,
                fetch.position,
                channel.id,
                moved(payload, fetch.position.reply_page),
            );
            &&& page.records == page_records(
                messages(payload),
                channel,
                fetch.walk.users,
                fetch.position.thread,
            )
            &&& page.versions == text_versions(
                messages(payload),
                channel,
                fetch.walk.users,
                fetch.position.thread,
            )
            &&& next matches Some(next) && page.next_cursor == Some(encoded(next))
            &&& saved == Some(after)
        }),
{
}

/// A channel or a thread that cannot be read is passed over: the page carries
/// nothing, the walk goes on at the next channel, without a queue, or behind the
/// thread, and is saved.
pub proof fn law_what_an_unreadable_page_does(fetch: FetchView, error: Error, now_ms: int)
    requires
        sound(fetch),
        !fatal(error),
    ensures
        fetch.stage is History ==> (resumed(fetch, Err(error), now_ms) matches StepView::Done(
            page,
            saved,
        ) && {
            &&& page.records.len() == 0
            &&& page.versions.len() == 0
            &&& page.next_cursor == Some(
                encoded(
                    CursorView {
                        index: fetch.position.index + 1,
                        history: None,
                        thread: None,
                        reply_page: None,
                    },
                ),
            )
            &&& saved matches Some(after)
            &&& keeps_roster_and_names(after, fetch.walk)
            &&& after.threads.len() == 0
            &&& after.high_water == fetch.walk.high_water
            &&& after.pending == fetch.walk.pending
        }),
        fetch.stage is Thread ==> (resumed(fetch, Err(error), now_ms) matches StepView::Done(
            page,
            saved,
        ) && ({
            let channel = fetch.walk.channels[fetch.position.index as int].id;
            let (after, next) = onward(
                fetch.walk,
                fetch.position.index,
                fetch.position.history,
                channel,
            );
            &&& page.records.len() == 0
            &&& page.versions.len() == 0
            &&& page.next_cursor == Some(encoded(next))
            &&& saved == Some(after)
        })),
{
}

// ---------------------------------------------------------------- what can be read

/// Whether a run looks back a number of days that dates can name, whatever the
/// clock shows.
pub open spec fn ordinary_depth(limits: SyncLimits) -> bool {
    limits.depth_days matches Some(days) ==> days <= MAX_DEPTH_DAYS
}

/// An ordinary run can begin any page, and take any reply whose page can be read:
/// nothing is refused but what cannot be counted.
pub proof fn law_ordinary_pages_are_not_refused(
    fetch: FetchView,
    reply: Result<Json, Error>,
    cursor: Option<Seq<char>>,
    walk: WalkView,
    limits: SyncLimits,
    now_ms: int,
)
    requires
        0 <= now_ms <= LAST_MILLI,
    ensures
        ordinary_depth(limits) ==> can_open(cursor, walk, limits, now_ms),
        can_open(None, walk, limits, now_ms),
        decoded(cursor).thread is Some ==> can_open(cursor, walk, limits, now_ms),
        decoded(cursor).index >= walk.channels.len() ==> can_open(cursor, walk, limits, now_ms),
        decoded(cursor).index < walk.channels.len() && walk.high_water.dom().contains(
            walk.channels[decoded(cursor).index as int].id,
        ) ==> can_open(cursor, walk, limits, now_ms),
        ordinary_depth(fetch.limits) && 0 <= fetch.walk.users_fetched_ms <= LAST_MILLI ==> {
            &&& fetch.stage is Roster || fetch.stage is Users || fetch.stage is Advance
                ==> can_resume(fetch, reply, now_ms)
        },
        fetch.stage is Advance ==> can_resume(fetch, reply, now_ms),
        fetch.stage is Roster && reply is Err ==> can_resume(fetch, reply, now_ms),
        fetch.stage is Thread || fetch.stage is History ==> (reply is Err ==> can_resume(
            fetch,
            reply,
            now_ms,
        )),
        reply matches Ok(payload) ==> {
            &&& fetch.stage is History && page_fits(messages(payload), fetch.walk.users, None)
                ==> can_resume(fetch, reply, now_ms)
            &&& fetch.stage is Thread && page_fits(
                messages(payload),
                fetch.walk.users,
                fetch.position.thread,
            ) ==> can_resume(fetch, reply, now_ms)
        },
{
    if let Some(days) = limits.depth_days {
        if days <= MAX_DEPTH_DAYS {
            law_ordinary_depths_are_in_range(now_ms, days as int);
        }
    }
    if let Some(days) = fetch.limits.depth_days {
        if days <= MAX_DEPTH_DAYS {
            law_ordinary_depths_are_in_range(now_ms, days as int);
        }
    }
}

/// The age of a directory can be counted wherever the two moments are ones that
/// the clock can show, and where there is no directory.
pub proof fn law_ordinary_ages_can_be_counted(walk: WalkView, now_ms: int)
    requires
        0 <= now_ms <= LAST_MILLI,
    ensures
        0 <= walk.users_fetched_ms <= LAST_MILLI ==> age_fits(walk, now_ms),
        walk.users == Map::<Seq<char>, Seq<char>>::empty() ==> age_fits(walk, now_ms),
{
}

// ---------------------------------------------------------------- what is remembered

/// What a cursor, a channel and a walk say is what they hold, field for field.
pub proof fn law_walks_say_what_they_hold(
    cursor: Cursor,
    channel: Channel,
    walk: WalkState,
    i: int,
)
    ensures
        cursor@.index == cursor.index,
        cursor.history matches Some(text) ==> cursor@.history == Some(text@),
        cursor.history is None ==> cursor@.history is None,
        cursor.thread matches Some(text) ==> cursor@.thread == Some(text@),
        cursor.thread is None ==> cursor@.thread is None,
        cursor.reply_page matches Some(text) ==> cursor@.reply_page == Some(text@),
        cursor.reply_page is None ==> cursor@.reply_page is None,
        channel@.id == channel.id@,
        channel@.name == channel.name@,
        walk@.channels.len() == walk.channels@.len(),
        0 <= i < walk.channels@.len() ==> walk@.channels[i] == walk.channels@[i]@,
        walk.channels_cursor matches Some(text) ==> walk@.channels_cursor == Some(text@),
        walk.channels_cursor is None ==> walk@.channels_cursor is None,
        walk@.threads.len() == walk.threads@.len(),
        0 <= i < walk.threads@.len() ==> walk@.threads[i] == walk.threads@[i]@,
        walk@.high_water == walk.high_water@,
        walk@.pending == walk.pending@,
        walk@.users == walk.users@,
        walk@.users_fetched_ms == walk.users_fetched_ms,
{
}

} // verus!
