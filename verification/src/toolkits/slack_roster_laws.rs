//! What the roster and the user directory give: which channels there are, and
//! what people are called.

use vstd::prelude::*;
use vstd::string::*;

use super::slack::{
    absorbed, committed, listed_channel, listed_channels, members, moved, new_refresh, newest,
    newly_owed, no_walk, oldest, roster_entries, stale, with_directory, with_members, with_roster,
    RefreshView, UsersRefresh, WalkView,
};
use super::slack_page_laws::lists;
use super::slack_parse::{marker, owed};
use crate::clock::days_before;
use crate::decimal::signed_digits;
use crate::error::Error;
use crate::json::Json;
use crate::pipeline::{law_items_come_from_the_first_list, pick, pointed};

verus! {

// ---------------------------------------------------------------- the roster

/// The first of three lists that a payload holds, for any three places.
proof fn lemma_first_of_three(payload: Json, a: Seq<char>, b: Seq<char>, c: Seq<char>)
    ensures
        ({
            let items = crate::pipeline::first_items(payload, seq![a, b, c]);
            &&& pointed(payload, a) matches Some(Json::Array(list)) ==> items == list@
            &&& !lists(payload, a) ==> {
                &&& pointed(payload, b) matches Some(Json::Array(list)) ==> items == list@
                &&& !lists(payload, b) ==> {
                    &&& pointed(payload, c) matches Some(Json::Array(list)) ==> items == list@
                    &&& !lists(payload, c) ==> items.len() == 0
                }
            }
        }),
{
    let places = seq![a, b, c];
    let none = Seq::<Seq<char>>::empty();
    law_items_come_from_the_first_list(payload, none, a, places.skip(1));
    assert(none.push(a) + places.skip(1) =~= places);
    if !lists(payload, a) {
        law_items_come_from_the_first_list(payload, places.take(1), b, places.skip(2));
        assert(places.take(1).push(b) + places.skip(2) =~= places);
        if !lists(payload, b) {
            law_items_come_from_the_first_list(payload, places.take(2), c, places.skip(3));
            assert(places.take(2).push(c) + places.skip(3) =~= places);
            if !lists(payload, c) {
                law_items_come_from_the_first_list(payload, places, a, none);
            }
        }
    }
}

/// The roster is the list under `channels`, and the directory the one under
/// `members`, in the envelope `data`, else in none, else in two.
pub proof fn law_rosters_and_directories_stand_in_an_envelope(payload: Json)
    ensures
        pointed(payload, "/data/channels"@) matches Some(Json::Array(list)) ==> roster_entries(
            payload,
        ) == list@,
        !lists(payload, "/data/channels"@) ==> {
            &&& pointed(payload, "/channels"@) matches Some(Json::Array(list)) ==> roster_entries(
                payload,
            ) == list@
            &&& !lists(payload, "/channels"@) ==> {
                &&& pointed(payload, "/data/data/channels"@) matches Some(Json::Array(list))
                    ==> roster_entries(payload) == list@
                &&& !lists(payload, "/data/data/channels"@) ==> roster_entries(payload).len() == 0
            }
        },
        pointed(payload, "/data/members"@) matches Some(Json::Array(list)) ==> members(payload)
            == list@,
        !lists(payload, "/data/members"@) ==> {
            &&& pointed(payload, "/members"@) matches Some(Json::Array(list)) ==> members(payload)
                == list@
            &&& !lists(payload, "/members"@) ==> {
                &&& pointed(payload, "/data/data/members"@) matches Some(Json::Array(list))
                    ==> members(payload) == list@
                &&& !lists(payload, "/data/data/members"@) ==> members(payload).len() == 0
            }
        },
{
    lemma_first_of_three(payload, "/data/channels"@, "/channels"@, "/data/data/channels"@);
    lemma_first_of_three(payload, "/data/members"@, "/members"@, "/data/data/members"@);
}

/// The id that an entry of the roster has.
pub open spec fn entry_id(entry: Json) -> Option<Seq<char>> {
    match pick(entry, seq!["id"@]) {
        Some(id) => Some(id),
        None => pick(entry, seq!["data.id"@]),
    }
}

/// The name that an entry of the roster has.
pub open spec fn entry_name(entry: Json) -> Option<Seq<char>> {
    match pick(entry, seq!["name"@]) {
        Some(name) => Some(name),
        None => pick(entry, seq!["data.name"@]),
    }
}

/// An entry is a channel exactly when it has an id. The channel goes by the
/// entry's name, else by its id.
pub proof fn law_channels_have_ids(entry: Json)
    ensures
        listed_channel(entry) is Some <==> entry_id(entry) is Some,
        listed_channel(entry) matches Some(channel) ==> {
            &&& Some(channel.id) == entry_id(entry)
            &&& entry_name(entry) matches Some(name) ==> channel.name == name
            &&& entry_name(entry) is None ==> channel.name == channel.id
        },
{
    reveal_with_fuel(pick, 3);
    assert(seq!["id"@, "data.id"@].drop_first() =~= seq!["data.id"@]);
    assert(seq!["name"@, "data.name"@].drop_first() =~= seq!["data.name"@]);
    assert(seq!["id"@].drop_first() =~= Seq::empty());
    assert(seq!["name"@].drop_first() =~= Seq::empty());
}

/// The channels of a roster are those of its entries, in their order, and no
/// entry is lost.
pub proof fn law_channels_are_listed_in_order(a: Seq<Json>, b: Seq<Json>, entry: Json)
    ensures
        listed_channels(a + b) == listed_channels(a) + listed_channels(b),
        listed_channel(entry) matches Some(channel) ==> listed_channels(seq![entry]) == seq![
            channel,
        ],
        listed_channel(entry) is None ==> listed_channels(seq![entry]).len() == 0,
    decreases b.len(),
{
    reveal_with_fuel(listed_channels, 2);
    assert(seq![entry].drop_last() =~= Seq::empty());
    if b.len() == 0 {
        assert(a + b =~= a);
        assert(listed_channels(a) + listed_channels(b) =~= listed_channels(a));
    } else {
        law_channels_are_listed_in_order(a, b.drop_last(), entry);
        assert((a + b).drop_last() =~= a + b.drop_last());
        assert((a + b).last() == b.last());
        assert(listed_channels(a + b) =~= listed_channels(a) + listed_channels(b));
    }
}

/// A marker is followed exactly when it is not the one that was asked with.
pub proof fn law_markers_that_move_are_followed(payload: Json, cursor: Option<Seq<char>>)
    ensures
        marker(payload) is Some && marker(payload) != cursor ==> moved(payload, cursor) == marker(
            payload,
        ),
        marker(payload) == cursor || marker(payload) is None ==> moved(payload, cursor) is None,
{
}

/// A roster page takes the place of the one in hand, and changes nothing else of
/// what the walk remembers.
pub proof fn law_roster_page_takes_the_place_of_the_last(
    walk: WalkView,
    payload: Json,
    cursor: Option<Seq<char>>,
)
    ensures
        ({
            let after = with_roster(walk, payload, cursor);
            &&& after.channels == listed_channels(roster_entries(payload))
            &&& after.channels_cursor == moved(payload, cursor)
            &&& after.threads == walk.threads
            &&& after.high_water == walk.high_water
            &&& after.pending == walk.pending
            &&& after.users == walk.users
            &&& after.users_fetched_ms == walk.users_fetched_ms
        }),
{
}

// ---------------------------------------------------------------- the directory

/// The name that an entry of the directory has: the display name, else the real
/// name, else the plain one.
pub open spec fn person_name(entry: Json) -> Option<Seq<char>> {
    match pick(entry, seq!["profile.display_name"@]) {
        Some(name) => Some(name),
        None => match pick(entry, seq!["real_name"@]) {
            Some(name) => Some(name),
            None => pick(entry, seq!["name"@]),
        },
    }
}

/// Whether an entry names `id`.
pub open spec fn names(entry: Json, id: Seq<char>) -> bool {
    pick(entry, seq!["id"@]) == Some(id) && person_name(entry) is Some
}

/// The three places of a name, one after the other.
proof fn lemma_person_name(entry: Json)
    ensures
        pick(entry, seq!["profile.display_name"@, "real_name"@, "name"@]) == person_name(entry),
{
    reveal_with_fuel(pick, 4);
    let places = seq!["profile.display_name"@, "real_name"@, "name"@];
    assert(places.drop_first() =~= seq!["real_name"@, "name"@]);
    assert(places.drop_first().drop_first() =~= seq!["name"@]);
    assert(seq!["profile.display_name"@].drop_first() =~= Seq::empty());
    assert(seq!["real_name"@].drop_first() =~= Seq::empty());
    assert(seq!["name"@].drop_first() =~= Seq::empty());
}

/// Entries add names to a directory: an id that an entry names is in it, under
/// the name that the last such entry gives it, and an id that none names is as it
/// was.
pub proof fn law_entries_add_names(
    directory: Map<Seq<char>, Seq<char>>,
    entries: Seq<Json>,
    id: Seq<char>,
)
    ensures
        ({
            let after = with_members(directory, entries);
            &&& (forall|j: int| 0 <= j < entries.len() ==> !names(#[trigger] entries[j], id)) ==> {
                &&& after.dom().contains(id) <==> directory.dom().contains(id)
                &&& directory.dom().contains(id) ==> after[id] == directory[id]
            }
            &&& forall|j: int|
                #![trigger entries[j]]
                0 <= j < entries.len() && names(entries[j], id) && (forall|k: int|
                    j < k < entries.len() ==> !names(#[trigger] entries[k], id)) ==> {
                    &&& after.dom().contains(id)
                    &&& Some(after[id]) == person_name(entries[j])
                }
        }),
    decreases entries.len(),
{
    if entries.len() > 0 {
        let front = entries.drop_last();
        let before = with_members(directory, front);
        let after = with_members(directory, entries);
        let last = entries.len() - 1;
        law_entries_add_names(directory, front, id);
        lemma_person_name(entries.last());
        assert(entries.last() == entries[last]);
        if forall|j: int| 0 <= j < entries.len() ==> !names(#[trigger] entries[j], id) {
            assert forall|j: int| 0 <= j < front.len() implies !names(#[trigger] front[j], id) by {
                assert(front[j] == entries[j]);
            }
            assert(!names(entries[last], id));
        }
        assert forall|j: int|
            #![trigger entries[j]]
            0 <= j < entries.len() && names(entries[j], id) && (forall|k: int|
                j < k < entries.len() ==> !names(#[trigger] entries[k], id)) implies {
            &&& after.dom().contains(id)
            &&& Some(after[id]) == person_name(entries[j])
        } by {
            if j < last {
                assert(front[j] == entries[j]);
                assert forall|k: int| j < k < front.len() implies !names(
                    #[trigger] front[k],
                    id,
                ) by {
                    assert(front[k] == entries[k]);
                }
                assert(!names(entries[last], id));
            }
        }
    }
}

/// A reading of the directory keeps what earlier pages named: every id is still
/// there, with the same name unless the page names it anew, and every entry of
/// the page with an id and a name is there too. Nothing else is.
pub proof fn law_a_directory_page_adds_to_the_others(
    refresh: RefreshView,
    payload: Json,
    id: Seq<char>,
)
    requires
        refresh.pages_left > 0,
    ensures
        ({
            let after = absorbed(refresh, Ok(payload)).0.directory;
            let entries = members(payload);
            let named = exists|j: int| 0 <= j < entries.len() && names(#[trigger] entries[j], id);
            &&& after.dom().contains(id) <==> refresh.directory.dom().contains(id) || named
            &&& refresh.directory.dom().contains(id) && !named ==> after[id]
                == refresh.directory[id]
            &&& named ==> exists|j: int|
                0 <= j < entries.len() && names(#[trigger] entries[j], id) && person_name(
                    entries[j],
                ) == Some(after[id])
        }),
{
    let entries = members(payload);
    law_entries_add_names(refresh.directory, entries, id);
    if exists|j: int| 0 <= j < entries.len() && names(#[trigger] entries[j], id) {
        let j = lemma_last_to_name(entries, id);
        assert(names(entries[j], id));
    }
}

/// Where an entry names an id, one is the last to do so.
proof fn lemma_last_to_name(entries: Seq<Json>, id: Seq<char>) -> (j: int)
    requires
        exists|j: int| 0 <= j < entries.len() && names(#[trigger] entries[j], id),
    ensures
        0 <= j < entries.len(),
        names(entries[j], id),
        forall|k: int| j < k < entries.len() ==> !names(#[trigger] entries[k], id),
    decreases entries.len(),
{
    let last = entries.len() - 1;
    if names(entries[last], id) {
        last
    } else {
        let front = entries.drop_last();
        let w = choose|w: int| 0 <= w < entries.len() && names(#[trigger] entries[w], id);
        assert(front[w] == entries[w]);
        let j = lemma_last_to_name(front, id);
        assert(front[j] == entries[j]);
        assert forall|k: int| j < k < entries.len() implies !names(#[trigger] entries[k], id) by {
            if k < last {
                assert(front[k] == entries[k]);
            }
        }
        j
    }
}

/// A reading of the directory starts with no names, at its first page, with five
/// pages to read; each page takes one off, and leads to the next where it names a
/// marker that moves and a page is left. A failure ends it, with the names found
/// so far.
pub proof fn law_directory_is_read_page_by_page(
    refresh: RefreshView,
    payload: Json,
    error: Error,
    now_ms: int,
)
    requires
        refresh.pages_left > 0,
    ensures
        new_refresh(now_ms).directory.dom() == Set::<Seq<char>>::empty(),
        new_refresh(now_ms).cursor is None,
        new_refresh(now_ms).pages_left == 5,
        new_refresh(now_ms).now_ms == now_ms,
        ({
            let (after, more) = absorbed(refresh, Ok(payload));
            &&& after.pages_left == refresh.pages_left - 1
            &&& after.now_ms == refresh.now_ms
            &&& after.cursor == moved(payload, refresh.cursor)
            &&& more <==> moved(payload, refresh.cursor) is Some && refresh.pages_left > 1
        }),
        absorbed(refresh, Err(error)).0 == refresh,
        !absorbed(refresh, Err(error)).1,
{
}

/// A reading that found names takes the place of the directory that the walk
/// had, and is dated; one that found none changes nothing. Neither touches
/// anything else.
pub proof fn law_directory_that_was_read_replaces_the_old(
    walk: WalkView,
    refresh: RefreshView,
    id: Seq<char>,
)
    ensures
        ({
            let after = with_directory(walk, refresh);
            &&& refresh.directory.dom().contains(id) ==> {
                &&& after.users == refresh.directory
                &&& after.users_fetched_ms == refresh.now_ms
            }
            &&& refresh.directory == Map::<Seq<char>, Seq<char>>::empty() ==> after == walk
            &&& after.channels == walk.channels
            &&& after.channels_cursor == walk.channels_cursor
            &&& after.threads == walk.threads
            &&& after.high_water == walk.high_water
            &&& after.pending == walk.pending
        }),
{
}

/// A directory is old when there is none, or when more than a day has passed
/// since it was read, and not before.
pub proof fn law_directories_grow_old_in_a_day(walk: WalkView, id: Seq<char>, now_ms: int)
    ensures
        walk.users == Map::<Seq<char>, Seq<char>>::empty() ==> stale(walk, now_ms),
        walk.users.dom().contains(id) ==> (stale(walk, now_ms) <==> now_ms
            - walk.users_fetched_ms > 24 * 60 * 60 * 1000),
{
}

// ---------------------------------------------------------------- marks

/// A walk that has not begun remembers nothing.
pub proof fn law_new_walk_remembers_nothing(channel: Seq<char>)
    ensures
        no_walk().channels.len() == 0,
        no_walk().channels_cursor is None,
        no_walk().threads.len() == 0,
        !no_walk().high_water.dom().contains(channel),
        !no_walk().pending.dom().contains(channel),
        !no_walk().users.dom().contains(channel),
{
}

/// A channel is read from its mark; without one, from so many days back, to the
/// second; without a bound, from its start.
pub proof fn law_where_a_channel_is_read_from(
    walk: WalkView,
    channel: Seq<char>,
    days: u32,
    depth_days: Option<u32>,
    now_ms: int,
)
    ensures
        walk.high_water.dom().contains(channel) ==> oldest(walk, channel, depth_days, now_ms)
            == Some(walk.high_water[channel]),
        !walk.high_water.dom().contains(channel) ==> {
            &&& oldest(walk, channel, None, now_ms) is None
            &&& oldest(walk, channel, Some(days), now_ms) == Some(
                signed_digits(now_ms / 1000 - days * 86_400) + ".000000"@,
            )
        },
{
    assert(days_before(now_ms, days as int) == now_ms / 1000 - days * 86_400);
}

/// What is pending for a channel becomes its mark, and is pending no longer. No
/// other channel and nothing else is touched, and where nothing is pending
/// nothing changes.
pub proof fn law_pending_is_promoted(walk: WalkView, channel: Seq<char>, other: Seq<char>)
    ensures
        ({
            let after = committed(walk, channel);
            &&& walk.pending.dom().contains(channel) ==> {
                &&& after.high_water.dom().contains(channel)
                &&& after.high_water[channel] == walk.pending[channel]
                &&& !after.pending.dom().contains(channel)
            }
            &&& !walk.pending.dom().contains(channel) ==> after == walk
            &&& other != channel ==> {
                &&& after.high_water.dom().contains(other) == walk.high_water.dom().contains(other)
                &&& after.high_water[other] == walk.high_water[other]
                &&& after.pending.dom().contains(other) == walk.pending.dom().contains(other)
                &&& walk.pending.dom().contains(other) ==> after.pending[other]
                    == walk.pending[other]
            }
            &&& after.channels == walk.channels
            &&& after.channels_cursor == walk.channels_cursor
            &&& after.threads == walk.threads
            &&& after.users == walk.users
            &&& after.users_fetched_ms == walk.users_fetched_ms
        }),
{
}

/// The newest message of a page is the first one to have a timestamp.
pub proof fn law_newest_is_the_first_timestamp(
    before: Seq<Json>,
    message: Json,
    after: Seq<Json>,
)
    requires
        forall|i: int| 0 <= i < before.len() ==> pick(#[trigger] before[i], seq!["ts"@]) is None,
    ensures
        newest(before) is None,
        pick(message, seq!["ts"@]) matches Some(ts) ==> newest(before.push(message) + after)
            == Some(ts),
    decreases before.len(),
{
    let all = before.push(message) + after;
    if before.len() > 0 {
        let rest = before.drop_first();
        assert forall|i: int| 0 <= i < rest.len() implies pick(
            #[trigger] rest[i],
            seq!["ts"@],
        ) is None by {
            assert(rest[i] == before[i + 1]);
        }
        law_newest_is_the_first_timestamp(rest, message, after);
        assert(all.drop_first() =~= rest.push(message) + after);
        assert(all[0] == before[0]);
    } else {
        assert(all[0] == message);
    }
}

/// What a page owes is read message by message, in their order: the second part
/// of a page adds what the first did not name.
pub proof fn law_owed_threads_come_in_order(
    a: Seq<Json>,
    b: Seq<Json>,
    message: Json,
    queue: Seq<Seq<char>>,
)
    ensures
        newly_owed(a + b, queue) == newly_owed(a, queue) + newly_owed(
            b,
            queue + newly_owed(a, queue),
        ),
        owed(message) matches Some(ts) ==> newly_owed(seq![message], queue) == (if queue.contains(
            ts,
        ) {
            Seq::empty()
        } else {
            seq![ts]
        }),
        owed(message) is None ==> newly_owed(seq![message], queue).len() == 0,
    decreases b.len(),
{
    reveal_with_fuel(newly_owed, 2);
    assert(seq![message].drop_last() =~= Seq::empty());
    let first = newly_owed(a, queue);
    if b.len() == 0 {
        assert(a + b =~= a);
        assert(first + newly_owed(b, queue + first) =~= first);
    } else {
        law_owed_threads_come_in_order(a, b.drop_last(), message, queue);
        assert((a + b).drop_last() =~= a + b.drop_last());
        assert((a + b).last() == b.last());
        let second = newly_owed(b.drop_last(), queue + first);
        if let Some(ts) = owed(b.last()) {
            lemma_contains_joined(first, second, ts);
            lemma_contains_joined(queue, first, ts);
            assert((first + second).push(ts) =~= first + second.push(ts));
        }
    }
}

/// A joined list holds what either part holds.
proof fn lemma_contains_joined(a: Seq<Seq<char>>, b: Seq<Seq<char>>, x: Seq<char>)
    ensures
        (a + b).contains(x) <==> a.contains(x) || b.contains(x),
{
    let all = a + b;
    if a.contains(x) {
        let i = choose|i: int| 0 <= i < a.len() && a[i] == x;
        assert(all[i] == x);
    }
    if b.contains(x) {
        let i = choose|i: int| 0 <= i < b.len() && b[i] == x;
        assert(all[a.len() + i] == x);
    }
    if all.contains(x) {
        let i = choose|i: int| 0 <= i < all.len() && all[i] == x;
        if i < a.len() {
            assert(a[i] == x);
        } else {
            assert(b[i - a.len()] == x);
        }
    }
}

/// What a reading of the directory says is what it holds, field for field.
pub proof fn law_readings_say_what_they_hold(refresh: UsersRefresh)
    ensures
        refresh@.directory == refresh.directory@,
        refresh.cursor matches Some(text) ==> refresh@.cursor == Some(text@),
        refresh.cursor is None ==> refresh@.cursor is None,
        refresh@.pages_left == refresh.pages_left,
        refresh@.now_ms == refresh.now_ms,
{
}

} // verus!
