//! The Slack provider.
//!
//! Slack is *scoped*. Its history action reads one channel and requires the
//! channel's id, so a sync walks the conversation list and pages each channel
//! in turn, remembering a position per channel. It is scoped twice over: a
//! channel's history carries only the top of each conversation, and the
//! replies under a message are a second read with a cursor of their own. A
//! walk detours into a message's thread before it reads the next page of
//! history, so that a question is never ingested without its answer.
//!
//! # The cursor
//!
//! The host stores the string a page reports and hands it back on the next
//! call. The walk fits into it as `"<index>|<history>|<thread>|<thread
//! cursor>"`, and each call reads one page of one channel or one thread.
//!
//! A position is relative to the roster page in hand: the first position of
//! the next roster page is written as the first position of this one is, and
//! is another place.
//!
//! A reply that names the marker it was asked with leads nowhere: following it
//! would read the same page for ever. It is read as a reply that names none.
//!
//! # What lives beside the cursor
//!
//! The channel roster, the queue of threads owed by the channel being read,
//! the per-channel high-water marks and the user directory are kept under a
//! key of their own: a cursor is a position, and a roster is not one.
//!
//! # The high-water mark
//!
//! Each channel records the newest message the walk has finished reading, and
//! later runs ask only for what is newer. The mark advances when a channel is
//! **exhausted**, never when a page of it is read, and a channel is not
//! exhausted until the threads it owes are drained.
//!
//! # What is not read
//!
//! Direct messages and group DMs. The roster asks for public and private
//! channels only.
//!
//! The bytes of files. A file that is attached to a message is a record beside
//! that of the message: it names the file and links to it.

use vstd::prelude::*;
use vstd::string::*;

use super::slack_catalog::{catalog, curated};
use super::slack_parse::{
    fatal, has_replies, is_fatal, marker, messages, messages_in, next_cursor, owed, page_fits,
    page_records, records_from, stamp, text_versions,
};
use crate::clock::{
    days_before, depth_in_range, is_reading, now_millis, seconds_before, MAX_DEPTH_DAYS,
};
use crate::decimal::{
    digits, push_digits, read_unsigned, signed_digits, unsigned_up_to, write_signed,
};
use crate::error::Error;
use crate::json::{referents, Json};
use crate::pipeline::{first_array, first_items, pick, pick_one, pick_three, pick_two};
use crate::provider::{query, Argument, ArgumentView, Request, RequestView, SyncLimits};
use crate::records::{
    pairs_view, records_view, ConnectorRecord, PageView, ProviderPage, ProviderUserProfile,
};
use crate::scope::{tools_view, CuratedTool};
use crate::table::Table;
use crate::text::{cut, cut_once, option_str_view, option_view, same, strings_view, strs_view};

verus! {

/// Lists the conversations the connected account can read.
pub const ACTION_CONVERSATIONS: &'static str = "SLACK_LIST_CONVERSATIONS";

/// Reads one page of one conversation.
pub const ACTION_HISTORY: &'static str = "SLACK_FETCH_CONVERSATION_HISTORY";

/// Reads one page of the replies under one message.
pub const ACTION_THREAD: &'static str = "SLACK_FETCH_MESSAGE_THREAD_FROM_A_CONVERSATION";

/// Reads the workspace the connection belongs to.
pub const PROFILE_ACTION: &'static str = "SLACK_FETCH_TEAM_INFO";

/// Reads the directory used to turn a user's id into a name.
pub const ACTION_USERS: &'static str = "SLACK_LIST_ALL_USERS";

/// Conversations asked for per roster page.
pub const CHANNELS_PER_PAGE: usize = 200;

/// Ceiling on messages asked for in one history or thread page.
pub const MESSAGES_PER_PAGE: usize = 200;

/// Directory entries asked for per page.
pub const USERS_PER_PAGE: usize = 200;

/// Most directory pages read in one walk.
///
/// The directory only turns ids into names, so it is bounded rather than
/// walked to the end.
pub const USER_PAGES_MAX: usize = 5;

/// How long a cached user directory is trusted, in milliseconds: a day.
pub const USERS_TTL_MS: i64 = 86_400_000;

// ---------------------------------------------------------------- the cursor

/// Where the walk is: which channel, where in its history, and which of its
/// threads is being drained.
///
/// `history` keeps its meaning while a thread is being read: it is where the
/// channel resumes once the detour ends.
#[derive(Debug, PartialEq, Eq)]
pub struct Cursor {
    /// Position in the roster page held in [`WalkState::channels`].
    pub index: usize,
    /// Slack's own position inside that channel's history, if part way in.
    pub history: Option<String>,
    /// The message whose replies are being read, if the walk is in a thread.
    pub thread: Option<String>,
    /// Slack's position inside those replies, if part way in.
    pub reply_page: Option<String>,
}

/// What a cursor says.
#[verifier::ext_equal]
pub struct CursorView {
    /// See [`Cursor::index`].
    pub index: nat,
    /// See [`Cursor::history`].
    pub history: Option<Seq<char>>,
    /// See [`Cursor::thread`].
    pub thread: Option<Seq<char>>,
    /// See [`Cursor::reply_page`].
    pub reply_page: Option<Seq<char>>,
}

impl View for Cursor {
    type V = CursorView;

    open spec fn view(&self) -> CursorView {
        CursorView {
            index: self.index as nat,
            history: option_view(self.history),
            thread: option_view(self.thread),
            reply_page: option_view(self.reply_page),
        }
    }
}

/// A position in the history of a channel.
pub open spec fn at_history(index: nat, history: Option<Seq<char>>) -> CursorView {
    CursorView { index, history, thread: None, reply_page: None }
}

/// A position in the replies under a message.
pub open spec fn at_thread(
    index: nat,
    history: Option<Seq<char>>,
    thread: Seq<char>,
    reply_page: Option<Seq<char>>,
) -> CursorView {
    CursorView { index, history, thread: Some(thread), reply_page }
}

/// An optional field in writing.
pub open spec fn field(text: Option<Seq<char>>) -> Seq<char> {
    match text {
        Some(text) => text,
        None => Seq::empty(),
    }
}

/// A position in writing.
pub open spec fn encoded(position: CursorView) -> Seq<char> {
    digits(position.index) + seq!['|'] + field(position.history) + seq!['|'] + field(
        position.thread,
    ) + seq!['|'] + field(position.reply_page)
}

/// A field of a written position; an empty one stands for none.
pub open spec fn filled(text: Option<Seq<char>>) -> Option<Seq<char>> {
    match text {
        Some(text) if text.len() > 0 => Some(text),
        _ => None,
    }
}

/// What follows the first bar of an optional text.
pub open spec fn rest_of(text: Option<Seq<char>>) -> Option<Seq<char>> {
    match text {
        Some(text) => cut(text, '|').1,
        None => None,
    }
}

/// What precedes the first bar of an optional text.
pub open spec fn head_of(text: Option<Seq<char>>) -> Option<Seq<char>> {
    match text {
        Some(text) => Some(cut(text, '|').0),
        None => None,
    }
}

/// The index that a written position starts with, if it starts with one.
pub open spec fn index_of(raw: Option<Seq<char>>) -> Option<nat> {
    match head_of(raw) {
        Some(text) => unsigned_up_to(text, usize::MAX as nat),
        None => None,
    }
}

/// The position that a text spells: the first of all, unless it starts with an
/// index. The fields stand between the first three bars, and one that is
/// missing or empty counts as none.
pub open spec fn decoded(raw: Option<Seq<char>>) -> CursorView {
    match index_of(raw) {
        Some(index) => CursorView {
            index,
            history: filled(head_of(rest_of(raw))),
            thread: filled(head_of(rest_of(rest_of(raw)))),
            reply_page: filled(rest_of(rest_of(rest_of(raw)))),
        },
        None => at_history(0, None),
    }
}

/// The slice of an optional text.
pub(crate) fn borrowed(text: &Option<String>) -> (slice: Option<&str>)
    ensures
        option_str_view(slice) == option_view(*text),
{
    match text {
        Some(text) => Some(text.as_str()),
        None => None,
    }
}

/// An optional text once more.
pub(crate) fn copy_text(text: &Option<String>) -> (copy: Option<String>)
    ensures
        option_view(copy) == option_view(*text),
{
    match text {
        Some(text) => Some(text.clone()),
        None => None,
    }
}

/// The texts around the first bar of an optional text.
fn bar<'a>(text: Option<&'a str>) -> (parts: (Option<&'a str>, Option<&'a str>))
    ensures
        option_str_view(parts.0) == head_of(option_str_view(text)),
        option_str_view(parts.1) == rest_of(option_str_view(text)),
{
    match text {
        Some(text) => match cut_once(text, '|') {
            Some((head, rest)) => (Some(head), Some(rest)),
            None => (Some(text), None),
        },
        None => (None, None),
    }
}

/// A field of a written position; an empty one stands for none.
fn owned(text: Option<&str>) -> (field: Option<String>)
    ensures
        option_view(field) == filled(option_str_view(text)),
{
    match text {
        Some(text) => if text.unicode_len() > 0 {
            Some(text.to_owned())
        } else {
            None
        },
        None => None,
    }
}

impl Cursor {
    /// A cursor naming `index`, at `history` within it, reading no thread.
    pub fn new(index: usize, history: Option<String>) -> (cursor: Self)
        ensures
            cursor@ == at_history(index as nat, option_view(history)),
    {
        Cursor { index, history, thread: None, reply_page: None }
    }

    /// A cursor part way through the replies under `thread`.
    pub fn in_thread(
        index: usize,
        history: Option<String>,
        thread: String,
        reply_page: Option<String>,
    ) -> (cursor: Self)
        ensures
            cursor@ == at_thread(index as nat, option_view(history), thread@, option_view(reply_page)),
    {
        Cursor { index, history, thread: Some(thread), reply_page }
    }

    /// Read a cursor the host handed back.
    ///
    /// A cursor that does not parse restarts the walk rather than failing it:
    /// what was ingested already is skipped, so the cost of being wrong here
    /// is requests. A cursor of fewer fields reads as "not in a thread".
    pub fn decode(raw: Option<&str>) -> (cursor: Self)
        ensures
            cursor@ == decoded(option_str_view(raw)),
    {
        let (head, after_index) = bar(raw);
        let index: Option<u64> = match head {
            Some(text) => read_unsigned(text, usize::MAX as u64),
            None => None,
        };
        match index {
            Some(index) => {
                let (history, after_history) = bar(after_index);
                let (thread, reply_page) = bar(after_history);
                Cursor {
                    index: index as usize,
                    history: owned(history),
                    thread: owned(thread),
                    reply_page: owned(reply_page),
                }
            },
            None => Cursor::new(0, None),
        }
    }

    /// Render this position for the host to store.
    pub fn encode(&self) -> (text: String)
        ensures
            text@ == encoded(self@),
    {
        let mut text = String::new();
        push_digits(&mut text, self.index as u64);
        text.push('|');
        push_field(&mut text, &self.history);
        text.push('|');
        push_field(&mut text, &self.thread);
        text.push('|');
        push_field(&mut text, &self.reply_page);
        assert(text@ =~= encoded(self@));
        text
    }
}

/// Appends an optional field to `out`.
fn push_field(out: &mut String, text: &Option<String>)
    ensures
        final(out)@ == old(out)@ + field(option_view(*text)),
{
    match text {
        Some(text) => {
            out.append(text.as_str());
        },
        None => {
            assert(out@ + Seq::<char>::empty() =~= out@);
        },
    }
}

// ---------------------------------------------------------------- the walk

/// One conversation the walk knows about.
#[derive(Debug)]
pub struct Channel {
    /// Slack channel id, e.g. `C0123ABCD`.
    pub id: String,
    /// Channel name without the leading `#`.
    pub name: String,
}

/// What a channel is called.
#[verifier::ext_equal]
pub struct ChannelView {
    /// See [`Channel::id`].
    pub id: Seq<char>,
    /// See [`Channel::name`].
    pub name: Seq<char>,
}

impl View for Channel {
    type V = ChannelView;

    open spec fn view(&self) -> ChannelView {
        ChannelView { id: self.id@, name: self.name@ }
    }
}

impl Clone for Channel {
    /// The same channel once more.
    fn clone(&self) -> (channel: Self)
        ensures
            channel@ == self@,
    {
        Channel { id: self.id.clone(), name: self.name.clone() }
    }
}

/// What each channel of a list is called.
pub open spec fn channels_view(channels: Seq<Channel>) -> Seq<ChannelView> {
    channels.map_values(|channel: Channel| channel@)
}

/// What the walk remembers between pages and between runs.
#[derive(Debug)]
pub struct WalkState {
    /// The roster page being walked.
    pub channels: Vec<Channel>,
    /// Where the next roster page starts, when there is one.
    pub channels_cursor: Option<String>,
    /// Messages in the channel being read whose replies are still owed.
    pub threads: Vec<String>,
    /// Newest message id fully read per channel, `channel id -> Slack ts`.
    pub high_water: Table,
    /// Newest message id *seen* per channel, promoted once the channel ends.
    pub pending: Table,
    /// `user id -> display name`, for resolving mentions and authors.
    pub users: Table,
    /// When the directory was read, in milliseconds since the Unix epoch.
    pub users_fetched_ms: i64,
}

/// What a walk remembers.
#[verifier::ext_equal]
pub struct WalkView {
    /// See [`WalkState::channels`].
    pub channels: Seq<ChannelView>,
    /// See [`WalkState::channels_cursor`].
    pub channels_cursor: Option<Seq<char>>,
    /// See [`WalkState::threads`].
    pub threads: Seq<Seq<char>>,
    /// See [`WalkState::high_water`].
    pub high_water: Map<Seq<char>, Seq<char>>,
    /// See [`WalkState::pending`].
    pub pending: Map<Seq<char>, Seq<char>>,
    /// See [`WalkState::users`].
    pub users: Map<Seq<char>, Seq<char>>,
    /// See [`WalkState::users_fetched_ms`].
    pub users_fetched_ms: int,
}

impl View for WalkState {
    type V = WalkView;

    open spec fn view(&self) -> WalkView {
        WalkView {
            channels: channels_view(self.channels@),
            channels_cursor: option_view(self.channels_cursor),
            threads: strings_view(self.threads@),
            high_water: self.high_water@,
            pending: self.pending@,
            users: self.users@,
            users_fetched_ms: self.users_fetched_ms as int,
        }
    }
}

/// A walk that has not begun.
pub open spec fn no_walk() -> WalkView {
    WalkView {
        channels: Seq::empty(),
        channels_cursor: None,
        threads: Seq::empty(),
        high_water: Map::empty(),
        pending: Map::empty(),
        users: Map::empty(),
        users_fetched_ms: 0,
    }
}

/// The key under which one connection's walk is stored.
pub open spec fn walk_key(connection_id: Seq<char>) -> Seq<char> {
    "slack-walk:"@ + connection_id
}

/// From when on a channel is to be read: its high-water mark, else the moment
/// that lies `depth_days` days back, else from the start.
pub open spec fn oldest(
    walk: WalkView,
    channel: Seq<char>,
    depth_days: Option<u32>,
    now_ms: int,
) -> Option<Seq<char>> {
    if walk.high_water.contains_key(channel) {
        Some(walk.high_water[channel])
    } else {
        match depth_days {
            Some(days) => Some(signed_digits(days_before(now_ms, days as int)) + ".000000"@),
            None => None,
        }
    }
}

/// Whether a date can name the moment from which a channel is to be read.
pub open spec fn oldest_in_range(
    walk: WalkView,
    channel: Seq<char>,
    depth_days: Option<u32>,
    now_ms: int,
) -> bool {
    !walk.high_water.contains_key(channel) ==> match depth_days {
        Some(days) => depth_in_range(now_ms, days as int),
        None => true,
    }
}

/// The walk once a channel is exhausted: what was seen of it has been read.
pub open spec fn committed(walk: WalkView, channel: Seq<char>) -> WalkView {
    if walk.pending.contains_key(channel) {
        WalkView {
            high_water: walk.high_water.insert(channel, walk.pending[channel]),
            pending: walk.pending.remove(channel),
            ..walk
        }
    } else {
        walk
    }
}

/// Whether the user directory needs reading again.
pub open spec fn stale(walk: WalkView, now_ms: int) -> bool {
    ||| walk.users == Map::<Seq<char>, Seq<char>>::empty()
    ||| now_ms - walk.users_fetched_ms > USERS_TTL_MS
}

/// Whether the age of the user directory can be counted in 64 bits.
pub open spec fn age_fits(walk: WalkView, now_ms: int) -> bool {
    walk.users != Map::<Seq<char>, Seq<char>>::empty() ==> i64::MIN <= now_ms
        - walk.users_fetched_ms <= i64::MAX
}

impl Default for WalkState {
    /// A walk that has not begun.
    fn default() -> (walk: Self)
        ensures
            walk@ == no_walk(),
    {
        let walk = WalkState {
            channels: Vec::new(),
            channels_cursor: None,
            threads: Vec::new(),
            high_water: Table::new(),
            pending: Table::new(),
            users: Table::new(),
            users_fetched_ms: 0,
        };
        assert(walk@ =~= no_walk());
        walk
    }
}

impl WalkState {
    /// The store key holding one connection's walk.
    pub fn key(connection_id: &str) -> (key: String)
        ensures
            key@ == walk_key(connection_id@),
    {
        "slack-walk:".to_owned().concat(connection_id)
    }

    /// The channel at `index` of the roster page in hand.
    pub fn channel_at(&self, index: usize) -> (channel: Option<&Channel>)
        ensures
            match channel {
                Some(channel) => index < self@.channels.len() && self@.channels[index as int]
                    == channel@,
                None => index >= self@.channels.len(),
            },
    {
        if index < self.channels.len() {
            Some(&self.channels[index])
        } else {
            None
        }
    }

    /// Where to start reading `channel` at the moment `now_ms`.
    pub fn oldest_at(&self, channel: &str, depth_days: Option<u32>, now_ms: i64) -> (from: Option<
        String,
    >)
        requires
            oldest_in_range(self@, channel@, depth_days, now_ms as int),
        ensures
            option_view(from) == oldest(self@, channel@, depth_days, now_ms as int),
    {
        match self.high_water.get(channel) {
            Some(mark) => Some(mark.clone()),
            None => match depth_days {
                Some(days) => {
                    let since: i64 = seconds_before(now_ms, days);
                    Some(write_signed(since).concat(".000000"))
                },
                None => None,
            },
        }
    }

    /// Where to start reading `channel`, honouring the run's depth bound.
    ///
    /// The high-water mark wins when there is one: it is never older than the
    /// bound, having been set by a run that already respected it. The bound is
    /// counted back from the clock; `MAX_DEPTH_DAYS` days can be, whatever the
    /// clock shows.
    pub fn oldest_for(&self, channel: &str, depth_days: Option<u32>) -> (from: Option<String>)
        requires
            !self@.high_water.contains_key(channel@) ==> (depth_days matches Some(days) ==> days
                <= MAX_DEPTH_DAYS),
        ensures
            exists|now_ms: int|
                #[trigger] is_reading(now_ms) && option_view(from) == oldest(
                    self@,
                    channel@,
                    depth_days,
                    now_ms,
                ),
    {
        let now_ms: i64 = now_millis();
        self.oldest_at(channel, depth_days, now_ms)
    }

    /// Promote the pending mark for a channel that has just been exhausted.
    pub fn commit_high_water(&mut self, channel: &str)
        ensures
            final(self)@ == committed(old(self)@, channel@),
    {
        match self.pending.remove(channel) {
            Some(newest) => {
                self.high_water.insert(channel.to_owned(), newest);
            },
            None => {
                assert(self.pending@ =~= old(self).pending@);
            },
        }
        assert(self@ =~= committed(old(self)@, channel@));
    }

    /// Whether the user directory needs re-reading.
    pub fn users_are_stale(&self, now_ms: i64) -> (old: bool)
        requires
            age_fits(self@, now_ms as int),
        ensures
            old == stale(self@, now_ms as int),
    {
        self.users.is_empty() || now_ms - self.users_fetched_ms > USERS_TTL_MS
    }
}

// ---------------------------------------------------------------- the reads

/// A page carrying nothing, resuming at `next`.
pub open spec fn blank_page(next: Option<Seq<char>>) -> PageView {
    PageView { records: Seq::empty(), versions: Seq::empty(), next_cursor: next }
}

/// Where a payload says that the next page starts, unless that is where the
/// page in hand started.
pub open spec fn moved(payload: Json, cursor: Option<Seq<char>>) -> Option<Seq<char>> {
    if marker(payload) == cursor {
        None
    } else {
        marker(payload)
    }
}

/// One entry of a roster page as a channel; one without an id is none.
pub open spec fn listed_channel(entry: Json) -> Option<ChannelView> {
    match pick(entry, seq!["id"@, "data.id"@]) {
        Some(id) => Some(
            ChannelView {
                id,
                name: match pick(entry, seq!["name"@, "data.name"@]) {
                    Some(name) => name,
                    None => id,
                },
            },
        ),
        None => None,
    }
}

/// The channels among a list of entries.
pub open spec fn listed_channels(entries: Seq<Json>) -> Seq<ChannelView>
    decreases entries.len(),
{
    if entries.len() == 0 {
        Seq::empty()
    } else {
        let front = listed_channels(entries.drop_last());
        match listed_channel(entries.last()) {
            Some(channel) => front.push(channel),
            None => front,
        }
    }
}

/// The entries of a roster payload, across its envelopes.
pub open spec fn roster_entries(payload: Json) -> Seq<Json> {
    first_items(payload, seq!["/data/channels"@, "/channels"@, "/data/data/channels"@])
}

/// The walk with the roster page of `payload` in hand, which started at
/// `cursor`.
pub open spec fn with_roster(walk: WalkView, payload: Json, cursor: Option<Seq<char>>) -> WalkView {
    WalkView {
        channels: listed_channels(roster_entries(payload)),
        channels_cursor: moved(payload, cursor),
        ..walk
    }
}

/// The request for the roster page that starts at `cursor`.
pub open spec fn roster_query(cursor: Option<Seq<char>>) -> RequestView {
    query(ACTION_CONVERSATIONS@).with("limit"@, ArgumentView::Number(CHANNELS_PER_PAGE as nat)).with(
        "types"@,
        ArgumentView::Text("public_channel,private_channel"@),
    ).with("exclude_archived"@, ArgumentView::Flag(true)).with_text("cursor"@, cursor)
}

/// The request for the directory page that starts at `cursor`.
pub open spec fn users_query(cursor: Option<Seq<char>>) -> RequestView {
    query(ACTION_USERS@).with("limit"@, ArgumentView::Number(USERS_PER_PAGE as nat)).with_text(
        "cursor"@,
        cursor,
    )
}

/// The request for the page of replies that a position names.
pub open spec fn thread_query(
    channel: Seq<char>,
    parent: Seq<char>,
    reply_page: Option<Seq<char>>,
) -> RequestView {
    query(ACTION_THREAD@).with("channel"@, ArgumentView::Text(channel)).with(
        "ts"@,
        ArgumentView::Text(parent),
    ).with("limit"@, ArgumentView::Number(MESSAGES_PER_PAGE as nat)).with_text("cursor"@, reply_page)
}

/// How many messages to ask for: as many as the run may take, but at least one
/// and at most `MESSAGES_PER_PAGE`.
pub open spec fn page_limit(max_items: nat) -> nat {
    if max_items < 1 {
        1
    } else if max_items > MESSAGES_PER_PAGE {
        MESSAGES_PER_PAGE as nat
    } else {
        max_items
    }
}

/// The request for the page of history that a position names.
pub open spec fn history_query(
    channel: Seq<char>,
    max_items: nat,
    oldest: Option<Seq<char>>,
    history: Option<Seq<char>>,
) -> RequestView {
    query(ACTION_HISTORY@).with("channel"@, ArgumentView::Text(channel)).with(
        "inclusive"@,
        ArgumentView::Flag(false),
    ).with("limit"@, ArgumentView::Number(page_limit(max_items))).with_text(
        "oldest"@,
        oldest,
    ).with_text("cursor"@, history)
}

/// The messages with replies among a list, in its order, by timestamp. Each is
/// named once, and none that `queue` names already.
pub open spec fn newly_owed(messages: Seq<Json>, queue: Seq<Seq<char>>) -> Seq<Seq<char>>
    decreases messages.len(),
{
    if messages.len() == 0 {
        Seq::empty()
    } else {
        let front = newly_owed(messages.drop_last(), queue);
        match owed(messages.last()) {
            Some(ts) if !front.contains(ts) && !queue.contains(ts) => front.push(ts),
            _ => front,
        }
    }
}

/// The timestamp of the first message of a list to have one.
pub open spec fn newest(messages: Seq<Json>) -> Option<Seq<char>>
    decreases messages.len(),
{
    if messages.len() == 0 {
        None
    } else {
        match stamp(messages[0]) {
            Some(ts) => Some(ts),
            None => newest(messages.drop_first()),
        }
    }
}

/// The walk with the conversations of a page of history queued behind those
/// that are owed already. Entering a channel empties the queue first, and
/// remembers the newest message of the channel.
pub open spec fn queued(
    walk: WalkView,
    entering: bool,
    channel: Seq<char>,
    messages: Seq<Json>,
) -> WalkView {
    let queue = if entering {
        Seq::empty()
    } else {
        walk.threads
    };
    WalkView {
        threads: queue + newly_owed(messages, queue).reverse(),
        pending: match newest(messages) {
            Some(ts) if entering => walk.pending.insert(channel, ts),
            _ => walk.pending,
        },
        ..walk
    }
}

/// Where the walk goes when the page in hand has nothing more to give: into
/// the last thread of the queue, else on through the history, else, the
/// channel being exhausted, to the next channel.
pub open spec fn onward(
    walk: WalkView,
    index: nat,
    history: Option<Seq<char>>,
    channel: Seq<char>,
) -> (WalkView, CursorView) {
    if walk.threads.len() > 0 {
        (
            WalkView { threads: walk.threads.drop_last(), ..walk },
            at_thread(index, history, walk.threads.last(), None),
        )
    } else if history is Some {
        (walk, at_history(index, history))
    } else {
        (committed(walk, channel), at_history(index + 1, None))
    }
}

/// The walk and its position after a page of history.
pub open spec fn after_history(
    walk: WalkView,
    position: CursorView,
    channel: Seq<char>,
    payload: Json,
) -> (WalkView, CursorView) {
    onward(
        queued(walk, position.history is None, channel, messages(payload)),
        position.index,
        moved(payload, position.history),
        channel,
    )
}

/// The walk and its position, if it has one left, after a page of replies that
/// go on at `more`.
pub open spec fn after_replies(
    walk: WalkView,
    position: CursorView,
    channel: Seq<char>,
    more: Option<Seq<char>>,
) -> (WalkView, Option<CursorView>) {
    match more {
        Some(_) => (
            walk,
            match position.thread {
                Some(parent) => Some(at_thread(position.index, position.history, parent, more)),
                None => None,
            },
        ),
        None => {
            let (after, next) = onward(walk, position.index, position.history, channel);
            (after, Some(next))
        },
    }
}

/// An optional position in writing.
pub open spec fn written(position: Option<CursorView>) -> Option<Seq<char>> {
    match position {
        Some(position) => Some(encoded(position)),
        None => None,
    }
}

/// The page that a page of history makes.
pub open spec fn history_page(
    walk: WalkView,
    position: CursorView,
    channel: ChannelView,
    payload: Json,
) -> PageView {
    PageView {
        records: page_records(messages(payload), channel, walk.users, None),
        versions: text_versions(messages(payload), channel, walk.users, None),
        next_cursor: Some(encoded(after_history(walk, position, channel.id, payload).1)),
    }
}

/// The page that a page of replies makes. The parent is repeated at the head of
/// its own thread, and left out.
pub open spec fn thread_page(
    walk: WalkView,
    position: CursorView,
    channel: ChannelView,
    parent: Seq<char>,
    payload: Json,
) -> PageView {
    PageView {
        records: page_records(messages(payload), channel, walk.users, Some(parent)),
        versions: text_versions(messages(payload), channel, walk.users, Some(parent)),
        next_cursor: written(
            after_replies(walk, position, channel.id, moved(payload, position.reply_page)).1,
        ),
    }
}

/// A page carrying nothing, resuming at `next`.
pub fn empty_page(next: Option<String>) -> (page: ProviderPage)
    ensures
        page@ == blank_page(option_view(next)),
{
    let page = ProviderPage { records: Vec::new(), versions: Vec::new(), next_cursor: next };
    assert(page@ =~= blank_page(option_view(next)));
    page
}

/// Where a payload says that the next page starts, unless that is where the
/// page in hand started.
pub(crate) fn moved_cursor(payload: &Json, cursor: Option<&str>) -> (next: Option<String>)
    ensures
        option_view(next) == moved(*payload, option_str_view(cursor)),
{
    match next_cursor(payload) {
        Some(next) => match cursor {
            Some(cursor) => if same(next.as_str(), cursor) {
                None
            } else {
                Some(next)
            },
            None => Some(next),
        },
        None => None,
    }
}

/// The channels of a roster page.
pub(crate) fn channels_in(payload: &Json) -> (channels: Vec<Channel>)
    ensures
        channels_view(channels@) == listed_channels(roster_entries(*payload)),
{
    let pointers: [&str; 3] = ["/data/channels", "/channels", "/data/data/channels"];
    assert(strs_view(pointers@) =~= seq![
        "/data/channels"@,
        "/channels"@,
        "/data/data/channels"@,
    ]);
    let entries = first_array(payload, &pointers);
    let ghost list = referents(entries@);
    let mut channels: Vec<Channel> = Vec::new();
    let mut i: usize = 0;
    assert(list.take(0) =~= Seq::empty());
    while i < entries.len()
        invariant
            i <= entries@.len(),
            list == referents(entries@),
            channels_view(channels@) =~= listed_channels(list.take(i as int)),
        decreases entries@.len() - i,
    {
        let entry = entries[i];
        assert(list[i as int] == *entry);
        assert(list.take(i + 1).drop_last() =~= list.take(i as int));
        let ghost before = channels@;
        match pick_two(entry, "id", "data.id") {
            Some(id) => {
                let name = match pick_two(entry, "name", "data.name") {
                    Some(name) => name,
                    None => id.clone(),
                };
                let channel = Channel { id, name };
                channels.push(channel);
                assert(channels_view(channels@) =~= channels_view(before).push(channel@));
            },
            None => {},
        }
        i = i + 1;
    }
    assert(list.take(list.len() as int) =~= list);
    channels
}

/// Where the walk goes when the page in hand has nothing more to give.
fn go_onward(
    walk: &mut WalkState,
    index: usize,
    history: Option<String>,
    channel: &Channel,
) -> (next: Cursor)
    requires
        onward(old(walk)@, index as nat, option_view(history), channel@.id).1.index <= usize::MAX,
    ensures
        (final(walk)@, next@) == onward(
            old(walk)@,
            index as nat,
            option_view(history),
            channel@.id,
        ),
{
    let ghost queue = walk.threads@;
    match walk.threads.pop() {
        Some(parent) => {
            proof {
                assert(queue.drop_last() == walk.threads@);
                assert(strings_view(walk.threads@) =~= strings_view(queue).drop_last());
                assert(walk@ =~= (WalkView { threads: old(walk)@.threads.drop_last(), ..old(walk)@ }));
            }
            Cursor::in_thread(index, history, parent, None)
        },
        None => {
            assert(walk@ =~= old(walk)@);
            if history.is_some() {
                Cursor::new(index, history)
            } else {
                walk.commit_high_water(channel.id.as_str());
                Cursor::new(index + 1, None)
            }
        },
    }
}

/// One page read, and whether it changed anything worth persisting.
#[derive(Debug)]
pub struct Read {
    /// What to hand back to the host.
    pub page: ProviderPage,
    /// Whether [`WalkState`] moved and needs saving.
    pub changed: bool,
}

/// Where the walk goes once a thread page has been read.
pub fn after_thread(
    walk: &mut WalkState,
    position: &Cursor,
    channel: &Channel,
    records: Vec<ConnectorRecord>,
    more: Option<String>,
) -> (read: Read)
    requires
        after_replies(old(walk)@, position@, channel@.id, option_view(more)).1 matches Some(next)
            ==> next.index <= usize::MAX,
    ensures
        final(walk)@ == after_replies(old(walk)@, position@, channel@.id, option_view(more)).0,
        read.page@ == (PageView {
            records: records_view(records@),
            versions: Seq::empty(),
            next_cursor: written(
                after_replies(old(walk)@, position@, channel@.id, option_view(more)).1,
            ),
        }),
        read.changed,
{
    let history = copy_text(&position.history);
    let next = match more {
        Some(more) => match &position.thread {
            Some(parent) => Some(
                Cursor::in_thread(position.index, history, parent.clone(), Some(more)).encode(),
            ),
            None => None,
        },
        None => Some(go_onward(walk, position.index, history, channel).encode()),
    };
    let versions: Vec<(String, String)> = Vec::new();
    assert(pairs_view(versions@) =~= Seq::empty());
    Read { page: ProviderPage { records, versions, next_cursor: next }, changed: true }
}

/// Slack as a connector toolkit.
#[derive(Debug, Default, Clone, Copy, PartialEq, Eq, Structural)]
pub struct SlackProvider;

impl SlackProvider {
    /// The request for the roster page that starts at `cursor`.
    ///
    /// Channels only: direct messages are deliberately not read.
    pub fn roster_request(&self, cursor: Option<&str>) -> (request: Request)
        ensures
            request@ == roster_query(option_str_view(cursor)),
    {
        Request::new(ACTION_CONVERSATIONS).with("limit", Argument::Number(CHANNELS_PER_PAGE)).text(
            "types",
            "public_channel,private_channel",
        ).with("exclude_archived", Argument::Flag(true)).with_text("cursor", cursor)
    }

    /// Take the roster page of `payload`, which started at `cursor`, in place
    /// of the one in hand.
    ///
    /// A reply that names the cursor it was asked with ends the roster:
    /// following it would walk the same page for ever.
    pub fn load_channel_page(&self, walk: &mut WalkState, payload: &Json, cursor: Option<&str>)
        ensures
            final(walk)@ == with_roster(old(walk)@, *payload, option_str_view(cursor)),
    {
        let channels = channels_in(payload);
        walk.channels = channels;
        walk.channels_cursor = moved_cursor(payload, cursor);
        assert(walk@ =~= with_roster(old(walk)@, *payload, option_str_view(cursor)));
    }

    /// Take the roster page that `payload` holds, which started at `next`, and
    /// begin with its first channel.
    pub fn advance_roster(&self, walk: &mut WalkState, next: &str, payload: &Json) -> (read: Read)
        ensures
            final(walk)@ == with_roster(old(walk)@, *payload, Some(next@)),
            read.page@ == blank_page(Some(encoded(at_history(0, None)))),
            read.changed,
    {
        self.load_channel_page(walk, payload, Some(next));
        let first = Cursor::new(0, None).encode();
        Read { page: empty_page(Some(first)), changed: true }
    }

    /// The request for the page of replies under `parent` that `position`
    /// names.
    pub fn thread_request(&self, position: &Cursor, channel: &Channel, parent: &str) -> (request:
        Request)
        ensures
            request@ == thread_query(channel@.id, parent@, position@.reply_page),
    {
        Request::new(ACTION_THREAD).text("channel", channel.id.as_str()).text("ts", parent).with(
            "limit",
            Argument::Number(MESSAGES_PER_PAGE),
        ).with_text("cursor", borrowed(&position.reply_page))
    }

    /// Take one page of the replies under the message the cursor names.
    ///
    /// A thread that cannot be read costs its replies, not the run.
    pub fn read_thread(
        &self,
        walk: &mut WalkState,
        position: &Cursor,
        channel: &Channel,
        parent: &str,
        reply: Result<Json, Error>,
    ) -> (read: Result<Read, Error>)
        requires
            match reply {
                Ok(payload) => {
                    &&& page_fits(messages(payload), old(walk)@.users, Some(parent@))
                    &&& after_replies(
                        old(walk)@,
                        position@,
                        channel@.id,
                        moved(payload, position@.reply_page),
                    ).1 matches Some(next) ==> next.index <= usize::MAX
                },
                Err(error) => fatal(error) || (after_replies(
                    old(walk)@,
                    position@,
                    channel@.id,
                    None,
                ).1 matches Some(next) ==> next.index <= usize::MAX),
            },
        ensures
            match reply {
                Ok(payload) => {
                    &&& read matches Ok(read)
                    &&& read.page@ == thread_page(
                        old(walk)@,
                        position@,
                        channel@,
                        parent@,
                        payload,
                    )
                    &&& read.changed
                    &&& final(walk)@ == after_replies(
                        old(walk)@,
                        position@,
                        channel@.id,
                        moved(payload, position@.reply_page),
                    ).0
                },
                Err(error) => if fatal(error) {
                    read == Err::<Read, Error>(error) && final(walk)@ == old(walk)@
                } else {
                    &&& read matches Ok(read)
                    &&& read.page@ == blank_page(
                        written(after_replies(old(walk)@, position@, channel@.id, None).1),
                    )
                    &&& read.changed
                    &&& final(walk)@ == after_replies(old(walk)@, position@, channel@.id, None).0
                },
            },
    {
        let payload = match reply {
            Ok(payload) => payload,
            Err(error) => {
                if is_fatal(&error) {
                    return Err(error);
                }
                let none: Vec<ConnectorRecord> = Vec::new();
                assert(records_view(none@) =~= Seq::empty());
                return Ok(after_thread(walk, position, channel, none, None));
            },
        };
        let replies = messages_in(&payload);
        let (records, versions) = records_from(
            replies.as_slice(),
            channel,
            &walk.users,
            Some(parent),
        );
        let more = moved_cursor(&payload, borrowed(&position.reply_page));
        let read = after_thread(walk, position, channel, records, more);
        Ok(
            Read {
                page: ProviderPage {
                    records: read.page.records,
                    versions,
                    next_cursor: read.page.next_cursor,
                },
                changed: read.changed,
            },
        )
    }

    /// The request for the page of history that `position` names, at the moment
    /// `now_ms`.
    pub fn history_request(
        &self,
        walk: &WalkState,
        position: &Cursor,
        channel: &Channel,
        limits: SyncLimits,
        now_ms: i64,
    ) -> (request: Request)
        requires
            oldest_in_range(walk@, channel@.id, limits.depth_days, now_ms as int),
        ensures
            request@ == history_query(
                channel@.id,
                limits.max_items as nat,
                oldest(walk@, channel@.id, limits.depth_days, now_ms as int),
                position@.history,
            ),
    {
        let limit: usize = if limits.max_items < 1 {
            1
        } else if limits.max_items > MESSAGES_PER_PAGE {
            MESSAGES_PER_PAGE
        } else {
            limits.max_items
        };
        let from = walk.oldest_at(channel.id.as_str(), limits.depth_days, now_ms);
        Request::new(ACTION_HISTORY).text("channel", channel.id.as_str()).with(
            "inclusive",
            Argument::Flag(false),
        ).with("limit", Argument::Number(limit)).with_text("oldest", borrowed(&from)).with_text(
            "cursor",
            borrowed(&position.history),
        )
    }

    /// Take one page of the channel the cursor names.
    ///
    /// One channel the account cannot read is ordinary: archived, not a
    /// member, rate-limited. Skipping it costs that channel; failing here would
    /// cost the workspace.
    pub fn read_history(
        &self,
        walk: &mut WalkState,
        position: &Cursor,
        channel: &Channel,
        reply: Result<Json, Error>,
    ) -> (read: Result<Read, Error>)
        requires
            match reply {
                Ok(payload) => {
                    &&& page_fits(messages(payload), old(walk)@.users, None)
                    &&& after_history(old(walk)@, position@, channel@.id, payload).1.index
                        <= usize::MAX
                },
                Err(error) => fatal(error) || position@.index < usize::MAX,
            },
        ensures
            match reply {
                Ok(payload) => {
                    &&& read matches Ok(read)
                    &&& read.page@ == history_page(old(walk)@, position@, channel@, payload)
                    &&& read.changed
                    &&& final(walk)@ == after_history(old(walk)@, position@, channel@.id, payload).0
                },
                Err(error) => if fatal(error) {
                    read == Err::<Read, Error>(error) && final(walk)@ == old(walk)@
                } else {
                    &&& read matches Ok(read)
                    &&& read.page@ == blank_page(
                        Some(encoded(at_history(position@.index + 1, None))),
                    )
                    &&& read.changed
                    &&& final(walk)@ == (WalkView { threads: Seq::empty(), ..old(walk)@ })
                },
            },
    {
        let payload = match reply {
            Ok(payload) => payload,
            Err(error) => {
                if is_fatal(&error) {
                    return Err(error);
                }
                walk.threads = Vec::new();
                assert(walk@ =~= (WalkView { threads: Seq::empty(), ..old(walk)@ }));
                let next = Cursor::new(position.index + 1, None).encode();
                return Ok(Read { page: empty_page(Some(next)), changed: true });
            },
        };
        let messages = messages_in(&payload);
        let ghost list = referents(messages@);
        let (records, versions) = records_from(messages.as_slice(), channel, &walk.users, None);
        let ghost entering = position@.history is None;

        if position.history.is_none() {
            // Nothing earlier owes this channel replies, and a queue left behind
            // by an interrupted walk of another channel is not drained here.
            walk.threads = Vec::new();
            // Slack returns a channel newest-first, so the newest message of
            // the whole channel is on its first page.
            match newest_in(messages.as_slice()) {
                Some(newest) => {
                    walk.pending.insert(channel.id.clone(), newest);
                },
                None => {},
            }
        }
        let ghost kept = strings_view(walk.threads@);
        assert(kept =~= (if entering {
            Seq::empty()
        } else {
            old(walk)@.threads
        }));
        let mut found = owed_in(messages.as_slice(), &walk.threads);
        let ghost all = strings_view(found@);
        // Taken back-to-front: the queue is drained from its end, which makes
        // the threads come back in the order their parents were listed.
        assert(all.skip(all.len() as int).reverse() =~= Seq::empty());
        while found.len() > 0
            invariant
                found@.len() <= all.len(),
                strings_view(found@) =~= all.take(found@.len() as int),
                walk.channels@ == old(walk).channels@,
                walk.channels_cursor == old(walk).channels_cursor,
                walk.high_water == old(walk).high_water,
                walk.users == old(walk).users,
                walk.users_fetched_ms == old(walk).users_fetched_ms,
                walk.pending@ == queued(old(walk)@, entering, channel@.id, list).pending,
                strings_view(walk.threads@) =~= kept + all.skip(found@.len() as int).reverse(),
            decreases found@.len(),
        {
            let ghost n = found@.len();
            let ghost before = found@;
            let ghost queue = walk.threads@;
            match found.pop() {
                Some(ts) => {
                    proof {
                        assert(strings_view(before)[n - 1] == ts@);
                        assert(strings_view(found@) =~= all.take(n - 1));
                        assert(all.skip(n - 1).reverse() =~= all.skip(n as int).reverse().push(ts@));
                    }
                    walk.threads.push(ts);
                    assert(strings_view(walk.threads@) =~= strings_view(queue).push(ts@));
                },
                None => {},
            }
        }
        assert(all.skip(0) =~= all);
        assert(walk@ =~= queued(old(walk)@, entering, channel@.id, list));
        let history = moved_cursor(&payload, borrowed(&position.history));
        let next = go_onward(walk, position.index, history, channel);
        Ok(
            Read {
                page: ProviderPage { records, versions, next_cursor: Some(next.encode()) },
                changed: true,
            },
        )
    }
}

/// Whether `text` is one of `texts`.
fn is_among(texts: &Vec<String>, text: &str) -> (among: bool)
    ensures
        among == strings_view(texts@).contains(text@),
{
    let mut i: usize = 0;
    while i < texts.len()
        invariant
            i <= texts@.len(),
            forall|j: int| 0 <= j < i ==> (#[trigger] strings_view(texts@)[j]) != text@,
        decreases texts@.len() - i,
    {
        if same(texts[i].as_str(), text) {
            assert(strings_view(texts@)[i as int] == text@);
            return true;
        }
        i = i + 1;
    }
    false
}

/// The messages with replies among a list, in its order, by timestamp. Each is
/// named once, and none that `queue` names already.
fn owed_in(messages: &[&Json], queue: &Vec<String>) -> (found: Vec<String>)
    ensures
        strings_view(found@) == newly_owed(referents(messages@), strings_view(queue@)),
{
    let ghost list = referents(messages@);
    let mut found: Vec<String> = Vec::new();
    let mut i: usize = 0;
    assert(list.take(0) =~= Seq::empty());
    while i < messages.len()
        invariant
            i <= messages@.len(),
            list == referents(messages@),
            strings_view(found@) =~= newly_owed(list.take(i as int), strings_view(queue@)),
        decreases messages@.len() - i,
    {
        assert(list[i as int] == *messages@[i as int]);
        assert(list.take(i + 1).drop_last() =~= list.take(i as int));
        let ghost before = found@;
        match has_replies(messages[i]) {
            Some(ts) => {
                if !is_among(&found, ts.as_str()) && !is_among(queue, ts.as_str()) {
                    found.push(ts);
                    assert(strings_view(found@) =~= strings_view(before).push(ts@));
                }
            },
            None => {},
        }
        i = i + 1;
    }
    assert(list.take(list.len() as int) =~= list);
    found
}

/// The timestamp of the first message of a list to have one.
fn newest_in(messages: &[&Json]) -> (ts: Option<String>)
    ensures
        option_view(ts) == newest(referents(messages@)),
{
    let ghost list = referents(messages@);
    let mut i: usize = 0;
    assert(list.skip(0) =~= list);
    while i < messages.len()
        invariant
            i <= messages@.len(),
            list == referents(messages@),
            newest(list) == newest(list.skip(i as int)),
        decreases messages@.len() - i,
    {
        assert(list.skip(i as int).drop_first() =~= list.skip(i + 1));
        assert(list.skip(i as int)[0] == *messages@[i as int]);
        match pick_one(messages[i], "ts") {
            Some(ts) => {
                return Some(ts);
            },
            None => {},
        }
        i = i + 1;
    }
    None
}

// ---------------------------------------------------------------- the directory

/// A reading of the user directory, part way through.
#[derive(Debug)]
pub struct UsersRefresh {
    /// The names found so far.
    pub directory: Table,
    /// Where the next directory page starts.
    pub cursor: Option<String>,
    /// How many pages may still be read.
    pub pages_left: usize,
    /// When the reading began, in milliseconds since the Unix epoch.
    pub now_ms: i64,
}

/// What a reading of the user directory has come to.
#[verifier::ext_equal]
pub struct RefreshView {
    /// See [`UsersRefresh::directory`].
    pub directory: Map<Seq<char>, Seq<char>>,
    /// See [`UsersRefresh::cursor`].
    pub cursor: Option<Seq<char>>,
    /// See [`UsersRefresh::pages_left`].
    pub pages_left: nat,
    /// See [`UsersRefresh::now_ms`].
    pub now_ms: int,
}

impl View for UsersRefresh {
    type V = RefreshView;

    open spec fn view(&self) -> RefreshView {
        RefreshView {
            directory: self.directory@,
            cursor: option_view(self.cursor),
            pages_left: self.pages_left as nat,
            now_ms: self.now_ms as int,
        }
    }
}

/// A reading of the directory that begins at the moment `now_ms`.
pub open spec fn new_refresh(now_ms: int) -> RefreshView {
    RefreshView {
        directory: Map::empty(),
        cursor: None,
        pages_left: USER_PAGES_MAX as nat,
        now_ms,
    }
}

/// The entries of a directory payload, across its envelopes.
pub open spec fn members(payload: Json) -> Seq<Json> {
    first_items(payload, seq!["/data/members"@, "/members"@, "/data/data/members"@])
}

/// The directory with the names of a list of entries added. An entry needs an
/// id and one of three names.
pub open spec fn with_members(
    directory: Map<Seq<char>, Seq<char>>,
    entries: Seq<Json>,
) -> Map<Seq<char>, Seq<char>>
    decreases entries.len(),
{
    if entries.len() == 0 {
        directory
    } else {
        let front = with_members(directory, entries.drop_last());
        match (
            pick(entries.last(), seq!["id"@]),
            pick(entries.last(), seq!["profile.display_name"@, "real_name"@, "name"@]),
        ) {
            (Some(id), Some(name)) => front.insert(id, name),
            _ => front,
        }
    }
}

/// The reading after one more reply, and whether another page is wanted. A
/// failure ends the reading, and so does a page that leads no further.
pub open spec fn absorbed(refresh: RefreshView, reply: Result<Json, Error>) -> (RefreshView, bool) {
    match reply {
        Ok(payload) => {
            let next = moved(payload, refresh.cursor);
            let left = (refresh.pages_left - 1) as nat;
            (
                RefreshView {
                    directory: with_members(refresh.directory, members(payload)),
                    cursor: next,
                    pages_left: left,
                    now_ms: refresh.now_ms,
                },
                next is Some && left > 0,
            )
        },
        Err(_) => (refresh, false),
    }
}

/// The walk with what a reading of the directory found, if it found anything.
pub open spec fn with_directory(walk: WalkView, refresh: RefreshView) -> WalkView {
    if refresh.directory == Map::<Seq<char>, Seq<char>>::empty() {
        walk
    } else {
        WalkView { users: refresh.directory, users_fetched_ms: refresh.now_ms, ..walk }
    }
}

impl UsersRefresh {
    /// A reading of the directory that begins at the moment `now_ms`.
    pub fn new(now_ms: i64) -> (refresh: Self)
        ensures
            refresh@ == new_refresh(now_ms as int),
    {
        UsersRefresh { directory: Table::new(), cursor: None, pages_left: USER_PAGES_MAX, now_ms }
    }

    /// The request for the next directory page.
    pub fn request(&self) -> (request: Request)
        ensures
            request@ == users_query(self@.cursor),
    {
        Request::new(ACTION_USERS).with("limit", Argument::Number(USERS_PER_PAGE)).with_text(
            "cursor",
            borrowed(&self.cursor),
        )
    }

    /// Take one more reply, and say whether another page is wanted.
    ///
    /// A failure is not a failure of the walk: mentions then render as raw ids,
    /// which is worse to read and no reason to ingest nothing.
    pub fn absorb(&mut self, reply: &Result<Json, Error>) -> (more: bool)
        requires
            old(self)@.pages_left > 0,
        ensures
            (final(self)@, more) == absorbed(old(self)@, *reply),
    {
        let payload = match reply {
            Ok(payload) => payload,
            Err(_) => {
                return false;
            },
        };
        let pointers: [&str; 3] = ["/data/members", "/members", "/data/data/members"];
        assert(strs_view(pointers@) =~= seq!["/data/members"@, "/members"@, "/data/data/members"@]);
        let entries = first_array(payload, &pointers);
        let ghost list = referents(entries@);
        let mut i: usize = 0;
        assert(list.take(0) =~= Seq::empty());
        while i < entries.len()
            invariant
                i <= entries@.len(),
                list == referents(entries@),
                self.cursor == old(self).cursor,
                self.pages_left == old(self).pages_left,
                self.now_ms == old(self).now_ms,
                self.directory@ == with_members(old(self)@.directory, list.take(i as int)),
            decreases entries@.len() - i,
        {
            let entry = entries[i];
            assert(list[i as int] == *entry);
            assert(list.take(i + 1).drop_last() =~= list.take(i as int));
            match pick_one(entry, "id") {
                Some(id) => match pick_three(entry, "profile.display_name", "real_name", "name") {
                    Some(name) => {
                        self.directory.insert(id, name);
                    },
                    None => {},
                },
                None => {},
            }
            i = i + 1;
        }
        assert(list.take(list.len() as int) =~= list);
        let next = moved_cursor(payload, borrowed(&self.cursor));
        self.cursor = next;
        self.pages_left = self.pages_left - 1;
        self.cursor.is_some() && self.pages_left > 0
    }
}

impl SlackProvider {
    /// Take what a reading of the user directory found, and say whether it
    /// found anything.
    pub fn refresh_users(&self, walk: &mut WalkState, refresh: UsersRefresh) -> (found: bool)
        ensures
            final(walk)@ == with_directory(old(walk)@, refresh@),
            found == (refresh@.directory != Map::<Seq<char>, Seq<char>>::empty()),
    {
        if refresh.directory.is_empty() {
            return false;
        }
        walk.users = refresh.directory;
        walk.users_fetched_ms = refresh.now_ms;
        true
    }

    /// The toolkit's name.
    pub fn toolkit_slug(&self) -> (slug: &'static str)
        ensures
            slug@ == "slack"@,
    {
        "slack"
    }

    /// What the toolkit is for.
    pub fn description(&self) -> (text: &'static str)
        ensures
            text@ == "Read and send Slack messages, and ingest channel history as memory."@,
    {
        "Read and send Slack messages, and ingest channel history as memory."
    }

    /// The actions worth offering.
    pub fn curated_tools(&self) -> (tools: Option<Vec<CuratedTool>>)
        ensures
            tools matches Some(tools) && tools_view(tools@) == catalog(),
    {
        Some(curated())
    }

    /// How often to read again, in seconds.
    pub fn sync_interval_secs(&self) -> (seconds: Option<u64>)
        ensures
            seconds == Some(900u64),
    {
        Some(900)
    }

    /// The request for the workspace that the connection belongs to.
    pub fn profile_request(&self) -> (request: Request)
        ensures
            request@ == query(PROFILE_ACTION@),
    {
        Request::new(PROFILE_ACTION)
    }

    /// The profile that `payload` describes. A Slack connection is *of* a
    /// workspace, so the workspace is what it names.
    pub fn fetch_user_profile(&self, connection_id: &str, payload: Json) -> (profile:
        ProviderUserProfile)
        ensures
            profile.toolkit@ == "slack"@,
            option_view(profile.connection_id) == Some(connection_id@),
            option_view(profile.display_name) == pick(
                payload,
                seq!["team.name"@, "name"@, "data.team.name"@],
            ),
            option_view(profile.username) == pick(
                payload,
                seq!["team.domain"@, "domain"@, "data.team.domain"@],
            ),
            option_view(profile.avatar_url) == pick(
                payload,
                seq!["team.icon.image_132"@, "icon.image_132"@],
            ),
            profile.extras == payload,
    {
        ProviderUserProfile {
            toolkit: self.toolkit_slug().to_owned(),
            connection_id: Some(connection_id.to_owned()),
            display_name: pick_three(&payload, "team.name", "name", "data.team.name"),
            username: pick_three(&payload, "team.domain", "domain", "data.team.domain"),
            avatar_url: pick_two(&payload, "team.icon.image_132", "icon.image_132"),
            extras: payload,
        }
    }
}

} // verus!
