//! Reading one page: which actions to run, in which order, and what their
//! replies make of the walk.
//!
//! A page takes one action or several. [`SlackProvider::fetch_page`] names the
//! first, and [`PageFetch::resume`] takes its reply and names the next, until
//! there is a page to hand out. Running the actions, loading the walk before
//! and saving it after is the host's part.

use vstd::prelude::*;
use vstd::string::*;

use super::slack::{
    absorbed, after_history, after_replies, age_fits, at_history, blank_page, borrowed, channels_in,
    channels_view, decoded, empty_page, encoded, history_page, history_query, moved, moved_cursor,
    new_refresh, oldest, oldest_in_range, roster_query, stale, thread_page, thread_query,
    users_query, with_directory, with_roster, written, Channel, Cursor, CursorView, RefreshView,
    SlackProvider, UsersRefresh, WalkState, WalkView,
};
use super::slack_parse::{fatal, messages, messages_in, page_fits, page_in_range};
use crate::clock::{is_reading, now_millis, within_dates};
use crate::error::Error;
use crate::json::Json;
use crate::provider::{Request, RequestView, SyncLimits};
use crate::records::{PageView, ProviderPage};
use crate::text::option_str_view;

verus! {

/// Which reply is being waited for.
#[derive(Debug)]
pub enum Stage {
    /// The first roster page of a walk.
    Roster,
    /// A page of the user directory.
    Users(UsersRefresh),
    /// The next roster page.
    Advance,
    /// A page of the thread that the position names.
    Thread,
    /// A page of the channel that the position names.
    History,
}

/// What reply is being waited for.
pub enum StageView {
    /// See [`Stage::Roster`].
    Roster,
    /// See [`Stage::Users`].
    Users(RefreshView),
    /// See [`Stage::Advance`].
    Advance,
    /// See [`Stage::Thread`].
    Thread,
    /// See [`Stage::History`].
    History,
}

impl View for Stage {
    type V = StageView;

    open spec fn view(&self) -> StageView {
        match self {
            Stage::Roster => StageView::Roster,
            Stage::Users(refresh) => StageView::Users(refresh@),
            Stage::Advance => StageView::Advance,
            Stage::Thread => StageView::Thread,
            Stage::History => StageView::History,
        }
    }
}

/// A page being read.
#[derive(Debug)]
pub struct PageFetch {
    stage: Stage,
    position: Cursor,
    walk: WalkState,
    changed: bool,
    limits: SyncLimits,
}

/// How far the reading of a page has come.
pub struct FetchView {
    /// What reply is being waited for.
    pub stage: StageView,
    /// Where the page starts.
    pub position: CursorView,
    /// What the walk remembers.
    pub walk: WalkView,
    /// Whether the walk has changed already.
    pub changed: bool,
    /// How much the run may read.
    pub limits: SyncLimits,
}

impl View for PageFetch {
    type V = FetchView;

    closed spec fn view(&self) -> FetchView {
        FetchView {
            stage: self.stage@,
            position: self.position@,
            walk: self.walk@,
            changed: self.changed,
            limits: self.limits,
        }
    }
}

/// What there is to do next.
#[derive(Debug)]
pub enum Step {
    /// Run an action, and hand its reply to [`PageFetch::resume`].
    Run(PageFetch, Request),
    /// Save the walk, if there is one to save, and hand out the page.
    Done(ProviderPage, Option<WalkState>),
    /// Report the failure.
    Failed(Error),
}

/// What there is to do next.
pub enum StepView {
    /// See [`Step::Run`].
    Run(FetchView, RequestView),
    /// See [`Step::Done`].
    Done(PageView, Option<WalkView>),
    /// See [`Step::Failed`].
    Failed(Error),
}

/// What an optional walk remembers.
pub open spec fn option_walk(walk: Option<WalkState>) -> Option<WalkView> {
    match walk {
        Some(walk) => Some(walk@),
        None => None,
    }
}

impl View for Step {
    type V = StepView;

    open spec fn view(&self) -> StepView {
        match self {
            Step::Run(fetch, request) => StepView::Run(fetch@, request@),
            Step::Done(page, walk) => StepView::Done(page@, option_walk(*walk)),
            Step::Failed(error) => StepView::Failed(*error),
        }
    }
}

/// Whether what is being waited for agrees with the position.
pub open spec fn sound(fetch: FetchView) -> bool {
    match fetch.stage {
        StageView::Roster => true,
        StageView::Users(refresh) => refresh.pages_left > 0,
        StageView::Advance => fetch.position.index >= fetch.walk.channels.len()
            && fetch.walk.channels_cursor is Some,
        StageView::Thread => fetch.position.index < fetch.walk.channels.len()
            && fetch.position.thread is Some,
        StageView::History => fetch.position.index < fetch.walk.channels.len()
            && fetch.position.thread is None,
    }
}

/// What there is to do at a position, once the roster and the directory are in
/// hand.
pub open spec fn turned(
    position: CursorView,
    walk: WalkView,
    changed: bool,
    limits: SyncLimits,
    now_ms: int,
) -> StepView {
    if position.index < walk.channels.len() {
        let channel = walk.channels[position.index as int].id;
        match position.thread {
            Some(parent) => StepView::Run(
                FetchView { stage: StageView::Thread, position, walk, changed, limits },
                thread_query(channel, parent, position.reply_page),
            ),
            None => StepView::Run(
                FetchView { stage: StageView::History, position, walk, changed, limits },
                history_query(
                    channel,
                    limits.max_items as nat,
                    oldest(walk, channel, limits.depth_days, now_ms),
                    position.history,
                ),
            ),
        }
    } else {
        match walk.channels_cursor {
            Some(next) => StepView::Run(
                FetchView { stage: StageView::Advance, position, walk, changed, limits },
                roster_query(Some(next)),
            ),
            None => StepView::Done(
                blank_page(None),
                if changed {
                    Some(walk)
                } else {
                    None
                },
            ),
        }
    }
}

/// Whether what there is to do at a position can be dated.
pub open spec fn can_turn(
    position: CursorView,
    walk: WalkView,
    limits: SyncLimits,
    now_ms: int,
) -> bool {
    position.index < walk.channels.len() && position.thread is None ==> oldest_in_range(
        walk,
        walk.channels[position.index as int].id,
        limits.depth_days,
        now_ms,
    )
}

/// What there is to do first for the page that starts at `cursor`. Without a
/// cursor a walk starts: the roster is read from the top.
pub open spec fn opened(
    cursor: Option<Seq<char>>,
    walk: WalkView,
    limits: SyncLimits,
    now_ms: int,
) -> StepView {
    match cursor {
        Some(_) => turned(decoded(cursor), walk, false, limits, now_ms),
        None => StepView::Run(
            FetchView {
                stage: StageView::Roster,
                position: decoded(cursor),
                walk,
                changed: true,
                limits,
            },
            roster_query(None),
        ),
    }
}

/// Whether the page that starts at `cursor` can be begun.
pub open spec fn can_open(
    cursor: Option<Seq<char>>,
    walk: WalkView,
    limits: SyncLimits,
    now_ms: int,
) -> bool {
    cursor is Some ==> can_turn(decoded(cursor), walk, limits, now_ms)
}

/// What there is to do after a reply.
pub open spec fn resumed(fetch: FetchView, reply: Result<Json, Error>, now_ms: int) -> StepView {
    match fetch.stage {
        StageView::Roster => match reply {
            Ok(payload) => {
                let walk = with_roster(fetch.walk, payload, None);
                if stale(walk, now_ms) {
                    let refresh = new_refresh(now_ms);
                    StepView::Run(
                        FetchView { stage: StageView::Users(refresh), walk, ..fetch },
                        users_query(refresh.cursor),
                    )
                } else {
                    turned(fetch.position, walk, fetch.changed, fetch.limits, now_ms)
                }
            },
            Err(error) => StepView::Failed(error),
        },
        StageView::Users(refresh) => {
            let (refresh, more) = absorbed(refresh, reply);
            if more {
                StepView::Run(
                    FetchView { stage: StageView::Users(refresh), ..fetch },
                    users_query(refresh.cursor),
                )
            } else {
                turned(
                    fetch.position,
                    with_directory(fetch.walk, refresh),
                    fetch.changed,
                    fetch.limits,
                    now_ms,
                )
            }
        },
        StageView::Advance => match reply {
            Ok(payload) => StepView::Done(
                blank_page(Some(encoded(at_history(0, None)))),
                Some(with_roster(fetch.walk, payload, fetch.walk.channels_cursor)),
            ),
            Err(error) => StepView::Failed(error),
        },
        StageView::Thread => {
            let channel = fetch.walk.channels[fetch.position.index as int];
            match reply {
                Ok(payload) => StepView::Done(
                    thread_page(
                        fetch.walk,
                        fetch.position,
                        channel,
                        fetch.position.thread->0,
                        payload,
                    ),
                    Some(
                        after_replies(
                            fetch.walk,
                            fetch.position,
                            channel.id,
                            moved(payload, fetch.position.reply_page),
                        ).0,
                    ),
                ),
                Err(error) => if fatal(error) {
                    StepView::Failed(error)
                } else {
                    let (walk, next) = after_replies(fetch.walk, fetch.position, channel.id, None);
                    StepView::Done(blank_page(written(next)), Some(walk))
                },
            }
        },
        StageView::History => {
            let channel = fetch.walk.channels[fetch.position.index as int];
            match reply {
                Ok(payload) => StepView::Done(
                    history_page(fetch.walk, fetch.position, channel, payload),
                    Some(after_history(fetch.walk, fetch.position, channel.id, payload).0),
                ),
                Err(error) => if fatal(error) {
                    StepView::Failed(error)
                } else {
                    StepView::Done(
                        blank_page(Some(encoded(at_history(fetch.position.index + 1, None)))),
                        Some(WalkView { threads: Seq::empty(), ..fetch.walk }),
                    )
                },
            }
        },
    }
}

/// Whether a reply can be taken: whether what it dates can be counted in 64
/// bits, and so can the age of the directory.
pub open spec fn can_resume(fetch: FetchView, reply: Result<Json, Error>, now_ms: int) -> bool {
    match fetch.stage {
        StageView::Roster => match reply {
            Ok(payload) => {
                let walk = with_roster(fetch.walk, payload, None);
                &&& age_fits(walk, now_ms)
                &&& !stale(walk, now_ms) ==> can_turn(fetch.position, walk, fetch.limits, now_ms)
            },
            Err(_) => true,
        },
        StageView::Users(refresh) => {
            let (refresh, more) = absorbed(refresh, reply);
            !more ==> can_turn(
                fetch.position,
                with_directory(fetch.walk, refresh),
                fetch.limits,
                now_ms,
            )
        },
        StageView::Advance => true,
        StageView::Thread => match reply {
            Ok(payload) => page_fits(
                messages(payload),
                fetch.walk.users,
                fetch.position.thread,
            ),
            Err(_) => true,
        },
        StageView::History => match reply {
            Ok(payload) => page_fits(messages(payload), fetch.walk.users, None),
            Err(_) => true,
        },
    }
}

/// The walk to save after a read, if the read or what came before changed it.
fn to_save(walk: WalkState, changed: bool) -> (saved: Option<WalkState>)
    ensures
        option_walk(saved) == (if changed {
            Some(walk@)
        } else {
            None
        }),
{
    if changed {
        Some(walk)
    } else {
        None
    }
}

/// What there is to do at a position, once the roster and the directory are in
/// hand.
fn turn(
    position: Cursor,
    walk: WalkState,
    changed: bool,
    limits: SyncLimits,
    now_ms: i64,
) -> (step: Step)
    requires
        can_turn(position@, walk@, limits, now_ms as int),
    ensures
        step@ == turned(position@, walk@, changed, limits, now_ms as int),
{
    let provider = SlackProvider;
    match walk.channel_at(position.index) {
        Some(channel) => match &position.thread {
            Some(parent) => {
                let request = provider.thread_request(&position, channel, parent.as_str());
                Step::Run(
                    PageFetch { stage: Stage::Thread, position, walk, changed, limits },
                    request,
                )
            },
            None => {
                let request = provider.history_request(&walk, &position, channel, limits, now_ms);
                Step::Run(
                    PageFetch { stage: Stage::History, position, walk, changed, limits },
                    request,
                )
            },
        },
        None => {
            if walk.channels_cursor.is_some() {
                let request = provider.roster_request(borrowed(&walk.channels_cursor));
                Step::Run(
                    PageFetch { stage: Stage::Advance, position, walk, changed, limits },
                    request,
                )
            } else {
                Step::Done(empty_page(None), to_save(walk, changed))
            }
        },
    }
}

/// Whether a date can name the moment from which a channel is to be read.
fn depth_reaches(
    walk: &WalkState,
    channel: &Channel,
    depth_days: Option<u32>,
    now_ms: i64,
) -> (reaches: bool)
    ensures
        reaches == oldest_in_range(walk@, channel@.id, depth_days, now_ms as int),
{
    match walk.high_water.get(channel.id.as_str()) {
        Some(_) => true,
        None => match depth_days {
            Some(days) => within_dates(now_ms, days),
            None => true,
        },
    }
}

impl SlackProvider {
    /// Whether the page that starts at `cursor` can be begun at the moment
    /// `now_ms`.
    pub fn can_fetch_page(
        &self,
        cursor: Option<&str>,
        walk: &WalkState,
        limits: SyncLimits,
        now_ms: i64,
    ) -> (can: bool)
        ensures
            can == can_open(option_str_view(cursor), walk@, limits, now_ms as int),
    {
        if cursor.is_none() {
            return true;
        }
        let position = Cursor::decode(cursor);
        match walk.channel_at(position.index) {
            Some(channel) => position.thread.is_some() || depth_reaches(
                walk,
                channel,
                limits.depth_days,
                now_ms,
            ),
            None => true,
        }
    }

    /// What there is to do first for the page that starts at `cursor`.
    ///
    /// Every page that comes of it either moves the cursor forward or says that
    /// the walk is over: a page that reported the position it was given would
    /// be asked for again for ever. A position is relative to its roster page,
    /// so the first position of the next roster page is a move, however it is
    /// written. `None` when the run looks back further than dates go.
    pub fn fetch_page(&self, cursor: Option<&str>, walk: WalkState, limits: SyncLimits) -> (step:
        Option<Step>)
        ensures
            exists|now_ms: int| #[trigger]
                is_reading(now_ms) && match step {
                    Some(step) => {
                        &&& can_open(option_str_view(cursor), walk@, limits, now_ms)
                        &&& step@ == opened(option_str_view(cursor), walk@, limits, now_ms)
                    },
                    None => !can_open(option_str_view(cursor), walk@, limits, now_ms),
                },
    {
        let now_ms: i64 = now_millis();
        assert(is_reading(now_ms as int));
        if self.can_fetch_page(cursor, &walk, limits, now_ms) {
            Some(self.fetch_page_at(cursor, walk, limits, now_ms))
        } else {
            None
        }
    }

    /// What there is to do first for the page that starts at `cursor`, at the
    /// moment `now_ms`.
    pub fn fetch_page_at(
        &self,
        cursor: Option<&str>,
        walk: WalkState,
        limits: SyncLimits,
        now_ms: i64,
    ) -> (step: Step)
        requires
            can_open(option_str_view(cursor), walk@, limits, now_ms as int),
        ensures
            step@ == opened(option_str_view(cursor), walk@, limits, now_ms as int),
    {
        let position = Cursor::decode(cursor);
        if cursor.is_none() {
            let request = self.roster_request(None);
            Step::Run(
                PageFetch { stage: Stage::Roster, position, walk, changed: true, limits },
                request,
            )
        } else {
            turn(position, walk, false, limits, now_ms)
        }
    }
}

impl PageFetch {
    #[verifier::type_invariant]
    spec fn well_formed(self) -> bool {
        sound(self@)
    }

    /// What there is to do after a reply, at the moment `now_ms`.
    pub fn resume_at(self, reply: Result<Json, Error>, now_ms: i64) -> (step: Step)
        requires
            can_resume(self@, reply, now_ms as int),
        ensures
            step@ == resumed(self@, reply, now_ms as int),
            sound(self@),
    {
        proof {
            use_type_invariant(&self);
        }
        let provider = SlackProvider;
        let mut walk = self.walk;
        assert(walk@.channels.len() == walk.channels.len());
        match self.stage {
            Stage::Roster => match reply {
                Ok(payload) => {
                    provider.load_channel_page(&mut walk, &payload, None);
                    if walk.users_are_stale(now_ms) {
                        let refresh = UsersRefresh::new(now_ms);
                        let request = refresh.request();
                        Step::Run(
                            PageFetch {
                                stage: Stage::Users(refresh),
                                position: self.position,
                                walk,
                                changed: self.changed,
                                limits: self.limits,
                            },
                            request,
                        )
                    } else {
                        turn(self.position, walk, self.changed, self.limits, now_ms)
                    }
                },
                Err(error) => Step::Failed(error),
            },
            Stage::Users(refresh) => {
                let mut refresh = refresh;
                if refresh.absorb(&reply) {
                    let request = refresh.request();
                    Step::Run(
                        PageFetch {
                            stage: Stage::Users(refresh),
                            position: self.position,
                            walk,
                            changed: self.changed,
                            limits: self.limits,
                        },
                        request,
                    )
                } else {
                    provider.refresh_users(&mut walk, refresh);
                    turn(self.position, walk, self.changed, self.limits, now_ms)
                }
            },
            Stage::Advance => match reply {
                Ok(payload) => {
                    let next = match &walk.channels_cursor {
                        Some(next) => next.clone(),
                        None => String::new(),
                    };
                    let read = provider.advance_roster(&mut walk, next.as_str(), &payload);
                    Step::Done(read.page, Some(walk))
                },
                Err(error) => Step::Failed(error),
            },
            Stage::Thread => {
                let channel = walk.channels[self.position.index].clone();
                let parent = match &self.position.thread {
                    Some(parent) => parent.clone(),
                    None => String::new(),
                };
                match provider.read_thread(
                    &mut walk,
                    &self.position,
                    &channel,
                    parent.as_str(),
                    reply,
                ) {
                    Ok(read) => Step::Done(read.page, to_save(walk, self.changed || read.changed)),
                    Err(error) => Step::Failed(error),
                }
            },
            Stage::History => {
                let channel = walk.channels[self.position.index].clone();
                match provider.read_history(&mut walk, &self.position, &channel, reply) {
                    Ok(read) => Step::Done(read.page, to_save(walk, self.changed || read.changed)),
                    Err(error) => Step::Failed(error),
                }
            },
        }
    }

    /// Whether a reply can be taken at the moment `now_ms`.
    pub fn can_resume_at(&self, reply: &Result<Json, Error>, now_ms: i64) -> (can: bool)
        ensures
            can == can_resume(self@, *reply, now_ms as int),
    {
        proof {
            use_type_invariant(self);
        }
        match &self.stage {
            Stage::Roster => match reply {
                Ok(payload) => {
                    let ghost loaded = with_roster(self.walk@, *payload, None);
                    let aged: bool = self.walk.users.is_empty() || match now_ms.checked_sub(
                        self.walk.users_fetched_ms,
                    ) {
                        Some(_) => true,
                        None => false,
                    };
                    if !aged {
                        return false;
                    }
                    if self.walk.users_are_stale(now_ms) || self.position.thread.is_some() {
                        return true;
                    }
                    let channels = channels_in(payload);
                    assert(loaded.channels == channels_view(channels@));
                    if self.position.index < channels.len() {
                        let channel = &channels[self.position.index];
                        assert(loaded.channels[self.position.index as int] == channel@);
                        depth_reaches(&self.walk, channel, self.limits.depth_days, now_ms)
                    } else {
                        true
                    }
                },
                Err(_) => true,
            },
            Stage::Users(refresh) => {
                let more: bool = match reply {
                    Ok(payload) => {
                        let next = moved_cursor(payload, borrowed(&refresh.cursor));
                        next.is_some() && refresh.pages_left > 1
                    },
                    Err(_) => false,
                };
                if more || self.position.thread.is_some() {
                    return true;
                }
                match self.walk.channel_at(self.position.index) {
                    Some(channel) => depth_reaches(
                        &self.walk,
                        channel,
                        self.limits.depth_days,
                        now_ms,
                    ),
                    None => true,
                }
            },
            Stage::Advance => true,
            Stage::Thread => match reply {
                Ok(payload) => page_in_range(
                    messages_in(payload).as_slice(),
                    &self.walk.users,
                    borrowed(&self.position.thread),
                ),
                Err(_) => true,
            },
            Stage::History => match reply {
                Ok(payload) => page_in_range(
                    messages_in(payload).as_slice(),
                    &self.walk.users,
                    None,
                ),
                Err(_) => true,
            },
        }
    }

    /// What there is to do after a reply.
    ///
    /// `None` when the reply dates a message at a moment that milliseconds
    /// cannot count, or the run looks back further than dates go.
    pub fn resume(self, reply: Result<Json, Error>) -> (step: Option<Step>)
        ensures
            exists|now_ms: int| #[trigger]
                is_reading(now_ms) && match step {
                    Some(step) => {
                        &&& can_resume(self@, reply, now_ms)
                        &&& step@ == resumed(self@, reply, now_ms)
                    },
                    None => !can_resume(self@, reply, now_ms),
                },
    {
        let now_ms: i64 = now_millis();
        assert(is_reading(now_ms as int));
        if self.can_resume_at(&reply, now_ms) {
            Some(self.resume_at(reply, now_ms))
        } else {
            None
        }
    }
}

} // verus!
