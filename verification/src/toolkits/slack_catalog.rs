//! The curated action catalog for the `slack` toolkit.
//!
//! The actions kept are the ones an agent has a reason to reach for: find a
//! channel or a person, read a conversation, say something, react. Every entry
//! that changes who can see what is scoped [`ToolScope::Admin`], so that a
//! "read only" preference refuses it.

use vstd::prelude::*;
use vstd::string::*;

use crate::scope::{tools_view, CuratedTool, ToolScope};

verus! {

/// Slack actions worth offering an agent, with how invasive each one is.
pub open spec fn catalog() -> Seq<(Seq<char>, ToolScope)> {
    seq![
        ("SLACK_FIND_CHANNELS"@, ToolScope::Read),
        ("SLACK_FIND_USERS"@, ToolScope::Read),
        ("SLACK_FETCH_CONVERSATION_HISTORY"@, ToolScope::Read),
        ("SLACK_FETCH_MESSAGE_THREAD_FROM_A_CONVERSATION"@, ToolScope::Read),
        ("SLACK_LIST_ALL_CHANNELS"@, ToolScope::Read),
        ("SLACK_LIST_ALL_USERS"@, ToolScope::Read),
        ("SLACK_LIST_CONVERSATIONS"@, ToolScope::Read),
        ("SLACK_FETCH_TEAM_INFO"@, ToolScope::Read),
        ("SLACK_GET_USER_PRESENCE"@, ToolScope::Read),
        ("SLACK_ASSISTANT_SEARCH_CONTEXT"@, ToolScope::Read),
        ("SLACK_SEND_MESSAGE"@, ToolScope::Write),
        ("SLACK_POST_MESSAGE_TO_CHANNEL"@, ToolScope::Write),
        ("SLACK_SEND_MESSAGE_TO_CHANNEL"@, ToolScope::Write),
        ("SLACK_CREATE_CHANNEL"@, ToolScope::Write),
        ("SLACK_ADD_REACTION_TO_AN_ITEM"@, ToolScope::Write),
        ("SLACK_UPLOAD_FILE"@, ToolScope::Write),
        ("SLACK_CREATE_A_REMINDER"@, ToolScope::Write),
        ("SLACK_CREATE_USER_GROUP"@, ToolScope::Write),
        ("SLACK_DELETE_CHANNEL"@, ToolScope::Admin),
        ("SLACK_ARCHIVE_CONVERSATION"@, ToolScope::Admin),
        ("SLACK_DELETE_FILE"@, ToolScope::Admin),
        ("SLACK_DELETES_A_MESSAGE_FROM_A_CHAT"@, ToolScope::Admin),
        ("SLACK_DELETE_REMINDER"@, ToolScope::Admin),
        ("SLACK_LEAVE_CONVERSATION"@, ToolScope::Admin),
        ("SLACK_INVITE_USER_TO_WORKSPACE"@, ToolScope::Admin),
        ("SLACK_CONVERT_CHANNEL_TO_PRIVATE"@, ToolScope::Admin),
        ("SLACK_INVITE_USERS_TO_A_SLACK_CHANNEL"@, ToolScope::Admin),
    ]
}

/// One entry of the catalog.
fn tool(slug: &'static str, scope: ToolScope) -> (tool: CuratedTool)
    ensures
        tool.slug@ == slug@,
        tool.scope == scope,
{
    CuratedTool { slug, scope }
}

/// Slack actions worth offering an agent, with how invasive each one is.
///
/// Adding someone to a channel hands them its whole history, which is a change
/// to who can see what however friendly the verb sounds: it is scoped
/// [`ToolScope::Admin`].
pub fn curated() -> (tools: Vec<CuratedTool>)
    ensures
        tools_view(tools@) == catalog(),
{
    let tools: Vec<CuratedTool> = vec![
        tool("SLACK_FIND_CHANNELS", ToolScope::Read),
        tool("SLACK_FIND_USERS", ToolScope::Read),
        tool("SLACK_FETCH_CONVERSATION_HISTORY", ToolScope::Read),
        tool("SLACK_FETCH_MESSAGE_THREAD_FROM_A_CONVERSATION", ToolScope::Read),
        tool("SLACK_LIST_ALL_CHANNELS", ToolScope::Read),
        tool("SLACK_LIST_ALL_USERS", ToolScope::Read),
        tool("SLACK_LIST_CONVERSATIONS", ToolScope::Read),
        tool("SLACK_FETCH_TEAM_INFO", ToolScope::Read),
        tool("SLACK_GET_USER_PRESENCE", ToolScope::Read),
        tool("SLACK_ASSISTANT_SEARCH_CONTEXT", ToolScope::Read),
        tool("SLACK_SEND_MESSAGE", ToolScope::Write),
        tool("SLACK_POST_MESSAGE_TO_CHANNEL", ToolScope::Write),
        tool("SLACK_SEND_MESSAGE_TO_CHANNEL", ToolScope::Write),
        tool("SLACK_CREATE_CHANNEL", ToolScope::Write),
        tool("SLACK_ADD_REACTION_TO_AN_ITEM", ToolScope::Write),
        tool("SLACK_UPLOAD_FILE", ToolScope::Write),
        tool("SLACK_CREATE_A_REMINDER", ToolScope::Write),
        tool("SLACK_CREATE_USER_GROUP", ToolScope::Write),
        tool("SLACK_DELETE_CHANNEL", ToolScope::Admin),
        tool("SLACK_ARCHIVE_CONVERSATION", ToolScope::Admin),
        tool("SLACK_DELETE_FILE", ToolScope::Admin),
        tool("SLACK_DELETES_A_MESSAGE_FROM_A_CHAT", ToolScope::Admin),
        tool("SLACK_DELETE_REMINDER", ToolScope::Admin),
        tool("SLACK_LEAVE_CONVERSATION", ToolScope::Admin),
        tool("SLACK_INVITE_USER_TO_WORKSPACE", ToolScope::Admin),
        tool("SLACK_CONVERT_CHANNEL_TO_PRIVATE", ToolScope::Admin),
        tool("SLACK_INVITE_USERS_TO_A_SLACK_CHANNEL", ToolScope::Admin),
    ];
    assert(tools_view(tools@) =~= catalog());
    tools
}

} // verus!
