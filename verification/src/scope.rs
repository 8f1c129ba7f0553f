//! How invasive an action is.

use vstd::prelude::*;

verus! {

/// What an action does to an account.
#[derive(Debug, Clone, Copy, PartialEq, Eq, Structural)]
pub enum ToolScope {
    /// It reads.
    Read,
    /// It adds or changes something.
    Write,
    /// It removes something, or changes who can reach it.
    Admin,
}

/// An action worth offering, with how invasive it is.
#[derive(Debug, Clone, Copy)]
pub struct CuratedTool {
    /// The action's name.
    pub slug: &'static str,
    /// What it does to an account.
    pub scope: ToolScope,
}

/// What each tool of a list is called, and what it does.
pub open spec fn tools_view(tools: Seq<CuratedTool>) -> Seq<(Seq<char>, ToolScope)> {
    tools.map_values(|tool: CuratedTool| (tool.slug@, tool.scope))
}

} // verus!
