//! The toolkits this build knows how to read.
//!
//! Five of them are *flat*: one action reads the whole account, and one cursor
//! says where it got to. Slack is *scoped*: its history action reads one
//! channel, so a sync walks the conversation list and carries its position in
//! a composite cursor.

use vstd::prelude::*;
use vstd::string::*;

use crate::provider::{registered, ProviderRegistry, Toolkit};

pub mod slack;
pub mod slack_catalog;
pub mod slack_fetch;
pub mod slack_files;
pub mod slack_laws;
pub mod slack_page_laws;
pub mod slack_parse;
pub mod slack_roster_laws;
pub mod slack_step_laws;

pub use slack::SlackProvider;

verus! {

/// Every toolkit this build ships, each once.
///
/// Every one of them can be read, and the one that goes by `slack` is
/// [`SlackProvider`].
#[must_use]
pub fn default_registry() -> (registry: ProviderRegistry)
    ensures
        registry@ == seq![
            Toolkit::Clickup,
            Toolkit::Github,
            Toolkit::Gmail,
            Toolkit::Linear,
            Toolkit::Notion,
            Toolkit::Slack(SlackProvider),
        ],
        registry@.no_duplicates(),
        forall|i: int| 0 <= i < registry@.len() ==> (#[trigger] registry@[i]).syncs(),
        forall|i: int|
            0 <= i < registry@.len() ==> registered(
                registry@,
                (#[trigger] registry@[i]).slug_view(),
            ) == Some(registry@[i]),
        registered(registry@, "slack"@) == Some(Toolkit::Slack(SlackProvider)),
{
    let registry = ProviderRegistry::new().with(Toolkit::Clickup).with(Toolkit::Github).with(
        Toolkit::Gmail,
    ).with(Toolkit::Linear).with(Toolkit::Notion).with(Toolkit::Slack(SlackProvider));
    proof {
        let shipped = registry@;
        assert(shipped =~= seq![
            Toolkit::Clickup,
            Toolkit::Github,
            Toolkit::Gmail,
            Toolkit::Linear,
            Toolkit::Notion,
            Toolkit::Slack(SlackProvider),
        ]);
        reveal_strlit("clickup");
        reveal_strlit("github");
        reveal_strlit("gmail");
        reveal_strlit("linear");
        reveal_strlit("notion");
        reveal_strlit("slack");
        assert forall|i: int, j: int| 0 <= i < j < shipped.len() implies shipped[i].slug_view()
            != shipped[j].slug_view() by {
            let a = shipped[i].slug_view();
            let b = shipped[j].slug_view();
            assert(a.len() != b.len() || a[0] != b[0]);
        }
        assert forall|i: int| 0 <= i < shipped.len() implies registered(
            shipped,
            (#[trigger] shipped[i]).slug_view(),
        ) == Some(shipped[i]) by {
            lemma_registered(shipped, i);
        }
        assert(shipped[5].slug_view() == "slack"@);
    }
    registry
}

/// Where no two toolkits go by one name, each is the one that goes by its own.
proof fn lemma_registered(toolkits: Seq<Toolkit>, i: int)
    requires
        0 <= i < toolkits.len(),
        forall|a: int, b: int|
            0 <= a < b < toolkits.len() ==> (#[trigger] toolkits[a]).slug_view() != (
            #[trigger] toolkits[b]).slug_view(),
    ensures
        registered(toolkits, toolkits[i].slug_view()) == Some(toolkits[i]),
    decreases toolkits.len(),
{
    if i > 0 {
        let rest = toolkits.drop_first();
        assert forall|a: int, b: int| 0 <= a < b < rest.len() implies (#[trigger] rest[a]).slug_view()
            != (#[trigger] rest[b]).slug_view() by {
            assert(rest[a] == toolkits[a + 1] && rest[b] == toolkits[b + 1]);
        }
        lemma_registered(rest, i - 1);
        assert(rest[i - 1] == toolkits[i]);
        assert(toolkits[0].slug_view() != toolkits[i].slug_view());
    }
}

} // verus!
