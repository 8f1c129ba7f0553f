//! What a provider hands to its host: records, pages of them, and profiles.

use vstd::prelude::*;
use vstd::string::*;

use crate::json::Json;
use crate::text::{option_view, strings_view};

verus! {

/// One thing to ingest.
#[derive(Debug, PartialEq, Eq)]
pub struct ConnectorRecord {
    /// What tells it from every other record of the connection.
    pub item_id: String,
    /// A line that says what it is.
    pub title: String,
    /// Its text.
    pub content: String,
    /// The type of `content`.
    pub mime: Option<String>,
    /// Where a reader can open it.
    pub url: Option<String>,
    /// When it was last changed, in milliseconds since the Unix epoch.
    pub updated_at_ms: Option<i64>,
    /// Labels.
    pub tags: Vec<String>,
}

/// What a record says.
#[verifier::ext_equal]
pub struct RecordView {
    /// See [`ConnectorRecord::item_id`].
    pub item_id: Seq<char>,
    /// See [`ConnectorRecord::title`].
    pub title: Seq<char>,
    /// See [`ConnectorRecord::content`].
    pub content: Seq<char>,
    /// See [`ConnectorRecord::mime`].
    pub mime: Option<Seq<char>>,
    /// See [`ConnectorRecord::url`].
    pub url: Option<Seq<char>>,
    /// See [`ConnectorRecord::updated_at_ms`].
    pub updated_at_ms: Option<int>,
    /// See [`ConnectorRecord::tags`].
    pub tags: Seq<Seq<char>>,
}

impl View for ConnectorRecord {
    type V = RecordView;

    open spec fn view(&self) -> RecordView {
        RecordView {
            item_id: self.item_id@,
            title: self.title@,
            content: self.content@,
            mime: option_view(self.mime),
            url: option_view(self.url),
            updated_at_ms: match self.updated_at_ms {
                Some(ms) => Some(ms as int),
                None => None,
            },
            tags: strings_view(self.tags@),
        }
    }
}

/// What each record of a list says.
pub open spec fn records_view(records: Seq<ConnectorRecord>) -> Seq<RecordView> {
    records.map_values(|record: ConnectorRecord| record@)
}

/// What each pair of a list says.
pub open spec fn pairs_view(pairs: Seq<(String, String)>) -> Seq<(Seq<char>, Seq<char>)> {
    pairs.map_values(|pair: (String, String)| (pair.0@, pair.1@))
}

/// One page of a connection.
#[derive(Debug, PartialEq, Eq)]
pub struct ProviderPage {
    /// What the page carries.
    pub records: Vec<ConnectorRecord>,
    /// The versions of those records that have one, by `item_id`.
    pub versions: Vec<(String, String)>,
    /// Where the next page starts, unless this was the last.
    pub next_cursor: Option<String>,
}

/// What a page says.
#[verifier::ext_equal]
pub struct PageView {
    /// See [`ProviderPage::records`].
    pub records: Seq<RecordView>,
    /// See [`ProviderPage::versions`].
    pub versions: Seq<(Seq<char>, Seq<char>)>,
    /// See [`ProviderPage::next_cursor`].
    pub next_cursor: Option<Seq<char>>,
}

impl View for ProviderPage {
    type V = PageView;

    open spec fn view(&self) -> PageView {
        PageView {
            records: records_view(self.records@),
            versions: pairs_view(self.versions@),
            next_cursor: option_view(self.next_cursor),
        }
    }
}

/// Who an account belongs to.
#[derive(Debug)]
pub struct ProviderUserProfile {
    /// The toolkit that the account is of.
    pub toolkit: String,
    /// The connection to the account.
    pub connection_id: Option<String>,
    /// A name to show.
    pub display_name: Option<String>,
    /// A short name.
    pub username: Option<String>,
    /// A picture to show.
    pub avatar_url: Option<String>,
    /// Everything that was reported.
    pub extras: Json,
}

/// What a record and a page say is what they hold, field for field.
pub proof fn law_pages_say_what_they_hold(record: ConnectorRecord, page: ProviderPage, i: int)
    ensures
        record@.item_id == record.item_id@,
        record@.title == record.title@,
        record@.content == record.content@,
        record.mime matches Some(text) ==> record@.mime == Some(text@),
        record.mime is None ==> record@.mime is None,
        record.url matches Some(text) ==> record@.url == Some(text@),
        record.url is None ==> record@.url is None,
        record.updated_at_ms matches Some(ms) ==> record@.updated_at_ms == Some(ms as int),
        record.updated_at_ms is None ==> record@.updated_at_ms is None,
        record@.tags.len() == record.tags@.len(),
        page@.records.len() == page.records@.len(),
        0 <= i < page.records@.len() ==> page@.records[i] == page.records@[i]@,
        page@.versions.len() == page.versions@.len(),
        0 <= i < page.versions@.len() ==> page@.versions[i].0 == page.versions@[i].0@
            && page@.versions[i].1 == page.versions@[i].1@,
        page.next_cursor matches Some(text) ==> page@.next_cursor == Some(text@),
        page.next_cursor is None ==> page@.next_cursor is None,
{
}

} // verus!
