//! One commit of the history, as the log reports it.
use vstd::prelude::*;

verus! {

/// A commit: its short identifier, its subject line and its author
/// timestamp, each as the log printed it with surrounding white space removed.
#[derive(Clone, Debug, PartialEq, Eq)]
pub struct Entry {
    pub id: String,
    pub subject: String,
    pub timestamp: String,
}

/// The text of an entry's three fields.
pub struct EntryView {
    pub id: Seq<char>,
    pub subject: Seq<char>,
    pub timestamp: Seq<char>,
}

impl View for Entry {
    type V = EntryView;

    open spec fn view(&self) -> EntryView {
        EntryView { id: self.id@, subject: self.subject@, timestamp: self.timestamp@ }
    }
}

/// The views of a sequence of entries.
pub open spec fn entry_views(entries: Seq<Entry>) -> Seq<EntryView> {
    entries.map_values(|e: Entry| e@)
}

} // verus!
