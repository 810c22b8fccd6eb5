//! The canonical timeline entry: actor, instant, category, text, link.

use vstd::prelude::*;
use crate::time::rfc3339_epoch;

verus! {

/// One timeline entry.
///
/// `when` is the entry's instant in seconds since the Unix epoch (UTC);
/// `when_text` is the RFC 3339 text that instant was parsed from, kept so
/// the structured document can carry the timestamp as a string without
/// losing the instant.
#[derive(Debug)]
pub struct Event {
    pub who: String,
    pub when: i64,
    pub when_text: String,
    pub category: String,
    pub what: String,
    pub url: String,
}

/// The mathematical model of an [`Event`]: each text field as its
/// character sequence.
#[verifier::ext_equal]
pub struct EventModel {
    pub who: Seq<char>,
    pub when: i64,
    pub when_text: Seq<char>,
    pub category: Seq<char>,
    pub what: Seq<char>,
    pub url: Seq<char>,
}

impl View for Event {
    type V = EventModel;

    open spec fn view(&self) -> EventModel {
        EventModel {
            who: self.who@,
            when: self.when,
            when_text: self.when_text@,
            category: self.category@,
            what: self.what@,
            url: self.url@,
        }
    }
}

impl EventModel {
    /// A well-formed event's instant is exactly what its timestamp text
    /// parses to: no event carries a fabricated time.
    pub open spec fn wf(self) -> bool {
        rfc3339_epoch(self.when_text) == Some(self.when)
    }
}

} // verus!
