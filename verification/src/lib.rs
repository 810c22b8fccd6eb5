//! A unified activity timeline for a code-hosting project.
//!
//! Issue lifecycle records and issue comment records are turned into one
//! homogeneous stream of [`event::Event`]s, merged into a single collection
//! totally ordered by timestamp, and rendered either as a day-grouped text
//! feed or as a structured array-of-objects document.

pub mod aggregate;
pub mod codec;
pub mod event;
pub mod extract;
pub mod project;
pub mod strutil;
pub mod textfeed;
pub mod time;
