//! Watching a calendar for changes.
//!
//! A [`detector::CalendarChangeDetector`] keeps the occurrences of the last
//! cycle by identity key and tells, for each newly parsed calendar, which
//! occurrences were created, updated or deleted. A [`watcher::ICSWatcher`]
//! drives it through the cycle of fetching, comparing, dispatching,
//! persisting and sleeping. What fetches, calls back, writes and sleeps is
//! left to the caller. The module [`mirror`] holds what a copy of the calendar
//! kept elsewhere is told of the events.

pub mod backup;
pub mod detector;
pub mod diff;
pub mod duration;
pub mod identity;
pub mod laws;
pub mod mirror;
pub mod model;
pub mod replacements;
pub mod report;
pub mod snapshot;
pub mod text;
pub mod watcher;
