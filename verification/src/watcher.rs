//! The life of a watcher: fetch, compare, dispatch, persist, sleep, and again.
//!
//! The watcher itself neither fetches nor sleeps. It is told what happened and
//! answers with what is to be done next; whoever drives it performs the action
//! and reports back. One cycle is at most one fetch, one comparison, one round
//! of callbacks, one backup and one sleep, in that order.

use crate::detector::{compare_events, compare_state, CalendarChangeDetector, DetectorView};
use crate::duration::DEFAULT_TTL_SECS;
use crate::model::{Calendar, CalendarEvent, CalendarEventView, CalendarView};
use crate::snapshot::{Snapshot, SnapshotView};
use vstd::prelude::*;
use vstd::string::StringExecFns;

verus! {

/// Where in its cycle a watcher is.
#[derive(Clone, Copy, Debug, PartialEq, Eq)]
pub enum WatcherPhase {
    /// Nothing under way; waiting to be started.
    Idle,
    /// The calendar is being fetched and parsed.
    Fetching,
    /// A parsed calendar is being compared with the previous snapshot.
    Comparing,
    /// The callbacks are being called with the events of this cycle.
    Dispatching,
    /// The snapshot is being written to durable storage.
    Persisting,
    /// Waiting for the republish interval to pass.
    Sleeping,
    /// Fetching or persisting failed; the loop has ended.
    Failed,
}

/// Why a watcher stopped.
#[derive(Debug, PartialEq, Eq)]
pub enum WatcherError {
    /// The source could not be reached or did not answer with success.
    Fetch(String),
    /// The body was no calendar: malformed, or none in it.
    Parse(String),
    /// The backup could not be written.
    Persistence(String),
}

/// The model of a [`WatcherError`].
pub enum WatcherErrorView {
    Fetch(Seq<char>),
    Parse(Seq<char>),
    Persistence(Seq<char>),
}

impl View for WatcherError {
    type V = WatcherErrorView;

    open spec fn view(&self) -> WatcherErrorView {
        match self {
            WatcherError::Fetch(detail) => WatcherErrorView::Fetch(detail@),
            WatcherError::Parse(detail) => WatcherErrorView::Parse(detail@),
            WatcherError::Persistence(detail) => WatcherErrorView::Persistence(detail@),
        }
    }
}

impl WatcherError {
    /// A line that names the phase that failed and gives the detail.
    pub fn message(&self) -> (text: String)
        ensures
            text@ == match self@ {
                WatcherErrorView::Fetch(detail) => "fetching the calendar failed: "@ + detail,
                WatcherErrorView::Parse(detail) => "parsing the calendar failed: "@ + detail,
                WatcherErrorView::Persistence(detail) => "writing the backup failed: "@ + detail,
            },
    {
        match self {
            WatcherError::Fetch(detail) => String::from_str("fetching the calendar failed: ").concat(
                detail.as_str(),
            ),
            WatcherError::Parse(detail) => String::from_str("parsing the calendar failed: ").concat(
                detail.as_str(),
            ),
            WatcherError::Persistence(detail) => String::from_str(
                "writing the backup failed: ",
            ).concat(detail.as_str()),
        }
    }
}

/// What happened outside, as the driver reports it.
#[derive(Debug, PartialEq, Eq)]
pub enum WatcherInput {
    /// A cycle is to begin.
    Start,
    /// The source was fetched and parsed.
    Fetched(Calendar),
    /// The source could not be reached, or answered without success.
    FetchFailed(String),
    /// The body could not be parsed, or held no calendar.
    ParseFailed(String),
    /// Every callback has been called; `failures` of them reported an error.
    Dispatched { failures: usize },
    /// The backup has been written.
    Persisted,
    /// The backup could not be written.
    PersistFailed(String),
    /// The sleep is over.
    Woke,
}

/// The model of a [`WatcherInput`].
pub enum WatcherInputView {
    Start,
    Fetched(CalendarView),
    FetchFailed(Seq<char>),
    ParseFailed(Seq<char>),
    Dispatched { failures: usize },
    Persisted,
    PersistFailed(Seq<char>),
    Woke,
}

impl View for WatcherInput {
    type V = WatcherInputView;

    open spec fn view(&self) -> WatcherInputView {
        match self {
            WatcherInput::Start => WatcherInputView::Start,
            WatcherInput::Fetched(calendar) => WatcherInputView::Fetched(calendar@),
            WatcherInput::FetchFailed(detail) => WatcherInputView::FetchFailed(detail@),
            WatcherInput::ParseFailed(detail) => WatcherInputView::ParseFailed(detail@),
            WatcherInput::Dispatched { failures } => WatcherInputView::Dispatched {
                failures: *failures,
            },
            WatcherInput::Persisted => WatcherInputView::Persisted,
            WatcherInput::PersistFailed(detail) => WatcherInputView::PersistFailed(detail@),
            WatcherInput::Woke => WatcherInputView::Woke,
        }
    }
}

/// What the driver is to do next.
#[derive(Debug, PartialEq, Eq)]
pub enum WatcherAction {
    /// Fetch the source at `link`, parse it, and report the outcome.
    Fetch { link: String },
    /// Call every callback with these arguments, each failure caught, and
    /// report when all have returned.
    Dispatch { name: Option<String>, description: Option<String>, events: Vec<CalendarEvent> },
    /// Write the snapshot under the identifier `backup`, and report the
    /// outcome.
    Persist { backup: String },
    /// Wait `secs` seconds, and report when they are over.
    Sleep { secs: u64 },
    /// End the loop and hand the error to the caller.
    Stop(WatcherError),
    /// The input does not belong to the phase the watcher is in; nothing
    /// has changed.
    Rejected,
}

/// The model of a [`WatcherAction`].
pub enum WatcherActionView {
    Fetch { link: Seq<char> },
    Dispatch {
        name: Option<Seq<char>>,
        description: Option<Seq<char>>,
        events: Seq<CalendarEventView>,
    },
    Persist { backup: Seq<char> },
    Sleep { secs: u64 },
    Stop(WatcherErrorView),
    Rejected,
}

impl View for WatcherAction {
    type V = WatcherActionView;

    open spec fn view(&self) -> WatcherActionView {
        match self {
            WatcherAction::Fetch { link } => WatcherActionView::Fetch { link: link@ },
            WatcherAction::Dispatch { name, description, events } => WatcherActionView::Dispatch {
                name: name.deep_view(),
                description: description.deep_view(),
                events: events.deep_view(),
            },
            WatcherAction::Persist { backup } => WatcherActionView::Persist { backup: backup@ },
            WatcherAction::Sleep { secs } => WatcherActionView::Sleep { secs: *secs },
            WatcherAction::Stop(error) => WatcherActionView::Stop(error@),
            WatcherAction::Rejected => WatcherActionView::Rejected,
        }
    }
}

/// The model of an [`ICSWatcher`].
pub struct WatcherView {
    /// Where the calendar is fetched from.
    pub link: Seq<char>,
    /// The change detector that the watcher drives.
    pub detector: DetectorView,
    /// Where in its cycle the watcher is.
    pub phase: WatcherPhase,
    /// The identifier under which snapshots are backed up, if any.
    pub backup: Option<Seq<char>>,
    /// A sleep that takes the place of the republish interval, if any.
    pub fixed_interval: Option<u64>,
}

impl WatcherView {
    /// The invariant: that of the detector.
    pub open spec fn wf(self) -> bool {
        self.detector.wf()
    }

    /// How long the next sleep lasts.
    pub open spec fn sleep_secs(self) -> u64 {
        match self.fixed_interval {
            Some(secs) => secs,
            None => self.detector.ttl,
        }
    }

    /// What follows the callbacks, or the comparison where it found nothing:
    /// the backup where one is asked for, else the sleep.
    pub open spec fn after_dispatch(self) -> (WatcherView, WatcherActionView) {
        match self.backup {
            Some(backup) => (
                WatcherView { phase: WatcherPhase::Persisting, ..self },
                WatcherActionView::Persist { backup },
            ),
            None => (
                WatcherView { phase: WatcherPhase::Sleeping, ..self },
                WatcherActionView::Sleep { secs: self.sleep_secs() },
            ),
        }
    }

    /// What follows a successful fetch: the comparison, and the callbacks
    /// where it found anything.
    pub open spec fn after_fetch(self, calendar: CalendarView) -> (WatcherView, WatcherActionView) {
        let events = compare_events(self.detector, calendar);
        let compared = WatcherView { detector: compare_state(self.detector, calendar), ..self };
        if events.len() > 0 {
            (
                WatcherView { phase: WatcherPhase::Dispatching, ..compared },
                WatcherActionView::Dispatch {
                    name: compared.detector.name,
                    description: compared.detector.description,
                    events,
                },
            )
        } else {
            compared.after_dispatch()
        }
    }

    /// The watcher stopped by `error`.
    pub open spec fn failed(self, error: WatcherErrorView) -> (WatcherView, WatcherActionView) {
        (WatcherView { phase: WatcherPhase::Failed, ..self }, WatcherActionView::Stop(error))
    }

    /// The transition function: the state and the action that follow from a
    /// state and an input. An input that the phase does not expect changes
    /// nothing.
    pub open spec fn step(self, input: WatcherInputView) -> (WatcherView, WatcherActionView) {
        let fetch = (
            WatcherView { phase: WatcherPhase::Fetching, ..self },
            WatcherActionView::Fetch { link: self.link },
        );
        match (self.phase, input) {
            (WatcherPhase::Idle, WatcherInputView::Start) => fetch,
            (WatcherPhase::Sleeping, WatcherInputView::Woke) => fetch,
            (WatcherPhase::Fetching, WatcherInputView::Fetched(calendar)) => self.after_fetch(
                calendar,
            ),
            (WatcherPhase::Fetching, WatcherInputView::FetchFailed(detail)) => self.failed(
                WatcherErrorView::Fetch(detail),
            ),
            (WatcherPhase::Fetching, WatcherInputView::ParseFailed(detail)) => self.failed(
                WatcherErrorView::Parse(detail),
            ),
            (WatcherPhase::Dispatching, WatcherInputView::Dispatched { .. }) => self.after_dispatch(),
            (WatcherPhase::Persisting, WatcherInputView::Persisted) => (
                WatcherView { phase: WatcherPhase::Sleeping, ..self },
                WatcherActionView::Sleep { secs: self.sleep_secs() },
            ),
            (WatcherPhase::Persisting, WatcherInputView::PersistFailed(detail)) => self.failed(
                WatcherErrorView::Persistence(detail),
            ),
            _ => (self, WatcherActionView::Rejected),
        }
    }
}

/// Watches one calendar source.
pub struct ICSWatcher {
    ics_link: String,
    change_detector: CalendarChangeDetector,
    phase: WatcherPhase,
    backup: Option<String>,
    fixed_interval: Option<u64>,
}

impl View for ICSWatcher {
    type V = WatcherView;

    closed spec fn view(&self) -> WatcherView {
        WatcherView {
            link: self.ics_link@,
            detector: self.change_detector@,
            phase: self.phase,
            backup: self.backup.deep_view(),
            fixed_interval: self.fixed_interval,
        }
    }
}

impl ICSWatcher {
    /// The invariant of the type.
    pub open spec fn wf(&self) -> bool {
        self@.wf()
    }

    /// A watcher for the source at `ics_link`, idle, with a detector that has
    /// seen nothing, no backup and no fixed interval.
    pub fn new(ics_link: &str) -> (watcher: Self)
        ensures
            watcher.wf(),
            watcher@.link == ics_link@,
            watcher@.phase == WatcherPhase::Idle,
            watcher@.backup == None::<Seq<char>>,
            watcher@.fixed_interval == None::<u64>,
            watcher@.detector == (DetectorView {
                name: None,
                description: None,
                ttl: DEFAULT_TTL_SECS,
                previous: SnapshotView::empty(),
                initialized: false,
            }),
    {
        ICSWatcher {
            ics_link: String::from_str(ics_link),
            change_detector: CalendarChangeDetector::new(),
            phase: WatcherPhase::Idle,
            backup: None,
            fixed_interval: None,
        }
    }

    /// Seeds the detector with a snapshot, as if a cycle had left it.
    pub fn restore_state(&mut self, state: Snapshot)
        requires
            old(self).wf(),
            state.wf(),
        ensures
            final(self).wf(),
            final(self)@ == (WatcherView {
                detector: DetectorView {
                    previous: state@,
                    initialized: true,
                    ..old(self)@.detector
                },
                ..old(self)@
            }),
    {
        self.change_detector.set_state(state);
    }

    /// The snapshot that the detector holds.
    pub fn get_state(&self) -> (snapshot: &Snapshot)
        ensures
            snapshot@ == self@.detector.previous,
    {
        self.change_detector.state()
    }

    /// The name of the calendar last compared.
    pub fn get_calendar_name(&self) -> (name: Option<String>)
        ensures
            name.deep_view() == self@.detector.name,
    {
        self.change_detector.calendar_name().clone()
    }

    /// The description of the calendar last compared.
    pub fn get_calendar_description(&self) -> (description: Option<String>)
        ensures
            description.deep_view() == self@.detector.description,
    {
        self.change_detector.calendar_description().clone()
    }

    /// Where the calendar is fetched from.
    pub fn link(&self) -> (link: &String)
        ensures
            link@ == self@.link,
    {
        &self.ics_link
    }

    /// Where in its cycle the watcher is.
    pub fn phase(&self) -> (phase: WatcherPhase)
        ensures
            phase == self@.phase,
    {
        self.phase
    }

    /// How long the next sleep lasts, in seconds.
    pub fn sleep_secs(&self) -> (secs: u64)
        ensures
            secs == self@.sleep_secs(),
    {
        match self.fixed_interval {
            Some(secs) => secs,
            None => self.change_detector.interval_secs(),
        }
    }

    /// Sets or clears the identifier under which snapshots are backed up.
    pub fn set_backup(&mut self, backup: Option<String>)
        ensures
            final(self)@ == (WatcherView { backup: backup.deep_view(), ..old(self)@ }),
    {
        self.backup = backup;
    }

    /// Sets or clears a sleep that takes the place of the republish interval.
    pub fn set_fixed_interval(&mut self, secs: Option<u64>)
        ensures
            final(self)@ == (WatcherView { fixed_interval: secs, ..old(self)@ }),
    {
        self.fixed_interval = secs;
    }

    /// Returns the watcher to `Idle`, whatever phase it was in. What the
    /// detector holds stays.
    pub fn reset(&mut self)
        ensures
            final(self)@ == (WatcherView { phase: WatcherPhase::Idle, ..old(self)@ }),
    {
        self.phase = WatcherPhase::Idle;
    }

    /// Takes the report of what happened, moves to the next phase and
    /// returns what is to be done.
    pub fn step(&mut self, input: WatcherInput) -> (action: WatcherAction)
        requires
            old(self).wf(),
        ensures
            final(self).wf(),
            (final(self)@, action@) == old(self)@.step(input@),
    {
        match (self.phase, input) {
            (WatcherPhase::Idle, WatcherInput::Start) => self.begin_fetch(),
            (WatcherPhase::Sleeping, WatcherInput::Woke) => self.begin_fetch(),
            (WatcherPhase::Fetching, WatcherInput::Fetched(calendar)) => {
                self.phase = WatcherPhase::Comparing;
                let events = self.change_detector.compare(calendar);
                if events.len() > 0 {
                    self.phase = WatcherPhase::Dispatching;
                    WatcherAction::Dispatch {
                        name: self.change_detector.calendar_name().clone(),
                        description: self.change_detector.calendar_description().clone(),
                        events,
                    }
                } else {
                    self.finish_dispatch()
                }
            },
            (WatcherPhase::Fetching, WatcherInput::FetchFailed(detail)) => {
                self.phase = WatcherPhase::Failed;
                WatcherAction::Stop(WatcherError::Fetch(detail))
            },
            (WatcherPhase::Fetching, WatcherInput::ParseFailed(detail)) => {
                self.phase = WatcherPhase::Failed;
                WatcherAction::Stop(WatcherError::Parse(detail))
            },
            (WatcherPhase::Dispatching, WatcherInput::Dispatched { failures: _ }) => {
                self.finish_dispatch()
            },
            (WatcherPhase::Persisting, WatcherInput::Persisted) => {
                self.phase = WatcherPhase::Sleeping;
                WatcherAction::Sleep { secs: self.sleep_secs() }
            },
            (WatcherPhase::Persisting, WatcherInput::PersistFailed(detail)) => {
                self.phase = WatcherPhase::Failed;
                WatcherAction::Stop(WatcherError::Persistence(detail))
            },
            _ => WatcherAction::Rejected,
        }
    }

    /// Enters `Fetching`.
    fn begin_fetch(&mut self) -> (action: WatcherAction)
        ensures
            final(self)@ == (WatcherView { phase: WatcherPhase::Fetching, ..old(self)@ }),
            action@ == (WatcherActionView::Fetch { link: old(self)@.link }),
    {
        self.phase = WatcherPhase::Fetching;
        WatcherAction::Fetch { link: self.ics_link.clone() }
    }

    /// Enters what follows the callbacks.
    fn finish_dispatch(&mut self) -> (action: WatcherAction)
        ensures
            (final(self)@, action@) == old(self)@.after_dispatch(),
    {
        match &self.backup {
            Some(backup) => {
                let backup = backup.clone();
                self.phase = WatcherPhase::Persisting;
                WatcherAction::Persist { backup }
            },
            None => {
                self.phase = WatcherPhase::Sleeping;
                WatcherAction::Sleep { secs: self.sleep_secs() }
            },
        }
    }
}

} // verus!
