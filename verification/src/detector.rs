//! The change detector: one comparison of a freshly parsed calendar against
//! the snapshot of the previous cycle.
//!
//! What a comparison returns and what state it leaves are functions of the
//! state before and of the calendar; `compare_events` and `compare_state`
//! define them.

use crate::diff::{changed_names, changed_properties};
use crate::duration::{interval_or_default, republish_secs, DEFAULT_TTL_SECS};
use crate::identity::{identity_key, resolve_identity};
use crate::model::{
    find_property, first_named, value_of, Calendar, CalendarEvent, CalendarEventView,
    CalendarView, EventData, EventDataView, Occurrence, OccurrenceView, Properties, Property,
    PropertyChange,
    PropertyChangeView,
};
use crate::snapshot::{lemma_put_wf, Snapshot, SnapshotView};
use vstd::prelude::*;
use vstd::string::StringExecFns;

verus! {

/// The model of a [`CalendarChangeDetector`].
pub struct DetectorView {
    /// Calendar name of the last calendar compared.
    pub name: Option<Seq<char>>,
    /// Calendar description of the last calendar compared.
    pub description: Option<Seq<char>>,
    /// Republish interval in seconds.
    pub ttl: u64,
    /// The snapshot of the previous cycle.
    pub previous: SnapshotView,
    /// Whether there is a previous cycle to compare against.
    pub initialized: bool,
}

impl DetectorView {
    /// The snapshot is well formed, and holds nothing before the first cycle.
    pub open spec fn wf(self) -> bool {
        &&& self.previous.wf()
        &&& !self.initialized ==> self.previous == SnapshotView::empty()
    }
}

/// The snapshot that a list of occurrences leaves: each identified occurrence
/// under its key, a later one in place of an earlier one with the same key.
pub open spec fn snapshot_of(occs: Seq<OccurrenceView>) -> SnapshotView
    decreases occs.len(),
{
    if occs.len() == 0 {
        SnapshotView::empty()
    } else {
        let before = snapshot_of(occs.drop_last());
        match identity_key(occs.last().properties) {
            Some(key) => before.put(key, occs.last()),
            None => before,
        }
    }
}

/// For each of `names`, the property before and after.
pub open spec fn changes_for(names: Seq<Seq<char>>, prev: Properties, next: Properties) -> Seq<
    PropertyChangeView,
> {
    Seq::new(
        names.len(),
        |i: int|
            PropertyChangeView {
                key: names[i],
                from: first_named(prev, names[i]),
                to: first_named(next, names[i]),
            },
    )
}

/// The event that one incoming occurrence gives rise to, if any.
pub open spec fn classify(initialized: bool, previous: SnapshotView, occ: OccurrenceView) -> Option<
    CalendarEventView,
> {
    match identity_key(occ.properties) {
        None => None,
        Some(key) => {
            let event = EventDataView { uid: key, ical_data: occ };
            if !initialized {
                Some(CalendarEventView::Setup(event))
            } else if !previous.entries.contains_key(key) {
                Some(CalendarEventView::Created(event))
            } else if changed_names(previous.entries[key].properties, occ.properties).len() == 0 {
                None
            } else {
                Some(
                    CalendarEventView::Updated {
                        event,
                        changed_properties: changes_for(
                            changed_names(previous.entries[key].properties, occ.properties),
                            previous.entries[key].properties,
                            occ.properties,
                        ),
                    },
                )
            }
        },
    }
}

/// The events for the incoming occurrences, in calendar order.
pub open spec fn live_events(initialized: bool, previous: SnapshotView, occs: Seq<OccurrenceView>) -> Seq<
    CalendarEventView,
>
    decreases occs.len(),
{
    if occs.len() == 0 {
        Seq::empty()
    } else {
        let before = live_events(initialized, previous, occs.drop_last());
        match classify(initialized, previous, occs.last()) {
            Some(event) => before.push(event),
            None => before,
        }
    }
}

/// A `Deleted` event for each of `keys` that `current` no longer holds,
/// carrying the occurrence that `previous` holds under it.
pub open spec fn deleted_among(keys: Seq<Seq<char>>, previous: SnapshotView, current: SnapshotView) -> Seq<
    CalendarEventView,
>
    decreases keys.len(),
{
    if keys.len() == 0 {
        Seq::empty()
    } else {
        let before = deleted_among(keys.drop_last(), previous, current);
        let key = keys.last();
        if current.entries.contains_key(key) {
            before
        } else {
            before.push(
                CalendarEventView::Deleted(
                    EventDataView { uid: key, ical_data: previous.entries[key] },
                ),
            )
        }
    }
}

/// The republish interval that a calendar asks for: that of its
/// `X-PUBLISHED-TTL` value, and one hour where it has none or the value is
/// no duration.
pub open spec fn ttl_of(props: Properties) -> u64 {
    match value_of(props, "X-PUBLISHED-TTL"@) {
        Some(text) => interval_or_default(text),
        None => DEFAULT_TTL_SECS,
    }
}

/// The events of one comparison: those of the incoming occurrences, then a
/// `Deleted` for every key of the previous snapshot that is gone.
pub open spec fn compare_events(state: DetectorView, calendar: CalendarView) -> Seq<
    CalendarEventView,
> {
    live_events(state.initialized, state.previous, calendar.events) + deleted_among(
        state.previous.order,
        state.previous,
        snapshot_of(calendar.events),
    )
}

/// The state that one comparison leaves.
pub open spec fn compare_state(state: DetectorView, calendar: CalendarView) -> DetectorView {
    DetectorView {
        name: value_of(calendar.properties, "X-WR-CALNAME"@),
        description: value_of(calendar.properties, "X-WR-CALDESC"@),
        ttl: ttl_of(calendar.properties),
        previous: snapshot_of(calendar.events),
        initialized: true,
    }
}

/// `snapshot_of` is well formed.
pub proof fn lemma_snapshot_of_wf(occs: Seq<OccurrenceView>)
    ensures
        snapshot_of(occs).wf(),
    decreases occs.len(),
{
    if occs.len() > 0 {
        lemma_snapshot_of_wf(occs.drop_last());
        match identity_key(occs.last().properties) {
            Some(key) => lemma_put_wf(snapshot_of(occs.drop_last()), key, occs.last()),
            None => {},
        }
    }
}

/// The value of the first property called `name`, copied.
fn property_value(props: &Vec<Property>, name: &str) -> (value: Option<String>)
    ensures
        value.deep_view() == value_of(props.deep_view(), name@),
{
    let wanted = String::from_str(name);
    match find_property(props, &wanted) {
        Some(p) => p.value.clone(),
        None => None,
    }
}

/// The republish interval of a calendar with these properties.
fn republish_interval(props: &Vec<Property>) -> (secs: u64)
    ensures
        secs == ttl_of(props.deep_view()),
{
    let wanted = String::from_str("X-PUBLISHED-TTL");
    match find_property(props, &wanted) {
        Some(p) => match &p.value {
            Some(text) => republish_secs(text.as_str()),
            None => DEFAULT_TTL_SECS,
        },
        None => DEFAULT_TTL_SECS,
    }
}

/// For each of `names`, the property before and after, copied.
fn collect_changes(names: &Vec<String>, prev: &Occurrence, next: &Occurrence) -> (changes: Vec<
    PropertyChange,
>)
    ensures
        changes.deep_view() == changes_for(names.deep_view(), prev@.properties, next@.properties),
{
    let mut changes: Vec<PropertyChange> = Vec::new();
    let mut i: usize = 0;
    while i < names.len()
        invariant
            i <= names.len(),
            changes.len() == i,
            forall|j: int|
                0 <= j < i ==> changes.deep_view()[j] == changes_for(
                    names.deep_view(),
                    prev@.properties,
                    next@.properties,
                )[j],
        decreases names.len() - i,
    {
        let name = &names[i];
        let from = match find_property(&prev.properties, name) {
            Some(p) => Some(p.clone()),
            None => None,
        };
        let to = match find_property(&next.properties, name) {
            Some(p) => Some(p.clone()),
            None => None,
        };
        let change = PropertyChange { key: name.clone(), from, to };
        let ghost sofar = changes.deep_view();
        changes.push(change);
        assert(changes.deep_view() =~= sofar.push(change@));
        i += 1;
    }
    assert(changes.deep_view() =~= changes_for(names.deep_view(), prev@.properties, next@.properties));
    changes
}

/// Holds the snapshot of the previous cycle and tells what changed since.
pub struct CalendarChangeDetector {
    /// Name of the calendar last compared.
    pub name: Option<String>,
    /// Description of the calendar last compared.
    pub description: Option<String>,
    /// Republish interval of the calendar last compared, in seconds.
    pub ttl: u64,
    previous: Snapshot,
    initialized: bool,
}

impl View for CalendarChangeDetector {
    type V = DetectorView;

    closed spec fn view(&self) -> DetectorView {
        DetectorView {
            name: self.name.deep_view(),
            description: self.description.deep_view(),
            ttl: self.ttl,
            previous: self.previous@,
            initialized: self.initialized,
        }
    }
}

impl CalendarChangeDetector {
    /// The invariant of the type.
    pub open spec fn wf(&self) -> bool {
        self@.wf()
    }

    /// A detector that has seen nothing yet.
    pub fn new() -> (detector: Self)
        ensures
            detector.wf(),
            detector@ == (DetectorView {
                name: None,
                description: None,
                ttl: DEFAULT_TTL_SECS,
                previous: SnapshotView::empty(),
                initialized: false,
            }),
    {
        CalendarChangeDetector {
            name: None,
            description: None,
            ttl: DEFAULT_TTL_SECS,
            previous: Snapshot::new(),
            initialized: false,
        }
    }

    /// Seeds the detector with a snapshot, as if a cycle had left it.
    pub fn set_state(&mut self, state: Snapshot)
        requires
            state.wf(),
        ensures
            final(self).wf(),
            final(self)@ == (DetectorView { previous: state@, initialized: true, ..old(self)@ }),
    {
        self.previous = state;
        self.initialized = true;
    }

    /// The snapshot held.
    pub fn state(&self) -> (snapshot: &Snapshot)
        ensures
            snapshot@ == self@.previous,
    {
        &self.previous
    }

    /// Name of the calendar last compared.
    pub fn calendar_name(&self) -> (name: &Option<String>)
        ensures
            name.deep_view() == self@.name,
    {
        &self.name
    }

    /// Description of the calendar last compared.
    pub fn calendar_description(&self) -> (description: &Option<String>)
        ensures
            description.deep_view() == self@.description,
    {
        &self.description
    }

    /// Republish interval of the calendar last compared, in seconds.
    pub fn interval_secs(&self) -> (secs: u64)
        ensures
            secs == self@.ttl,
    {
        self.ttl
    }

    /// Whether a cycle has completed or a state has been restored.
    pub fn initialized(&self) -> (yes: bool)
        ensures
            yes == self@.initialized,
    {
        self.initialized
    }

    /// Compares a calendar against the previous snapshot, returns what
    /// changed and keeps the calendar's occurrences as the new snapshot.
    pub fn compare(&mut self, calendar: Calendar) -> (events: Vec<CalendarEvent>)
        requires
            old(self).wf(),
        ensures
            final(self).wf(),
            final(self)@ == compare_state(old(self)@, calendar@),
            events.deep_view() == compare_events(old(self)@, calendar@),
    {
        let name = property_value(&calendar.properties, "X-WR-CALNAME");
        let description = property_value(&calendar.properties, "X-WR-CALDESC");
        let ttl = republish_interval(&calendar.properties);

        let ghost before = self@;
        let ghost occs = calendar@.events;
        let mut current = Snapshot::new();
        let mut events: Vec<CalendarEvent> = Vec::new();
        assert(events.deep_view() =~= Seq::<CalendarEventView>::empty());
        let mut i: usize = 0;
        while i < calendar.events.len()
            invariant
                i <= calendar.events.len(),
                occs == calendar.events.deep_view(),
                before == self@,
                current.wf(),
                current@ == snapshot_of(occs.take(i as int)),
                events.deep_view() == live_events(
                    before.initialized,
                    before.previous,
                    occs.take(i as int),
                ),
            decreases calendar.events.len() - i,
        {
            let occ = &calendar.events[i];
            proof {
                assert(occs.take(i + 1).drop_last() =~= occs.take(i as int));
                assert(occs.take(i + 1).last() == occ@);
            }
            let ghost sofar = events.deep_view();
            match resolve_identity(occ) {
                None => {},
                Some(key) => {
                    current.insert(key.clone(), occ.clone());
                    if self.initialized {
                        match self.previous.get(key.as_str()) {
                            Some(known) => {
                                match changed_properties(known, occ) {
                                    Some(names) => {
                                        let changes = collect_changes(&names, known, occ);
                                        let event = CalendarEvent::Updated {
                                            event: EventData { uid: key, ical_data: occ.clone() },
                                            changed_properties: changes,
                                        };
                                        events.push(event);
                                        assert(events.deep_view() =~= sofar.push(event@));
                                    },
                                    None => {},
                                }
                            },
                            None => {
                                let event = CalendarEvent::Created(
                                    EventData { uid: key, ical_data: occ.clone() },
                                );
                                events.push(event);
                                assert(events.deep_view() =~= sofar.push(event@));
                            },
                        }
                    } else {
                        let event = CalendarEvent::Setup(
                            EventData { uid: key, ical_data: occ.clone() },
                        );
                        events.push(event);
                        assert(events.deep_view() =~= sofar.push(event@));
                    }
                },
            }
            i += 1;
        }
        assert(occs.take(calendar.events.len() as int) =~= occs);

        let ghost live = events.deep_view();
        let keys = self.previous.keys();
        let mut j: usize = 0;
        assert(live + Seq::<CalendarEventView>::empty() =~= live);
        while j < keys.len()
            invariant
                j <= keys.len(),
                before == self@,
                before.wf(),
                keys.deep_view() == before.previous.order,
                current@ == snapshot_of(occs),
                events.deep_view() == live + deleted_among(
                    before.previous.order.take(j as int),
                    before.previous,
                    current@,
                ),
            decreases keys.len() - j,
        {
            let key = &keys[j];
            proof {
                let order = before.previous.order;
                assert(order.take(j + 1).drop_last() =~= order.take(j as int));
                assert(order.take(j + 1).last() == key@);
                assert(order[j as int] == key@);
                assert(order.contains(key@));
            }
            if !current.contains_key(key.as_str()) {
                let ghost sofar = events.deep_view();
                match self.previous.get(key.as_str()) {
                    Some(gone) => {
                        let event = CalendarEvent::Deleted(
                            EventData { uid: key.clone(), ical_data: gone.clone() },
                        );
                        events.push(event);
                        assert(events.deep_view() =~= sofar.push(event@));
                    },
                    None => {
                        assert(false);
                    },
                }
            }
            j += 1;
        }
        assert(before.previous.order.take(keys.len() as int) =~= before.previous.order);

        self.name = name;
        self.description = description;
        self.ttl = ttl;
        self.previous = current;
        self.initialized = true;
        proof {
            lemma_snapshot_of_wf(occs);
        }
        events
    }
}

} // verus!
