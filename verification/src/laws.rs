//! What holds of every comparison, proved from the definitions in
//! [`crate::detector`].

use crate::detector::{
    classify, compare_events, compare_state, deleted_among, lemma_snapshot_of_wf, live_events,
    snapshot_of, DetectorView,
};
use crate::diff::{changed_names, differs, lemma_changed_names_exact};
use crate::identity::{disambiguator, identity_key};
use crate::model::{
    first_named, value_of, CalendarEventView, CalendarView, EventDataView, OccurrenceView,
    Properties,
};
use crate::snapshot::SnapshotView;
use vstd::prelude::*;

verus! {

/// Whether one of `occs` has the identity key `key`.
pub open spec fn has_key(occs: Seq<OccurrenceView>, key: Seq<char>) -> bool {
    exists|i: int| 0 <= i < occs.len() && #[trigger] identity_key(occs[i].properties) == Some(key)
}

/// The number of occurrences that can be identified.
pub open spec fn identified_count(occs: Seq<OccurrenceView>) -> nat
    decreases occs.len(),
{
    if occs.len() == 0 {
        0
    } else {
        identified_count(occs.drop_last()) + if identity_key(occs.last().properties) is Some {
            1nat
        } else {
            0nat
        }
    }
}

/// Whether `event` is a `Deleted` for `key`.
pub open spec fn is_deleted_for(event: CalendarEventView, key: Seq<char>) -> bool {
    event matches CalendarEventView::Deleted(data) && data.uid == key
}

/// Whether `event` is an `Updated` for `key`.
pub open spec fn is_updated_for(event: CalendarEventView, key: Seq<char>) -> bool {
    event matches CalendarEventView::Updated { event: data, .. } && data.uid == key
}

/// The number of `Deleted` events for `key` among `events`.
pub open spec fn count_deleted(events: Seq<CalendarEventView>, key: Seq<char>) -> nat
    decreases events.len(),
{
    if events.len() == 0 {
        0
    } else {
        count_deleted(events.drop_last(), key) + if is_deleted_for(events.last(), key) {
            1nat
        } else {
            0nat
        }
    }
}

/// Two occurrences that are the same but for what their `DTSTAMP` properties
/// hold: the same names in the same places, and every other property equal.
pub open spec fn same_but_dtstamp(a: Properties, b: Properties) -> bool {
    &&& a.len() == b.len()
    &&& forall|i: int|
        0 <= i < a.len() ==> (#[trigger] a[i]).name == b[i].name && (a[i].name != "DTSTAMP"@
            ==> a[i] == b[i])
}

/// Two occurrences that are the same but for what their `DTSTAMP`
/// properties hold.
pub open spec fn same_occurrence_but_dtstamp(a: OccurrenceView, b: OccurrenceView) -> bool {
    same_but_dtstamp(a.properties, b.properties) && a.alarms == b.alarms
}

/// Two lists of occurrences that are the same, one by one, but for `DTSTAMP`.
pub open spec fn same_occurrences_but_dtstamp(xs: Seq<OccurrenceView>, ys: Seq<OccurrenceView>) -> bool {
    &&& xs.len() == ys.len()
    &&& forall|i: int| 0 <= i < xs.len() ==> same_occurrence_but_dtstamp(#[trigger] xs[i], ys[i])
}

/// Occurrences of one list that share an identity key do not differ from one
/// another.
pub open spec fn duplicates_agree(occs: Seq<OccurrenceView>) -> bool {
    forall|i: int, j: int|
        0 <= i < occs.len() && 0 <= j < occs.len() && identity_key(occs[i].properties) is Some
            && #[trigger] identity_key(occs[i].properties) == #[trigger] identity_key(occs[j].properties)
            ==> changed_names(occs[i].properties, occs[j].properties).len() == 0
}

/// The names that the identity key is read from are not the volatile one.
proof fn lemma_key_names_are_stable()
    ensures
        "UID"@ != "DTSTAMP"@,
        "RECURRENCE-ID"@ != "DTSTAMP"@,
        "X-CO-RECURRINGID"@ != "DTSTAMP"@,
{
    reveal_strlit("UID");
    reveal_strlit("RECURRENCE-ID");
    reveal_strlit("X-CO-RECURRINGID");
    reveal_strlit("DTSTAMP");
    assert("UID"@.len() == 3);
    assert("RECURRENCE-ID"@.len() == 13);
    assert("X-CO-RECURRINGID"@.len() == 16);
    assert("DTSTAMP"@.len() == 7);
}

/// Occurrences that are the same but for `DTSTAMP` have the same first
/// property under every other name.
pub proof fn lemma_same_but_dtstamp_first_named(a: Properties, b: Properties, name: Seq<char>)
    requires
        same_but_dtstamp(a, b),
        name != "DTSTAMP"@,
    ensures
        first_named(a, name) == first_named(b, name),
    decreases a.len(),
{
    if a.len() > 0 {
        assert(a[0].name == b[0].name);
        if a[0].name != name {
            let ra = a.drop_first();
            let rb = b.drop_first();
            assert forall|i: int| 0 <= i < ra.len() implies (#[trigger] ra[i]).name == rb[i].name
                && (ra[i].name != "DTSTAMP"@ ==> ra[i] == rb[i]) by {
                assert(ra[i] == a[i + 1]);
                assert(rb[i] == b[i + 1]);
            }
            lemma_same_but_dtstamp_first_named(ra, rb, name);
        }
    }
}

/// Occurrences that are the same but for `DTSTAMP` have the same identity.
pub proof fn lemma_same_but_dtstamp_identity(a: Properties, b: Properties)
    requires
        same_but_dtstamp(a, b),
    ensures
        identity_key(a) == identity_key(b),
{
    lemma_key_names_are_stable();
    lemma_same_but_dtstamp_first_named(a, b, "UID"@);
    lemma_same_but_dtstamp_first_named(a, b, "RECURRENCE-ID"@);
    lemma_same_but_dtstamp_first_named(a, b, "X-CO-RECURRINGID"@);
}

/// Where `prev` does not differ from `a`, it does not differ from an
/// occurrence that is `a` but for `DTSTAMP`.
pub proof fn lemma_unchanged_but_dtstamp(prev: Properties, a: Properties, b: Properties)
    requires
        same_but_dtstamp(a, b),
        changed_names(prev, a).len() == 0,
    ensures
        changed_names(prev, b).len() == 0,
{
    lemma_changed_names_exact(prev, a);
    lemma_changed_names_exact(prev, b);
    let names = changed_names(prev, b);
    if names.len() > 0 {
        let name = names[0];
        assert(names.contains(name));
        assert(differs(prev, b, name));
        lemma_same_but_dtstamp_first_named(a, b, name);
        assert(differs(prev, a, name));
        assert(changed_names(prev, a).contains(name));
    }
}

/// What `snapshot_of` holds: a key exactly where an occurrence has it, and
/// under it an occurrence with that key.
pub proof fn lemma_snapshot_entries(occs: Seq<OccurrenceView>, key: Seq<char>)
    ensures
        snapshot_of(occs).entries.contains_key(key) <==> has_key(occs, key),
        snapshot_of(occs).entries.contains_key(key) ==> exists|i: int|
            0 <= i < occs.len() && #[trigger] identity_key(occs[i].properties) == Some(key) && snapshot_of(
                occs,
            ).entries[key] == occs[i],
    decreases occs.len(),
{
    if occs.len() > 0 {
        let front = occs.drop_last();
        lemma_snapshot_entries(front, key);
        if has_key(front, key) {
            let i = choose|i: int| 0 <= i < front.len() && #[trigger] identity_key(front[i].properties) == Some(key);
            assert(identity_key(occs[i].properties) == Some(key));
        }
        if has_key(occs, key) && identity_key(occs.last().properties) != Some(key) {
            let i = choose|i: int| 0 <= i < occs.len() && #[trigger] identity_key(occs[i].properties) == Some(key);
            assert(identity_key(front[i].properties) == Some(key));
        }
        if snapshot_of(occs).entries.contains_key(key) {
            if identity_key(occs.last().properties) == Some(key) {
                assert(identity_key(occs[occs.len() - 1].properties) == Some(key));
                assert(snapshot_of(occs).entries[key] == occs[occs.len() - 1]);
            } else {
                assert(snapshot_of(front).entries.contains_key(key));
                let i = choose|i: int|
                    0 <= i < front.len() && #[trigger] identity_key(front[i].properties) == Some(key)
                        && snapshot_of(front).entries[key] == front[i];
                assert(identity_key(occs[i].properties) == Some(key));
                assert(snapshot_of(occs).entries[key] == occs[i]);
            }
        }
    }
}

/// Every live event is what `classify` makes of one of the occurrences.
pub proof fn lemma_live_events_origin(
    initialized: bool,
    previous: SnapshotView,
    occs: Seq<OccurrenceView>,
    k: int,
)
    requires
        0 <= k < live_events(initialized, previous, occs).len(),
    ensures
        exists|m: int|
            0 <= m < occs.len() && #[trigger] classify(initialized, previous, occs[m]) == Some(
                live_events(initialized, previous, occs)[k],
            ),
    decreases occs.len(),
{
    let front = occs.drop_last();
    let before = live_events(initialized, previous, front);
    if k < before.len() {
        lemma_live_events_origin(initialized, previous, front, k);
        let m = choose|m: int|
            0 <= m < front.len() && #[trigger] classify(initialized, previous, front[m]) == Some(
                before[k],
            );
        assert(classify(initialized, previous, occs[m]) == Some(before[k]));
    } else {
        assert(classify(initialized, previous, occs[occs.len() - 1]) == Some(
            live_events(initialized, previous, occs)[k],
        ));
    }
}

/// What `classify` makes of an occurrence is among the live events.
pub proof fn lemma_live_events_hold(
    initialized: bool,
    previous: SnapshotView,
    occs: Seq<OccurrenceView>,
    m: int,
)
    requires
        0 <= m < occs.len(),
        classify(initialized, previous, occs[m]) is Some,
    ensures
        live_events(initialized, previous, occs).contains(
            classify(initialized, previous, occs[m])->0,
        ),
    decreases occs.len(),
{
    let front = occs.drop_last();
    let before = live_events(initialized, previous, front);
    let all = live_events(initialized, previous, occs);
    let event = classify(initialized, previous, occs[m])->0;
    if m < front.len() {
        assert(front[m] == occs[m]);
        lemma_live_events_hold(initialized, previous, front, m);
        let k = choose|k: int| 0 <= k < before.len() && before[k] == event;
        assert(all[k] == event);
    } else {
        assert(all[all.len() - 1] == event);
    }
}

/// The live events number as many as the occurrences that `classify` does
/// not pass over; here: none, where it passes over all.
pub proof fn lemma_live_events_none(initialized: bool, previous: SnapshotView, occs: Seq<OccurrenceView>)
    requires
        forall|m: int|
            0 <= m < occs.len() ==> #[trigger] classify(initialized, previous, occs[m]) is None,
    ensures
        live_events(initialized, previous, occs).len() == 0,
    decreases occs.len(),
{
    if occs.len() > 0 {
        let front = occs.drop_last();
        assert forall|m: int| 0 <= m < front.len() implies #[trigger] classify(
            initialized,
            previous,
            front[m],
        ) is None by {
            assert(front[m] == occs[m]);
        }
        lemma_live_events_none(initialized, previous, front);
        assert(classify(initialized, previous, occs[occs.len() - 1]) is None);
    }
}

/// Every event of `deleted_among` is a `Deleted` for one of the keys that
/// `current` lacks, with the occurrence that `previous` holds.
pub proof fn lemma_deleted_origin(
    keys: Seq<Seq<char>>,
    previous: SnapshotView,
    current: SnapshotView,
    k: int,
)
    requires
        0 <= k < deleted_among(keys, previous, current).len(),
    ensures
        exists|m: int|
            0 <= m < keys.len() && !current.entries.contains_key(#[trigger] keys[m])
                && deleted_among(keys, previous, current)[k] == CalendarEventView::Deleted(
                EventDataView { uid: keys[m], ical_data: previous.entries[keys[m]] },
            ),
    decreases keys.len(),
{
    let front = keys.drop_last();
    let before = deleted_among(front, previous, current);
    if k < before.len() {
        lemma_deleted_origin(front, previous, current, k);
        let m = choose|m: int|
            0 <= m < front.len() && !current.entries.contains_key(#[trigger] front[m])
                && before[k] == CalendarEventView::Deleted(
                EventDataView { uid: front[m], ical_data: previous.entries[front[m]] },
            );
        assert(keys[m] == front[m]);
    } else {
        assert(keys[keys.len() - 1] == keys.last());
    }
}

/// No key that `current` lacks: no `Deleted` event.
pub proof fn lemma_deleted_none(keys: Seq<Seq<char>>, previous: SnapshotView, current: SnapshotView)
    requires
        forall|m: int| 0 <= m < keys.len() ==> current.entries.contains_key(#[trigger] keys[m]),
    ensures
        deleted_among(keys, previous, current).len() == 0,
    decreases keys.len(),
{
    if keys.len() > 0 {
        let front = keys.drop_last();
        assert forall|m: int| 0 <= m < front.len() implies current.entries.contains_key(
            #[trigger] front[m],
        ) by {
            assert(front[m] == keys[m]);
        }
        lemma_deleted_none(front, previous, current);
        assert(current.entries.contains_key(keys[keys.len() - 1]));
    }
}

/// Counting `Deleted` events over two lists joined.
pub proof fn lemma_count_deleted_add(
    a: Seq<CalendarEventView>,
    b: Seq<CalendarEventView>,
    key: Seq<char>,
)
    ensures
        count_deleted(a + b, key) == count_deleted(a, key) + count_deleted(b, key),
    decreases b.len(),
{
    if b.len() == 0 {
        assert(a + b =~= a);
    } else {
        assert((a + b).drop_last() =~= a + b.drop_last());
        assert((a + b).last() == b.last());
        lemma_count_deleted_add(a, b.drop_last(), key);
    }
}

/// The live events hold no `Deleted`.
pub proof fn lemma_live_events_not_deleted(
    initialized: bool,
    previous: SnapshotView,
    occs: Seq<OccurrenceView>,
    key: Seq<char>,
)
    ensures
        count_deleted(live_events(initialized, previous, occs), key) == 0,
    decreases occs.len(),
{
    if occs.len() > 0 {
        lemma_live_events_not_deleted(initialized, previous, occs.drop_last(), key);
        let before = live_events(initialized, previous, occs.drop_last());
        match classify(initialized, previous, occs.last()) {
            Some(event) => {
                assert(before.push(event).drop_last() =~= before);
            },
            None => {},
        }
    }
}

/// How many `Deleted` events `deleted_among` holds for one key: one where the
/// key is listed and `current` lacks it, else none.
pub proof fn lemma_count_deleted_among(
    keys: Seq<Seq<char>>,
    previous: SnapshotView,
    current: SnapshotView,
    key: Seq<char>,
)
    requires
        keys.no_duplicates(),
    ensures
        count_deleted(deleted_among(keys, previous, current), key) == if keys.contains(key)
            && !current.entries.contains_key(key) {
            1nat
        } else {
            0nat
        },
        keys.contains(key) && !current.entries.contains_key(key) ==> deleted_among(
            keys,
            previous,
            current,
        ).contains(
            CalendarEventView::Deleted(EventDataView { uid: key, ical_data: previous.entries[key] }),
        ),
    decreases keys.len(),
{
    if keys.len() > 0 {
        let front = keys.drop_last();
        let last = keys.last();
        let before = deleted_among(front, previous, current);
        let all = deleted_among(keys, previous, current);
        assert forall|i: int, j: int|
            0 <= i < front.len() && 0 <= j < front.len() && i != j implies front[i] != front[j] by {
            assert(front[i] == keys[i] && front[j] == keys[j]);
        }
        lemma_count_deleted_among(front, previous, current, key);
        if front.contains(key) {
            let i = choose|i: int| 0 <= i < front.len() && front[i] == key;
            assert(keys[i] == key);
            assert(keys.contains(key));
            assert(last != key) by {
                assert(keys[keys.len() - 1] == last);
            }
        }
        if keys.contains(key) && !front.contains(key) {
            let i = choose|i: int| 0 <= i < keys.len() && keys[i] == key;
            if i < front.len() {
                assert(front[i] == key);
            }
            assert(last == key);
        }
        if last == key {
            assert(keys[keys.len() - 1] == key);
            assert(keys.contains(key));
        }
        if !current.entries.contains_key(last) {
            let event = CalendarEventView::Deleted(
                EventDataView { uid: last, ical_data: previous.entries[last] },
            );
            assert(all == before.push(event));
            assert(all.drop_last() =~= before);
            assert(all.last() == event);
            if keys.contains(key) && !current.entries.contains_key(key) {
                if last == key {
                    assert(all[all.len() - 1] == event);
                } else {
                    let k = choose|k: int|
                        0 <= k < before.len() && before[k] == CalendarEventView::Deleted(
                            EventDataView { uid: key, ical_data: previous.entries[key] },
                        );
                    assert(all[k] == before[k]);
                }
            }
        }
    }
}

/// Before the first cycle every identified occurrence gives a `Setup` event,
/// and nothing else is reported: as many events as identified occurrences,
/// each of them a `Setup`.
pub proof fn law_first_cycle_is_setup(state: DetectorView, calendar: CalendarView)
    requires
        state.wf(),
        !state.initialized,
    ensures
        compare_events(state, calendar).len() == identified_count(calendar.events),
        forall|k: int|
            0 <= k < compare_events(state, calendar).len() ==> #[trigger] compare_events(
                state,
                calendar,
            )[k] is Setup,
{
    let occs = calendar.events;
    let live = live_events(false, state.previous, occs);
    assert(deleted_among(state.previous.order, state.previous, snapshot_of(occs)).len() == 0);
    assert(compare_events(state, calendar) =~= live);
    lemma_setup_count(state.previous, occs);
    assert forall|k: int| 0 <= k < live.len() implies #[trigger] live[k] is Setup by {
        lemma_live_events_origin(false, state.previous, occs, k);
    }
}

/// Without a previous cycle there are as many live events as identified
/// occurrences.
proof fn lemma_setup_count(previous: SnapshotView, occs: Seq<OccurrenceView>)
    ensures
        live_events(false, previous, occs).len() == identified_count(occs),
    decreases occs.len(),
{
    if occs.len() > 0 {
        lemma_setup_count(previous, occs.drop_last());
    }
}

/// A state whose snapshot holds what `first` left reports nothing when it is
/// compared with occurrences that are those of `first` but for `DTSTAMP`.
pub proof fn lemma_same_input_is_silent(
    state: DetectorView,
    first: Seq<OccurrenceView>,
    second: CalendarView,
)
    requires
        state.wf(),
        state.initialized,
        state.previous.entries == snapshot_of(first).entries,
        same_occurrences_but_dtstamp(first, second.events),
        duplicates_agree(first),
    ensures
        compare_events(state, second).len() == 0,
{
    let previous = state.previous;
    let occs = second.events;
    assert forall|m: int| 0 <= m < occs.len() implies #[trigger] classify(
        true,
        previous,
        occs[m],
    ) is None by {
        assert(same_occurrence_but_dtstamp(first[m], occs[m]));
        lemma_same_but_dtstamp_identity(first[m].properties, occs[m].properties);
        match identity_key(occs[m].properties) {
            Some(key) => {
                assert(identity_key(first[m].properties) == Some(key));
                lemma_snapshot_entries(first, key);
                assert(has_key(first, key));
                let j = choose|j: int|
                    0 <= j < first.len() && #[trigger] identity_key(first[j].properties) == Some(key)
                        && snapshot_of(first).entries[key] == first[j];
                assert(changed_names(first[j].properties, first[m].properties).len() == 0);
                lemma_unchanged_but_dtstamp(first[j].properties, first[m].properties, occs[m].properties);
            },
            None => {},
        }
    }
    lemma_live_events_none(true, previous, occs);
    let current = snapshot_of(occs);
    assert forall|m: int| 0 <= m < previous.order.len() implies current.entries.contains_key(
        #[trigger] previous.order[m],
    ) by {
        let key = previous.order[m];
        assert(previous.order.contains(key));
        assert(previous.entries.contains_key(key));
        lemma_snapshot_entries(first, key);
        let i = choose|i: int| 0 <= i < first.len() && #[trigger] identity_key(first[i].properties) == Some(key);
        assert(same_occurrence_but_dtstamp(first[i], occs[i]));
        lemma_same_but_dtstamp_identity(first[i].properties, occs[i].properties);
        assert(identity_key(occs[i].properties) == Some(key));
        lemma_snapshot_entries(occs, key);
    }
    lemma_deleted_none(previous.order, previous, current);
}

/// A second comparison with the same occurrences, but for what their
/// `DTSTAMP` properties hold, reports nothing. Occurrences of the first
/// calendar that share an identity key must not differ from one another:
/// the snapshot keeps only the last of them.
pub proof fn law_repeat_is_silent(state: DetectorView, first: CalendarView, second: CalendarView)
    requires
        state.wf(),
        same_occurrences_but_dtstamp(first.events, second.events),
        duplicates_agree(first.events),
    ensures
        compare_events(compare_state(state, first), second).len() == 0,
{
    lemma_snapshot_of_wf(first.events);
    lemma_same_input_is_silent(compare_state(state, first), first.events, second);
}

/// A key that the previous snapshot holds and that no incoming occurrence
/// has is reported by exactly one `Deleted` event, which carries the
/// occurrence that the snapshot held.
pub proof fn lemma_stale_key_deleted_once(state: DetectorView, calendar: CalendarView, key: Seq<char>)
    requires
        state.wf(),
        state.previous.entries.contains_key(key),
        !has_key(calendar.events, key),
    ensures
        count_deleted(compare_events(state, calendar), key) == 1,
        compare_events(state, calendar).contains(
            CalendarEventView::Deleted(
                EventDataView { uid: key, ical_data: state.previous.entries[key] },
            ),
        ),
{
    let previous = state.previous;
    let current = snapshot_of(calendar.events);
    let live = live_events(state.initialized, previous, calendar.events);
    let gone = deleted_among(previous.order, previous, current);
    lemma_snapshot_entries(calendar.events, key);
    assert(previous.order.contains(key));
    lemma_count_deleted_among(previous.order, previous, current, key);
    lemma_live_events_not_deleted(state.initialized, previous, calendar.events, key);
    lemma_count_deleted_add(live, gone, key);
    let event = CalendarEventView::Deleted(
        EventDataView { uid: key, ical_data: previous.entries[key] },
    );
    let k = choose|k: int| 0 <= k < gone.len() && gone[k] == event;
    assert((live + gone)[live.len() + k] == event);
}

/// An occurrence of one cycle whose key no occurrence of the next cycle has
/// is reported in that next cycle by exactly one `Deleted` event, which
/// carries the occurrence as the first cycle left it.
pub proof fn law_gone_is_deleted_once(
    state: DetectorView,
    first: CalendarView,
    second: CalendarView,
    key: Seq<char>,
)
    requires
        state.wf(),
        has_key(first.events, key),
        !has_key(second.events, key),
    ensures
        count_deleted(compare_events(compare_state(state, first), second), key) == 1,
        compare_events(compare_state(state, first), second).contains(
            CalendarEventView::Deleted(
                EventDataView { uid: key, ical_data: snapshot_of(first.events).entries[key] },
            ),
        ),
        exists|i: int|
            0 <= i < first.events.len() && #[trigger] identity_key(first.events[i].properties) == Some(key)
                && snapshot_of(first.events).entries[key] == first.events[i],
{
    lemma_snapshot_of_wf(first.events);
    lemma_snapshot_entries(first.events, key);
    lemma_stale_key_deleted_once(compare_state(state, first), second, key);
}

/// A `RECURRENCE-ID` that adds at least one character to the key makes it
/// another key, where the `UID` value and what `X-CO-RECURRINGID` adds stay
/// the same.
pub proof fn lemma_disambiguator_changes_key(a: Properties, b: Properties)
    requires
        value_of(a, "UID"@) is Some,
        value_of(b, "UID"@) == value_of(a, "UID"@),
        first_named(a, "RECURRENCE-ID"@) is None,
        disambiguator(b, "RECURRENCE-ID"@, "R"@).len() > 0,
        disambiguator(b, "X-CO-RECURRINGID"@, "XR"@) == disambiguator(
            a,
            "X-CO-RECURRINGID"@,
            "XR"@,
        ),
    ensures
        identity_key(a) is Some,
        identity_key(b) is Some,
        identity_key(a) != identity_key(b),
{
    let uid = value_of(a, "UID"@)->0;
    let tail = disambiguator(a, "X-CO-RECURRINGID"@, "XR"@);
    let added = disambiguator(b, "RECURRENCE-ID"@, "R"@);
    assert(identity_key(a) == Some(uid + Seq::<char>::empty() + tail));
    assert(identity_key(b) == Some(uid + added + tail));
    assert((uid + Seq::<char>::empty() + tail).len() == uid.len() + tail.len());
    assert((uid + added + tail).len() == uid.len() + added.len() + tail.len());
}

/// An occurrence that had no `RECURRENCE-ID` and has one in the next cycle
/// is another identity there: its old key is reported `Deleted`, once, its
/// new key `Created`, and no `Updated` is reported for either. This holds
/// where the old key is gone from the second calendar and the new key is new
/// to it; two keys that spell the same are one identity.
pub proof fn law_new_disambiguator_is_new_identity(
    state: DetectorView,
    first: CalendarView,
    second: CalendarView,
    i: int,
    j: int,
)
    requires
        state.wf(),
        0 <= i < first.events.len(),
        0 <= j < second.events.len(),
        value_of(first.events[i].properties, "UID"@) is Some,
        value_of(second.events[j].properties, "UID"@) == value_of(first.events[i].properties, "UID"@),
        first_named(first.events[i].properties, "RECURRENCE-ID"@) is None,
        first_named(second.events[j].properties, "RECURRENCE-ID"@) is Some,
        !has_key(second.events, identity_key(first.events[i].properties)->0),
        !has_key(first.events, identity_key(second.events[j].properties)->0),
    ensures
        ({
            let old_key = identity_key(first.events[i].properties)->0;
            let new_key = identity_key(second.events[j].properties)->0;
            let events = compare_events(compare_state(state, first), second);
            &&& identity_key(first.events[i].properties) is Some
            &&& identity_key(second.events[j].properties) is Some
            &&& old_key != new_key
            &&& count_deleted(events, old_key) == 1
            &&& events.contains(
                CalendarEventView::Created(
                    EventDataView { uid: new_key, ical_data: second.events[j] },
                ),
            )
            &&& forall|k: int|
                0 <= k < events.len() ==> !is_updated_for(#[trigger] events[k], old_key)
                    && !is_updated_for(events[k], new_key)
        }),
{
    let old_key = identity_key(first.events[i].properties)->0;
    let new_key = identity_key(second.events[j].properties)->0;
    let after = compare_state(state, first);
    let previous = after.previous;
    let events = compare_events(after, second);
    let live = live_events(true, previous, second.events);
    let gone = deleted_among(previous.order, previous, snapshot_of(second.events));
    lemma_snapshot_of_wf(first.events);
    assert(identity_key(first.events[i].properties) == Some(old_key));
    assert(identity_key(second.events[j].properties) == Some(new_key));
    assert(has_key(second.events, new_key));
    assert(has_key(first.events, old_key));
    law_gone_is_deleted_once(state, first, second, old_key);
    lemma_snapshot_entries(first.events, new_key);
    let created = CalendarEventView::Created(
        EventDataView { uid: new_key, ical_data: second.events[j] },
    );
    assert(classify(true, previous, second.events[j]) == Some(created));
    lemma_live_events_hold(true, previous, second.events, j);
    let at = choose|k: int| 0 <= k < live.len() && live[k] == created;
    assert(events[at] == created);
    assert forall|k: int| 0 <= k < events.len() implies !is_updated_for(
        #[trigger] events[k],
        old_key,
    ) && !is_updated_for(events[k], new_key) by {
        if k < live.len() {
            assert(events[k] == live[k]);
            lemma_live_events_origin(true, previous, second.events, k);
            let m = choose|m: int|
                0 <= m < second.events.len() && #[trigger] classify(
                    true,
                    previous,
                    second.events[m],
                ) == Some(live[k]);
            if is_updated_for(events[k], old_key) {
                assert(identity_key(second.events[m].properties) == Some(old_key));
            }
            if is_updated_for(events[k], new_key) {
                assert(identity_key(second.events[m].properties) == Some(new_key));
                assert(previous.entries.contains_key(new_key));
            }
        } else {
            assert(events[k] == gone[k - live.len()]);
            lemma_deleted_origin(
                previous.order,
                previous,
                snapshot_of(second.events),
                k - live.len(),
            );
        }
    }
}

/// A detector that is seeded with the snapshot that a calendar left, in
/// whatever order its keys come, reports nothing when it is compared with
/// that calendar. Occurrences that share an identity key must not differ
/// from one another.
pub proof fn law_restored_state_is_silent(state: DetectorView, calendar: CalendarView)
    requires
        state.wf(),
        state.initialized,
        state.previous.entries == snapshot_of(calendar.events).entries,
        duplicates_agree(calendar.events),
    ensures
        compare_events(state, calendar).len() == 0,
{
    assert forall|i: int| 0 <= i < calendar.events.len() implies same_occurrence_but_dtstamp(
        #[trigger] calendar.events[i],
        calendar.events[i],
    ) by {}
    lemma_same_input_is_silent(state, calendar.events, calendar);
}

} // verus!
