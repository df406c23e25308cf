use ics_watcher::detector::CalendarChangeDetector;
use ics_watcher::identity::resolve_identity;
use ics_watcher::model::{Calendar, CalendarEvent, EventData, Occurrence, Property, PropertyChange};
use ics_watcher::snapshot::Snapshot;

fn prop(name: &str, value: Option<&str>) -> Property {
    Property { name: name.to_string(), params: None, value: value.map(|v| v.to_string()) }
}

fn occ(props: Vec<Property>) -> Occurrence {
    Occurrence { properties: props, alarms: vec![] }
}

fn cal(events: Vec<Occurrence>) -> Calendar {
    Calendar { properties: vec![], events }
}

fn data(uid: &str, o: &Occurrence) -> EventData {
    EventData { uid: uid.to_string(), ical_data: o.clone() }
}

#[test]
fn first_cycle_reports_setup_for_each_identified_occurrence() {
    let a = occ(vec![prop("UID", Some("a")), prop("SUMMARY", Some("X"))]);
    let b = occ(vec![prop("UID", Some("b"))]);
    let nameless = occ(vec![prop("SUMMARY", Some("no uid"))]);
    let mut detector = CalendarChangeDetector::new();
    assert!(!detector.initialized());
    let events = detector.compare(cal(vec![a.clone(), nameless, b.clone()]));
    assert_eq!(events, vec![CalendarEvent::Setup(data("a", &a)), CalendarEvent::Setup(data("b", &b))]);
    assert!(detector.initialized());
    assert_eq!(detector.state().len(), 2);
}

#[test]
fn first_cycle_reports_setup_for_duplicates_too() {
    let a1 = occ(vec![prop("UID", Some("a")), prop("SUMMARY", Some("X"))]);
    let a2 = occ(vec![prop("UID", Some("a")), prop("SUMMARY", Some("Y"))]);
    let mut detector = CalendarChangeDetector::new();
    let events = detector.compare(cal(vec![a1.clone(), a2.clone()]));
    assert_eq!(events, vec![CalendarEvent::Setup(data("a", &a1)), CalendarEvent::Setup(data("a", &a2))]);
    assert_eq!(detector.state().len(), 1);
    assert_eq!(detector.state().get("a"), Some(&a2));
}

#[test]
fn repeat_with_new_dtstamp_is_silent() {
    let a1 = occ(vec![prop("UID", Some("a")), prop("DTSTAMP", Some("20240101T000000Z")), prop("SUMMARY", Some("X"))]);
    let a2 = occ(vec![prop("UID", Some("a")), prop("DTSTAMP", Some("20240102T000000Z")), prop("SUMMARY", Some("X"))]);
    let mut detector = CalendarChangeDetector::new();
    detector.compare(cal(vec![a1]));
    let events = detector.compare(cal(vec![a2.clone()]));
    assert_eq!(events, vec![]);
    assert_eq!(detector.state().get("a"), Some(&a2));
}

#[test]
fn gone_occurrence_is_deleted_once_with_stale_data() {
    let a = occ(vec![prop("UID", Some("a")), prop("SUMMARY", Some("X"))]);
    let b = occ(vec![prop("UID", Some("b"))]);
    let mut detector = CalendarChangeDetector::new();
    detector.compare(cal(vec![a.clone(), b.clone()]));
    let events = detector.compare(cal(vec![b.clone()]));
    assert_eq!(events, vec![CalendarEvent::Deleted(data("a", &a))]);
    assert_eq!(detector.state().len(), 1);
    assert!(!detector.state().contains_key("a"));
}

#[test]
fn new_recurrence_id_is_a_new_identity() {
    let plain = occ(vec![prop("UID", Some("a")), prop("SUMMARY", Some("X"))]);
    let instance = occ(vec![prop("UID", Some("a")), prop("RECURRENCE-ID", Some("20240101")), prop("SUMMARY", Some("X"))]);
    let mut detector = CalendarChangeDetector::new();
    detector.compare(cal(vec![plain.clone()]));
    let events = detector.compare(cal(vec![instance.clone()]));
    assert_eq!(
        events,
        vec![CalendarEvent::Created(data("a20240101", &instance)), CalendarEvent::Deleted(data("a", &plain))]
    );
}

#[test]
fn restored_state_is_silent_on_the_same_calendar() {
    let a = occ(vec![prop("UID", Some("a")), prop("SUMMARY", Some("X"))]);
    let b = occ(vec![prop("UID", Some("b")), prop("X-CO-RECURRINGID", None)]);
    let mut first = CalendarChangeDetector::new();
    first.compare(cal(vec![a.clone(), b.clone()]));
    let mut restored = Snapshot::new();
    let mut saved = first.state().entries();
    saved.reverse();
    for (key, value) in saved {
        restored.insert(key, value);
    }
    let mut second = CalendarChangeDetector::new();
    second.set_state(restored);
    assert!(second.initialized());
    assert_eq!(second.compare(cal(vec![a, b])), vec![]);
}

#[test]
fn changed_summary_is_one_update_with_one_change() {
    let before = occ(vec![prop("UID", Some("A")), prop("SUMMARY", Some("X"))]);
    let after = occ(vec![prop("UID", Some("A")), prop("SUMMARY", Some("Y"))]);
    let mut state = Snapshot::new();
    state.insert("A".to_string(), before);
    let mut detector = CalendarChangeDetector::new();
    detector.set_state(state);
    let events = detector.compare(cal(vec![after.clone()]));
    assert_eq!(
        events,
        vec![CalendarEvent::Updated {
            event: data("A", &after),
            changed_properties: vec![PropertyChange {
                key: "SUMMARY".to_string(),
                from: Some(prop("SUMMARY", Some("X"))),
                to: Some(prop("SUMMARY", Some("Y"))),
            }],
        }]
    );
}

#[test]
fn occurrence_without_uid_is_left_out() {
    let nameless = occ(vec![prop("SUMMARY", Some("X"))]);
    let valueless = occ(vec![prop("UID", None)]);
    let mut detector = CalendarChangeDetector::new();
    let events = detector.compare(cal(vec![nameless.clone(), valueless.clone()]));
    assert_eq!(events, vec![]);
    assert!(detector.state().is_empty());
    assert!(detector.initialized());
    assert_eq!(resolve_identity(&nameless), None);
    assert_eq!(resolve_identity(&valueless), None);
}

#[test]
fn created_updated_and_unchanged_in_calendar_order_then_deleted() {
    let a = occ(vec![prop("UID", Some("a")), prop("SUMMARY", Some("X"))]);
    let b = occ(vec![prop("UID", Some("b")), prop("LOCATION", Some("here"))]);
    let c = occ(vec![prop("UID", Some("c"))]);
    let d = occ(vec![prop("UID", Some("d"))]);
    let b2 = occ(vec![prop("UID", Some("b")), prop("DESCRIPTION", Some("new"))]);
    let mut detector = CalendarChangeDetector::new();
    detector.compare(cal(vec![a.clone(), b.clone(), c.clone()]));
    let events = detector.compare(cal(vec![d.clone(), b2.clone(), c.clone()]));
    assert_eq!(
        events,
        vec![
            CalendarEvent::Created(data("d", &d)),
            CalendarEvent::Updated {
                event: data("b", &b2),
                changed_properties: vec![
                    PropertyChange { key: "LOCATION".to_string(), from: Some(prop("LOCATION", Some("here"))), to: None },
                    PropertyChange { key: "DESCRIPTION".to_string(), from: None, to: Some(prop("DESCRIPTION", Some("new"))) },
                ],
            },
            CalendarEvent::Deleted(data("a", &a)),
        ]
    );
    assert_eq!(detector.state().keys(), &vec!["d".to_string(), "b".to_string(), "c".to_string()]);
}

#[test]
fn metadata_is_refreshed_every_cycle() {
    let mut detector = CalendarChangeDetector::new();
    assert_eq!(detector.name, None);
    assert_eq!(detector.ttl, 3600);
    let named = Calendar {
        properties: vec![
            prop("X-WR-CALNAME", Some("Lectures")),
            prop("X-WR-CALDESC", Some("Summer term")),
            prop("X-PUBLISHED-TTL", Some("PT15M")),
        ],
        events: vec![],
    };
    assert_eq!(detector.compare(named), vec![]);
    assert_eq!(detector.name, Some("Lectures".to_string()));
    assert_eq!(detector.description, Some("Summer term".to_string()));
    assert_eq!(detector.ttl, 900);
    detector.compare(cal(vec![]));
    assert_eq!(detector.name, None);
    assert_eq!(detector.description, None);
    assert_eq!(detector.ttl, 3600);
    let valueless = Calendar { properties: vec![prop("X-PUBLISHED-TTL", None)], events: vec![] };
    detector.compare(valueless);
    assert_eq!(detector.ttl, 3600);
    let too_long = Calendar { properties: vec![prop("X-PUBLISHED-TTL", Some("P99999999999999999W"))], events: vec![] };
    detector.compare(too_long);
    assert_eq!(detector.ttl, 3600);
}

#[test]
fn identity_joins_uid_and_disambiguators() {
    assert_eq!(resolve_identity(&occ(vec![prop("UID", Some("u"))])), Some("u".to_string()));
    assert_eq!(
        resolve_identity(&occ(vec![prop("X-CO-RECURRINGID", Some("7")), prop("RECURRENCE-ID", Some("r")), prop("UID", Some("u"))])),
        Some("ur7".to_string())
    );
    assert_eq!(
        resolve_identity(&occ(vec![prop("UID", Some("u")), prop("RECURRENCE-ID", None), prop("X-CO-RECURRINGID", None)])),
        Some("uRXR".to_string())
    );
    assert_eq!(
        resolve_identity(&occ(vec![prop("UID", Some("u")), prop("UID", Some("v")), prop("RECURRENCE-ID", Some(""))])),
        Some("u".to_string())
    );
}

#[test]
fn a_value_that_is_no_duration_leaves_one_hour() {
    for text in ["soon", "", "PT5", "P", "PT", "1H", "PT1H30", "PT1X", "P1D T1H", "PTH", "--P1D"] {
        let mut detector = CalendarChangeDetector::new();
        detector.compare(Calendar { properties: vec![prop("X-PUBLISHED-TTL", Some(text))], events: vec![] });
        assert_eq!(detector.ttl, 3600, "{}", text);
    }
    for (text, secs) in [("PT0S", 0), ("P1D", 86400), ("-P1D", 86400), ("+PT2H", 7200), ("P1DT1H", 90000), ("PT1H30M", 5400), ("P2W", 1209600)] {
        let mut detector = CalendarChangeDetector::new();
        detector.compare(Calendar { properties: vec![prop("X-PUBLISHED-TTL", Some(text))], events: vec![] });
        assert_eq!(detector.ttl, secs, "{}", text);
    }
}

#[test]
fn reordered_parameters_are_no_update() {
    let with = |params: Vec<(&str, &str)>| Occurrence {
        properties: vec![
            prop("UID", Some("a")),
            Property {
                name: "DTSTART".to_string(),
                params: Some(params.into_iter().map(|(k, v)| (k.to_string(), vec![v.to_string()])).collect()),
                value: Some("20240101T100000".to_string()),
            },
        ],
        alarms: vec![],
    };
    let mut detector = CalendarChangeDetector::new();
    detector.compare(cal(vec![with(vec![("TZID", "Europe/Berlin"), ("VALUE", "DATE-TIME")])]));
    let events = detector.compare(cal(vec![with(vec![("VALUE", "DATE-TIME"), ("TZID", "Europe/Berlin")])]));
    assert_eq!(events, vec![]);
    let events = detector.compare(cal(vec![with(vec![("VALUE", "DATE"), ("TZID", "Europe/Berlin")])]));
    assert_eq!(events.len(), 1);
}

#[test]
fn alarms_are_carried_and_never_compared() {
    let alarm = vec![prop("ACTION", Some("DISPLAY")), prop("TRIGGER", Some("-PT15M"))];
    let with_alarm = Occurrence { properties: vec![prop("UID", Some("a"))], alarms: vec![alarm.clone()] };
    let without = Occurrence { properties: vec![prop("UID", Some("a"))], alarms: vec![] };
    let mut detector = CalendarChangeDetector::new();
    let events = detector.compare(cal(vec![with_alarm.clone()]));
    assert_eq!(events, vec![CalendarEvent::Setup(data("a", &with_alarm))]);
    assert_eq!(detector.state().get("a"), Some(&with_alarm));
    assert_eq!(detector.compare(cal(vec![without.clone()])), vec![]);
    assert_eq!(detector.state().get("a"), Some(&without));
    assert_eq!(detector.compare(cal(vec![])), vec![CalendarEvent::Deleted(data("a", &without))]);
}
