use ics_watcher::model::{Calendar, CalendarEvent, EventData, Occurrence, Property};
use ics_watcher::report::{log_headline, log_label};
use ics_watcher::snapshot::Snapshot;
use ics_watcher::watcher::{ICSWatcher, WatcherAction, WatcherError, WatcherInput, WatcherPhase};

fn prop(name: &str, value: &str) -> Property {
    Property { name: name.to_string(), params: None, value: Some(value.to_string()) }
}

fn one_event_calendar(uid: &str) -> Calendar {
    Calendar {
        properties: vec![prop("X-WR-CALNAME", "Lectures"), prop("X-PUBLISHED-TTL", "PT10M")],
        events: vec![Occurrence { properties: vec![prop("UID", uid)], alarms: vec![] }],
    }
}

#[test]
fn a_full_cycle_with_backup() {
    let mut watcher = ICSWatcher::new("https://example.org/cal.ics");
    watcher.set_backup(Some("My Calendar".to_string()));
    assert_eq!(watcher.phase(), WatcherPhase::Idle);
    assert_eq!(watcher.step(WatcherInput::Start), WatcherAction::Fetch { link: "https://example.org/cal.ics".to_string() });
    assert_eq!(watcher.phase(), WatcherPhase::Fetching);
    let action = watcher.step(WatcherInput::Fetched(one_event_calendar("a")));
    assert_eq!(
        action,
        WatcherAction::Dispatch {
            name: Some("Lectures".to_string()),
            description: None,
            events: vec![CalendarEvent::Setup(EventData {
                uid: "a".to_string(),
                ical_data: Occurrence { properties: vec![prop("UID", "a")], alarms: vec![] },
            })],
        }
    );
    assert_eq!(watcher.phase(), WatcherPhase::Dispatching);
    assert_eq!(watcher.get_calendar_name(), Some("Lectures".to_string()));
    assert_eq!(watcher.step(WatcherInput::Dispatched { failures: 2 }), WatcherAction::Persist { backup: "My Calendar".to_string() });
    assert_eq!(watcher.phase(), WatcherPhase::Persisting);
    assert_eq!(watcher.step(WatcherInput::Persisted), WatcherAction::Sleep { secs: 600 });
    assert_eq!(watcher.phase(), WatcherPhase::Sleeping);
    assert_eq!(watcher.step(WatcherInput::Woke), WatcherAction::Fetch { link: "https://example.org/cal.ics".to_string() });
    assert_eq!(watcher.phase(), WatcherPhase::Fetching);
    assert_eq!(watcher.step(WatcherInput::Fetched(one_event_calendar("a"))), WatcherAction::Persist { backup: "My Calendar".to_string() });
    assert_eq!(watcher.get_state().len(), 1);
}

#[test]
fn without_backup_a_quiet_cycle_goes_to_sleep() {
    let mut watcher = ICSWatcher::new("link");
    watcher.step(WatcherInput::Start);
    let action = watcher.step(WatcherInput::Fetched(Calendar { properties: vec![], events: vec![] }));
    assert_eq!(action, WatcherAction::Sleep { secs: 3600 });
    assert_eq!(watcher.phase(), WatcherPhase::Sleeping);
    watcher.set_fixed_interval(Some(5));
    assert_eq!(watcher.sleep_secs(), 5);
    watcher.step(WatcherInput::Woke);
    assert_eq!(watcher.step(WatcherInput::Fetched(one_event_calendar("a"))).eq(&WatcherAction::Rejected), false);
    assert_eq!(watcher.step(WatcherInput::Dispatched { failures: 0 }), WatcherAction::Sleep { secs: 5 });
}

#[test]
fn failures_stop_the_watcher() {
    let mut watcher = ICSWatcher::new("link");
    watcher.step(WatcherInput::Start);
    assert_eq!(
        watcher.step(WatcherInput::FetchFailed("status 404".to_string())),
        WatcherAction::Stop(WatcherError::Fetch("status 404".to_string()))
    );
    assert_eq!(watcher.phase(), WatcherPhase::Failed);
    assert_eq!(watcher.step(WatcherInput::Start), WatcherAction::Rejected);
    assert_eq!(watcher.phase(), WatcherPhase::Failed);
    watcher.reset();
    assert_eq!(watcher.phase(), WatcherPhase::Idle);
    watcher.step(WatcherInput::Start);
    assert_eq!(
        watcher.step(WatcherInput::ParseFailed("No Calendar present".to_string())),
        WatcherAction::Stop(WatcherError::Parse("No Calendar present".to_string()))
    );
    watcher.reset();
    watcher.set_backup(Some("b".to_string()));
    watcher.step(WatcherInput::Start);
    watcher.step(WatcherInput::Fetched(Calendar { properties: vec![], events: vec![] }));
    assert_eq!(
        watcher.step(WatcherInput::PersistFailed("disk full".to_string())),
        WatcherAction::Stop(WatcherError::Persistence("disk full".to_string()))
    );
    assert_eq!(watcher.phase(), WatcherPhase::Failed);
    assert_eq!(WatcherError::Persistence("disk full".to_string()).message(), "writing the backup failed: disk full");
    assert_eq!(WatcherError::Fetch("x".to_string()).message(), "fetching the calendar failed: x");
    assert_eq!(WatcherError::Parse("y".to_string()).message(), "parsing the calendar failed: y");
}

#[test]
fn input_out_of_turn_changes_nothing() {
    let mut watcher = ICSWatcher::new("link");
    assert_eq!(watcher.step(WatcherInput::Woke), WatcherAction::Rejected);
    assert_eq!(watcher.step(WatcherInput::Fetched(one_event_calendar("a"))), WatcherAction::Rejected);
    assert_eq!(watcher.step(WatcherInput::Persisted), WatcherAction::Rejected);
    assert_eq!(watcher.phase(), WatcherPhase::Idle);
    assert!(watcher.get_state().is_empty());
    assert_eq!(watcher.get_calendar_name(), None);
}

#[test]
fn restored_state_makes_the_first_cycle_quiet() {
    let mut state = Snapshot::new();
    state.insert("a".to_string(), Occurrence { properties: vec![prop("UID", "a")], alarms: vec![] });
    let mut watcher = ICSWatcher::new("link");
    watcher.restore_state(state);
    assert!(watcher.get_state().contains_key("a"));
    watcher.step(WatcherInput::Start);
    assert_eq!(watcher.step(WatcherInput::Fetched(one_event_calendar("a"))), WatcherAction::Sleep { secs: 600 });
}

#[test]
fn log_lines() {
    assert_eq!(log_headline(&None, &None), "Captured changes of Unnamed Calendar:");
    assert_eq!(log_headline(&Some("Lectures".to_string()), &None), "Captured changes of Lectures:");
    assert_eq!(
        log_headline(&Some("Lectures".to_string()), &Some("Summer".to_string())),
        "Captured changes of Lectures (Summer):"
    );
    assert_eq!(log_headline(&None, &Some("Summer".to_string())), "Captured changes of Unnamed Calendar (Summer):");
    let data = EventData { uid: "a1".to_string(), ical_data: Occurrence { properties: vec![], alarms: vec![] } };
    assert_eq!(log_label(&CalendarEvent::Setup(data.clone())), "Setup a1");
    assert_eq!(log_label(&CalendarEvent::Created(data.clone())), "Created a1");
    assert_eq!(log_label(&CalendarEvent::Deleted(data.clone())), "Deleted a1");
    assert_eq!(log_label(&CalendarEvent::Updated { event: data, changed_properties: vec![] }), "Updated a1");
}

#[test]
fn a_new_watcher_sleeps_one_hour() {
    let watcher = ICSWatcher::new("link");
    assert_eq!(watcher.sleep_secs(), 3600);
    assert_eq!(watcher.get_calendar_name(), None);
    assert_eq!(watcher.get_calendar_description(), None);
}
