use ics_watcher::mirror::{
    draft_new_event, draft_updated_event, end_seconds, fields_after, is_language_only_update,
    is_long_past, is_video_transmission, mirror_id, EventDraft,
};
use ics_watcher::text::{chars_of, text_of};
use ics_watcher::model::{Occurrence, Property, PropertyChange};

fn prop(name: &str, value: &str) -> Property {
    Property { name: name.to_string(), params: None, value: Some(value.to_string()) }
}

fn occ(props: Vec<Property>) -> Occurrence {
    Occurrence { properties: props, alarms: vec![] }
}

fn change(key: &str, from: Option<&str>, to: Option<&str>) -> PropertyChange {
    PropertyChange { key: key.to_string(), from: from.map(|v| prop(key, v)), to: to.map(|v| prop(key, v)) }
}

#[test]
fn characters_and_back() {
    assert_eq!(chars_of("a\u{fc}b"), vec!['a', '\u{fc}', 'b']);
    assert_eq!(text_of(&vec!['a', '\u{fc}', 'b']), "a\u{fc}b");
    assert_eq!(text_of(&vec![]), "");
}

#[test]
fn video_relays_are_told_by_their_description() {
    assert!(is_video_transmission(&occ(vec![prop("DESCRIPTION", "x; Video\u{fc}bertragung aus HS1")])));
    assert!(!is_video_transmission(&occ(vec![prop("DESCRIPTION", "Video aus HS1")])));
    assert!(!is_video_transmission(&occ(vec![prop("SUMMARY", "Video\u{fc}bertragung aus HS1")])));
    assert!(!is_video_transmission(&occ(vec![Property { name: "DESCRIPTION".to_string(), params: None, value: None }])));
}

#[test]
fn fields_after_the_first_ones() {
    assert_eq!(fields_after("a;b;c;d", ";", 2), "cd");
    assert_eq!(fields_after("a;b", ";", 2), "");
    assert_eq!(fields_after("a;b;", ";", 2), "");
    assert_eq!(fields_after(";;x", ";", 2), "x");
    assert_eq!(fields_after("a;b;c", ";", 0), "abc");
    assert_eq!(fields_after("a\\;b\\;c;d\\;e", "\\;", 2), "c;de");
    assert_eq!(fields_after("abc", "", 0), "abc");
    assert_eq!(fields_after("abc", "", 1), "");
    assert_eq!(fields_after("aaa", "aa", 0), "a");
}

#[test]
fn an_update_that_only_rewords_the_description() {
    assert!(is_language_only_update(&vec![change("DESCRIPTION", Some("fix; Vorlesung; Raum 1"), Some("fixed; lecture; Raum 1"))]));
    assert!(!is_language_only_update(&vec![change("DESCRIPTION", Some("a; b; Raum 1"), Some("a; b; Raum 2"))]));
    assert!(!is_language_only_update(&vec![change("SUMMARY", Some("a;b;c"), Some("x;y;c"))]));
    assert!(!is_language_only_update(&vec![change("DESCRIPTION", None, Some("x;y;c"))]));
    assert!(!is_language_only_update(&vec![]));
    assert!(!is_language_only_update(&vec![
        change("DESCRIPTION", Some("a;b;c"), Some("x;y;c")),
        change("SUMMARY", Some("a"), Some("b")),
    ]));
}

#[test]
fn the_end_of_an_occurrence() {
    assert_eq!(end_seconds(&occ(vec![prop("DTEND", "19700101T000100")])), Some(60));
    assert_eq!(end_seconds(&occ(vec![prop("DTEND", "20240229T120000Z")])), Some(1709208000));
    assert_eq!(end_seconds(&occ(vec![prop("DTEND", "20240229")])), None);
    assert_eq!(end_seconds(&occ(vec![prop("DTEND", "2024022\u{fc}T120000Z")])), None);
    assert_eq!(end_seconds(&occ(vec![prop("DTEND", "20241301T120000")])), None);
    assert_eq!(end_seconds(&occ(vec![prop("DTSTART", "19700101T000100")])), None);
}

#[test]
fn long_past_is_more_than_10080_seconds_ago() {
    assert!(is_long_past(Some(0), 10081));
    assert!(!is_long_past(Some(0), 10080));
    assert!(!is_long_past(Some(5), 0));
    assert!(!is_long_past(None, i64::MAX));
    assert!(!is_long_past(Some(i64::MIN), i64::MIN));
    assert!(is_long_past(Some(i64::MIN), i64::MAX));
}

#[test]
fn the_identifier_in_the_mirror() {
    assert_eq!(mirror_id("12345@tum.de"), "\u{1D7CF}\u{1D7D0}\u{1D7D1}\u{1D7D2}\u{1D7D3}|");
    assert_eq!(mirror_id("abc"), "abc");
}

#[test]
fn a_draft_for_a_new_event() {
    let table = vec![("Analysis".to_string(), "Ana".to_string())];
    let event = occ(vec![
        prop("SUMMARY", "Analysis 1 (MA0001) Pr\u{fc}fung"),
        prop("LOCATION", "MI HS 1\\, Garching"),
        prop("STATUS", "CONFIRMED"),
        prop("DESCRIPTION", "fix\\; Vorlesung\\; Bitte p\u{fc}nktlich \\, danke "),
    ]);
    assert_eq!(
        draft_new_event(&event, "7@tum.de", &table),
        EventDraft {
            summary: Some("Ana 1  Pr\u{fc}fung".to_string()),
            color_id: Some("11".to_string()),
            location: Some("MI HS \u{1D7CF}, Garching".to_string()),
            status: Some("confirmed".to_string()),
            description: Some(
                "Bitte p\u{fc}nktlich , danke<br><a href=\"https://nav.tum.de/search?q=MI HS 1, Garching\">Wo ist das?</a><br><br><hr><small>uid:\u{1D7D5}|</small>"
                    .to_string()
            ),
        }
    );
    let bare = occ(vec![prop("LOCATION", "Online: Moodle")]);
    assert_eq!(
        draft_new_event(&bare, "u", &table),
        EventDraft {
            summary: Some("Kein Titel angegeben".to_string()),
            color_id: None,
            location: Some("Online: Moodle".to_string()),
            status: None,
            description: Some(
                "<a href=\"https://www.moodle.tum.de/my/\">Online auf Moodle</a><br><br><hr><small>uid:u</small>".to_string()
            ),
        }
    );
    let online = draft_new_event(&occ(vec![prop("LOCATION", "ONLINE")]), "u", &table);
    assert_eq!(online.description, Some("Online<br><br><hr><small>uid:u</small>".to_string()));
    let nowhere = draft_new_event(&occ(vec![]), "u", &table);
    assert_eq!(nowhere.location, Some("Kein Ort angegeben".to_string()));
}

#[test]
fn a_draft_for_a_changed_event() {
    let table = vec![];
    let known = || EventDraft {
        summary: Some("Alte Pr\u{fc}fung".to_string()),
        color_id: None,
        location: Some("Raum \u{1D7CF}".to_string()),
        status: Some("tentative".to_string()),
        description: Some("old".to_string()),
    };
    let event = occ(vec![prop("SUMMARY", "Neu"), prop("LOCATION", "Raum 2"), prop("STATUS", "CANCELLED")]);
    assert_eq!(
        draft_updated_event(&event, "u", &vec![], known(), &table),
        EventDraft { color_id: Some("11".to_string()), ..known() }
    );
    assert_eq!(
        draft_updated_event(&event, "u", &vec![change("SUMMARY", Some("Alt"), Some("Neu"))], known(), &table),
        EventDraft { summary: Some("Neu".to_string()), ..known() }
    );
    assert_eq!(
        draft_updated_event(&event, "u", &vec![change("STATUS", None, Some("CANCELLED"))], known(), &table),
        EventDraft { status: Some("cancelled".to_string()), color_id: Some("11".to_string()), ..known() }
    );
    assert_eq!(
        draft_updated_event(&event, "u", &vec![change("LOCATION", Some("Raum 1"), Some("Raum 2"))], known(), &table),
        EventDraft {
            location: Some("Raum \u{1D7D0}".to_string()),
            color_id: Some("11".to_string()),
            description: Some(
                "<a href=\"https://nav.tum.de/search?q=Raum \u{1D7D0}\">Wo ist das?</a><br><br><hr><small>uid:u</small>".to_string()
            ),
            ..known()
        }
    );
    let placeless = EventDraft { location: None, ..known() };
    assert_eq!(
        draft_updated_event(&event, "u", &vec![change("DESCRIPTION", None, Some("x"))], placeless, &table).description,
        Some("<a href=\"https://nav.tum.de/search?q=\">Wo ist das?</a><br><br><hr><small>uid:u</small>".to_string())
    );
}
