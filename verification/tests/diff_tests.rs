use ics_watcher::diff::changed_properties;
use ics_watcher::model::{Occurrence, Property};

#[test]
fn cmp_no_properties() {
    let event1 = Occurrence {
        properties: vec![],
        alarms: vec![],
    };

    let event2 = Occurrence {
        properties: vec![],
        alarms: vec![],
    };

    let keys = changed_properties(&event1, &event2);

    assert_eq!(keys, None);
}

#[test]
fn cmp_same_properties() {
    let prop1 = Property {
        name: String::from("prop1"),
        value: Some(String::from("prop1 value")),
        params: None,
    };

    let prop2 = Property {
        name: String::from("prop2"),
        value: Some(String::from("prop2 value")),
        params: None,
    };

    let event1 = Occurrence {
        properties: vec![prop1.clone(), prop2.clone()],
        alarms: vec![],
    };

    let event2 = Occurrence {
        properties: vec![prop2.clone(), prop1.clone()],
        alarms: vec![],
    };

    let keys = changed_properties(&event1, &event2);

    assert_eq!(keys, None);
}

#[test]
fn cmp_different_properties() {
    let prop1 = Property {
        name: String::from("prop1"),
        value: Some(String::from("prop1 value")),
        params: None,
    };

    let prop2 = Property {
        name: String::from("prop2"),
        value: Some(String::from("prop2 value")),
        params: None,
    };

    let event1 = Occurrence {
        properties: vec![prop1],
        alarms: vec![],
    };

    let event2 = Occurrence {
        properties: vec![prop2],
        alarms: vec![],
    };

    let keys = changed_properties(&event1, &event2).expect("Keys should be Some");

    assert_eq!(keys.len(), 2);
    assert!(keys.contains(&String::from("prop1")) && keys.contains(&String::from("prop2")));
}

#[test]
fn cmp_added_property() {
    let prop1 = Property {
        name: String::from("prop1"),
        value: Some(String::from("prop1 value")),
        params: None,
    };

    let event1 = Occurrence {
        properties: vec![],
        alarms: vec![],
    };

    let event2 = Occurrence {
        properties: vec![prop1],
        alarms: vec![],
    };

    let keys = changed_properties(&event1, &event2).expect("Keys should be Some");

    assert_eq!(keys.len(), 1);
    assert!(keys.contains(&String::from("prop1")));
}

#[test]
fn cmp_removed_property() {
    let prop1 = Property {
        name: String::from("prop1"),
        value: Some(String::from("prop1 value")),
        params: None,
    };

    let event1 = Occurrence {
        properties: vec![prop1],
        alarms: vec![],
    };

    let event2 = Occurrence {
        properties: vec![],
        alarms: vec![],
    };

    let keys = changed_properties(&event1, &event2).expect("Keys should be Some");

    assert_eq!(keys.len(), 1);
    assert!(keys.contains(&String::from("prop1")));
}

#[test]
fn cmp_different_properties_no_value() {
    let prop1 = Property {
        name: String::from("prop1"),
        value: None,
        params: None,
    };

    let prop2 = Property {
        name: String::from("prop2"),
        value: None,
        params: None,
    };

    let event1 = Occurrence {
        properties: vec![prop1],
        alarms: vec![],
    };

    let event2 = Occurrence {
        properties: vec![prop2],
        alarms: vec![],
    };

    let keys = changed_properties(&event1, &event2).expect("Keys should be Some");

    assert_eq!(keys.len(), 2);
    assert!(keys.contains(&String::from("prop1")) && keys.contains(&String::from("prop2")));
}

#[test]
fn cmp_different_params() {
    let prop1 = Property {
        name: String::from("prop1"),
        value: None,
        params: Some(vec![(String::from("key"), vec![String::from("value")])]),
    };

    let prop2 = Property {
        name: String::from("prop2"),
        value: None,
        params: Some(vec![(String::from("key"), vec![String::from("value")])]),
    };

    let event1 = Occurrence {
        properties: vec![prop1],
        alarms: vec![],
    };

    let event2 = Occurrence {
        properties: vec![prop2],
        alarms: vec![],
    };

    let keys = changed_properties(&event1, &event2).expect("Keys should be Some");

    assert_eq!(keys.len(), 2);
    assert!(keys.contains(&String::from("prop1")) && keys.contains(&String::from("prop2")));
}

#[test]
fn cmp_same_params() {
    let prop1 = Property {
        name: String::from("prop1"),
        value: None,
        params: Some(vec![(String::from("key"), vec![String::from("value")])]),
    };

    let prop2 = Property {
        name: String::from("prop1"),
        value: None,
        params: Some(vec![(String::from("key"), vec![String::from("value")])]),
    };

    let event1 = Occurrence {
        properties: vec![prop1],
        alarms: vec![],
    };

    let event2 = Occurrence {
        properties: vec![prop2],
        alarms: vec![],
    };

    let keys = changed_properties(&event1, &event2);

    assert_eq!(keys, None);
}

#[test]
fn cmp_different_param_keys() {
    let prop1 = Property {
        name: String::from("prop1"),
        value: None,
        params: Some(vec![(String::from("key"), vec![String::from("value")])]),
    };

    let prop2 = Property {
        name: String::from("prop1"),
        value: None,
        params: Some(vec![(String::from("key2"), vec![String::from("value")])]),
    };

    let event1 = Occurrence {
        properties: vec![prop1],
        alarms: vec![],
    };

    let event2 = Occurrence {
        properties: vec![prop2],
        alarms: vec![],
    };

    let keys = changed_properties(&event1, &event2).expect("Keys should be Some");

    assert_eq!(keys.len(), 1);
    assert!(keys.contains(&String::from("prop1")));
}

#[test]
fn cmp_different_param_values() {
    let prop1 = Property {
        name: String::from("prop1"),
        value: None,
        params: Some(vec![(String::from("key"), vec![String::from("value")])]),
    };

    let prop2 = Property {
        name: String::from("prop1"),
        value: None,
        params: Some(vec![(String::from("key"), vec![String::from("value2")])]),
    };

    let event1 = Occurrence {
        properties: vec![prop1],
        alarms: vec![],
    };

    let event2 = Occurrence {
        properties: vec![prop2],
        alarms: vec![],
    };

    let keys = changed_properties(&event1, &event2).expect("Keys should be Some");

    assert_eq!(keys.len(), 1);
    assert!(keys.contains(&String::from("prop1")));
}

#[test]
fn cmp_added_param() {
    let prop1 = Property {
        name: String::from("prop1"),
        value: None,
        params: None,
    };

    let prop2 = Property {
        name: String::from("prop1"),
        value: None,
        params: Some(vec![(String::from("key"), vec![String::from("value2")])]),
    };

    let event1 = Occurrence {
        properties: vec![prop1],
        alarms: vec![],
    };

    let event2 = Occurrence {
        properties: vec![prop2],
        alarms: vec![],
    };

    let keys = changed_properties(&event1, &event2).expect("Keys should be Some");

    assert_eq!(keys.len(), 1);
    assert!(keys.contains(&String::from("prop1")));
}

#[test]
fn cmp_removed_param() {
    let prop1 = Property {
        name: String::from("prop1"),
        value: None,
        params: Some(vec![(String::from("key"), vec![String::from("value2")])]),
    };

    let prop2 = Property {
        name: String::from("prop1"),
        value: None,
        params: None,
    };

    let event1 = Occurrence {
        properties: vec![prop1],
        alarms: vec![],
    };

    let event2 = Occurrence {
        properties: vec![prop2],
        alarms: vec![],
    };

    let keys = changed_properties(&event1, &event2).expect("Keys should be Some");

    assert_eq!(keys.len(), 1);
    assert!(keys.contains(&String::from("prop1")));
}

#[test]
fn dtstamp_never_counts() {
    let stamp = |v: &str| Property { name: String::from("DTSTAMP"), value: Some(String::from(v)), params: None };
    let a = Occurrence { properties: vec![stamp("1")], alarms: vec![] };
    let b = Occurrence { properties: vec![stamp("2")], alarms: vec![] };
    let none = Occurrence { properties: vec![], alarms: vec![] };
    assert_eq!(changed_properties(&a, &b), None);
    assert_eq!(changed_properties(&a, &none), None);
    assert_eq!(changed_properties(&none, &b), None);
}

#[test]
fn first_property_of_a_name_stands_for_it() {
    let p = |n: &str, v: &str| Property { name: String::from(n), value: Some(String::from(v)), params: None };
    let a = Occurrence { properties: vec![p("ATTENDEE", "x"), p("ATTENDEE", "y")], alarms: vec![] };
    let same = Occurrence { properties: vec![p("ATTENDEE", "x"), p("ATTENDEE", "y")], alarms: vec![] };
    let tail = Occurrence { properties: vec![p("ATTENDEE", "x"), p("ATTENDEE", "z")], alarms: vec![] };
    let head = Occurrence { properties: vec![p("ATTENDEE", "w"), p("ATTENDEE", "y")], alarms: vec![] };
    assert_eq!(changed_properties(&a, &same), None);
    assert_eq!(changed_properties(&a, &tail), None);
    assert_eq!(changed_properties(&a, &head), Some(vec![String::from("ATTENDEE")]));
}

#[test]
fn changed_names_come_once_in_order_of_appearance() {
    let p = |n: &str, v: &str| Property { name: String::from(n), value: Some(String::from(v)), params: None };
    let a = Occurrence { properties: vec![p("B", "1"), p("A", "1"), p("B", "2"), p("C", "1")], alarms: vec![] };
    let b = Occurrence { properties: vec![p("D", "1"), p("C", "1"), p("A", "2"), p("D", "2")], alarms: vec![] };
    assert_eq!(
        changed_properties(&a, &b),
        Some(vec![String::from("B"), String::from("A"), String::from("D")])
    );
}

#[test]
fn parameters_are_a_mapping() {
    let with = |params: Option<Vec<(&str, Vec<&str>)>>| Occurrence {
        properties: vec![Property {
            name: String::from("prop1"),
            value: None,
            params: params.map(|list| {
                list.into_iter().map(|(k, v)| (k.to_string(), v.into_iter().map(String::from).collect())).collect()
            }),
        }],
        alarms: vec![],
    };
    let ab = with(Some(vec![("A", vec!["1"]), ("B", vec!["2"])]));
    let ba = with(Some(vec![("B", vec!["2"]), ("A", vec!["1"])]));
    assert_eq!(changed_properties(&ab, &ba), None);
    let values_swapped = with(Some(vec![("A", vec!["2"]), ("B", vec!["1"])]));
    assert_eq!(changed_properties(&ab, &values_swapped), Some(vec![String::from("prop1")]));
    let a_only = with(Some(vec![("A", vec!["1"])]));
    assert_eq!(changed_properties(&ab, &a_only), Some(vec![String::from("prop1")]));
    assert_eq!(changed_properties(&a_only, &ab), Some(vec![String::from("prop1")]));
    let two_values = with(Some(vec![("A", vec!["1", "2"])]));
    let two_values_swapped = with(Some(vec![("A", vec!["2", "1"])]));
    assert_eq!(changed_properties(&two_values, &two_values_swapped), Some(vec![String::from("prop1")]));
    assert_eq!(changed_properties(&with(Some(vec![])), &with(None)), Some(vec![String::from("prop1")]));
    let repeated = with(Some(vec![("A", vec!["1"]), ("A", vec!["9"])]));
    assert_eq!(changed_properties(&a_only, &repeated), None);
}
