use aw_server::aggregate::merge_events_by_keys;
use aw_server::event::Event;
use aw_server::flood::flood;
use aw_server::heartbeat::heartbeat;
use aw_server::sort::sort_by_duration;
use aw_server::sort::sort_by_timestamp;
use aw_server::value::clone_entries;
use aw_server::value::Value;

const NS: i64 = 1_000_000_000;

fn ts(text: &str) -> i64 {
    chrono::DateTime::parse_from_rfc3339(text)
        .unwrap()
        .timestamp_nanos_opt()
        .unwrap()
}

fn data_int(key: &str, v: i64) -> Vec<(String, Value)> {
    vec![(key.to_string(), Value::Int(v))]
}

fn copy_event(e: &Event) -> Event {
    Event {
        id: e.id,
        timestamp: e.timestamp,
        duration: e.duration,
        data: clone_entries(&e.data),
    }
}

#[test]
fn test_heartbeat_pulsetime() {
    let now = chrono::Utc::now().timestamp_nanos_opt().unwrap();
    let event1 = Event {
        id: None,
        timestamp: now,
        duration: NS,
        data: data_int("test", 1),
    };
    let heartbeat1 = Event {
        id: None,
        timestamp: now + 2 * NS,
        duration: NS,
        data: data_int("test", 1),
    };

    // Merge result
    let res_merge = heartbeat(&event1, &heartbeat1, 2 * NS).unwrap();
    assert!(res_merge.duration == 3 * NS);

    // No merge result
    let res_no_merge = heartbeat(&event1, &heartbeat1, 0);
    assert!(res_no_merge.is_none());
}

#[test]
fn test_heartbeat_data() {
    let now = chrono::Utc::now().timestamp_nanos_opt().unwrap();
    let event = Event {
        id: None,
        timestamp: now,
        duration: 0,
        data: data_int("test", 1),
    };
    let heartbeat_same_data = Event {
        id: None,
        timestamp: now,
        duration: NS,
        data: data_int("test", 1),
    };

    // Data is same, should merge
    let res_merge = heartbeat(&event, &heartbeat_same_data, NS);
    assert!(res_merge.is_some());

    let heartbeat_different_data = Event {
        id: None,
        timestamp: now,
        duration: NS,
        data: data_int("test", 2),
    };
    // Data is different, should not merge
    let res_merge = heartbeat(&event, &heartbeat_different_data, NS);
    assert!(res_merge.is_none());
}

#[test]
fn test_sort_by_timestamp() {
    let e1 = Event {
        id: None,
        timestamp: ts("2000-01-01T00:00:00Z"),
        duration: NS,
        data: data_int("test", 1),
    };
    let e2 = Event {
        id: None,
        timestamp: ts("2000-01-01T00:00:03Z"),
        duration: NS,
        data: data_int("test", 1),
    };
    let res = sort_by_timestamp(vec![copy_event(&e2), copy_event(&e1)]);
    assert_eq!(res, vec![e1, e2]);
}

#[test]
fn test_sort_by_duration() {
    let e1 = Event {
        id: None,
        timestamp: ts("2000-01-01T00:00:00Z"),
        duration: 2 * NS,
        data: data_int("test", 1),
    };
    let e2 = Event {
        id: None,
        timestamp: ts("2000-01-01T00:00:03Z"),
        duration: NS,
        data: data_int("test", 1),
    };
    let res = sort_by_duration(vec![copy_event(&e2), copy_event(&e1)]);
    assert_eq!(res, vec![e2, e1]);
}

#[test]
fn test_flood() {
    let e1 = Event {
        id: None,
        timestamp: ts("2000-01-01T00:00:00Z"),
        duration: NS,
        data: data_int("test", 1),
    };
    let e2 = Event {
        id: None,
        timestamp: ts("2000-01-01T00:00:03Z"),
        duration: NS,
        data: data_int("test", 1),
    };
    let e_expected = Event {
        id: None,
        timestamp: ts("2000-01-01T00:00:00Z"),
        duration: 4 * NS,
        data: data_int("test", 1),
    };
    let res = flood(vec![e1, e2], 5 * NS);
    let res_e = &res[0];
    assert_eq!(res_e, &e_expected);
}

#[test]
fn test_merge_events_by_key() {
    let e1 = Event {
        id: None,
        timestamp: ts("2000-01-01T00:00:00Z"),
        duration: NS,
        data: data_int("test", 1),
    };
    let e2 = Event {
        id: None,
        timestamp: ts("2000-01-01T00:00:01Z"),
        duration: 3 * NS,
        data: data_int("test2", 3),
    };
    let e3 = Event {
        id: None,
        timestamp: ts("2000-01-01T00:00:02Z"),
        duration: 7 * NS,
        data: data_int("test", 6),
    };
    let e4 = Event {
        id: None,
        timestamp: ts("2000-01-01T00:00:03Z"),
        duration: 9 * NS,
        data: data_int("test", 1),
    };
    let in_events = vec![e1, e2, e3, e4];
    let res1 = merge_events_by_keys(in_events, vec!["test".to_string()]);
    // Needed, otherwise the order is undeterministic
    let res2 = sort_by_timestamp(res1);
    let expected = vec![
        Event {
            id: None,
            timestamp: ts("2000-01-01T00:00:00Z"),
            duration: 10 * NS,
            data: data_int("test", 1),
        },
        Event {
            id: None,
            timestamp: ts("2000-01-01T00:00:02Z"),
            duration: 7 * NS,
            data: data_int("test", 6),
        },
    ];
    assert_eq!(&res2, &expected);
}

#[test]
fn test_sort_by_timestamp_stable() {
    let t0 = ts("2000-01-01T00:00:00Z");
    let e_a = Event {
        id: None,
        timestamp: t0,
        duration: NS,
        data: data_int("test", 1),
    };
    let e_b = Event {
        id: None,
        timestamp: t0,
        duration: 2 * NS,
        data: data_int("test", 2),
    };
    // Equal timestamps keep their input order.
    let res = sort_by_timestamp(vec![copy_event(&e_b), copy_event(&e_a)]);
    assert_eq!(res, vec![e_b, e_a]);
}

#[test]
fn test_heartbeat_overlap_merges() {
    // The heartbeat starts before the accumulated event ends: the gap is
    // negative, so it always qualifies, and the merged span reaches the
    // heartbeat's end only.
    let t0 = ts("2000-01-01T00:00:00Z");
    let event = Event {
        id: None,
        timestamp: t0,
        duration: 4 * NS,
        data: data_int("test", 1),
    };
    let hb = Event {
        id: None,
        timestamp: t0 + 2 * NS,
        duration: 3 * NS,
        data: data_int("test", 1),
    };
    let merged = heartbeat(&event, &hb, 0).unwrap();
    assert_eq!(merged.timestamp, t0);
    assert_eq!(merged.duration, 5 * NS);
    assert_eq!(merged.id, None);
}

#[test]
fn test_flood_idempotent() {
    let t0 = ts("2000-01-01T00:00:00Z");
    let mk = || {
        vec![
            Event {
                id: None,
                timestamp: t0,
                duration: NS,
                data: data_int("test", 1),
            },
            Event {
                id: None,
                timestamp: t0 + 3 * NS,
                duration: NS,
                data: data_int("test", 2),
            },
            Event {
                id: None,
                timestamp: t0 + 60 * NS,
                duration: NS,
                data: data_int("test", 3),
            },
        ]
    };
    let once = flood(mk(), 5 * NS);
    let again: Vec<Event> = once.iter().map(copy_event).collect();
    let twice = flood(again, 5 * NS);
    assert_eq!(once, twice);
    assert_eq!(once.len(), 2);
}

#[test]
fn test_flood_overlap_passes_through() {
    let t0 = ts("2000-01-01T00:00:00Z");
    let e1 = Event {
        id: None,
        timestamp: t0,
        duration: 4 * NS,
        data: data_int("test", 1),
    };
    let e2 = Event {
        id: None,
        timestamp: t0 + 2 * NS,
        duration: NS,
        data: data_int("test", 2),
    };
    let res = flood(vec![copy_event(&e1), copy_event(&e2)], 5 * NS);
    assert_eq!(res, vec![e1, e2]);
}

#[test]
fn test_transforms_on_empty_and_single() {
    let empty: Vec<Event> = Vec::new();
    assert_eq!(sort_by_timestamp(empty).len(), 0);
    let empty: Vec<Event> = Vec::new();
    assert_eq!(flood(empty, NS).len(), 0);
    let empty: Vec<Event> = Vec::new();
    assert_eq!(merge_events_by_keys(empty, vec!["test".to_string()]).len(), 0);
    let single = Event {
        id: Some(7),
        timestamp: 0,
        duration: 0,
        data: data_int("test", 1),
    };
    let res = flood(vec![copy_event(&single)], NS);
    assert_eq!(res, vec![single]);
}

#[test]
fn test_merge_by_keys_deep_values() {
    // Grouping compares the chosen key's value by deep structural equality,
    // here a nested mapping.
    let nested = |v: i64| -> Vec<(String, Value)> {
        vec![(
            "test".to_string(),
            Value::Object(vec![("inner".to_string(), Value::Int(v))]),
        )]
    };
    let e1 = Event {
        id: None,
        timestamp: 0,
        duration: NS,
        data: nested(1),
    };
    let e2 = Event {
        id: None,
        timestamp: NS,
        duration: 2 * NS,
        data: nested(1),
    };
    let e3 = Event {
        id: None,
        timestamp: 2 * NS,
        duration: 4 * NS,
        data: nested(2),
    };
    let res = sort_by_timestamp(merge_events_by_keys(vec![e1, e2, e3], vec!["test".to_string()]));
    assert_eq!(res.len(), 2);
    assert_eq!(res[0].duration, 3 * NS);
    assert_eq!(res[0].timestamp, 0);
    assert_eq!(res[1].duration, 4 * NS);
}
