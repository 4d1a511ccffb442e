use transit_sync::departures::{parse_departures, DepartureStore, StopEvent};

// 2024-01-01T00:00:00Z
const T0: i64 = 1_704_067_200;

fn event(planned: &str, estimated: Option<&str>) -> StopEvent {
    StopEvent {
        line_number: Some("3".to_string()),
        destination: Some("Haunstetten".to_string()),
        planned_departure: Some(planned.to_string()),
        estimated_departure: estimated.map(|s| s.to_string()),
        platform: Some("A".to_string()),
    }
}

#[test]
fn on_time_departure_has_zero_delay() {
    let es = vec![event("2024-01-01T00:10:00Z", Some("2024-01-01T00:10:00Z"))];
    let d = parse_departures(&"X".to_string(), &es, T0);
    assert_eq!(d.len(), 1);
    assert_eq!(d[0].delay_minutes, Some(0));
    assert_eq!(d[0].stop_ifopt, "X");
    assert_eq!(d[0].platform.as_deref(), Some("A"));
}

#[test]
fn delay_is_whole_minutes() {
    let es = vec![
        event("2024-01-01T00:10:00Z", Some("2024-01-01T00:13:59Z")),
        event("2024-01-01T00:10:00Z", Some("2024-01-01T00:09:01Z")),
        event("2024-01-01T00:10:00Z", None),
        event("2024-01-01T00:10:00Z", Some("soon")),
    ];
    let d = parse_departures(&"X".to_string(), &es, T0);
    let delays: Vec<Option<i32>> = d.iter().map(|x| x.delay_minutes).collect();
    assert_eq!(delays, vec![Some(3), Some(0), None, None]);
}

#[test]
fn past_departure_is_discarded() {
    let es = vec![
        event("2023-12-31T23:59:59Z", None),
        event("2024-01-01T00:00:00Z", None),
        event("not a time", None),
    ];
    let d = parse_departures(&"X".to_string(), &es, T0);
    let planned: Vec<&str> = d.iter().map(|x| x.planned_departure.as_str()).collect();
    assert_eq!(planned, vec!["2024-01-01T00:00:00Z", "not a time"]);
}

#[test]
fn incomplete_events_are_skipped() {
    let mut a = event("2024-01-01T00:10:00Z", None);
    a.line_number = None;
    let mut b = event("2024-01-01T00:10:00Z", None);
    b.destination = None;
    let mut c = event("2024-01-01T00:10:00Z", None);
    c.planned_departure = None;
    let d = parse_departures(&"X".to_string(), &vec![a, b, c], T0);
    assert!(d.is_empty());
}

#[test]
fn departure_pruning_scenario() {
    let mut store = DepartureStore::new();
    let first = vec![("X".to_string(), Ok(vec![event("2024-01-01T00:00:00Z", None)]))];
    let (stored, failed) = store.apply_results(first, T0 - 60);
    assert_eq!((stored, failed), (1, 0));
    assert!(store.get("X").is_some());
    let second = vec![("X".to_string(), Ok(vec![event("2024-01-01T00:00:00Z", None)]))];
    store.apply_results(second, T0 + 1);
    assert!(store.get("X").is_none());
}

#[test]
fn departure_error_preserves_state_scenario() {
    let mut store = DepartureStore::new();
    let first = vec![("X".to_string(), Ok(vec![event("2024-01-01T00:10:00Z", None)]))];
    store.apply_results(first, T0);
    let second: Vec<(String, Result<Vec<StopEvent>, String>)> = vec![("X".to_string(), Err("timeout".to_string()))];
    let (stored, failed) = store.apply_results(second, T0 + 30);
    assert_eq!((stored, failed), (0, 1));
    let held = store.get("X").unwrap();
    assert_eq!(held.len(), 1);
    assert_eq!(held[0].planned_departure, "2024-01-01T00:10:00Z");
    let third = vec![(
        "X".to_string(),
        Ok(vec![event("2024-01-01T00:20:00Z", None), event("2024-01-01T00:30:00Z", None)]),
    )];
    store.apply_results(third, T0 + 60);
    let held = store.get("X").unwrap();
    let planned: Vec<&str> = held.iter().map(|x| x.planned_departure.as_str()).collect();
    assert_eq!(planned, vec!["2024-01-01T00:20:00Z", "2024-01-01T00:30:00Z"]);
}

#[test]
fn counts_stored_stops_and_failed_fetches() {
    let mut store = DepartureStore::new();
    let results: Vec<(String, Result<Vec<StopEvent>, String>)> = vec![
        ("A".to_string(), Ok(vec![event("2024-01-01T00:10:00Z", None)])),
        ("B".to_string(), Ok(vec![])),
        ("C".to_string(), Err("timeout".to_string())),
        ("D".to_string(), Ok(vec![event("2023-12-31T00:00:00Z", None)])),
        ("E".to_string(), Err("refused".to_string())),
    ];
    assert_eq!(store.apply_results(results, T0), (1, 2));
    assert!(store.get("A").is_some());
    assert!(store.get("B").is_none());
    assert!(store.get("D").is_none());
}
