use transit_sync::efa::{Platform, Station};
use transit_sync::geo::GeoPoint;
use transit_sync::tracker::{
    extract_geometry_segment, find_closest_point_index, lookup_station_coordinates, LineGeometry, TramState,
    TramStatus, VehicleInfo, VehiclePositionTracker,
};

// 2024-01-01T00:00:00Z
const T0: i64 = 1_704_067_200;

fn e7(x: f64) -> i64 {
    (x * 1e7).round() as i64
}

fn station(id: &str, lat: f64, lon: f64) -> Station {
    Station {
        station_id: id.to_string(),
        station_name: format!("Station {}", id),
        coord: Some(vec![e7(lat), e7(lon)]),
        platforms: vec![],
    }
}

fn rfc(t: i64) -> String {
    let mins = (t - T0) / 60;
    let secs = (t - T0) % 60;
    assert!(t >= T0 && mins < 60);
    format!("2024-01-01T00:{:02}:{:02}Z", mins, secs)
}

fn vehicle(id: &str, line: &str, from: &str, to: Option<&str>, planned: i64) -> VehicleInfo {
    VehicleInfo {
        vehicle_id: id.to_string(),
        trip_code: 7,
        physical_vehicle_id: None,
        line_number: line.to_string(),
        destination: "Terminus".to_string(),
        origin: None,
        current_stop_id: from.to_string(),
        current_stop_name: format!("Stop {}", from),
        next_stop_id: to.map(|s| s.to_string()),
        next_stop_name: to.map(|s| format!("Stop {}", s)),
        last_departure_planned: rfc(planned),
        delay_minutes: Some(1),
    }
}

fn line_along(line: &str, lat0: f64, lat1: f64, lon: f64, n: usize) -> LineGeometry {
    let mut pts = Vec::new();
    for i in 0..=n {
        let lat = lat0 + (lat1 - lat0) * (i as f64) / (n as f64);
        pts.push(GeoPoint { lon: e7(lon), lat: e7(lat) });
    }
    LineGeometry { line_number: line.to_string(), segments: vec![pts] }
}

fn status_after_two_ticks(planned: i64, now: i64) -> TramStatus {
    let stations = vec![station("S", 48.37, 10.89), station("T", 48.3736, 10.89)];
    let mut tracker = VehiclePositionTracker::new(vec![], T0);
    let feed = vec![vehicle("v1", "3", "S", Some("T"), planned)];
    tracker.update(&feed, &stations, now);
    tracker.update(&feed, &stations, now);
    let (a, e, s, d) = tracker.get_stats();
    assert_eq!(a + e + s + d, 1);
    if a == 1 {
        TramStatus::AtStation
    } else if e == 1 {
        TramStatus::EnRoute
    } else if s == 1 {
        TramStatus::Stale
    } else {
        TramStatus::InDepot
    }
}

#[test]
fn departed_five_minutes_ago_is_en_route() {
    assert_eq!(status_after_two_ticks(T0, T0 + 300), TramStatus::EnRoute);
}

#[test]
fn departing_in_exactly_five_minutes_is_en_route() {
    assert_eq!(status_after_two_ticks(T0 + 300, T0), TramStatus::EnRoute);
}

#[test]
fn departing_in_six_minutes_is_at_station() {
    assert_eq!(status_after_two_ticks(T0 + 360, T0), TramStatus::AtStation);
}

#[test]
fn at_station_vehicle_scenario() {
    // T is 400 m north of S; the vehicle leaves S in six minutes.
    let stations = vec![station("S", 48.37, 10.89), station("T", 48.3736, 10.89)];
    let geom = line_along("3", 48.369, 48.375, 10.89, 60);
    let mut tracker = VehiclePositionTracker::new(vec![geom], T0);
    let feed = vec![vehicle("v1", "3", "S", Some("T"), T0 + 360)];
    tracker.update(&feed, &stations, T0);
    let r = tracker.update(&feed, &stations, T0);
    assert_eq!(r.vehicles.len(), 1);
    let p = &r.vehicles[0];
    assert_eq!(p.progress, 0);
    assert_eq!(p.from_station_id, "S");
    assert_eq!(p.to_station_id, "T");
    assert!(!p.geometry_segment.is_empty());
    assert_eq!(p.line_name, "Straßenbahn 3");
    assert_eq!(p.departure_time, T0 + 360);
    // 0.4 km at 20 km/h is 1.2 minutes.
    assert_eq!(p.arrival_time, T0 + 360 + 72);
    assert_eq!(tracker.get_stats(), (1, 0, 0, 0));
}

#[test]
fn en_route_interpolation_scenario() {
    // T is about 668 m north of S: 120 s of travel at 20 km/h.
    let stations = vec![station("S", 48.37, 10.89), station("T", 48.376008, 10.89)];
    let mut tracker = VehiclePositionTracker::new(vec![], T0);
    let feed = vec![vehicle("v1", "3", "S", Some("T"), T0)];
    tracker.update(&feed, &stations, T0 + 30);
    let r = tracker.update(&feed, &stations, T0 + 30);
    assert_eq!(r.vehicles.len(), 1);
    let p = &r.vehicles[0];
    assert_eq!(p.arrival_time, T0 + 120);
    let progress = p.progress as f64 / 1e9;
    assert!((progress - 0.25).abs() <= 1e-9);
    assert!(p.geometry_segment.is_empty());
    assert_eq!(p.delay, Some(1));
    assert_eq!(p.calculated_at, T0 + 30);
}

#[test]
fn progress_is_clamped_once_arrived() {
    let stations = vec![station("S", 48.37, 10.89), station("T", 48.3772, 10.89)];
    let mut tracker = VehiclePositionTracker::new(vec![], T0);
    let feed = vec![vehicle("v1", "3", "S", Some("T"), T0)];
    tracker.update(&feed, &stations, T0 + 1000);
    let r = tracker.update(&feed, &stations, T0 + 1000);
    assert_eq!(r.vehicles[0].progress, 1_000_000_000);
}

#[test]
fn first_sighting_gives_no_position() {
    let stations = vec![station("S", 48.37, 10.89), station("T", 48.3772, 10.89)];
    let mut tracker = VehiclePositionTracker::new(vec![], T0);
    let feed = vec![vehicle("v1", "3", "S", Some("T"), T0)];
    let r = tracker.update(&feed, &stations, T0);
    assert!(r.vehicles.is_empty());
    assert_eq!(r.timestamp, T0);
    assert_eq!(tracker.get_stats(), (0, 1, 0, 0));
}

#[test]
fn depot_removal_scenario() {
    let stations = vec![station("S", 48.37, 10.89), station("T", 48.3772, 10.89)];
    let mut tracker = VehiclePositionTracker::new(vec![], T0);
    let feed = vec![vehicle("v1", "3", "S", Some("T"), T0)];
    tracker.update(&feed, &stations, T0);
    tracker.update(&feed, &stations, T0);
    assert_eq!(tracker.get_positions().vehicles.len(), 1);
    let empty: Vec<VehicleInfo> = vec![];
    tracker.update(&empty, &stations, T0 + 20 * 60);
    assert_eq!(tracker.get_stats(), (0, 0, 1, 0));
    assert!(tracker.get_positions().vehicles.is_empty());
    tracker.update(&empty, &stations, T0 + 60 * 60);
    assert_eq!(tracker.get_stats(), (0, 0, 1, 0));
    let r = tracker.update(&empty, &stations, T0 + 61 * 60);
    assert_eq!(tracker.get_stats(), (0, 0, 0, 0));
    assert!(r.vehicles.is_empty());
    assert!(tracker.get_positions().vehicles.is_empty());
    assert_eq!(tracker.get_positions().timestamp, T0 + 61 * 60);
}

#[test]
fn lookup_prefers_station_then_platform_then_origin() {
    let mut s = station("de:1:2", 48.0, 10.0);
    s.platforms.push(Platform {
        id: "de:1:2:3".to_string(),
        name: "3".to_string(),
        coord: Some(vec![e7(48.1), e7(10.1)]),
        osm_id: None,
    });
    let stations = vec![s];
    let p = lookup_station_coordinates(&"de:1:2".to_string(), &stations);
    assert_eq!(p, GeoPoint { lon: e7(10.0), lat: e7(48.0) });
    let q = lookup_station_coordinates(&"de:1:2:3".to_string(), &stations);
    assert_eq!(q, GeoPoint { lon: e7(10.1), lat: e7(48.1) });
    let z = lookup_station_coordinates(&"nowhere".to_string(), &stations);
    assert_eq!(z, GeoPoint { lon: 0, lat: 0 });
}

#[test]
fn closest_point_is_the_first_nearest_within_range() {
    let pts = vec![
        GeoPoint { lon: e7(10.0), lat: e7(48.0) },
        GeoPoint { lon: e7(10.0), lat: e7(48.001) },
        GeoPoint { lon: e7(10.0), lat: e7(48.001) },
    ];
    let target = GeoPoint { lon: e7(10.0), lat: e7(48.0011) };
    assert_eq!(find_closest_point_index(&pts, target, 500_000), Some(1));
    let far = GeoPoint { lon: e7(11.0), lat: e7(48.0) };
    assert_eq!(find_closest_point_index(&pts, far, 500_000), None);
}

#[test]
fn segment_is_reversed_when_travelling_against_the_polyline() {
    let stations = vec![station("S", 48.37, 10.89), station("T", 48.3736, 10.89)];
    let geom = vec![line_along("3", 48.369, 48.375, 10.89, 6)];
    let forward = extract_geometry_segment(&geom, &"S".to_string(), &"T".to_string(), &"3".to_string(), &stations);
    let backward = extract_geometry_segment(&geom, &"T".to_string(), &"S".to_string(), &"3".to_string(), &stations);
    assert!(forward.len() >= 2);
    assert!(forward.first().unwrap().lat < forward.last().unwrap().lat);
    let mut rev = forward.clone();
    rev.reverse();
    assert_eq!(backward, rev);
}

#[test]
fn segment_is_empty_without_line_geometry() {
    let stations = vec![station("S", 48.37, 10.89), station("T", 48.3736, 10.89)];
    let geom = vec![line_along("9", 48.369, 48.375, 10.89, 6)];
    let seg = extract_geometry_segment(&geom, &"S".to_string(), &"T".to_string(), &"3".to_string(), &stations);
    assert!(seg.is_empty());
    let unknown = extract_geometry_segment(&geom, &"S".to_string(), &"X".to_string(), &"9".to_string(), &stations);
    assert!(unknown.is_empty());
}

#[test]
fn same_point_gives_both_stop_coordinates() {
    let stations = vec![station("S", 48.37, 10.89), station("T", 48.3701, 10.89)];
    let geom = vec![LineGeometry {
        line_number: "3".to_string(),
        segments: vec![vec![GeoPoint { lon: e7(10.89), lat: e7(48.37005) }]],
    }];
    let seg = extract_geometry_segment(&geom, &"S".to_string(), &"T".to_string(), &"3".to_string(), &stations);
    assert_eq!(seg, vec![GeoPoint { lon: e7(10.89), lat: e7(48.37) }, GeoPoint { lon: e7(10.89), lat: e7(48.3701) }]);
}

#[test]
fn station_windows_of_a_state() {
    let v = vehicle("v1", "3", "S", None, T0);
    let t = TramState::from_vehicle_info(&v, T0);
    assert_eq!(t.status, TramStatus::EnRoute);
    assert!(t.is_at_station(T0 + 600, T0));
    assert!(!t.is_at_station(T0 + 660, T0));
    assert!(t.is_at_station(T0 - 120, T0));
    assert!(!t.is_at_station(T0 - 180, T0));
    assert!(t.is_en_route(T0, T0 + 180));
    assert!(!t.is_en_route(T0, T0 + 179));
}
