use transit_sync::geo::{haversine_distance, GeoPoint};
use transit_sync::ifopt::extract_station_id;
use transit_sync::osm::{OsmError};
use transit_sync::config::TransportType;

fn pt(lat: f64, lon: f64) -> GeoPoint {
    GeoPoint { lon: (lon * 1e7).round() as i64, lat: (lat * 1e7).round() as i64 }
}

fn reference_haversine_m(a: GeoPoint, b: GeoPoint) -> f64 {
    let r = 6371000.0_f64;
    let lat1 = (a.lat as f64 / 1e7).to_radians();
    let lat2 = (b.lat as f64 / 1e7).to_radians();
    let dlat = ((b.lat - a.lat) as f64 / 1e7).to_radians();
    let dlon = ((b.lon - a.lon) as f64 / 1e7).to_radians();
    let h = (dlat / 2.0).sin().powi(2) + lat1.cos() * lat2.cos() * (dlon / 2.0).sin().powi(2);
    2.0 * r * h.sqrt().atan2((1.0 - h).sqrt())
}

#[test]
fn station_id_keeps_first_three_parts() {
    assert_eq!(extract_station_id("de:09761:692:31:a"), "de:09761:692");
}

#[test]
fn station_id_of_short_reference_is_unchanged() {
    assert_eq!(extract_station_id("x:y"), "x:y");
    assert_eq!(extract_station_id("de:09761:692"), "de:09761:692");
    assert_eq!(extract_station_id(""), "");
}

#[test]
fn haversine_of_a_point_to_itself_is_zero() {
    let a = pt(48.3705, 10.8978);
    assert_eq!(haversine_distance(a, a), 0);
}

#[test]
fn haversine_is_symmetric() {
    let a = pt(48.3705, 10.8978);
    let b = pt(48.3551, 10.9061);
    assert_eq!(haversine_distance(a, b), haversine_distance(b, a));
}

#[test]
fn haversine_matches_the_spherical_formula() {
    let cases = [
        (pt(48.3705, 10.8978), pt(48.3741, 10.8978)),
        (pt(48.3705, 10.8978), pt(48.3551, 10.9061)),
        (pt(0.0, 0.0), pt(1.0, 1.0)),
        (pt(-33.86, 151.21), pt(51.5, -0.12)),
        (pt(10.0, 170.0), pt(10.0, -170.0)),
    ];
    for (a, b) in cases {
        let got = haversine_distance(a, b) as f64 / 1000.0;
        let want = reference_haversine_m(a, b);
        assert!((got - want).abs() < 0.5 + want * 1e-6, "got {} want {}", got, want);
    }
}

#[test]
fn retryable_errors() {
    assert!(OsmError::NetworkError("x".to_string()).is_retryable());
    assert!(OsmError::RetryableError("HTTP 503".to_string()).is_retryable());
    assert!(!OsmError::ParseError("bad".to_string()).is_retryable());
}

#[test]
fn transport_type_names() {
    assert_eq!(TransportType::Tram.as_str(), "tram");
    assert_eq!(TransportType::Bus.as_str(), "bus");
    assert_eq!(TransportType::Subway.as_str(), "subway");
    assert_eq!(TransportType::Train.as_str(), "train");
    assert_eq!(TransportType::Ferry.as_str(), "ferry");
    assert_eq!(TransportType::Unknown.as_str(), "unknown");
}
