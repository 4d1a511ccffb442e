use transit_sync::config::{BoundingBox, TransportType};
use transit_sync::overpass::{build_element_query, build_route_query, degrees_text, FeatureKind};

fn bbox() -> BoundingBox {
    BoundingBox { south: 483_000_000, west: 108_500_000, north: 484_500_000, east: 109_500_000 }
}

#[test]
fn bounding_box_reads_south_west_north_east() {
    assert_eq!(bbox().to_overpass_string(), "48.3,10.85,48.45,10.95");
    let b = BoundingBox { south: -5_000_000, west: 0, north: 10_000_001, east: -1_800_000_000 };
    assert_eq!(b.to_overpass_string(), "-0.5,0,1.0000001,-180");
}

#[test]
fn degrees_without_trailing_zeros() {
    assert_eq!(degrees_text(483_705_000), "48.3705");
    assert_eq!(degrees_text(-1), "-0.0000001");
    assert_eq!(degrees_text(900_000_000), "90");
}

#[test]
fn tram_station_query() {
    let q = build_element_query(FeatureKind::Stations, &bbox(), &vec![TransportType::Tram]).unwrap();
    assert_eq!(
        q,
        "[out:json][timeout:90];\n(\nrelation[\"public_transport\"=\"stop_area\"](48.3,10.85,48.45,10.95);\nnode[\"public_transport\"=\"station\"](48.3,10.85,48.45,10.95);\nway[\"public_transport\"=\"station\"](48.3,10.85,48.45,10.95);\n);\nout body center;"
    );
}

#[test]
fn stop_position_query_for_tram_and_bus() {
    let q = build_element_query(FeatureKind::StopPositions, &bbox(), &vec![TransportType::Tram, TransportType::Bus]).unwrap();
    assert_eq!(
        q,
        "[out:json][timeout:90];\n(\nnode[\"public_transport\"=\"stop_position\"][\"tram\"=\"yes\"](48.3,10.85,48.45,10.95);\nnode[\"public_transport\"=\"stop_position\"][\"bus\"=\"yes\"](48.3,10.85,48.45,10.95);\n);\nout;"
    );
}

#[test]
fn no_query_without_tram_or_bus() {
    assert!(build_element_query(FeatureKind::Platforms, &bbox(), &vec![TransportType::Ferry]).is_none());
    assert!(build_element_query(FeatureKind::Stations, &bbox(), &vec![]).is_none());
}

#[test]
fn bus_platform_query_has_three_filters() {
    let q = build_element_query(FeatureKind::Platforms, &bbox(), &vec![TransportType::Bus]).unwrap();
    assert_eq!(q.lines().count(), 7);
    assert!(q.ends_with("\n);\nout center;"));
    assert!(q.contains("node[\"highway\"=\"platform\"](48.3,10.85,48.45,10.95);"));
}

#[test]
fn route_query_per_type() {
    let q = build_route_query(&bbox(), &vec![TransportType::Tram, TransportType::Subway]);
    assert_eq!(
        q,
        "[out:json][timeout:180];\n(\nrelation[\"type\"=\"route\"][\"route\"=\"tram\"](48.3,10.85,48.45,10.95);\nrelation[\"type\"=\"route\"][\"route\"=\"subway\"](48.3,10.85,48.45,10.95);\n);\nout body;\n>;\nout skel qt;"
    );
}
