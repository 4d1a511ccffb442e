use transit_sync::config::{Area, BoundingBox, TransportType};
use transit_sync::osm::{
    extract_station_platform_mappings, parse_routes_response, AreaFeatures, Center, OsmElement, OverpassResponse,
    RelationMember,
};
use transit_sync::topology::{PlatformRow, StationRow, TopologyStore};

fn e7(x: f64) -> i64 {
    (x * 1e7).round() as i64
}

fn empty_store() -> TopologyStore {
    TopologyStore {
        areas: vec![],
        stations: vec![],
        platforms: vec![],
        stop_positions: vec![],
        routes: vec![],
        route_ways: vec![],
        route_stops: vec![],
    }
}

fn tags(pairs: &[(&str, &str)]) -> Option<Vec<(String, String)>> {
    Some(pairs.iter().map(|(k, v)| (k.to_string(), v.to_string())).collect())
}

fn node(id: i64, lat: f64, lon: f64, t: Option<Vec<(String, String)>>) -> OsmElement {
    OsmElement {
        element_type: "node".to_string(),
        id,
        lat: Some(e7(lat)),
        lon: Some(e7(lon)),
        center: None,
        tags: t,
        nodes: None,
        members: None,
    }
}

fn member(kind: &str, r: i64, role: &str) -> RelationMember {
    RelationMember { member_type: kind.to_string(), member_ref: r, role: Some(role.to_string()) }
}

fn stop_area(id: i64, lat: f64, lon: f64, members: Vec<RelationMember>) -> OsmElement {
    OsmElement {
        element_type: "relation".to_string(),
        id,
        lat: None,
        lon: None,
        center: Some(Center { lat: e7(lat), lon: e7(lon) }),
        tags: tags(&[("public_transport", "stop_area"), ("name", "Stop")]),
        nodes: None,
        members: Some(members),
    }
}

fn area() -> Area {
    Area {
        name: "Augsburg".to_string(),
        bounding_box: BoundingBox { south: e7(48.3), west: e7(10.85), north: e7(48.45), east: e7(10.95) },
        transport_types: vec![TransportType::Tram],
    }
}

fn station_row(id: i64, lat: i64, lon: i64, area_id: i64) -> StationRow {
    StationRow {
        osm_id: id,
        osm_type: "node".to_string(),
        name: None,
        ref_ifopt: None,
        lat,
        lon,
        tags: None,
        area_id,
    }
}

fn platform_row(id: i64, lat: i64, lon: i64, area_id: i64) -> PlatformRow {
    PlatformRow {
        osm_id: id,
        osm_type: "node".to_string(),
        name: None,
        platform_ref: None,
        ref_ifopt: None,
        lat,
        lon,
        tags: None,
        station_id: None,
        area_id,
    }
}

#[test]
fn platform_on_the_station_coordinate_links_to_it() {
    let mut store = empty_store();
    store.stations.push(station_row(1, e7(48.37), e7(10.89), 1));
    store.platforms.push(platform_row(10, e7(48.37), e7(10.89), 1));
    store.resolve_relations(1);
    assert_eq!(store.platforms[0].station_id, Some(1));
}

#[test]
fn platform_at_the_threshold_is_not_linked() {
    let mut store = empty_store();
    store.stations.push(station_row(1, e7(48.37), e7(10.89), 1));
    // exactly 0.005 degree north: squared distance equals the threshold
    store.platforms.push(platform_row(10, e7(48.37) + 50_000, e7(10.89), 1));
    // just inside
    store.platforms.push(platform_row(11, e7(48.37) + 49_999, e7(10.89), 1));
    store.resolve_relations(1);
    assert_eq!(store.platforms[0].station_id, None);
    assert_eq!(store.platforms[1].station_id, Some(1));
}

#[test]
fn platform_links_only_within_its_area_and_ties_go_to_the_first() {
    let mut store = empty_store();
    store.stations.push(station_row(1, e7(48.37), e7(10.89), 2));
    store.stations.push(station_row(2, e7(48.371), e7(10.89), 1));
    store.stations.push(station_row(3, e7(48.369), e7(10.89), 1));
    store.platforms.push(platform_row(10, e7(48.37), e7(10.89), 1));
    store.resolve_relations(1);
    assert_eq!(store.platforms[0].station_id, Some(2));
}

#[test]
fn fresh_sync_then_query_scenario() {
    // Two stations, each a stop area with two platforms and two stop positions.
    let stations = vec![
        stop_area(100, 48.370, 10.890, vec![
            member("node", 11, "platform"),
            member("node", 12, "platform"),
            member("node", 21, "stop"),
            member("node", 22, "stop"),
        ]),
        stop_area(200, 48.380, 10.900, vec![
            member("node", 13, "platform"),
            member("node", 14, "platform"),
            member("node", 23, "stop"),
            member("node", 24, "stop"),
        ]),
    ];
    let platforms = vec![
        node(11, 48.3700, 10.8900, tags(&[("name", "A1"), ("ref:IFOPT", "de:1:100:1")])),
        node(12, 48.3702, 10.8904, tags(&[("name", "A2")])),
        node(13, 48.3800, 10.9000, tags(&[("name", "B1")])),
        node(14, 48.3802, 10.9004, tags(&[("name", "B2")])),
    ];
    let stop_positions = vec![
        node(21, 48.37001, 10.89001, None),
        node(22, 48.37021, 10.89041, None),
        node(23, 48.38001, 10.90001, None),
        node(24, 48.38021, 10.90041, None),
    ];
    // One route of three ways through both stations.
    let route_response = OverpassResponse {
        elements: vec![
            OsmElement {
                element_type: "relation".to_string(),
                id: 900,
                lat: None,
                lon: None,
                center: None,
                tags: tags(&[("type", "route"), ("route", "tram"), ("ref", "3"), ("colour", "#f00")]),
                nodes: None,
                members: Some(vec![
                    member("node", 21, "stop"),
                    member("way", 501, ""),
                    member("way", 502, ""),
                    member("node", 11, "platform"),
                    member("way", 503, ""),
                    member("node", 23, "stop"),
                ]),
            },
            node(21, 48.37001, 10.89001, None),
            node(23, 48.38001, 10.90001, None),
            node(31, 48.372, 10.892, None),
            node(32, 48.375, 10.895, None),
            node(33, 48.378, 10.898, None),
            OsmElement {
                element_type: "way".to_string(),
                id: 501,
                lat: None,
                lon: None,
                center: None,
                tags: None,
                nodes: Some(vec![21, 31]),
                members: None,
            },
            OsmElement {
                element_type: "way".to_string(),
                id: 502,
                lat: None,
                lon: None,
                center: None,
                tags: None,
                nodes: Some(vec![31, 32]),
                members: None,
            },
            OsmElement {
                element_type: "way".to_string(),
                id: 503,
                lat: None,
                lon: None,
                center: None,
                tags: None,
                nodes: Some(vec![32, 33, 23]),
                members: None,
            },
        ],
    };
    let routes = match parse_routes_response(&route_response) {
        Ok(r) => r,
        Err(_) => panic!("route parsing failed"),
    };
    assert_eq!(routes.len(), 1);
    assert_eq!(routes[0].ref_number.as_deref(), Some("3"));
    assert_eq!(routes[0].color.as_deref(), Some("#f00"));
    assert_eq!(routes[0].route_type, "tram");

    let mut store = empty_store();
    let features = AreaFeatures { stations, platforms, stop_positions, routes };
    let id = match store.sync_area(&area(), features, 1_704_067_200) {
        Ok(id) => id,
        Err(_) => panic!("sync failed"),
    };
    assert_eq!(id, 1);
    assert_eq!(store.areas.len(), 1);
    assert_eq!(store.areas[0].last_synced_at, Some(1_704_067_200));
    assert_eq!(store.stations.len(), 2);
    let station_of: Vec<(i64, Option<i64>)> = store.platforms.iter().map(|p| (p.osm_id, p.station_id)).collect();
    assert_eq!(station_of, vec![(11, Some(100)), (12, Some(100)), (13, Some(200)), (14, Some(200))]);
    assert_eq!(store.platforms[0].ref_ifopt.as_deref(), Some("de:1:100:1"));
    let platform_of: Vec<(i64, Option<i64>)> =
        store.stop_positions.iter().map(|s| (s.osm_id, s.platform_id)).collect();
    assert_eq!(platform_of, vec![(21, Some(11)), (22, Some(12)), (23, Some(13)), (24, Some(14))]);
    let ways: Vec<(i64, i32, usize)> =
        store.route_ways.iter().map(|w| (w.way_osm_id, w.sequence, w.geometry.len())).collect();
    assert_eq!(ways, vec![(501, 1, 2), (502, 2, 2), (503, 4, 3)]);
    let stops: Vec<(i32, Option<i64>, Option<i64>, Option<i64>)> = store
        .route_stops
        .iter()
        .map(|s| (s.sequence, s.stop_position_id, s.platform_id, s.station_id))
        .collect();
    assert_eq!(
        stops,
        vec![(0, Some(21), Some(11), Some(100)), (3, None, None, None), (5, Some(23), Some(13), Some(200))]
    );

    // A second sync replaces the route's ways and stops instead of adding to them.
    let again = AreaFeatures { stations: vec![], platforms: vec![], stop_positions: vec![], routes: parse_routes_response(&route_response).ok().unwrap() };
    assert_eq!(store.sync_area(&area(), again, 1_704_070_800).ok(), Some(1));
    assert_eq!(store.route_ways.len(), 3);
    assert_eq!(store.route_stops.len(), 3);
    assert_eq!(store.areas[0].last_synced_at, Some(1_704_070_800));
}

#[test]
fn stop_area_members_map_to_their_station() {
    let stations = vec![
        stop_area(100, 48.37, 10.89, vec![member("node", 11, "platform"), member("node", 21, "stop"), member("way", 5, "")]),
        node(300, 48.0, 10.0, tags(&[("public_transport", "station")])),
    ];
    let m = extract_station_platform_mappings(&stations);
    assert_eq!(m.get(&11).copied(), Some(100));
    assert_eq!(m.get(&21).copied(), Some(100));
    assert_eq!(m.get(&5).copied(), None);
    assert_eq!(m.len(), 2);
}

#[test]
fn station_without_position_is_not_stored() {
    let mut store = empty_store();
    let mut rel = stop_area(100, 48.37, 10.89, vec![]);
    rel.center = None;
    let features = AreaFeatures { stations: vec![rel], platforms: vec![], stop_positions: vec![], routes: vec![] };
    assert!(store.sync_area(&area(), features, 0).is_ok());
    assert!(store.stations.is_empty());
}

#[test]
fn existing_area_keeps_its_id() {
    let mut store = empty_store();
    let first = store.upsert_area(&area()).ok();
    let mut other = area();
    other.name = "Munich".to_string();
    let second = store.upsert_area(&other).ok();
    let again = store.upsert_area(&area()).ok();
    assert_eq!((first, second, again), (Some(1), Some(2), Some(1)));
}
