use transit_sync::efa::{
    arrivals_url, decimal, departures_url, extract_compact_station_data, serves_trams, station_info_url,
    stop_finder_url, LocationFields,
};
use transit_sync::osm::{classify_status, next_area_sync_attempt, next_overpass_attempt, OsmError, StatusClass};

fn loc(id: Option<&str>, name: Option<&str>, short: Option<&str>, platform: Option<&str>) -> LocationFields {
    LocationFields {
        id: id.map(|s| s.to_string()),
        name: name.map(|s| s.to_string()),
        disassembled_name: short.map(|s| s.to_string()),
        platform_name: platform.map(|s| s.to_string()),
        coord: Some(vec![483_650_000, 108_980_000]),
    }
}

#[test]
fn departures_url_encodes_the_stop() {
    assert_eq!(
        departures_url("de:09761:101", 10, true, true),
        "https://bahnland-bayern.de/efa/XML_DM_REQUEST?mode=direct&name_dm=de%3A09761%3A101&type_dm=stop&depType=stopEvents&outputFormat=rapidJSON&limit=10&useRealtime=1&includedMeans=4"
    );
    assert_eq!(
        departures_url("a b", 7, false, false),
        "https://bahnland-bayern.de/efa/XML_DM_REQUEST?mode=direct&name_dm=a%20b&type_dm=stop&depType=stopEvents&outputFormat=rapidJSON&limit=7"
    );
}

#[test]
fn arrivals_and_station_urls() {
    assert_eq!(
        arrivals_url("x", 30, true, false),
        "https://bahnland-bayern.de/efa/XML_DM_REQUEST?mode=direct&name_dm=x&type_dm=stop&depType=stopEvents&outputFormat=rapidJSON&limit=30&itdDateTimeDepArr=arr&useRealtime=1"
    );
    assert_eq!(
        station_info_url("de:1"),
        "https://bahnland-bayern.de/efa/XML_DM_REQUEST?mode=direct&name_dm=de%3A1&type_dm=stop&depType=stopEvents&outputFormat=rapidJSON&includeCompleteStopSeq=1&useRealtime=1&limit=1&includedMeans=4&coordOutputFormat=EPSG:4326"
    );
    assert_eq!(
        stop_finder_url("Königsplatz", true),
        "https://bahnland-bayern.de/efa/XML_STOPFINDER_REQUEST?outputFormat=rapidJSON&type_sf=any&name_sf=K%C3%B6nigsplatz&anyObjFilter_sf=2&coordOutputFormat=WGS84[DD.ddddd]"
    );
}

#[test]
fn decimal_text_of_numbers() {
    assert_eq!(decimal(0), "0");
    assert_eq!(decimal(10), "10");
    assert_eq!(decimal(4_294_967_295), "4294967295");
}

#[test]
fn compact_station_from_monitor_locations() {
    let locations = vec![loc(Some("de:09761:692:31:a"), Some("Augsburg Rathausplatz"), None, None)];
    let events = vec![
        loc(Some("p1"), None, Some("Bstg. 1"), None),
        loc(Some("p2"), None, None, Some("2")),
        loc(Some("p1"), None, Some("again"), None),
        loc(None, None, Some("no id"), None),
        loc(Some("p3"), None, None, None),
    ];
    let st = extract_compact_station_data(&locations, &events).unwrap();
    assert_eq!(st.station_id, "de:09761:692");
    assert_eq!(st.station_name, "Augsburg Rathausplatz");
    assert_eq!(st.coord, Some(vec![483_650_000, 108_980_000]));
    let ps: Vec<(&str, &str)> = st.platforms.iter().map(|p| (p.id.as_str(), p.name.as_str())).collect();
    assert_eq!(ps, vec![("p1", "Bstg. 1"), ("p2", "2"), ("p3", "Unknown")]);
}

#[test]
fn compact_station_needs_a_named_first_location() {
    assert!(extract_compact_station_data(&vec![], &vec![]).is_none());
    assert!(extract_compact_station_data(&vec![loc(Some("a:b:c"), None, None, None)], &vec![]).is_none());
    assert!(extract_compact_station_data(&vec![loc(None, Some("n"), None, None)], &vec![]).is_none());
}

#[test]
fn tram_stops_have_product_class_four() {
    assert!(serves_trams(&Some(vec![6, 4])));
    assert!(!serves_trams(&Some(vec![6])));
    assert!(!serves_trams(&None));
}

#[test]
fn http_statuses_are_classified() {
    assert_eq!(classify_status(200), StatusClass::Success);
    assert_eq!(classify_status(429), StatusClass::Retryable);
    assert_eq!(classify_status(503), StatusClass::Retryable);
    assert_eq!(classify_status(404), StatusClass::Fatal);
    assert_eq!(classify_status(400), StatusClass::Fatal);
}

#[test]
fn overpass_backoff_doubles_from_five_seconds() {
    let e = OsmError::RetryableError("HTTP 503".to_string());
    assert_eq!(next_overpass_attempt(0, &e), Some(5));
    assert_eq!(next_overpass_attempt(1, &e), Some(10));
    assert_eq!(next_overpass_attempt(2, &e), None);
    assert_eq!(next_overpass_attempt(0, &OsmError::ParseError("x".to_string())), None);
    assert_eq!(next_overpass_attempt(0, &OsmError::HttpError("404".to_string())), None);
}

#[test]
fn area_sync_waits_longer_each_try() {
    assert_eq!(next_area_sync_attempt(1), Some(30));
    assert_eq!(next_area_sync_attempt(4), Some(120));
    assert_eq!(next_area_sync_attempt(5), None);
}
