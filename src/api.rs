//! Shapes of the read-only views that the HTTP layer serves.
use vstd::prelude::*;

verus! {

pub struct ErrorResponse {
    pub error: String,
}

pub struct AreaStats {
    pub area_id: i64,
    pub area_name: String,
    pub station_count: i64,
    pub platform_count: i64,
    pub stop_position_count: i64,
    pub route_count: i64,
}

/// A data-quality finding of a sync.
pub struct OsmIssue {
    pub kind: String,
    pub subject_id: i64,
    pub message: String,
}

pub struct IssueListResponse {
    pub issues: Vec<OsmIssue>,
    pub count: usize,
}

pub struct Route {
    pub osm_id: i64,
    pub osm_type: String,
    pub name: Option<String>,
    pub route_ref: Option<String>,
    pub route_type: String,
    pub operator: Option<String>,
    pub network: Option<String>,
    pub color: Option<String>,
    pub area_id: Option<i64>,
}

pub struct RouteListResponse {
    pub routes: Vec<Route>,
}

pub struct RouteQuery {
    pub area_id: Option<i64>,
    pub route_type: Option<String>,
}

pub struct RouteStop {
    pub sequence: i64,
    pub role: Option<String>,
    pub stop_position_id: Option<i64>,
    pub platform_id: Option<i64>,
    pub station_id: Option<i64>,
    pub station_name: Option<String>,
}

pub struct RouteDetail {
    pub route: Route,
    pub stops: Vec<RouteStop>,
}

pub struct StationQuery {
    pub area_id: Option<i64>,
}

} // verus!
