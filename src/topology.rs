//! The topology tables of the store and the resolution of their cross
//! references: platforms to stations, stop positions to platforms, and route
//! stops to all three. Coordinates are in units of 10^-7 degree.
use vstd::prelude::*;
use vstd::hash_map::HashMapWithView;
use crate::osm::{extract_station_platform_mappings, station_mappings, tag_of, tags_of, AreaFeatures, OsmElement, OsmRoute, RouteStop, RouteWay};
use crate::config::{Area, SyncError};

verus! {

/// Platforms link to a station closer than 0.005 degree (about 500 m).
pub const STATION_LINK_E7: i64 = 50_000;

/// Stop positions link to a platform closer than 0.0005 degree (about 50 m).
pub const PLATFORM_LINK_E7: i64 = 5_000;

pub struct StationRow {
    pub osm_id: i64,
    pub osm_type: String,
    pub name: Option<String>,
    pub ref_ifopt: Option<String>,
    pub lat: i64,
    pub lon: i64,
    pub tags: Option<Vec<(String, String)>>,
    pub area_id: i64,
}

pub struct PlatformRow {
    pub osm_id: i64,
    pub osm_type: String,
    pub name: Option<String>,
    pub platform_ref: Option<String>,
    pub ref_ifopt: Option<String>,
    pub lat: i64,
    pub lon: i64,
    pub tags: Option<Vec<(String, String)>>,
    pub station_id: Option<i64>,
    pub area_id: i64,
}

pub struct StopPositionRow {
    pub osm_id: i64,
    pub osm_type: String,
    pub name: Option<String>,
    pub stop_ref: Option<String>,
    pub ref_ifopt: Option<String>,
    pub lat: i64,
    pub lon: i64,
    pub tags: Option<Vec<(String, String)>>,
    pub station_id: Option<i64>,
    pub platform_id: Option<i64>,
    pub area_id: i64,
}

pub struct RouteRow {
    pub osm_id: i64,
    pub osm_type: String,
    pub name: Option<String>,
    pub route_ref: Option<String>,
    pub route_type: String,
    pub operator: Option<String>,
    pub network: Option<String>,
    pub color: Option<String>,
    pub tags: Vec<(String, String)>,
    pub area_id: i64,
}

pub struct RouteWayRow {
    pub route_id: i64,
    pub way_osm_id: i64,
    pub sequence: i32,
    pub geometry: Vec<crate::geo::GeoPoint>,
}

pub struct RouteStopRow {
    pub route_id: i64,
    pub sequence: i32,
    pub role: String,
    pub stop_position_id: Option<i64>,
    pub platform_id: Option<i64>,
    pub station_id: Option<i64>,
}

pub struct AreaRow {
    pub id: i64,
    pub name: String,
    pub south: i64,
    pub west: i64,
    pub north: i64,
    pub east: i64,
    /// Seconds since the epoch of the last completed sync.
    pub last_synced_at: Option<i64>,
}

/// The persisted topology: one vector per table, rows in insertion order.
pub struct TopologyStore {
    pub areas: Vec<AreaRow>,
    pub stations: Vec<StationRow>,
    pub platforms: Vec<PlatformRow>,
    pub stop_positions: Vec<StopPositionRow>,
    pub routes: Vec<RouteRow>,
    pub route_ways: Vec<RouteWayRow>,
    pub route_stops: Vec<RouteStopRow>,
}

impl TopologyStore {
    /// Every stored coordinate is a valid latitude and longitude.
    pub open spec fn wf(&self) -> bool {
        &&& forall|i: int| 0 <= i < self.stations@.len() ==> coord_ok((#[trigger] self.stations@[i]).lat, self.stations@[i].lon)
        &&& forall|i: int| 0 <= i < self.platforms@.len() ==> coord_ok((#[trigger] self.platforms@[i]).lat, self.platforms@[i].lon)
        &&& forall|i: int| 0 <= i < self.stop_positions@.len() ==> coord_ok(
            (#[trigger] self.stop_positions@[i]).lat,
            self.stop_positions@[i].lon,
        )
    }
}

/// Squared planar distance in squared units of 10^-7 degree.
pub open spec fn sq_dist(lat1: int, lon1: int, lat2: int, lon2: int) -> int {
    (lat1 - lat2) * (lat1 - lat2) + (lon1 - lon2) * (lon1 - lon2)
}

/// A candidate for linking: id, latitude, longitude, area.
pub type Candidate = (i64, i64, i64, i64);

/// Among the first `n` candidates of area `area`, the first nearest one
/// whose squared distance is below `limit`, with that distance.
pub open spec fn nearest(c: Seq<Candidate>, area: i64, lat: int, lon: int, limit: int, n: int) -> Option<(i64, int)>
    decreases n,
{
    if n <= 0 {
        None
    } else {
        let prev = nearest(c, area, lat, lon, limit, n - 1);
        let x = c[n - 1];
        let d = sq_dist(lat, lon, x.1 as int, x.2 as int);
        let nearer = match prev {
            Some(b) => d < b.1,
            None => true,
        };
        if x.3 == area && d < limit && nearer {
            Some((x.0, d))
        } else {
            prev
        }
    }
}

pub open spec fn station_candidates(s: Seq<StationRow>) -> Seq<Candidate> {
    s.map_values(|r: StationRow| (r.osm_id, r.lat, r.lon, r.area_id))
}

pub open spec fn platform_candidates(p: Seq<PlatformRow>) -> Seq<Candidate> {
    p.map_values(|r: PlatformRow| (r.osm_id, r.lat, r.lon, r.area_id))
}

pub open spec fn nearest_id(c: Seq<Candidate>, area: i64, lat: i64, lon: i64, limit: i64) -> Option<i64> {
    match nearest(c, area, lat as int, lon as int, limit * limit, c.len() as int) {
        Some(b) => Some(b.0),
        None => None,
    }
}

/// First pass: an unlinked platform of the area links to its nearest station.
pub open spec fn linked_platform(p: PlatformRow, st: Seq<StationRow>, area: i64) -> PlatformRow {
    if p.area_id == area && p.station_id is None {
        match nearest_id(station_candidates(st), area, p.lat, p.lon, STATION_LINK_E7) {
            Some(s) => PlatformRow { station_id: Some(s), ..p },
            None => p,
        }
    } else {
        p
    }
}

/// Second pass: an unlinked stop position of the area links to its nearest platform.
pub open spec fn linked_stop(s: StopPositionRow, ps: Seq<PlatformRow>, area: i64) -> StopPositionRow {
    if s.area_id == area && s.platform_id is None {
        match nearest_id(platform_candidates(ps), area, s.lat, s.lon, PLATFORM_LINK_E7) {
            Some(p) => StopPositionRow { platform_id: Some(p), ..s },
            None => s,
        }
    } else {
        s
    }
}

/// The first platform row with this id.
pub open spec fn platform_by_id(ps: Seq<PlatformRow>, id: i64) -> Option<PlatformRow>
    decreases ps.len(),
{
    if ps.len() == 0 {
        None
    } else if ps[0].osm_id == id {
        Some(ps[0])
    } else {
        platform_by_id(ps.drop_first(), id)
    }
}

/// The first stop-position row with this id.
pub open spec fn stop_by_id(ss: Seq<StopPositionRow>, id: i64) -> Option<StopPositionRow>
    decreases ss.len(),
{
    if ss.len() == 0 {
        None
    } else if ss[0].osm_id == id {
        Some(ss[0])
    } else {
        stop_by_id(ss.drop_first(), id)
    }
}

/// The station of the platform with this id; none where that platform is unknown.
pub open spec fn station_of_platform(ps: Seq<PlatformRow>, id: i64) -> Option<i64> {
    match platform_by_id(ps, id) {
        Some(p) => p.station_id,
        None => None,
    }
}

/// Third pass: a stop position of the area without a station takes its platform's.
pub open spec fn propagated_stop(s: StopPositionRow, ps: Seq<PlatformRow>, area: i64) -> StopPositionRow {
    if s.area_id == area && s.station_id is None && s.platform_id is Some {
        StopPositionRow { station_id: station_of_platform(ps, s.platform_id->0), ..s }
    } else {
        s
    }
}

pub open spec fn route_in_area(rs: Seq<RouteRow>, route_id: i64, area: i64) -> bool {
    exists|i: int| 0 <= i < rs.len() && (#[trigger] rs[i]).osm_id == route_id && rs[i].area_id == area
}

/// Fourth and fifth passes on a route stop of the area: take platform and
/// station from its stop position; failing a platform, treat the id as a
/// platform's where one has it.
pub open spec fn resolved_route_stop(
    r: RouteStopRow,
    routes: Seq<RouteRow>,
    ss: Seq<StopPositionRow>,
    ps: Seq<PlatformRow>,
    area: i64,
) -> RouteStopRow {
    if route_in_area(routes, r.route_id, area) {
        let (pl, st) = match r.stop_position_id {
            Some(id) => match stop_by_id(ss, id) {
                Some(s) => (s.platform_id, s.station_id),
                None => (None, None),
            },
            None => (None, None),
        };
        if pl is None && (r.stop_position_id matches Some(id) && platform_by_id(ps, id) is Some) {
            RouteStopRow {
                platform_id: r.stop_position_id,
                station_id: station_of_platform(ps, r.stop_position_id->0),
                ..r
            }
        } else {
            RouteStopRow { platform_id: pl, station_id: st, ..r }
        }
    } else {
        r
    }
}

/// A latitude within +-90 degrees and a longitude within +-180 degrees.
pub open spec fn coord_ok(lat: i64, lon: i64) -> bool {
    -900_000_000 <= lat <= 900_000_000 && -1_800_000_000 <= lon <= 1_800_000_000
}

pub open spec fn candidates_ok(c: Seq<Candidate>) -> bool {
    forall|i: int| 0 <= i < c.len() ==> coord_ok((#[trigger] c[i]).1, c[i].2)
}

fn sq_dist_exec(lat1: i64, lon1: i64, lat2: i64, lon2: i64) -> (r: i128)
    requires
        coord_ok(lat1, lon1),
        coord_ok(lat2, lon2),
    ensures
        r == sq_dist(lat1 as int, lon1 as int, lat2 as int, lon2 as int),
{
    let a: i128 = lat1 as i128 - lat2 as i128;
    let b: i128 = lon1 as i128 - lon2 as i128;
    assert(a * a <= 4_000_000_000 * 4_000_000_000) by (nonlinear_arith)
        requires
            -4_000_000_000 <= a <= 4_000_000_000,
    ;
    assert(b * b <= 4_000_000_000 * 4_000_000_000) by (nonlinear_arith)
        requires
            -4_000_000_000 <= b <= 4_000_000_000,
    ;
    assert(a * a >= 0) by (nonlinear_arith);
    assert(b * b >= 0) by (nonlinear_arith);
    a * a + b * b
}

fn nearest_exec(c: &Vec<Candidate>, area: i64, lat: i64, lon: i64, limit: i64) -> (r: Option<i64>)
    requires
        candidates_ok(c@),
        coord_ok(lat, lon),
        0 <= limit <= 1_000_000_000,
    ensures
        r == nearest_id(c@, area, lat, lon, limit),
{
    assert(limit * limit <= 1_000_000_000 * 1_000_000_000) by (nonlinear_arith)
        requires
            0 <= limit <= 1_000_000_000,
    ;
    let lim: i128 = limit as i128 * limit as i128;
    let mut best: Option<(i64, i128)> = None;
    let mut k: usize = 0;
    while k < c.len()
        invariant
            k <= c@.len(),
            candidates_ok(c@),
            coord_ok(lat, lon),
            lim == limit * limit,
            match best {
                Some(b) => nearest(c@, area, lat as int, lon as int, lim as int, k as int) == Some(
                    (b.0, b.1 as int),
                ),
                None => nearest(c@, area, lat as int, lon as int, lim as int, k as int) is None,
            },
        decreases c@.len() - k,
    {
        let x = c[k];
        let d = sq_dist_exec(lat, lon, x.1, x.2);
        let nearer = match best {
            Some(b) => d < b.1,
            None => true,
        };
        if x.3 == area && d < lim && nearer {
            best = Some((x.0, d));
        }
        k = k + 1;
    }
    match best {
        Some(b) => Some(b.0),
        None => None,
    }
}

fn station_candidates_exec(s: &Vec<StationRow>) -> (r: Vec<Candidate>)
    ensures
        r@ == station_candidates(s@),
{
    let mut r: Vec<Candidate> = Vec::new();
    let mut k: usize = 0;
    while k < s.len()
        invariant
            k <= s@.len(),
            r@ == station_candidates(s@.subrange(0, k as int)),
        decreases s@.len() - k,
    {
        r.push((s[k].osm_id, s[k].lat, s[k].lon, s[k].area_id));
        k = k + 1;
        assert(r@ =~= station_candidates(s@.subrange(0, k as int)));
    }
    assert(s@.subrange(0, k as int) =~= s@);
    r
}

fn platform_candidates_exec(p: &Vec<PlatformRow>) -> (r: Vec<Candidate>)
    ensures
        r@ == platform_candidates(p@),
{
    let mut r: Vec<Candidate> = Vec::new();
    let mut k: usize = 0;
    while k < p.len()
        invariant
            k <= p@.len(),
            r@ == platform_candidates(p@.subrange(0, k as int)),
        decreases p@.len() - k,
    {
        r.push((p[k].osm_id, p[k].lat, p[k].lon, p[k].area_id));
        k = k + 1;
        assert(r@ =~= platform_candidates(p@.subrange(0, k as int)));
    }
    assert(p@.subrange(0, k as int) =~= p@);
    r
}

fn platform_index(ps: &Vec<PlatformRow>, id: i64) -> (r: Option<usize>)
    ensures
        match r {
            Some(i) => i < ps@.len() && platform_by_id(ps@, id) == Some(ps@[i as int]),
            None => platform_by_id(ps@, id) is None,
        },
{
    let n = ps.len();
    let mut i: usize = 0;
    assert(ps@.subrange(0, n as int) =~= ps@);
    while i < n
        invariant
            n == ps@.len(),
            i <= n,
            platform_by_id(ps@, id) == platform_by_id(ps@.subrange(i as int, n as int), id),
        decreases n - i,
    {
        let ghost rest = ps@.subrange(i as int, n as int);
        assert(rest.drop_first() =~= ps@.subrange(i + 1, n as int));
        assert(rest[0] == ps@[i as int]);
        if ps[i].osm_id == id {
            return Some(i);
        }
        i = i + 1;
    }
    None
}

fn stop_index(ss: &Vec<StopPositionRow>, id: i64) -> (r: Option<usize>)
    ensures
        match r {
            Some(i) => i < ss@.len() && stop_by_id(ss@, id) == Some(ss@[i as int]),
            None => stop_by_id(ss@, id) is None,
        },
{
    let n = ss.len();
    let mut i: usize = 0;
    assert(ss@.subrange(0, n as int) =~= ss@);
    while i < n
        invariant
            n == ss@.len(),
            i <= n,
            stop_by_id(ss@, id) == stop_by_id(ss@.subrange(i as int, n as int), id),
        decreases n - i,
    {
        let ghost rest = ss@.subrange(i as int, n as int);
        assert(rest.drop_first() =~= ss@.subrange(i + 1, n as int));
        assert(rest[0] == ss@[i as int]);
        if ss[i].osm_id == id {
            return Some(i);
        }
        i = i + 1;
    }
    None
}

fn station_of_platform_exec(ps: &Vec<PlatformRow>, id: i64) -> (r: Option<i64>)
    ensures
        r == station_of_platform(ps@, id),
{
    match platform_index(ps, id) {
        Some(i) => ps[i].station_id,
        None => None,
    }
}

fn route_in_area_exec(rs: &Vec<RouteRow>, route_id: i64, area: i64) -> (r: bool)
    ensures
        r == route_in_area(rs@, route_id, area),
{
    let mut i: usize = 0;
    while i < rs.len()
        invariant
            i <= rs@.len(),
            forall|j: int| 0 <= j < i ==> !((#[trigger] rs@[j]).osm_id == route_id && rs@[j].area_id == area),
        decreases rs@.len() - i,
    {
        if rs[i].osm_id == route_id && rs[i].area_id == area {
            return true;
        }
        i = i + 1;
    }
    false
}

impl TopologyStore {
    /// First pass of the resolution.
    fn link_platforms(&mut self, area_id: i64)
        requires
            old(self).wf(),
        ensures
            final(self).platforms@.len() == old(self).platforms@.len(),
            forall|i: int|
                0 <= i < old(self).platforms@.len() ==> #[trigger] final(self).platforms@[i] == linked_platform(
                    old(self).platforms@[i],
                    old(self).stations@,
                    area_id,
                ),
            final(self).areas == old(self).areas,
            final(self).stations == old(self).stations,
            final(self).stop_positions == old(self).stop_positions,
            final(self).routes == old(self).routes,
            final(self).route_ways == old(self).route_ways,
            final(self).route_stops == old(self).route_stops,
    {
        let cands = station_candidates_exec(&self.stations);
        assert(candidates_ok(cands@)) by {
            assert forall|i: int| 0 <= i < cands@.len() implies coord_ok((#[trigger] cands@[i]).1, cands@[i].2) by {
                assert(cands@[i] == (self.stations@[i].osm_id, self.stations@[i].lat, self.stations@[i].lon, self.stations@[i].area_id));
            }
        }
        let n = self.platforms.len();
        let mut i: usize = 0;
        while i < n
            invariant
                n == self.platforms@.len(),
                n == old(self).platforms@.len(),
                i <= n,
                cands@ == station_candidates(old(self).stations@),
                candidates_ok(cands@),
                old(self).wf(),
                forall|j: int|
                    0 <= j < i ==> #[trigger] self.platforms@[j] == linked_platform(
                        old(self).platforms@[j],
                        old(self).stations@,
                        area_id,
                    ),
                forall|j: int| i <= j < n ==> #[trigger] self.platforms@[j] == old(self).platforms@[j],
                self.areas == old(self).areas,
                self.stations == old(self).stations,
                self.stop_positions == old(self).stop_positions,
                self.routes == old(self).routes,
                self.route_ways == old(self).route_ways,
                self.route_stops == old(self).route_stops,
            decreases n - i,
        {
            if self.platforms[i].area_id == area_id && self.platforms[i].station_id.is_none() {
                let found = nearest_exec(&cands, area_id, self.platforms[i].lat, self.platforms[i].lon, STATION_LINK_E7);
                if let Some(s) = found {
                    self.platforms[i].station_id = Some(s);
                }
            }
            i = i + 1;
        }
    }

    /// Second and third passes of the resolution.
    fn link_stop_positions(&mut self, area_id: i64)
        requires
            old(self).wf(),
        ensures
            final(self).stop_positions@.len() == old(self).stop_positions@.len(),
            forall|i: int|
                0 <= i < old(self).stop_positions@.len() ==> #[trigger] final(self).stop_positions@[i]
                    == propagated_stop(
                    linked_stop(old(self).stop_positions@[i], old(self).platforms@, area_id),
                    old(self).platforms@,
                    area_id,
                ),
            final(self).areas == old(self).areas,
            final(self).stations == old(self).stations,
            final(self).platforms == old(self).platforms,
            final(self).routes == old(self).routes,
            final(self).route_ways == old(self).route_ways,
            final(self).route_stops == old(self).route_stops,
    {
        let cands = platform_candidates_exec(&self.platforms);
        assert(candidates_ok(cands@)) by {
            assert forall|i: int| 0 <= i < cands@.len() implies coord_ok((#[trigger] cands@[i]).1, cands@[i].2) by {
                assert(cands@[i] == (self.platforms@[i].osm_id, self.platforms@[i].lat, self.platforms@[i].lon, self.platforms@[i].area_id));
            }
        }
        let n = self.stop_positions.len();
        let mut i: usize = 0;
        while i < n
            invariant
                n == self.stop_positions@.len(),
                n == old(self).stop_positions@.len(),
                i <= n,
                cands@ == platform_candidates(old(self).platforms@),
                candidates_ok(cands@),
                old(self).wf(),
                forall|j: int|
                    0 <= j < i ==> #[trigger] self.stop_positions@[j] == propagated_stop(
                        linked_stop(old(self).stop_positions@[j], old(self).platforms@, area_id),
                        old(self).platforms@,
                        area_id,
                    ),
                forall|j: int| i <= j < n ==> #[trigger] self.stop_positions@[j] == old(self).stop_positions@[j],
                self.areas == old(self).areas,
                self.stations == old(self).stations,
                self.platforms == old(self).platforms,
                self.routes == old(self).routes,
                self.route_ways == old(self).route_ways,
                self.route_stops == old(self).route_stops,
            decreases n - i,
        {
            if self.stop_positions[i].area_id == area_id && self.stop_positions[i].platform_id.is_none() {
                let found = nearest_exec(
                    &cands,
                    area_id,
                    self.stop_positions[i].lat,
                    self.stop_positions[i].lon,
                    PLATFORM_LINK_E7,
                );
                if let Some(p) = found {
                    self.stop_positions[i].platform_id = Some(p);
                }
            }
            if self.stop_positions[i].area_id == area_id && self.stop_positions[i].station_id.is_none() {
                if let Some(p) = self.stop_positions[i].platform_id {
                    let s = station_of_platform_exec(&self.platforms, p);
                    self.stop_positions[i].station_id = s;
                }
            }
            i = i + 1;
        }
    }

    /// Fourth and fifth passes of the resolution.
    fn resolve_route_stops(&mut self, area_id: i64)
        ensures
            final(self).route_stops@.len() == old(self).route_stops@.len(),
            forall|i: int|
                0 <= i < old(self).route_stops@.len() ==> #[trigger] final(self).route_stops@[i]
                    == resolved_route_stop(
                    old(self).route_stops@[i],
                    old(self).routes@,
                    old(self).stop_positions@,
                    old(self).platforms@,
                    area_id,
                ),
            final(self).areas == old(self).areas,
            final(self).stations == old(self).stations,
            final(self).platforms == old(self).platforms,
            final(self).stop_positions == old(self).stop_positions,
            final(self).routes == old(self).routes,
            final(self).route_ways == old(self).route_ways,
    {
        let n = self.route_stops.len();
        let mut i: usize = 0;
        while i < n
            invariant
                n == self.route_stops@.len(),
                n == old(self).route_stops@.len(),
                i <= n,
                forall|j: int|
                    0 <= j < i ==> #[trigger] self.route_stops@[j] == resolved_route_stop(
                        old(self).route_stops@[j],
                        old(self).routes@,
                        old(self).stop_positions@,
                        old(self).platforms@,
                        area_id,
                    ),
                forall|j: int| i <= j < n ==> #[trigger] self.route_stops@[j] == old(self).route_stops@[j],
                self.areas == old(self).areas,
                self.stations == old(self).stations,
                self.platforms == old(self).platforms,
                self.stop_positions == old(self).stop_positions,
                self.routes == old(self).routes,
                self.route_ways == old(self).route_ways,
            decreases n - i,
        {
            if route_in_area_exec(&self.routes, self.route_stops[i].route_id, area_id) {
                let (pl, st) = match self.route_stops[i].stop_position_id {
                    Some(id) => match stop_index(&self.stop_positions, id) {
                        Some(k) => (self.stop_positions[k].platform_id, self.stop_positions[k].station_id),
                        None => (None, None),
                    },
                    None => (None, None),
                };
                let direct = match self.route_stops[i].stop_position_id {
                    Some(id) => pl.is_none() && platform_index(&self.platforms, id).is_some(),
                    None => false,
                };
                if direct {
                    let id = self.route_stops[i].stop_position_id.unwrap();
                    let s = station_of_platform_exec(&self.platforms, id);
                    self.route_stops[i].platform_id = Some(id);
                    self.route_stops[i].station_id = s;
                } else {
                    self.route_stops[i].platform_id = pl;
                    self.route_stops[i].station_id = st;
                }
            }
            i = i + 1;
        }
    }

    /// Resolves the cross references of one area in order: platforms without
    /// a station link to the nearest station of the area closer than 0.005
    /// degree; stop positions without a platform link to the nearest platform
    /// of the area closer than 0.0005 degree; stop positions without a station
    /// take their platform's; route stops of the area's routes take platform
    /// and station from their stop position, or, failing a platform, from the
    /// platform whose id they hold.
    pub fn resolve_relations(&mut self, area_id: i64)
        requires
            old(self).wf(),
        ensures
            final(self).wf(),
            final(self).areas == old(self).areas,
            resolved(*old(self), *final(self), area_id),
    {
        let ghost s0 = *self;
        self.link_platforms(area_id);
        let ghost s1 = *self;
        self.link_stop_positions(area_id);
        self.resolve_route_stops(area_id);
        proof {
            assert(self.platforms@ == s1.platforms@);
        }
    }
}

/// `s1` is `s0` after the resolution of `area`.
pub open spec fn resolved(s0: TopologyStore, s1: TopologyStore, area: i64) -> bool {
    let ps = s1.platforms@;
    &&& s1.stations == s0.stations
    &&& s1.routes == s0.routes
    &&& s1.route_ways == s0.route_ways
    &&& ps.len() == s0.platforms@.len()
    &&& forall|i: int|
        0 <= i < ps.len() ==> #[trigger] ps[i] == linked_platform(s0.platforms@[i], s0.stations@, area)
    &&& s1.stop_positions@.len() == s0.stop_positions@.len()
    &&& forall|i: int|
        0 <= i < s1.stop_positions@.len() ==> #[trigger] s1.stop_positions@[i] == propagated_stop(
            linked_stop(s0.stop_positions@[i], ps, area),
            ps,
            area,
        )
    &&& s1.route_stops@.len() == s0.route_stops@.len()
    &&& forall|i: int|
        0 <= i < s1.route_stops@.len() ==> #[trigger] s1.route_stops@[i] == resolved_route_stop(
            s0.route_stops@[i],
            s0.routes@,
            s1.stop_positions@,
            ps,
            area,
        )
}

proof fn lemma_nearest_is_candidate(c: Seq<Candidate>, area: i64, lat: int, lon: int, limit: int, n: int)
    requires
        n <= c.len(),
    ensures
        nearest(c, area, lat, lon, limit, n) matches Some(b) ==> exists|j: int|
            0 <= j < n && (#[trigger] c[j]).0 == b.0 && c[j].3 == area,
    decreases n,
{
    if n > 0 {
        lemma_nearest_is_candidate(c, area, lat, lon, limit, n - 1);
    }
}

/// Every platform's station, where it has one, is a stored station of the
/// platform's area.
pub open spec fn platforms_reference_stations(s: TopologyStore) -> bool {
    forall|i: int|
        0 <= i < s.platforms@.len() && (#[trigger] s.platforms@[i]).station_id is Some ==> exists|j: int|
            0 <= j < s.stations@.len() && (#[trigger] s.stations@[j]).osm_id == s.platforms@[i].station_id->0
                && s.stations@[j].area_id == s.platforms@[i].area_id
}

/// Every stop position's platform, where it has one, is a stored platform.
pub open spec fn stops_reference_platforms(s: TopologyStore) -> bool {
    forall|i: int|
        0 <= i < s.stop_positions@.len() && (#[trigger] s.stop_positions@[i]).platform_id is Some ==> exists|j: int|
            0 <= j < s.platforms@.len() && (#[trigger] s.platforms@[j]).osm_id
                == s.stop_positions@[i].platform_id->0
}

/// Resolution links platforms only to stations of their own area: where every
/// platform's station was a stored station of its area before, so it is after.
pub proof fn lemma_resolution_keeps_station_links(s0: TopologyStore, s1: TopologyStore, area: i64)
    requires
        resolved(s0, s1, area),
        platforms_reference_stations(s0),
    ensures
        platforms_reference_stations(s1),
{
    let c = station_candidates(s0.stations@);
    assert forall|i: int|
        0 <= i < s1.platforms@.len() && (#[trigger] s1.platforms@[i]).station_id is Some implies exists|j: int|
            0 <= j < s1.stations@.len() && (#[trigger] s1.stations@[j]).osm_id == s1.platforms@[i].station_id->0
                && s1.stations@[j].area_id == s1.platforms@[i].area_id by {
        let p0 = s0.platforms@[i];
        let p1 = s1.platforms@[i];
        assert(p1 == linked_platform(p0, s0.stations@, area));
        if p0.station_id is None {
            lemma_nearest_is_candidate(
                c,
                area,
                p0.lat as int,
                p0.lon as int,
                STATION_LINK_E7 * STATION_LINK_E7,
                c.len() as int,
            );
            let j = choose|j: int| 0 <= j < c.len() && (#[trigger] c[j]).0 == p1.station_id->0 && c[j].3 == area;
            assert(s1.stations@[j].osm_id == p1.station_id->0);
        } else {
            assert(s0.platforms@[i].station_id is Some);
        }
    }
}

/// Resolution links stop positions only to stored platforms, and a stop
/// position of the area that had no station takes the station of the platform
/// it is linked to.
pub proof fn lemma_resolution_keeps_platform_links(s0: TopologyStore, s1: TopologyStore, area: i64)
    requires
        resolved(s0, s1, area),
        stops_reference_platforms(s0),
    ensures
        stops_reference_platforms(s1),
        forall|i: int|
            0 <= i < s1.stop_positions@.len() && (#[trigger] s0.stop_positions@[i]).area_id == area
                && s0.stop_positions@[i].station_id is None && s1.stop_positions@[i].platform_id is Some
                ==> s1.stop_positions@[i].station_id == station_of_platform(
                s1.platforms@,
                s1.stop_positions@[i].platform_id->0,
            ),
{
    let ps = s1.platforms@;
    let c = platform_candidates(ps);
    assert forall|i: int|
        0 <= i < s1.stop_positions@.len() && (#[trigger] s1.stop_positions@[i]).platform_id is Some implies exists|j: int|
            0 <= j < s1.platforms@.len() && (#[trigger] s1.platforms@[j]).osm_id
                == s1.stop_positions@[i].platform_id->0 by {
        let q0 = s0.stop_positions@[i];
        let q1 = s1.stop_positions@[i];
        if q0.platform_id is None {
            lemma_nearest_is_candidate(
                c,
                area,
                q0.lat as int,
                q0.lon as int,
                PLATFORM_LINK_E7 * PLATFORM_LINK_E7,
                c.len() as int,
            );
            let j = choose|j: int| 0 <= j < c.len() && (#[trigger] c[j]).0 == q1.platform_id->0 && c[j].3 == area;
            assert(ps[j].osm_id == q1.platform_id->0);
        } else {
            assert(s0.stop_positions@[i].platform_id is Some);
            let j = choose|j: int|
                0 <= j < s0.platforms@.len() && (#[trigger] s0.platforms@[j]).osm_id == q0.platform_id->0;
            assert(ps[j] == linked_platform(s0.platforms@[j], s0.stations@, area));
            assert(ps[j].osm_id == q1.platform_id->0);
        }
    }
}

/// The vector in reverse order, so that popping yields the elements front to back.
fn reversed<T>(v: Vec<T>) -> (r: Vec<T>)
    ensures
        r@ == v@.reverse(),
{
    let ghost v0 = v@;
    let mut v = v;
    let mut r: Vec<T> = Vec::new();
    while v.len() > 0
        invariant
            v@ == v0.subrange(0, v@.len() as int),
            r@ == v0.subrange(v@.len() as int, v0.len() as int).reverse(),
            v@.len() <= v0.len(),
        decreases v@.len(),
    {
        let ghost n = v@.len();
        let x = v.pop().unwrap();
        r.push(x);
        assert(v@ =~= v0.subrange(0, n - 1));
        assert(r@ =~= v0.subrange(n - 1, v0.len() as int).reverse());
    }
    assert(v0.subrange(0, v0.len() as int) =~= v0);
    r
}

pub open spec fn lat_of(e: OsmElement) -> Option<i64> {
    match e.lat {
        Some(l) => Some(l),
        None => match e.center {
            Some(c) => Some(c.lat),
            None => None,
        },
    }
}

pub open spec fn lon_of(e: OsmElement) -> Option<i64> {
    match e.lon {
        Some(l) => Some(l),
        None => match e.center {
            Some(c) => Some(c.lon),
            None => None,
        },
    }
}

/// Every element's coordinates, where it has them, are valid.
pub open spec fn elements_ok(es: Seq<OsmElement>) -> bool {
    forall|i: int|
        0 <= i < es.len() && lat_of(#[trigger] es[i]) is Some && lon_of(es[i]) is Some ==> coord_ok(
            lat_of(es[i])->0,
            lon_of(es[i])->0,
        )
}

/// The station row of an element, where it has a position.
pub open spec fn station_row(e: OsmElement, area: i64) -> Option<StationRow> {
    match (lat_of(e), lon_of(e)) {
        (Some(lat), Some(lon)) => Some(
            StationRow {
                osm_id: e.id,
                osm_type: e.element_type,
                name: tag_of(tags_of(e), "name"@),
                ref_ifopt: tag_of(tags_of(e), "ref:IFOPT"@),
                lat,
                lon,
                tags: e.tags,
                area_id: area,
            },
        ),
        _ => None,
    }
}

pub open spec fn station_index(t: Seq<StationRow>, id: i64, i: int) -> Option<int>
    decreases t.len() - i,
{
    if i < 0 || i >= t.len() {
        None
    } else if t[i].osm_id == id {
        Some(i)
    } else {
        station_index(t, id, i + 1)
    }
}

/// Insert, or replace the row with the same id.
pub open spec fn upsert_station(t: Seq<StationRow>, r: StationRow) -> Seq<StationRow> {
    match station_index(t, r.osm_id, 0) {
        Some(i) => t.update(i, r),
        None => t.push(r),
    }
}

pub open spec fn stored_stations(t: Seq<StationRow>, es: Seq<OsmElement>, area: i64) -> Seq<StationRow>
    decreases es.len(),
{
    if es.len() == 0 {
        t
    } else {
        let prev = stored_stations(t, es.drop_last(), area);
        match station_row(es.last(), area) {
            Some(r) => upsert_station(prev, r),
            None => prev,
        }
    }
}

fn take_tag(tags: &Option<Vec<(String, String)>>, key: &str) -> (r: Option<String>)
    ensures
        r == tag_of(
            match tags {
                Some(t) => t@,
                None => Seq::empty(),
            },
            key@,
        ),
{
    match tags {
        Some(t) => match crate::osm::find_tag(t, key) {
            Some(v) => Some(v.clone()),
            None => None,
        },
        None => None,
    }
}

fn find_station_row(t: &Vec<StationRow>, id: i64) -> (r: Option<usize>)
    ensures
        match r {
            Some(i) => station_index(t@, id, 0) == Some(i as int) && i < t@.len(),
            None => station_index(t@, id, 0) is None,
        },
{
    let mut i: usize = 0;
    while i < t.len()
        invariant
            i <= t@.len(),
            station_index(t@, id, 0) == station_index(t@, id, i as int),
        decreases t@.len() - i,
    {
        if t[i].osm_id == id {
            return Some(i);
        }
        i = i + 1;
    }
    None
}

impl TopologyStore {
    /// Upserts every station that has a position; elements without one are skipped.
    pub fn store_stations(&mut self, stations: Vec<OsmElement>, area_id: i64)
        requires
            old(self).wf(),
            elements_ok(stations@),
        ensures
            final(self).wf(),
            final(self).stations@ == stored_stations(old(self).stations@, stations@, area_id),
            final(self).areas == old(self).areas,
            final(self).platforms == old(self).platforms,
            final(self).stop_positions == old(self).stop_positions,
            final(self).routes == old(self).routes,
            final(self).route_ways == old(self).route_ways,
            final(self).route_stops == old(self).route_stops,
    {
        let ghost es = stations@;
        let n = stations.len();
        let mut stack = reversed(stations);
        let mut k: usize = 0;
        while k < n
            invariant
                n == es.len(),
                k <= n,
                stack@ == es.subrange(k as int, n as int).reverse(),
                elements_ok(es),
                self.wf(),
                self.stations@ == stored_stations(old(self).stations@, es.subrange(0, k as int), area_id),
                self.areas == old(self).areas,
                self.platforms == old(self).platforms,
                self.stop_positions == old(self).stop_positions,
                self.routes == old(self).routes,
                self.route_ways == old(self).route_ways,
                self.route_stops == old(self).route_stops,
            decreases n - k,
        {
            let ghost after = es.subrange(0, k + 1);
            assert(after.drop_last() =~= es.subrange(0, k as int));
            assert(stack@.last() == es[k as int]);
            let e = stack.pop().unwrap();
            assert(stack@ =~= es.subrange(k + 1, n as int).reverse());
            let lat = match e.lat {
                Some(l) => Some(l),
                None => match &e.center {
                    Some(c) => Some(c.lat),
                    None => None,
                },
            };
            let lon = match e.lon {
                Some(l) => Some(l),
                None => match &e.center {
                    Some(c) => Some(c.lon),
                    None => None,
                },
            };
            if let (Some(lat), Some(lon)) = (lat, lon) {
                assert(coord_ok(lat, lon)) by {
                    assert(es[k as int] == e);
                }
                let name = take_tag(&e.tags, "name");
                let ref_ifopt = take_tag(&e.tags, "ref:IFOPT");
                let row = StationRow {
                    osm_id: e.id,
                    osm_type: e.element_type,
                    name,
                    ref_ifopt,
                    lat,
                    lon,
                    tags: e.tags,
                    area_id,
                };
                match find_station_row(&self.stations, row.osm_id) {
                    Some(i) => {
                        self.stations.set(i, row);
                    },
                    None => {
                        self.stations.push(row);
                    },
                }
            }
            k = k + 1;
        }
        assert(es.subrange(0, n as int) =~= es);
    }
}

pub open spec fn mapped_station(m: Map<i64, i64>, id: i64) -> Option<i64> {
    if m.contains_key(id) {
        Some(m[id])
    } else {
        None
    }
}

/// The platform row of an element, where it has a position; its station
/// comes from the stop-area mapping.
pub open spec fn platform_row(e: OsmElement, area: i64, m: Map<i64, i64>) -> Option<PlatformRow> {
    match (lat_of(e), lon_of(e)) {
        (Some(lat), Some(lon)) => Some(
            PlatformRow {
                osm_id: e.id,
                osm_type: e.element_type,
                name: tag_of(tags_of(e), "name"@),
                platform_ref: tag_of(tags_of(e), "ref"@),
                ref_ifopt: tag_of(tags_of(e), "ref:IFOPT"@),
                lat,
                lon,
                tags: e.tags,
                station_id: mapped_station(m, e.id),
                area_id: area,
            },
        ),
        _ => None,
    }
}

pub open spec fn platform_index_from(t: Seq<PlatformRow>, id: i64, i: int) -> Option<int>
    decreases t.len() - i,
{
    if i < 0 || i >= t.len() {
        None
    } else if t[i].osm_id == id {
        Some(i)
    } else {
        platform_index_from(t, id, i + 1)
    }
}

/// Insert, or replace the row with the same id keeping its station where the
/// new row has none.
pub open spec fn upsert_platform(t: Seq<PlatformRow>, r: PlatformRow) -> Seq<PlatformRow> {
    match platform_index_from(t, r.osm_id, 0) {
        Some(i) => t.update(
            i,
            PlatformRow {
                station_id: if r.station_id is Some {
                    r.station_id
                } else {
                    t[i].station_id
                },
                ..r
            },
        ),
        None => t.push(r),
    }
}

pub open spec fn stored_platforms(t: Seq<PlatformRow>, es: Seq<OsmElement>, area: i64, m: Map<i64, i64>) -> Seq<
    PlatformRow,
>
    decreases es.len(),
{
    if es.len() == 0 {
        t
    } else {
        let prev = stored_platforms(t, es.drop_last(), area, m);
        match platform_row(es.last(), area, m) {
            Some(r) => upsert_platform(prev, r),
            None => prev,
        }
    }
}

/// The stop-position row of an element, where it has a position; its station
/// comes from the stop-area mapping, and it has no platform yet.
pub open spec fn stop_row(e: OsmElement, area: i64, m: Map<i64, i64>) -> Option<StopPositionRow> {
    match (lat_of(e), lon_of(e)) {
        (Some(lat), Some(lon)) => Some(
            StopPositionRow {
                osm_id: e.id,
                osm_type: e.element_type,
                name: tag_of(tags_of(e), "name"@),
                stop_ref: tag_of(tags_of(e), "ref"@),
                ref_ifopt: tag_of(tags_of(e), "ref:IFOPT"@),
                lat,
                lon,
                tags: e.tags,
                station_id: mapped_station(m, e.id),
                platform_id: None,
                area_id: area,
            },
        ),
        _ => None,
    }
}

pub open spec fn stop_index_from(t: Seq<StopPositionRow>, id: i64, i: int) -> Option<int>
    decreases t.len() - i,
{
    if i < 0 || i >= t.len() {
        None
    } else if t[i].osm_id == id {
        Some(i)
    } else {
        stop_index_from(t, id, i + 1)
    }
}

/// Insert, or replace the row with the same id keeping its platform, and its
/// station where the new row has none.
pub open spec fn upsert_stop(t: Seq<StopPositionRow>, r: StopPositionRow) -> Seq<StopPositionRow> {
    match stop_index_from(t, r.osm_id, 0) {
        Some(i) => t.update(
            i,
            StopPositionRow {
                station_id: if r.station_id is Some {
                    r.station_id
                } else {
                    t[i].station_id
                },
                platform_id: t[i].platform_id,
                ..r
            },
        ),
        None => t.push(r),
    }
}

pub open spec fn stored_stops(t: Seq<StopPositionRow>, es: Seq<OsmElement>, area: i64, m: Map<i64, i64>) -> Seq<
    StopPositionRow,
>
    decreases es.len(),
{
    if es.len() == 0 {
        t
    } else {
        let prev = stored_stops(t, es.drop_last(), area, m);
        match stop_row(es.last(), area, m) {
            Some(r) => upsert_stop(prev, r),
            None => prev,
        }
    }
}

fn find_platform_row(t: &Vec<PlatformRow>, id: i64) -> (r: Option<usize>)
    ensures
        match r {
            Some(i) => platform_index_from(t@, id, 0) == Some(i as int) && i < t@.len(),
            None => platform_index_from(t@, id, 0) is None,
        },
{
    let mut i: usize = 0;
    while i < t.len()
        invariant
            i <= t@.len(),
            platform_index_from(t@, id, 0) == platform_index_from(t@, id, i as int),
        decreases t@.len() - i,
    {
        if t[i].osm_id == id {
            return Some(i);
        }
        i = i + 1;
    }
    None
}

fn find_stop_row(t: &Vec<StopPositionRow>, id: i64) -> (r: Option<usize>)
    ensures
        match r {
            Some(i) => stop_index_from(t@, id, 0) == Some(i as int) && i < t@.len(),
            None => stop_index_from(t@, id, 0) is None,
        },
{
    let mut i: usize = 0;
    while i < t.len()
        invariant
            i <= t@.len(),
            stop_index_from(t@, id, 0) == stop_index_from(t@, id, i as int),
        decreases t@.len() - i,
    {
        if t[i].osm_id == id {
            return Some(i);
        }
        i = i + 1;
    }
    None
}

fn element_position(e: &OsmElement) -> (r: (Option<i64>, Option<i64>))
    ensures
        r == (lat_of(*e), lon_of(*e)),
{
    let lat = match e.lat {
        Some(l) => Some(l),
        None => match &e.center {
            Some(c) => Some(c.lat),
            None => None,
        },
    };
    let lon = match e.lon {
        Some(l) => Some(l),
        None => match &e.center {
            Some(c) => Some(c.lon),
            None => None,
        },
    };
    (lat, lon)
}

impl TopologyStore {
    /// Upserts every platform that has a position, with its station from the
    /// stop-area mapping; an existing station link is kept where the mapping
    /// gives none.
    pub fn store_platforms(
        &mut self,
        platforms: Vec<OsmElement>,
        area_id: i64,
        mapping: &HashMapWithView<i64, i64>,
    )
        requires
            old(self).wf(),
            elements_ok(platforms@),
        ensures
            final(self).wf(),
            final(self).platforms@ == stored_platforms(old(self).platforms@, platforms@, area_id, mapping@),
            final(self).areas == old(self).areas,
            final(self).stations == old(self).stations,
            final(self).stop_positions == old(self).stop_positions,
            final(self).routes == old(self).routes,
            final(self).route_ways == old(self).route_ways,
            final(self).route_stops == old(self).route_stops,
    {
        let ghost es = platforms@;
        let n = platforms.len();
        let mut stack = reversed(platforms);
        let mut k: usize = 0;
        while k < n
            invariant
                n == es.len(),
                k <= n,
                stack@ == es.subrange(k as int, n as int).reverse(),
                elements_ok(es),
                self.wf(),
                self.platforms@ == stored_platforms(old(self).platforms@, es.subrange(0, k as int), area_id, mapping@),
                self.areas == old(self).areas,
                self.stations == old(self).stations,
                self.stop_positions == old(self).stop_positions,
                self.routes == old(self).routes,
                self.route_ways == old(self).route_ways,
                self.route_stops == old(self).route_stops,
            decreases n - k,
        {
            let ghost after = es.subrange(0, k + 1);
            assert(after.drop_last() =~= es.subrange(0, k as int));
            assert(stack@.last() == es[k as int]);
            let e = stack.pop().unwrap();
            assert(stack@ =~= es.subrange(k + 1, n as int).reverse());
            if let (Some(lat), Some(lon)) = element_position(&e) {
                assert(coord_ok(lat, lon)) by {
                    assert(es[k as int] == e);
                }
                let station_id = match mapping.get(&e.id) {
                    Some(s) => Some(*s),
                    None => None,
                };
                let row = PlatformRow {
                    osm_id: e.id,
                    name: take_tag(&e.tags, "name"),
                    platform_ref: take_tag(&e.tags, "ref"),
                    ref_ifopt: take_tag(&e.tags, "ref:IFOPT"),
                    osm_type: e.element_type,
                    lat,
                    lon,
                    tags: e.tags,
                    station_id,
                    area_id,
                };
                match find_platform_row(&self.platforms, row.osm_id) {
                    Some(i) => {
                        let kept = self.platforms[i].station_id;
                        let mut row = row;
                        if row.station_id.is_none() {
                            row.station_id = kept;
                        }
                        self.platforms.set(i, row);
                    },
                    None => {
                        self.platforms.push(row);
                    },
                }
            }
            k = k + 1;
        }
        assert(es.subrange(0, n as int) =~= es);
    }

    /// Upserts every stop position that has a position, with its station from
    /// the stop-area mapping; an existing platform link is kept, and an
    /// existing station link where the mapping gives none.
    pub fn store_stop_positions(
        &mut self,
        stop_positions: Vec<OsmElement>,
        area_id: i64,
        mapping: &HashMapWithView<i64, i64>,
    )
        requires
            old(self).wf(),
            elements_ok(stop_positions@),
        ensures
            final(self).wf(),
            final(self).stop_positions@ == stored_stops(old(self).stop_positions@, stop_positions@, area_id, mapping@),
            final(self).areas == old(self).areas,
            final(self).stations == old(self).stations,
            final(self).platforms == old(self).platforms,
            final(self).routes == old(self).routes,
            final(self).route_ways == old(self).route_ways,
            final(self).route_stops == old(self).route_stops,
    {
        let ghost es = stop_positions@;
        let n = stop_positions.len();
        let mut stack = reversed(stop_positions);
        let mut k: usize = 0;
        while k < n
            invariant
                n == es.len(),
                k <= n,
                stack@ == es.subrange(k as int, n as int).reverse(),
                elements_ok(es),
                self.wf(),
                self.stop_positions@ == stored_stops(old(self).stop_positions@, es.subrange(0, k as int), area_id, mapping@),
                self.areas == old(self).areas,
                self.stations == old(self).stations,
                self.platforms == old(self).platforms,
                self.routes == old(self).routes,
                self.route_ways == old(self).route_ways,
                self.route_stops == old(self).route_stops,
            decreases n - k,
        {
            let ghost after = es.subrange(0, k + 1);
            assert(after.drop_last() =~= es.subrange(0, k as int));
            assert(stack@.last() == es[k as int]);
            let e = stack.pop().unwrap();
            assert(stack@ =~= es.subrange(k + 1, n as int).reverse());
            if let (Some(lat), Some(lon)) = element_position(&e) {
                assert(coord_ok(lat, lon)) by {
                    assert(es[k as int] == e);
                }
                let station_id = match mapping.get(&e.id) {
                    Some(s) => Some(*s),
                    None => None,
                };
                let row = StopPositionRow {
                    osm_id: e.id,
                    name: take_tag(&e.tags, "name"),
                    stop_ref: take_tag(&e.tags, "ref"),
                    ref_ifopt: take_tag(&e.tags, "ref:IFOPT"),
                    osm_type: e.element_type,
                    lat,
                    lon,
                    tags: e.tags,
                    station_id,
                    platform_id: None,
                    area_id,
                };
                match find_stop_row(&self.stop_positions, row.osm_id) {
                    Some(i) => {
                        let kept_station = self.stop_positions[i].station_id;
                        let kept_platform = self.stop_positions[i].platform_id;
                        let mut row = row;
                        if row.station_id.is_none() {
                            row.station_id = kept_station;
                        }
                        row.platform_id = kept_platform;
                        self.stop_positions.set(i, row);
                    },
                    None => {
                        self.stop_positions.push(row);
                    },
                }
            }
            k = k + 1;
        }
        assert(es.subrange(0, n as int) =~= es);
    }
}

pub open spec fn route_row(r: OsmRoute, area: i64) -> RouteRow {
    RouteRow {
        osm_id: r.osm_id,
        osm_type: r.osm_type,
        name: r.name,
        route_ref: r.ref_number,
        route_type: r.route_type,
        operator: r.operator,
        network: r.network,
        color: r.color,
        tags: r.tags,
        area_id: area,
    }
}

pub open spec fn route_index_from(t: Seq<RouteRow>, id: i64, i: int) -> Option<int>
    decreases t.len() - i,
{
    if i < 0 || i >= t.len() {
        None
    } else if t[i].osm_id == id {
        Some(i)
    } else {
        route_index_from(t, id, i + 1)
    }
}

pub open spec fn upsert_route(t: Seq<RouteRow>, r: RouteRow) -> Seq<RouteRow> {
    match route_index_from(t, r.osm_id, 0) {
        Some(i) => t.update(i, r),
        None => t.push(r),
    }
}

pub open spec fn way_row(route_id: i64, w: RouteWay) -> RouteWayRow {
    RouteWayRow { route_id, way_osm_id: w.way_osm_id, sequence: w.sequence, geometry: w.geometry }
}

/// The stored stop of a route: its stop position only where one is stored,
/// platform and station not yet resolved.
pub open spec fn route_stop_row(route_id: i64, s: RouteStop, sps: Seq<StopPositionRow>) -> RouteStopRow {
    RouteStopRow {
        route_id,
        sequence: s.sequence,
        role: s.role,
        stop_position_id: if stop_index_from(sps, s.osm_id, 0) is Some {
            Some(s.osm_id)
        } else {
            None
        },
        platform_id: None,
        station_id: None,
    }
}

pub open spec fn way_rows(route_id: i64, ws: Seq<RouteWay>) -> Seq<RouteWayRow> {
    ws.map_values(|w: RouteWay| way_row(route_id, w))
}

pub open spec fn stop_rows(route_id: i64, ss: Seq<RouteStop>, sps: Seq<StopPositionRow>) -> Seq<RouteStopRow> {
    ss.map_values(|s: RouteStop| route_stop_row(route_id, s, sps))
}

/// The way rows of route `id`, in order.
pub open spec fn ways_for(t: Seq<RouteWayRow>, id: i64) -> Seq<RouteWayRow>
    decreases t.len(),
{
    if t.len() == 0 {
        Seq::empty()
    } else if t.last().route_id == id {
        ways_for(t.drop_last(), id).push(t.last())
    } else {
        ways_for(t.drop_last(), id)
    }
}

/// The way rows of every route but `id`, in order.
pub open spec fn ways_except(t: Seq<RouteWayRow>, id: i64) -> Seq<RouteWayRow>
    decreases t.len(),
{
    if t.len() == 0 {
        Seq::empty()
    } else if t.last().route_id != id {
        ways_except(t.drop_last(), id).push(t.last())
    } else {
        ways_except(t.drop_last(), id)
    }
}

/// The stop rows of route `id`, in order.
pub open spec fn stops_for(t: Seq<RouteStopRow>, id: i64) -> Seq<RouteStopRow>
    decreases t.len(),
{
    if t.len() == 0 {
        Seq::empty()
    } else if t.last().route_id == id {
        stops_for(t.drop_last(), id).push(t.last())
    } else {
        stops_for(t.drop_last(), id)
    }
}

/// The stop rows of every route but `id`, in order.
pub open spec fn stops_except(t: Seq<RouteStopRow>, id: i64) -> Seq<RouteStopRow>
    decreases t.len(),
{
    if t.len() == 0 {
        Seq::empty()
    } else if t.last().route_id != id {
        stops_except(t.drop_last(), id).push(t.last())
    } else {
        stops_except(t.drop_last(), id)
    }
}

/// Routes, their ways and their stops after storing `rs` in order: each
/// route row is upserted and its ways and stops are replaced wholesale.
pub open spec fn stored_routes(
    t: (Seq<RouteRow>, Seq<RouteWayRow>, Seq<RouteStopRow>),
    rs: Seq<OsmRoute>,
    area: i64,
    sps: Seq<StopPositionRow>,
) -> (Seq<RouteRow>, Seq<RouteWayRow>, Seq<RouteStopRow>)
    decreases rs.len(),
{
    if rs.len() == 0 {
        t
    } else {
        let prev = stored_routes(t, rs.drop_last(), area, sps);
        let r = rs.last();
        (
            upsert_route(prev.0, route_row(r, area)),
            ways_except(prev.1, r.osm_id) + way_rows(r.osm_id, r.ways@),
            stops_except(prev.2, r.osm_id) + stop_rows(r.osm_id, r.stops@, sps),
        )
    }
}

fn find_route_row(t: &Vec<RouteRow>, id: i64) -> (r: Option<usize>)
    ensures
        match r {
            Some(i) => route_index_from(t@, id, 0) == Some(i as int) && i < t@.len(),
            None => route_index_from(t@, id, 0) is None,
        },
{
    let mut i: usize = 0;
    while i < t.len()
        invariant
            i <= t@.len(),
            route_index_from(t@, id, 0) == route_index_from(t@, id, i as int),
        decreases t@.len() - i,
    {
        if t[i].osm_id == id {
            return Some(i);
        }
        i = i + 1;
    }
    None
}

impl TopologyStore {
    fn replace_route_ways(&mut self, route_id: i64, ways: Vec<RouteWay>)
        ensures
            final(self).route_ways@ == ways_except(old(self).route_ways@, route_id) + way_rows(route_id, ways@),
            final(self).areas == old(self).areas,
            final(self).stations == old(self).stations,
            final(self).platforms == old(self).platforms,
            final(self).stop_positions == old(self).stop_positions,
            final(self).routes == old(self).routes,
            final(self).route_stops == old(self).route_stops,
    {
        let mut old_rows: Vec<RouteWayRow> = Vec::new();
        std::mem::swap(&mut old_rows, &mut self.route_ways);
        let ghost o = old_rows@;
        let n = old_rows.len();
        let mut stack = reversed(old_rows);
        let mut k: usize = 0;
        while k < n
            invariant
                n == o.len(),
                k <= n,
                stack@ == o.subrange(k as int, n as int).reverse(),
                self.route_ways@ == ways_except(o.subrange(0, k as int), route_id),
                self.areas == old(self).areas,
                self.stations == old(self).stations,
                self.platforms == old(self).platforms,
                self.stop_positions == old(self).stop_positions,
                self.routes == old(self).routes,
                self.route_stops == old(self).route_stops,
            decreases n - k,
        {
            let ghost after = o.subrange(0, k + 1);
            assert(after.drop_last() =~= o.subrange(0, k as int));
            assert(stack@.last() == o[k as int]);
            let w = stack.pop().unwrap();
            assert(stack@ =~= o.subrange(k + 1, n as int).reverse());
            if w.route_id != route_id {
                self.route_ways.push(w);
            }
            k = k + 1;
        }
        assert(o.subrange(0, n as int) =~= o);
        let ghost base = self.route_ways@;
        let ghost ws = ways@;
        let m = ways.len();
        let mut stack = reversed(ways);
        let mut j: usize = 0;
        while j < m
            invariant
                m == ws.len(),
                j <= m,
                stack@ == ws.subrange(j as int, m as int).reverse(),
                self.route_ways@ == base + way_rows(route_id, ws.subrange(0, j as int)),
                self.areas == old(self).areas,
                self.stations == old(self).stations,
                self.platforms == old(self).platforms,
                self.stop_positions == old(self).stop_positions,
                self.routes == old(self).routes,
                self.route_stops == old(self).route_stops,
            decreases m - j,
        {
            assert(stack@.last() == ws[j as int]);
            let w = stack.pop().unwrap();
            assert(stack@ =~= ws.subrange(j + 1, m as int).reverse());
            self.route_ways.push(RouteWayRow { route_id, way_osm_id: w.way_osm_id, sequence: w.sequence, geometry: w.geometry });
            j = j + 1;
            assert(self.route_ways@ =~= base + way_rows(route_id, ws.subrange(0, j as int)));
        }
        assert(ws.subrange(0, m as int) =~= ws);
    }

    fn replace_route_stops(&mut self, route_id: i64, stops: Vec<RouteStop>)
        ensures
            final(self).route_stops@ == stops_except(old(self).route_stops@, route_id) + stop_rows(
                route_id,
                stops@,
                old(self).stop_positions@,
            ),
            final(self).areas == old(self).areas,
            final(self).stations == old(self).stations,
            final(self).platforms == old(self).platforms,
            final(self).stop_positions == old(self).stop_positions,
            final(self).routes == old(self).routes,
            final(self).route_ways == old(self).route_ways,
    {
        let mut old_rows: Vec<RouteStopRow> = Vec::new();
        std::mem::swap(&mut old_rows, &mut self.route_stops);
        let ghost o = old_rows@;
        let n = old_rows.len();
        let mut stack = reversed(old_rows);
        let mut k: usize = 0;
        while k < n
            invariant
                n == o.len(),
                k <= n,
                stack@ == o.subrange(k as int, n as int).reverse(),
                self.route_stops@ == stops_except(o.subrange(0, k as int), route_id),
                self.areas == old(self).areas,
                self.stations == old(self).stations,
                self.platforms == old(self).platforms,
                self.stop_positions == old(self).stop_positions,
                self.routes == old(self).routes,
                self.route_ways == old(self).route_ways,
            decreases n - k,
        {
            let ghost after = o.subrange(0, k + 1);
            assert(after.drop_last() =~= o.subrange(0, k as int));
            assert(stack@.last() == o[k as int]);
            let w = stack.pop().unwrap();
            assert(stack@ =~= o.subrange(k + 1, n as int).reverse());
            if w.route_id != route_id {
                self.route_stops.push(w);
            }
            k = k + 1;
        }
        assert(o.subrange(0, n as int) =~= o);
        let ghost base = self.route_stops@;
        let ghost ss = stops@;
        let m = stops.len();
        let mut stack = reversed(stops);
        let mut j: usize = 0;
        while j < m
            invariant
                m == ss.len(),
                j <= m,
                stack@ == ss.subrange(j as int, m as int).reverse(),
                self.route_stops@ == base + stop_rows(route_id, ss.subrange(0, j as int), old(self).stop_positions@),
                self.areas == old(self).areas,
                self.stations == old(self).stations,
                self.platforms == old(self).platforms,
                self.stop_positions == old(self).stop_positions,
                self.routes == old(self).routes,
                self.route_ways == old(self).route_ways,
            decreases m - j,
        {
            assert(stack@.last() == ss[j as int]);
            let st = stack.pop().unwrap();
            assert(stack@ =~= ss.subrange(j + 1, m as int).reverse());
            let stop_position_id = if find_stop_row(&self.stop_positions, st.osm_id).is_some() {
                Some(st.osm_id)
            } else {
                None
            };
            self.route_stops.push(
                RouteStopRow {
                    route_id,
                    sequence: st.sequence,
                    role: st.role,
                    stop_position_id,
                    platform_id: None,
                    station_id: None,
                },
            );
            j = j + 1;
            assert(self.route_stops@ =~= base + stop_rows(route_id, ss.subrange(0, j as int), old(self).stop_positions@));
        }
        assert(ss.subrange(0, m as int) =~= ss);
    }

    /// Upserts every route and replaces its ways and stops with those of the
    /// fetch; a stop keeps its stop-position id only where that stop position
    /// is stored.
    pub fn store_routes(&mut self, routes: Vec<OsmRoute>, area_id: i64)
        ensures
            (final(self).routes@, final(self).route_ways@, final(self).route_stops@) == stored_routes(
                (old(self).routes@, old(self).route_ways@, old(self).route_stops@),
                routes@,
                area_id,
                old(self).stop_positions@,
            ),
            final(self).areas == old(self).areas,
            final(self).stations == old(self).stations,
            final(self).platforms == old(self).platforms,
            final(self).stop_positions == old(self).stop_positions,
    {
        let ghost rs = routes@;
        let n = routes.len();
        let mut stack = reversed(routes);
        let mut k: usize = 0;
        while k < n
            invariant
                n == rs.len(),
                k <= n,
                stack@ == rs.subrange(k as int, n as int).reverse(),
                (self.routes@, self.route_ways@, self.route_stops@) == stored_routes(
                    (old(self).routes@, old(self).route_ways@, old(self).route_stops@),
                    rs.subrange(0, k as int),
                    area_id,
                    old(self).stop_positions@,
                ),
                self.areas == old(self).areas,
                self.stations == old(self).stations,
                self.platforms == old(self).platforms,
                self.stop_positions == old(self).stop_positions,
            decreases n - k,
        {
            let ghost after = rs.subrange(0, k + 1);
            assert(after.drop_last() =~= rs.subrange(0, k as int));
            assert(stack@.last() == rs[k as int]);
            let r = stack.pop().unwrap();
            assert(stack@ =~= rs.subrange(k + 1, n as int).reverse());
            let route_id = r.osm_id;
            let row = RouteRow {
                osm_id: r.osm_id,
                osm_type: r.osm_type,
                name: r.name,
                route_ref: r.ref_number,
                route_type: r.route_type,
                operator: r.operator,
                network: r.network,
                color: r.color,
                tags: r.tags,
                area_id,
            };
            match find_route_row(&self.routes, route_id) {
                Some(i) => {
                    self.routes.set(i, row);
                },
                None => {
                    self.routes.push(row);
                },
            }
            self.replace_route_ways(route_id, r.ways);
            self.replace_route_stops(route_id, r.stops);
            k = k + 1;
        }
        assert(rs.subrange(0, n as int) =~= rs);
    }
}

proof fn lemma_ways_for_concat(a: Seq<RouteWayRow>, b: Seq<RouteWayRow>, id: i64)
    ensures
        ways_for(a + b, id) == ways_for(a, id) + ways_for(b, id),
    decreases b.len(),
{
    if b.len() == 0 {
        assert(a + b =~= a);
        assert(ways_for(a, id) + ways_for(b, id) =~= ways_for(a, id));
    } else {
        assert((a + b).drop_last() =~= a + b.drop_last());
        lemma_ways_for_concat(a, b.drop_last(), id);
        if b.last().route_id == id {
            assert(ways_for(a, id) + ways_for(b, id) =~= (ways_for(a, id) + ways_for(b.drop_last(), id)).push(b.last()));
        }
    }
}

proof fn lemma_ways_except(t: Seq<RouteWayRow>, id: i64, other: i64)
    ensures
        ways_for(ways_except(t, id), id) == Seq::<RouteWayRow>::empty(),
        other != id ==> ways_for(ways_except(t, id), other) == ways_for(t, other),
    decreases t.len(),
{
    if t.len() > 0 {
        lemma_ways_except(t.drop_last(), id, other);
        let r = ways_except(t.drop_last(), id);
        if t.last().route_id != id {
            assert(r.push(t.last()).drop_last() =~= r);
        }
    }
}

proof fn lemma_ways_for_rows(ws: Seq<RouteWay>, id: i64, other: i64)
    ensures
        ways_for(way_rows(id, ws), id) == way_rows(id, ws),
        other != id ==> ways_for(way_rows(id, ws), other) == Seq::<RouteWayRow>::empty(),
    decreases ws.len(),
{
    if ws.len() > 0 {
        assert(way_rows(id, ws).drop_last() =~= way_rows(id, ws.drop_last()));
        lemma_ways_for_rows(ws.drop_last(), id, other);
        assert(way_rows(id, ws) =~= way_rows(id, ws.drop_last()).push(way_row(id, ws.last())));
    } else {
        assert(way_rows(id, ws) =~= Seq::<RouteWayRow>::empty());
    }
}

proof fn lemma_stops_for_concat(a: Seq<RouteStopRow>, b: Seq<RouteStopRow>, id: i64)
    ensures
        stops_for(a + b, id) == stops_for(a, id) + stops_for(b, id),
    decreases b.len(),
{
    if b.len() == 0 {
        assert(a + b =~= a);
        assert(stops_for(a, id) + stops_for(b, id) =~= stops_for(a, id));
    } else {
        assert((a + b).drop_last() =~= a + b.drop_last());
        lemma_stops_for_concat(a, b.drop_last(), id);
        if b.last().route_id == id {
            assert(stops_for(a, id) + stops_for(b, id) =~= (stops_for(a, id) + stops_for(b.drop_last(), id)).push(
                b.last(),
            ));
        }
    }
}

proof fn lemma_stops_except(t: Seq<RouteStopRow>, id: i64, other: i64)
    ensures
        stops_for(stops_except(t, id), id) == Seq::<RouteStopRow>::empty(),
        other != id ==> stops_for(stops_except(t, id), other) == stops_for(t, other),
    decreases t.len(),
{
    if t.len() > 0 {
        lemma_stops_except(t.drop_last(), id, other);
        let r = stops_except(t.drop_last(), id);
        if t.last().route_id != id {
            assert(r.push(t.last()).drop_last() =~= r);
        }
    }
}

proof fn lemma_stops_for_rows(ss: Seq<RouteStop>, id: i64, other: i64, sps: Seq<StopPositionRow>)
    ensures
        stops_for(stop_rows(id, ss, sps), id) == stop_rows(id, ss, sps),
        other != id ==> stops_for(stop_rows(id, ss, sps), other) == Seq::<RouteStopRow>::empty(),
    decreases ss.len(),
{
    if ss.len() > 0 {
        assert(stop_rows(id, ss, sps).drop_last() =~= stop_rows(id, ss.drop_last(), sps));
        lemma_stops_for_rows(ss.drop_last(), id, other, sps);
        assert(stop_rows(id, ss, sps) =~= stop_rows(id, ss.drop_last(), sps).push(route_stop_row(id, ss.last(), sps)));
    } else {
        assert(stop_rows(id, ss, sps) =~= Seq::<RouteStopRow>::empty());
    }
}

/// After a fetch is stored, a route holds exactly the ways and the stops of
/// its last occurrence in the fetch, in their order, and nothing left from
/// earlier syncs.
pub proof fn lemma_routes_replaced(
    t: (Seq<RouteRow>, Seq<RouteWayRow>, Seq<RouteStopRow>),
    rs: Seq<OsmRoute>,
    area: i64,
    sps: Seq<StopPositionRow>,
    i: int,
)
    requires
        0 <= i < rs.len(),
        forall|j: int| i < j < rs.len() ==> (#[trigger] rs[j]).osm_id != rs[i].osm_id,
    ensures
        ways_for(stored_routes(t, rs, area, sps).1, rs[i].osm_id) == way_rows(rs[i].osm_id, rs[i].ways@),
        stops_for(stored_routes(t, rs, area, sps).2, rs[i].osm_id) == stop_rows(rs[i].osm_id, rs[i].stops@, sps),
    decreases rs.len(),
{
    let id = rs[i].osm_id;
    let prev = stored_routes(t, rs.drop_last(), area, sps);
    let r = rs.last();
    lemma_ways_for_concat(ways_except(prev.1, r.osm_id), way_rows(r.osm_id, r.ways@), id);
    lemma_stops_for_concat(stops_except(prev.2, r.osm_id), stop_rows(r.osm_id, r.stops@, sps), id);
    lemma_ways_except(prev.1, r.osm_id, id);
    lemma_stops_except(prev.2, r.osm_id, id);
    lemma_ways_for_rows(r.ways@, r.osm_id, id);
    lemma_stops_for_rows(r.stops@, r.osm_id, id, sps);
    if i == rs.len() - 1 {
        assert(Seq::<RouteWayRow>::empty() + way_rows(id, r.ways@) =~= way_rows(id, r.ways@));
        assert(Seq::<RouteStopRow>::empty() + stop_rows(id, r.stops@, sps) =~= stop_rows(id, r.stops@, sps));
    } else {
        assert(r.osm_id != id) by {
            assert(rs[rs.len() - 1] == r);
        }
        assert forall|j: int| i < j < rs.drop_last().len() implies (#[trigger] rs.drop_last()[j]).osm_id
            != rs.drop_last()[i].osm_id by {
            assert(rs.drop_last()[j] == rs[j]);
        }
        lemma_routes_replaced(t, rs.drop_last(), area, sps, i);
        assert(rs.drop_last()[i] == rs[i]);
        assert(ways_for(prev.1, id) + Seq::<RouteWayRow>::empty() =~= ways_for(prev.1, id));
        assert(stops_for(prev.2, id) + Seq::<RouteStopRow>::empty() =~= stops_for(prev.2, id));
    }
}

/// The two stores hold the same rows.
pub open spec fn same_tables(a: TopologyStore, b: TopologyStore) -> bool {
    &&& a.areas@ == b.areas@
    &&& a.stations@ == b.stations@
    &&& a.platforms@ == b.platforms@
    &&& a.stop_positions@ == b.stop_positions@
    &&& a.routes@ == b.routes@
    &&& a.route_ways@ == b.route_ways@
    &&& a.route_stops@ == b.route_stops@
}

pub open spec fn area_index(t: Seq<AreaRow>, name: Seq<char>, i: int) -> Option<int>
    decreases t.len() - i,
{
    if i < 0 || i >= t.len() {
        None
    } else if t[i].name@ == name {
        Some(i)
    } else {
        area_index(t, name, i + 1)
    }
}

/// The largest area id, or zero for no areas.
pub open spec fn max_area_id(t: Seq<AreaRow>) -> int
    decreases t.len(),
{
    if t.len() == 0 {
        0
    } else {
        let m = max_area_id(t.drop_last());
        if t.last().id > m {
            t.last().id as int
        } else {
            m
        }
    }
}

/// The area table after upserting `a` by name, with the id it has there;
/// none where a new id would exceed the id range.
pub open spec fn upserted_area(t: Seq<AreaRow>, a: Area) -> Option<(Seq<AreaRow>, i64)> {
    match area_index(t, a.name@, 0) {
        Some(i) => Some(
            (
                t.update(
                    i,
                    AreaRow {
                        south: a.bounding_box.south,
                        west: a.bounding_box.west,
                        north: a.bounding_box.north,
                        east: a.bounding_box.east,
                        ..t[i]
                    },
                ),
                t[i].id,
            ),
        ),
        None => if max_area_id(t) < i64::MAX {
            let id = (max_area_id(t) + 1) as i64;
            Some(
                (
                    t.push(
                        AreaRow {
                            id,
                            name: a.name,
                            south: a.bounding_box.south,
                            west: a.bounding_box.west,
                            north: a.bounding_box.north,
                            east: a.bounding_box.east,
                            last_synced_at: None,
                        },
                    ),
                    id,
                ),
            )
        } else {
            None
        },
    }
}

/// The area table after marking area `id` synchronised at `now`.
pub open spec fn marked_synced(t: Seq<AreaRow>, id: i64, now: i64) -> Seq<AreaRow> {
    Seq::new(
        t.len(),
        |i: int|
            if t[i].id == id {
                AreaRow { last_synced_at: Some(now), ..t[i] }
            } else {
                t[i]
            },
    )
}

impl TopologyStore {
    /// Inserts the area, or updates the bounding box of the area of that name,
    /// and returns its id; a new area takes the id after the largest.
    pub fn upsert_area(&mut self, area: &Area) -> (r: Result<i64, SyncError>)
        ensures
            match upserted_area(old(self).areas@, *area) {
                Some((t, id)) => r == Ok::<i64, SyncError>(id) && final(self).areas@ == t,
                None => r is Err && final(self).areas@ == old(self).areas@,
            },
            final(self).stations == old(self).stations,
            final(self).platforms == old(self).platforms,
            final(self).stop_positions == old(self).stop_positions,
            final(self).routes == old(self).routes,
            final(self).route_ways == old(self).route_ways,
            final(self).route_stops == old(self).route_stops,
    {
        let n = self.areas.len();
        let mut i: usize = 0;
        let mut max_id: i64 = 0;
        while i < n
            invariant
                n == self.areas@.len(),
                i <= n,
                area_index(self.areas@, area.name@, 0) == area_index(self.areas@, area.name@, i as int),
                max_id == max_area_id(self.areas@.subrange(0, i as int)),
                self.areas == old(self).areas,
                self.stations == old(self).stations,
                self.platforms == old(self).platforms,
                self.stop_positions == old(self).stop_positions,
                self.routes == old(self).routes,
                self.route_ways == old(self).route_ways,
                self.route_stops == old(self).route_stops,
            decreases n - i,
        {
            let ghost after = self.areas@.subrange(0, i + 1);
            assert(after.drop_last() =~= self.areas@.subrange(0, i as int));
            if self.areas[i].name == area.name {
                let id = self.areas[i].id;
                self.areas[i].south = area.bounding_box.south;
                self.areas[i].west = area.bounding_box.west;
                self.areas[i].north = area.bounding_box.north;
                self.areas[i].east = area.bounding_box.east;
                return Ok(id);
            }
            if self.areas[i].id > max_id {
                max_id = self.areas[i].id;
            }
            i = i + 1;
        }
        assert(self.areas@.subrange(0, n as int) =~= self.areas@);
        if max_id == i64::MAX {
            let mut msg = String::new();
            msg.append("no area id left");
            return Err(SyncError::DatabaseError(msg));
        }
        let id = max_id + 1;
        self.areas.push(
            AreaRow {
                id,
                name: area.name.clone(),
                south: area.bounding_box.south,
                west: area.bounding_box.west,
                north: area.bounding_box.north,
                east: area.bounding_box.east,
                last_synced_at: None,
            },
        );
        Ok(id)
    }

    fn mark_synced(&mut self, id: i64, now: i64)
        ensures
            final(self).areas@ == marked_synced(old(self).areas@, id, now),
            final(self).stations == old(self).stations,
            final(self).platforms == old(self).platforms,
            final(self).stop_positions == old(self).stop_positions,
            final(self).routes == old(self).routes,
            final(self).route_ways == old(self).route_ways,
            final(self).route_stops == old(self).route_stops,
    {
        let n = self.areas.len();
        let mut i: usize = 0;
        while i < n
            invariant
                n == self.areas@.len(),
                n == old(self).areas@.len(),
                i <= n,
                forall|j: int| 0 <= j < i ==> #[trigger] self.areas@[j] == marked_synced(old(self).areas@, id, now)[j],
                forall|j: int| i <= j < n ==> #[trigger] self.areas@[j] == old(self).areas@[j],
                self.stations == old(self).stations,
                self.platforms == old(self).platforms,
                self.stop_positions == old(self).stop_positions,
                self.routes == old(self).routes,
                self.route_ways == old(self).route_ways,
                self.route_stops == old(self).route_stops,
            decreases n - i,
        {
            if self.areas[i].id == id {
                self.areas[i].last_synced_at = Some(now);
            }
            i = i + 1;
        }
        assert(self.areas@ =~= marked_synced(old(self).areas@, id, now));
    }

    /// Synchronises one area from its fetched features, all or nothing: the
    /// area is upserted, then its stations, platforms and stop positions (with
    /// stations from the stop-area mapping) and its routes are stored, the
    /// relations of the area are resolved, and the area is marked synchronised
    /// at `now`. On an error the store is unchanged.
    pub fn sync_area(&mut self, area: &Area, features: AreaFeatures, now: i64) -> (r: Result<i64, SyncError>)
        requires
            old(self).wf(),
            elements_ok(features.stations@),
            elements_ok(features.platforms@),
            elements_ok(features.stop_positions@),
        ensures
            final(self).wf(),
            r is Err ==> upserted_area(old(self).areas@, *area) is None && same_tables(*final(self), *old(self)),
            r matches Ok(id) ==> upserted_area(old(self).areas@, *area) matches Some((t, uid)) && uid == id
                && exists|mid: TopologyStore|
                #![trigger resolved(mid, *final(self), id)]
                {
                    let m = station_mappings(features.stations@);
                    let routes = stored_routes(
                        (old(self).routes@, old(self).route_ways@, old(self).route_stops@),
                        features.routes@,
                        id,
                        stored_stops(old(self).stop_positions@, features.stop_positions@, id, m),
                    );
                    &&& mid.areas@ == t
                    &&& mid.stations@ == stored_stations(old(self).stations@, features.stations@, id)
                    &&& mid.platforms@ == stored_platforms(old(self).platforms@, features.platforms@, id, m)
                    &&& mid.stop_positions@ == stored_stops(old(self).stop_positions@, features.stop_positions@, id, m)
                    &&& (mid.routes@, mid.route_ways@, mid.route_stops@) == routes
                    &&& resolved(mid, *final(self), id)
                    &&& final(self).areas@ == marked_synced(t, id, now)
                },
            r matches Ok(id) && platforms_reference_stations(*old(self)) && links_stay_in_area(*old(self), features, id)
                ==> platforms_reference_stations(*final(self)),
            r is Ok && stops_reference_platforms(*old(self)) ==> stops_reference_platforms(*final(self)),
            r matches Ok(id) ==> forall|i: int|
                0 <= i < features.routes@.len() && (forall|j: int|
                    i < j < features.routes@.len() ==> features.routes@[j].osm_id != features.routes@[i].osm_id)
                    ==> {
                    let rt = #[trigger] features.routes@[i];
                    let sps = stored_stops(
                        old(self).stop_positions@,
                        features.stop_positions@,
                        id,
                        station_mappings(features.stations@),
                    );
                    &&& ways_for(final(self).route_ways@, rt.osm_id) == way_rows(rt.osm_id, rt.ways@)
                    &&& stops_for(final(self).route_stops@, rt.osm_id).map_values(|r: RouteStopRow| stop_key(r))
                        == stop_rows(rt.osm_id, rt.stops@, sps).map_values(|r: RouteStopRow| stop_key(r))
                },
    {
        let ghost s0 = *self;
        let ghost f0 = features;
        let mapping = extract_station_platform_mappings(&features.stations);
        let id = match self.upsert_area(area) {
            Ok(id) => id,
            Err(e) => {
                return Err(e);
            },
        };
        let AreaFeatures { stations, platforms, stop_positions, routes } = features;
        self.store_stations(stations, id);
        self.store_platforms(platforms, id, &mapping);
        self.store_stop_positions(stop_positions, id, &mapping);
        self.store_routes(routes, id);
        let ghost mid = *self;
        self.resolve_relations(id);
        proof {
            assert(resolved(mid, *self, id));
        }
        let ghost resolved_state = *self;
        self.mark_synced(id, now);
        proof {
            assert(resolved(mid, *self, id));
            if platforms_reference_stations(s0) && links_stay_in_area(s0, f0, id) {
                lemma_sync_keeps_station_links(s0, f0, id, mid, *self);
            }
            if stops_reference_platforms(s0) {
                lemma_sync_keeps_platform_links(s0, f0, id, mid, *self);
            }
            let rs = f0.routes@;
            let sps = mid.stop_positions@;
            assert forall|i: int|
                0 <= i < rs.len() && (forall|j: int| i < j < rs.len() ==> rs[j].osm_id != rs[i].osm_id) implies {
                let rt = #[trigger] rs[i];
                &&& ways_for(self.route_ways@, rt.osm_id) == way_rows(rt.osm_id, rt.ways@)
                &&& stops_for(self.route_stops@, rt.osm_id).map_values(|r: RouteStopRow| stop_key(r))
                    == stop_rows(rt.osm_id, rt.stops@, sps).map_values(|r: RouteStopRow| stop_key(r))
            } by {
                lemma_routes_replaced((s0.routes@, s0.route_ways@, s0.route_stops@), rs, id, sps, i);
                lemma_stops_for_keys(mid.route_stops@, self.route_stops@, rs[i].osm_id);
            }
        }
        Ok(id)
    }
}

pub open spec fn has_station(t: Seq<StationRow>, s: i64, a: i64) -> bool {
    exists|k: int| 0 <= k < t.len() && (#[trigger] t[k]).osm_id == s && t[k].area_id == a
}

/// Every platform's station is a row of `t` in the platform's area.
pub open spec fn links_ok(ps: Seq<PlatformRow>, t: Seq<StationRow>) -> bool {
    forall|i: int|
        0 <= i < ps.len() && (#[trigger] ps[i]).station_id is Some ==> has_station(
            t,
            ps[i].station_id->0,
            ps[i].area_id,
        )
}

pub open spec fn positioned(e: OsmElement) -> bool {
    lat_of(e) is Some && lon_of(e) is Some
}

/// The fetched elements with a position include one with this id.
pub open spec fn fetched(es: Seq<OsmElement>, id: i64) -> bool {
    exists|j: int| 0 <= j < es.len() && positioned(#[trigger] es[j]) && es[j].id == id
}

/// The inputs of an area sync on which platforms keep referring to stations of
/// their own area: stations and platforms that were stored before stay in
/// their area, and every stop-area link of a fetched platform names a fetched
/// station that has a position.
pub open spec fn links_stay_in_area(s: TopologyStore, f: AreaFeatures, area: i64) -> bool {
    let m = station_mappings(f.stations@);
    &&& forall|k: int|
        0 <= k < s.stations@.len() && fetched(f.stations@, (#[trigger] s.stations@[k]).osm_id) ==> s.stations@[k].area_id
            == area
    &&& forall|k: int|
        0 <= k < s.platforms@.len() && fetched(f.platforms@, (#[trigger] s.platforms@[k]).osm_id) ==> s.platforms@[k].area_id
            == area
    &&& forall|j: int|
        0 <= j < f.platforms@.len() && positioned(#[trigger] f.platforms@[j]) && m.contains_key(f.platforms@[j].id)
            ==> fetched(f.stations@, m[f.platforms@[j].id])
}

proof fn lemma_station_index_matches(t: Seq<StationRow>, id: i64, i: int)
    ensures
        station_index(t, id, i) matches Some(k) ==> 0 <= k < t.len() && t[k].osm_id == id,
    decreases t.len() - i,
{
    if 0 <= i < t.len() && t[i].osm_id != id {
        lemma_station_index_matches(t, id, i + 1);
    }
}

proof fn lemma_platform_index_matches(t: Seq<PlatformRow>, id: i64, i: int)
    ensures
        platform_index_from(t, id, i) matches Some(k) ==> 0 <= k < t.len() && t[k].osm_id == id,
    decreases t.len() - i,
{
    if 0 <= i < t.len() && t[i].osm_id != id {
        lemma_platform_index_matches(t, id, i + 1);
    }
}

/// Storing stations keeps a station row unless a fetched station of that id
/// moves it to the area being stored, and adds every fetched station.
proof fn lemma_stored_stations_rows(t: Seq<StationRow>, es: Seq<OsmElement>, area: i64, s: i64, a: i64)
    ensures
        has_station(t, s, a) && (fetched(es, s) ==> a == area) ==> has_station(stored_stations(t, es, area), s, a),
        fetched(es, s) ==> has_station(stored_stations(t, es, area), s, area),
    decreases es.len(),
{
    if es.len() > 0 {
        let init = es.drop_last();
        assert(fetched(init, s) ==> fetched(es, s)) by {
            if fetched(init, s) {
                let j = choose|j: int| 0 <= j < init.len() && positioned(#[trigger] init[j]) && init[j].id == s;
                assert(es[j] == init[j]);
            }
        }
        lemma_stored_stations_rows(t, init, area, s, a);
        let prev = stored_stations(t, init, area);
        let e = es.last();
        assert(es[es.len() - 1] == e);
        match station_row(e, area) {
            Some(r) => {
                lemma_station_index_matches(prev, r.osm_id, 0);
                let next = upsert_station(prev, r);
                let goal_a = has_station(t, s, a) && (fetched(es, s) ==> a == area);
                if r.osm_id == s {
                    assert(fetched(es, s));
                    match station_index(prev, r.osm_id, 0) {
                        Some(i) => assert(next[i] == r),
                        None => assert(next[prev.len() as int] == r),
                    }
                } else {
                    assert(fetched(es, s) ==> fetched(init, s)) by {
                        if fetched(es, s) {
                            let j = choose|j: int| 0 <= j < es.len() && positioned(#[trigger] es[j]) && es[j].id == s;
                            if j == es.len() - 1 {
                                assert(es[j] == e);
                            } else {
                                assert(init[j] == es[j]);
                            }
                        }
                    }
                    assert forall|b: i64| has_station(prev, s, b) implies has_station(next, s, b) by {
                        let k = choose|k: int| 0 <= k < prev.len() && (#[trigger] prev[k]).osm_id == s && prev[k].area_id == b;
                        match station_index(prev, r.osm_id, 0) {
                            Some(i) => assert(next[k] == prev[k]),
                            None => assert(next[k] == prev[k]),
                        }
                    }
                }
            },
            None => {
                assert(fetched(es, s) ==> fetched(init, s)) by {
                    if fetched(es, s) {
                        let j = choose|j: int| 0 <= j < es.len() && positioned(#[trigger] es[j]) && es[j].id == s;
                        if j == es.len() - 1 {
                            assert(es[j] == e);
                        } else {
                            assert(init[j] == es[j]);
                        }
                    }
                }
            },
        }
    }
}

/// Storing platforms keeps every platform's station in `st` and in the
/// platform's area, where the fetched links name stations of the area.
proof fn lemma_stored_platforms_links(
    t: Seq<PlatformRow>,
    es: Seq<OsmElement>,
    area: i64,
    m: Map<i64, i64>,
    st: Seq<StationRow>,
    all: Seq<OsmElement>,
)
    requires
        links_ok(t, st),
        forall|k: int| 0 <= k < t.len() && fetched(all, (#[trigger] t[k]).osm_id) ==> t[k].area_id == area,
        forall|j: int| 0 <= j < es.len() ==> fetched(all, (#[trigger] es[j]).id) || !positioned(es[j]),
        forall|j: int|
            0 <= j < es.len() && positioned(#[trigger] es[j]) && m.contains_key(es[j].id) ==> has_station(
                st,
                m[es[j].id],
                area,
            ),
    ensures
        links_ok(stored_platforms(t, es, area, m), st),
        forall|k: int|
            0 <= k < stored_platforms(t, es, area, m).len() && fetched(
                all,
                (#[trigger] stored_platforms(t, es, area, m)[k]).osm_id,
            ) ==> stored_platforms(t, es, area, m)[k].area_id == area,
    decreases es.len(),
{
    if es.len() > 0 {
        let init = es.drop_last();
        assert forall|j: int| 0 <= j < init.len() implies fetched(all, (#[trigger] init[j]).id) || !positioned(init[j]) by {
            assert(init[j] == es[j]);
        }
        assert forall|j: int|
            0 <= j < init.len() && positioned(#[trigger] init[j]) && m.contains_key(init[j].id) implies has_station(
                st,
                m[init[j].id],
                area,
            ) by {
            assert(init[j] == es[j]);
        }
        lemma_stored_platforms_links(t, init, area, m, st, all);
        let prev = stored_platforms(t, init, area, m);
        let e = es.last();
        assert(es[es.len() - 1] == e);
        match platform_row(e, area, m) {
            Some(r) => {
                lemma_platform_index_matches(prev, r.osm_id, 0);
                let next = upsert_platform(prev, r);
                assert(fetched(all, e.id));
                match platform_index_from(prev, r.osm_id, 0) {
                    Some(i) => {
                        assert forall|k: int| 0 <= k < next.len() && (#[trigger] next[k]).station_id is Some implies has_station(
                            st,
                            next[k].station_id->0,
                            next[k].area_id,
                        ) by {
                            if k != i {
                                assert(next[k] == prev[k]);
                            } else if r.station_id is None {
                                assert(prev[i].area_id == area);
                            }
                        }
                        assert forall|k: int| 0 <= k < next.len() && fetched(all, (#[trigger] next[k]).osm_id) implies next[k].area_id
                            == area by {
                            if k != i {
                                assert(next[k] == prev[k]);
                            }
                        }
                    },
                    None => {
                        assert forall|k: int| 0 <= k < next.len() && (#[trigger] next[k]).station_id is Some implies has_station(
                            st,
                            next[k].station_id->0,
                            next[k].area_id,
                        ) by {
                            if k < prev.len() {
                                assert(next[k] == prev[k]);
                            }
                        }
                        assert forall|k: int| 0 <= k < next.len() && fetched(all, (#[trigger] next[k]).osm_id) implies next[k].area_id
                            == area by {
                            if k < prev.len() {
                                assert(next[k] == prev[k]);
                            }
                        }
                    },
                }
            },
            None => {},
        }
    }
}

/// Where platforms referred to stations of their own area before an area
/// sync, and the sync's inputs keep links within the area, every platform
/// refers to a stored station of its own area after the sync.
pub proof fn lemma_sync_keeps_station_links(
    s0: TopologyStore,
    f: AreaFeatures,
    area: i64,
    mid: TopologyStore,
    s1: TopologyStore,
)
    requires
        platforms_reference_stations(s0),
        links_stay_in_area(s0, f, area),
        mid.stations@ == stored_stations(s0.stations@, f.stations@, area),
        mid.platforms@ == stored_platforms(s0.platforms@, f.platforms@, area, station_mappings(f.stations@)),
        resolved(mid, s1, area),
    ensures
        platforms_reference_stations(s1),
{
    let m = station_mappings(f.stations@);
    let st = mid.stations@;
    assert forall|i: int| 0 <= i < s0.platforms@.len() && (#[trigger] s0.platforms@[i]).station_id is Some implies has_station(
        st,
        s0.platforms@[i].station_id->0,
        s0.platforms@[i].area_id,
    ) by {
        let sid = s0.platforms@[i].station_id->0;
        let a = s0.platforms@[i].area_id;
        let k = choose|k: int| 0 <= k < s0.stations@.len() && (#[trigger] s0.stations@[k]).osm_id == sid && s0.stations@[k].area_id == a;
        assert(has_station(s0.stations@, sid, a));
        lemma_stored_stations_rows(s0.stations@, f.stations@, area, sid, a);
    }
    assert forall|j: int|
        0 <= j < f.platforms@.len() && positioned(#[trigger] f.platforms@[j]) && m.contains_key(f.platforms@[j].id) implies has_station(
        st,
        m[f.platforms@[j].id],
        area,
    ) by {
        lemma_stored_stations_rows(s0.stations@, f.stations@, area, m[f.platforms@[j].id], area);
    }
    assert forall|j: int| 0 <= j < f.platforms@.len() implies fetched(f.platforms@, (#[trigger] f.platforms@[j]).id)
        || !positioned(f.platforms@[j]) by {
    }
    lemma_stored_platforms_links(s0.platforms@, f.platforms@, area, m, st, f.platforms@);
    assert(platforms_reference_stations(mid)) by {
        assert forall|i: int| 0 <= i < mid.platforms@.len() && (#[trigger] mid.platforms@[i]).station_id is Some implies exists|j: int|
            0 <= j < mid.stations@.len() && (#[trigger] mid.stations@[j]).osm_id == mid.platforms@[i].station_id->0
                && mid.stations@[j].area_id == mid.platforms@[i].area_id by {
            assert(has_station(st, mid.platforms@[i].station_id->0, mid.platforms@[i].area_id));
        }
    }
    lemma_resolution_keeps_station_links(mid, s1, area);
}

/// What a route stop keeps through resolution: sequence, role and stop position.
pub open spec fn stop_key(r: RouteStopRow) -> (i32, Seq<char>, Option<i64>) {
    (r.sequence, r.role@, r.stop_position_id)
}

proof fn lemma_stops_for_keys(a: Seq<RouteStopRow>, b: Seq<RouteStopRow>, id: i64)
    requires
        a.len() == b.len(),
        forall|i: int| 0 <= i < a.len() ==> (#[trigger] b[i]).route_id == a[i].route_id && stop_key(b[i]) == stop_key(a[i]),
    ensures
        stops_for(b, id).map_values(|r: RouteStopRow| stop_key(r)) == stops_for(a, id).map_values(
            |r: RouteStopRow| stop_key(r),
        ),
    decreases a.len(),
{
    if a.len() > 0 {
        assert forall|i: int| 0 <= i < a.drop_last().len() implies (#[trigger] b.drop_last()[i]).route_id
            == a.drop_last()[i].route_id && stop_key(b.drop_last()[i]) == stop_key(a.drop_last()[i]) by {
            assert(b.drop_last()[i] == b[i]);
            assert(a.drop_last()[i] == a[i]);
        }
        lemma_stops_for_keys(a.drop_last(), b.drop_last(), id);
        assert(b[b.len() - 1] == b.last());
        assert(a[a.len() - 1] == a.last());
        let pa = stops_for(a.drop_last(), id);
        let pb = stops_for(b.drop_last(), id);
        if a.last().route_id == id {
            assert(pa.push(a.last()).map_values(|r: RouteStopRow| stop_key(r)) =~= pa.map_values(
                |r: RouteStopRow| stop_key(r),
            ).push(stop_key(a.last())));
            assert(pb.push(b.last()).map_values(|r: RouteStopRow| stop_key(r)) =~= pb.map_values(
                |r: RouteStopRow| stop_key(r),
            ).push(stop_key(b.last())));
        }
    }
}

pub open spec fn has_platform_id(t: Seq<PlatformRow>, id: i64) -> bool {
    exists|k: int| 0 <= k < t.len() && (#[trigger] t[k]).osm_id == id
}

pub open spec fn stop_links_in(ss: Seq<StopPositionRow>, ps: Seq<PlatformRow>) -> bool {
    forall|i: int| 0 <= i < ss.len() && (#[trigger] ss[i]).platform_id is Some ==> has_platform_id(ps, ss[i].platform_id->0)
}

proof fn lemma_stored_platforms_keep_ids(t: Seq<PlatformRow>, es: Seq<OsmElement>, area: i64, m: Map<i64, i64>, id: i64)
    requires
        has_platform_id(t, id),
    ensures
        has_platform_id(stored_platforms(t, es, area, m), id),
    decreases es.len(),
{
    if es.len() > 0 {
        lemma_stored_platforms_keep_ids(t, es.drop_last(), area, m, id);
        let prev = stored_platforms(t, es.drop_last(), area, m);
        match platform_row(es.last(), area, m) {
            Some(r) => {
                lemma_platform_index_matches(prev, r.osm_id, 0);
                let k = choose|k: int| 0 <= k < prev.len() && (#[trigger] prev[k]).osm_id == id;
                let next = upsert_platform(prev, r);
                match platform_index_from(prev, r.osm_id, 0) {
                    Some(i) => {
                        assert(next[k].osm_id == id);
                    },
                    None => {
                        assert(next[k] == prev[k]);
                    },
                }
            },
            None => {},
        }
    }
}

proof fn lemma_stop_index_matches(t: Seq<StopPositionRow>, id: i64, i: int)
    ensures
        stop_index_from(t, id, i) matches Some(k) ==> 0 <= k < t.len() && t[k].osm_id == id,
    decreases t.len() - i,
{
    if 0 <= i < t.len() && t[i].osm_id != id {
        lemma_stop_index_matches(t, id, i + 1);
    }
}

proof fn lemma_stored_stops_keep_links(
    t: Seq<StopPositionRow>,
    es: Seq<OsmElement>,
    area: i64,
    m: Map<i64, i64>,
    ps: Seq<PlatformRow>,
)
    requires
        stop_links_in(t, ps),
    ensures
        stop_links_in(stored_stops(t, es, area, m), ps),
    decreases es.len(),
{
    if es.len() > 0 {
        lemma_stored_stops_keep_links(t, es.drop_last(), area, m, ps);
        let prev = stored_stops(t, es.drop_last(), area, m);
        match stop_row(es.last(), area, m) {
            Some(r) => {
                lemma_stop_index_matches(prev, r.osm_id, 0);
                let next = upsert_stop(prev, r);
                assert forall|i: int| 0 <= i < next.len() && (#[trigger] next[i]).platform_id is Some implies has_platform_id(
                    ps,
                    next[i].platform_id->0,
                ) by {
                    match stop_index_from(prev, r.osm_id, 0) {
                        Some(k) => {
                            if i != k {
                                assert(next[i] == prev[i]);
                            } else {
                                assert(next[i].platform_id == prev[k].platform_id);
                            }
                        },
                        None => {
                            if i < prev.len() {
                                assert(next[i] == prev[i]);
                            }
                        },
                    }
                }
            },
            None => {},
        }
    }
}

/// Where every stop position referred to a stored platform before an area
/// sync, every stop position refers to a stored platform after it.
pub proof fn lemma_sync_keeps_platform_links(
    s0: TopologyStore,
    f: AreaFeatures,
    area: i64,
    mid: TopologyStore,
    s1: TopologyStore,
)
    requires
        stops_reference_platforms(s0),
        mid.platforms@ == stored_platforms(s0.platforms@, f.platforms@, area, station_mappings(f.stations@)),
        mid.stop_positions@ == stored_stops(s0.stop_positions@, f.stop_positions@, area, station_mappings(f.stations@)),
        resolved(mid, s1, area),
    ensures
        stops_reference_platforms(s1),
{
    let m = station_mappings(f.stations@);
    assert forall|i: int| 0 <= i < s0.stop_positions@.len() && (#[trigger] s0.stop_positions@[i]).platform_id is Some implies has_platform_id(
        mid.platforms@,
        s0.stop_positions@[i].platform_id->0,
    ) by {
        let pid = s0.stop_positions@[i].platform_id->0;
        let j = choose|j: int| 0 <= j < s0.platforms@.len() && (#[trigger] s0.platforms@[j]).osm_id == pid;
        assert(has_platform_id(s0.platforms@, pid));
        lemma_stored_platforms_keep_ids(s0.platforms@, f.platforms@, area, m, pid);
    }
    lemma_stored_stops_keep_links(s0.stop_positions@, f.stop_positions@, area, m, mid.platforms@);
    assert(stops_reference_platforms(mid)) by {
        assert forall|i: int| 0 <= i < mid.stop_positions@.len() && (#[trigger] mid.stop_positions@[i]).platform_id is Some implies exists|j: int|
            0 <= j < mid.platforms@.len() && (#[trigger] mid.platforms@[j]).osm_id == mid.stop_positions@[i].platform_id->0 by {
            assert(has_platform_id(mid.platforms@, mid.stop_positions@[i].platform_id->0));
        }
    }
    lemma_resolution_keeps_platform_links(mid, s1, area);
}

} // verus!
