//! Live vehicle positions: per-vehicle state refreshed from the departure
//! feed, aged out when a vehicle stops appearing, and interpolated along the
//! line's geometry between two confirmed stops.
use vstd::prelude::*;
use crate::efa::{coord_point, read_coord, stations_wf, Platform, Station};
use crate::geo::{haversine_distance, haversine_mm, GeoPoint, FX};
use crate::time::{minutes_between, parse_rfc3339, rfc3339_seconds, whole_minutes};

verus! {

/// How far (in millimetres) a stop may lie from the line geometry and still
/// be matched to one of its points.
pub const MATCH_RADIUS_MM: u64 = 500_000;

/// Status of a tracked vehicle.
#[derive(Clone, Copy, Debug, PartialEq, Eq, Structural)]
pub enum TramStatus {
    /// Its next departure is more than five minutes away.
    AtStation,
    /// It has left, or leaves within five minutes.
    EnRoute,
    /// It has not been in the feed for up to an hour.
    Stale,
    /// It has not been in the feed for over an hour.
    InDepot,
}

/// One vehicle of the departure feed.
pub struct VehicleInfo {
    pub vehicle_id: String,
    pub trip_code: i64,
    pub physical_vehicle_id: Option<String>,
    pub line_number: String,
    pub destination: String,
    pub origin: Option<String>,
    pub current_stop_id: String,
    pub current_stop_name: String,
    pub next_stop_id: Option<String>,
    pub next_stop_name: Option<String>,
    /// Planned departure from the current stop, RFC 3339.
    pub last_departure_planned: String,
    pub delay_minutes: Option<i32>,
}

/// A stop on a vehicle's route.
pub struct StopInfo {
    pub stop_id: String,
    pub stop_name: String,
    pub coordinates: GeoPoint,
}

/// A stop at which the vehicle was seen, with its times in seconds since the epoch.
pub struct ConfirmedStop {
    pub stop_id: String,
    pub stop_name: String,
    pub coordinates: GeoPoint,
    pub arrival_time: i64,
    pub departure_time: Option<i64>,
}

/// Geometry between two stops.
pub struct SegmentInfo {
    pub from_stop_id: String,
    pub to_stop_id: String,
    pub geometry: Vec<GeoPoint>,
    pub length_mm: u64,
}

/// What the tracker holds of one vehicle.
pub struct TramState {
    pub vehicle_id: String,
    pub trip_code: i64,
    pub physical_vehicle_id: Option<String>,
    pub line_number: String,
    pub destination: String,
    pub origin: Option<String>,
    pub current_position: GeoPoint,
    /// Progress along the current segment, scaled so that `FX` is the whole segment.
    pub progress_on_segment: u64,
    pub current_stop_index: usize,
    pub last_confirmed_stop: Option<ConfirmedStop>,
    pub next_confirmed_stop: Option<ConfirmedStop>,
    pub last_update: i64,
    pub last_seen_in_feed: i64,
    pub status: TramStatus,
    pub delay_minutes: Option<i32>,
}

/// The estimated position of one vehicle.
pub struct VehiclePosition {
    pub vehicle_id: String,
    pub line_number: String,
    pub line_name: String,
    pub destination: String,
    /// Progress from `from_station_id` to `to_station_id`, scaled so that `FX` is arrival.
    pub progress: u64,
    pub from_station_id: String,
    pub to_station_id: String,
    pub geometry_segment: Vec<GeoPoint>,
    pub departure_time: i64,
    pub arrival_time: i64,
    pub delay: Option<i32>,
    pub calculated_at: i64,
}

pub struct VehiclePositionsResponse {
    pub vehicles: Vec<VehiclePosition>,
    pub timestamp: i64,
}

/// The geometry of one line, as a list of polylines.
pub struct LineGeometry {
    pub line_number: String,
    pub segments: Vec<Vec<GeoPoint>>,
}

pub fn copy_opt_string(s: &Option<String>) -> (r: Option<String>)
    ensures
        r == *s,
{
    match s {
        Some(x) => Some(x.clone()),
        None => None,
    }
}

pub fn copy_points(v: &Vec<GeoPoint>) -> (r: Vec<GeoPoint>)
    ensures
        r@ == v@,
{
    let mut r: Vec<GeoPoint> = Vec::new();
    let mut i: usize = 0;
    while i < v.len()
        invariant
            i <= v@.len(),
            r@ == v@.subrange(0, i as int),
        decreases v@.len() - i,
    {
        r.push(v[i]);
        i = i + 1;
    }
    assert(r@ =~= v@);
    r
}

impl ConfirmedStop {
    pub fn copy(&self) -> (r: ConfirmedStop)
        ensures
            r == *self,
    {
        ConfirmedStop {
            stop_id: self.stop_id.clone(),
            stop_name: self.stop_name.clone(),
            coordinates: self.coordinates,
            arrival_time: self.arrival_time,
            departure_time: self.departure_time,
        }
    }
}

pub fn copy_opt_confirmed(c: &Option<ConfirmedStop>) -> (r: Option<ConfirmedStop>)
    ensures
        r == *c,
{
    match c {
        Some(x) => Some(x.copy()),
        None => None,
    }
}

/// Direct look-up: the coordinate of the first station with this id, if it has one.
pub open spec fn direct_coord(id: Seq<char>, s: Seq<Station>) -> Option<GeoPoint>
    decreases s.len(),
{
    if s.len() == 0 {
        None
    } else if s[0].station_id@ == id {
        coord_point(s[0].coord)
    } else {
        direct_coord(id, s.drop_first())
    }
}

/// The coordinate of the first platform in `ps` with this id and a coordinate.
pub open spec fn platform_coord_in(id: Seq<char>, ps: Seq<Platform>) -> Option<GeoPoint>
    decreases ps.len(),
{
    if ps.len() == 0 {
        None
    } else if ps[0].id@ == id && coord_point(ps[0].coord) is Some {
        coord_point(ps[0].coord)
    } else {
        platform_coord_in(id, ps.drop_first())
    }
}

/// The coordinate of the first platform of any station with this id and a coordinate.
pub open spec fn platform_coord(id: Seq<char>, s: Seq<Station>) -> Option<GeoPoint>
    decreases s.len(),
{
    if s.len() == 0 {
        None
    } else {
        match platform_coord_in(id, s[0].platforms@) {
            Some(p) => Some(p),
            None => platform_coord(id, s.drop_first()),
        }
    }
}

/// The `[lon, lat]` point of a stop: the station of that id, else a platform
/// of that id, else `[0, 0]`.
pub open spec fn stop_coords(id: Seq<char>, s: Seq<Station>) -> GeoPoint {
    match direct_coord(id, s) {
        Some(p) => p,
        None => match platform_coord(id, s) {
            Some(p) => p,
            None => GeoPoint { lon: 0, lat: 0 },
        },
    }
}

proof fn lemma_direct_coord_wf(id: Seq<char>, s: Seq<Station>)
    requires
        stations_wf(s),
    ensures
        direct_coord(id, s) matches Some(p) ==> p.wf(),
    decreases s.len(),
{
    if s.len() > 0 {
        assert(s[0].wf());
        assert(stations_wf(s.drop_first())) by {
            assert forall|i: int| 0 <= i < s.drop_first().len() implies (#[trigger] s.drop_first()[i]).wf() by {
                assert(s.drop_first()[i] == s[i + 1]);
            }
        }
        lemma_direct_coord_wf(id, s.drop_first());
    }
}

proof fn lemma_platform_coord_in_wf(id: Seq<char>, ps: Seq<Platform>)
    requires
        forall|j: int| 0 <= j < ps.len() ==> crate::efa::coord_wf(#[trigger] ps[j].coord),
    ensures
        platform_coord_in(id, ps) matches Some(p) ==> p.wf(),
    decreases ps.len(),
{
    if ps.len() > 0 {
        assert(crate::efa::coord_wf(ps[0].coord));
        assert forall|j: int| 0 <= j < ps.drop_first().len() implies crate::efa::coord_wf(
            #[trigger] ps.drop_first()[j].coord,
        ) by {
            assert(ps.drop_first()[j] == ps[j + 1]);
        }
        lemma_platform_coord_in_wf(id, ps.drop_first());
    }
}

proof fn lemma_platform_coord_wf(id: Seq<char>, s: Seq<Station>)
    requires
        stations_wf(s),
    ensures
        platform_coord(id, s) matches Some(p) ==> p.wf(),
    decreases s.len(),
{
    if s.len() > 0 {
        assert(s[0].wf());
        lemma_platform_coord_in_wf(id, s[0].platforms@);
        assert(stations_wf(s.drop_first())) by {
            assert forall|i: int| 0 <= i < s.drop_first().len() implies (#[trigger] s.drop_first()[i]).wf() by {
                assert(s.drop_first()[i] == s[i + 1]);
            }
        }
        lemma_platform_coord_wf(id, s.drop_first());
    }
}

/// The point that a stop look-up gives is valid.
pub proof fn lemma_stop_coords_wf(id: Seq<char>, s: Seq<Station>)
    requires
        stations_wf(s),
    ensures
        stop_coords(id, s).wf(),
{
    lemma_direct_coord_wf(id, s);
    lemma_platform_coord_wf(id, s);
}

fn platform_coord_exec(stop_id: &String, ps: &Vec<Platform>) -> (r: Option<GeoPoint>)
    ensures
        r == platform_coord_in(stop_id@, ps@),
{
    let mut i: usize = 0;
    assert(ps@.subrange(0, ps@.len() as int) =~= ps@);
    while i < ps.len()
        invariant
            i <= ps@.len(),
            platform_coord_in(stop_id@, ps@) == platform_coord_in(
                stop_id@,
                ps@.subrange(i as int, ps@.len() as int),
            ),
        decreases ps@.len() - i,
    {
        let ghost rest = ps@.subrange(i as int, ps@.len() as int);
        assert(rest.drop_first() =~= ps@.subrange(i + 1, ps@.len() as int));
        assert(rest[0] == ps@[i as int]);
        if ps[i].id == *stop_id {
            let c = read_coord(&ps[i].coord);
            if c.is_some() {
                return c;
            }
        }
        i = i + 1;
    }
    None
}

fn direct_coord_exec(stop_id: &String, stations: &Vec<Station>) -> (r: Option<GeoPoint>)
    ensures
        r == direct_coord(stop_id@, stations@),
{
    let n = stations.len();
    let mut i: usize = 0;
    assert(stations@.subrange(0, n as int) =~= stations@);
    while i < n
        invariant
            n == stations@.len(),
            i <= n,
            direct_coord(stop_id@, stations@) == direct_coord(
                stop_id@,
                stations@.subrange(i as int, n as int),
            ),
        decreases n - i,
    {
        let ghost rest = stations@.subrange(i as int, n as int);
        assert(rest.drop_first() =~= stations@.subrange(i + 1, n as int));
        assert(rest[0] == stations@[i as int]);
        if stations[i].station_id == *stop_id {
            return read_coord(&stations[i].coord);
        }
        i = i + 1;
    }
    None
}

/// The `[lon, lat]` coordinates of a stop, `[0, 0]` where it is not known.
pub fn lookup_station_coordinates(stop_id: &String, stations: &Vec<Station>) -> (r: GeoPoint)
    ensures
        r == stop_coords(stop_id@, stations@),
{
    if let Some(p) = direct_coord_exec(stop_id, stations) {
        return p;
    }
    let n = stations.len();
    let mut k: usize = 0;
    assert(stations@.subrange(0, n as int) =~= stations@);
    while k < n
        invariant
            n == stations@.len(),
            k <= n,
            direct_coord(stop_id@, stations@) is None,
            platform_coord(stop_id@, stations@) == platform_coord(
                stop_id@,
                stations@.subrange(k as int, n as int),
            ),
        decreases n - k,
    {
        let ghost rest = stations@.subrange(k as int, n as int);
        assert(rest.drop_first() =~= stations@.subrange(k + 1, n as int));
        assert(rest[0] == stations@[k as int]);
        let found = platform_coord_exec(stop_id, &stations[k].platforms);
        if let Some(p) = found {
            return p;
        }
        k = k + 1;
    }
    GeoPoint::origin()
}

/// Every point of every line geometry is valid.
pub open spec fn geometries_wf(g: Seq<LineGeometry>) -> bool {
    forall|i: int, k: int, j: int|
        0 <= i < g.len() && 0 <= k < g[i].segments@.len() && 0 <= j < g[i].segments@[k]@.len()
            ==> (#[trigger] g[i].segments@[k]@[j]).wf()
}

/// The polylines of the first geometry recorded for `line`.
pub open spec fn line_segments(g: Seq<LineGeometry>, line: Seq<char>) -> Option<Seq<Vec<GeoPoint>>>
    decreases g.len(),
{
    if g.len() == 0 {
        None
    } else if g[0].line_number@ == line {
        Some(g[0].segments@)
    } else {
        line_segments(g.drop_first(), line)
    }
}

/// All polylines joined into one, in order.
pub open spec fn flatten(segs: Seq<Vec<GeoPoint>>) -> Seq<GeoPoint>
    decreases segs.len(),
{
    if segs.len() == 0 {
        Seq::empty()
    } else {
        flatten(segs.drop_last()) + segs.last()@
    }
}

/// Among the first `n` points, the first one nearest to `target` that lies
/// closer than `max_mm`, with its distance.
pub open spec fn closest_in(pts: Seq<GeoPoint>, target: GeoPoint, max_mm: int, n: int) -> Option<(int, int)>
    decreases n,
{
    if n <= 0 {
        None
    } else {
        let prev = closest_in(pts, target, max_mm, n - 1);
        let d = haversine_mm(pts[n - 1], target);
        let nearer = match prev {
            Some(b) => d < b.1,
            None => true,
        };
        if d < max_mm && nearer {
            Some((n - 1, d))
        } else {
            prev
        }
    }
}

/// Index of the first point nearest to `target` among those closer than `max_mm`.
pub open spec fn closest_index(pts: Seq<GeoPoint>, target: GeoPoint, max_mm: int) -> Option<int> {
    match closest_in(pts, target, max_mm, pts.len() as int) {
        Some(x) => Some(x.0),
        None => None,
    }
}

/// The part of the line's geometry between the points nearest to two stops,
/// in travel order; empty where the line, a stop, or a match is missing.
pub open spec fn segment_between(
    g: Seq<LineGeometry>,
    from_id: Seq<char>,
    to_id: Seq<char>,
    line: Seq<char>,
    st: Seq<Station>,
) -> Seq<GeoPoint> {
    match line_segments(g, line) {
        None => Seq::empty(),
        Some(segs) => {
            let a = stop_coords(from_id, st);
            let b = stop_coords(to_id, st);
            let origin = GeoPoint { lon: 0, lat: 0 };
            if a == origin || b == origin {
                Seq::empty()
            } else {
                let pts = flatten(segs);
                match (
                    closest_index(pts, a, MATCH_RADIUS_MM as int),
                    closest_index(pts, b, MATCH_RADIUS_MM as int),
                ) {
                    (Some(i), Some(j)) => if i < j {
                        pts.subrange(i, j + 1)
                    } else if i > j {
                        pts.subrange(j, i + 1).reverse()
                    } else {
                        seq![a, b]
                    },
                    _ => Seq::empty(),
                }
            }
        },
    }
}

proof fn lemma_flatten_wf(segs: Seq<Vec<GeoPoint>>)
    requires
        forall|k: int, j: int| 0 <= k < segs.len() && 0 <= j < segs[k]@.len() ==> (#[trigger] segs[k]@[j]).wf(),
    ensures
        forall|j: int| 0 <= j < flatten(segs).len() ==> (#[trigger] flatten(segs)[j]).wf(),
    decreases segs.len(),
{
    if segs.len() > 0 {
        let init = segs.drop_last();
        assert forall|k: int, j: int| 0 <= k < init.len() && 0 <= j < init[k]@.len() implies (#[trigger] init[k]@[j]).wf() by {
            assert(init[k] == segs[k]);
        }
        lemma_flatten_wf(init);
        let f = flatten(segs);
        assert forall|j: int| 0 <= j < f.len() implies (#[trigger] f[j]).wf() by {
            if j >= flatten(init).len() {
                assert(f[j] == segs.last()@[j - flatten(init).len()]);
                assert(segs[segs.len() - 1]@[j - flatten(init).len()].wf());
            }
        }
    }
}

fn find_line(g: &Vec<LineGeometry>, line: &String) -> (r: Option<usize>)
    ensures
        match r {
            Some(i) => i < g@.len() && line_segments(g@, line@) == Some(g@[i as int].segments@),
            None => line_segments(g@, line@) is None,
        },
{
    let n = g.len();
    let mut i: usize = 0;
    assert(g@.subrange(0, n as int) =~= g@);
    while i < n
        invariant
            n == g@.len(),
            i <= n,
            line_segments(g@, line@) == line_segments(g@.subrange(i as int, n as int), line@),
        decreases n - i,
    {
        let ghost rest = g@.subrange(i as int, n as int);
        assert(rest.drop_first() =~= g@.subrange(i + 1, n as int));
        assert(rest[0] == g@[i as int]);
        if g[i].line_number == *line {
            return Some(i);
        }
        i = i + 1;
    }
    None
}

fn flatten_exec(segs: &Vec<Vec<GeoPoint>>) -> (r: Vec<GeoPoint>)
    ensures
        r@ == flatten(segs@),
{
    let mut r: Vec<GeoPoint> = Vec::new();
    let mut k: usize = 0;
    while k < segs.len()
        invariant
            k <= segs@.len(),
            r@ == flatten(segs@.subrange(0, k as int)),
        decreases segs@.len() - k,
    {
        let seg = &segs[k];
        let ghost before = r@;
        let mut j: usize = 0;
        while j < seg.len()
            invariant
                j <= seg@.len(),
                r@ == before + seg@.subrange(0, j as int),
            decreases seg@.len() - j,
        {
            r.push(seg[j]);
            j = j + 1;
            assert(r@ =~= before + seg@.subrange(0, j as int));
        }
        assert(seg@.subrange(0, j as int) =~= seg@);
        assert(segs@.subrange(0, k + 1).drop_last() =~= segs@.subrange(0, k as int));
        k = k + 1;
    }
    assert(segs@.subrange(0, k as int) =~= segs@);
    r
}

/// Index of the first point nearest to `target` among those closer than `max_mm`.
pub fn find_closest_point_index(points: &Vec<GeoPoint>, target: GeoPoint, max_mm: u64) -> (r: Option<usize>)
    requires
        target.wf(),
        forall|j: int| 0 <= j < points@.len() ==> (#[trigger] points@[j]).wf(),
    ensures
        match r {
            Some(i) => closest_index(points@, target, max_mm as int) == Some(i as int),
            None => closest_index(points@, target, max_mm as int) is None,
        },
{
    let mut best: Option<(usize, u64)> = None;
    let mut i: usize = 0;
    while i < points.len()
        invariant
            target.wf(),
            forall|j: int| 0 <= j < points@.len() ==> (#[trigger] points@[j]).wf(),
            i <= points@.len(),
            match best {
                Some(b) => closest_in(points@, target, max_mm as int, i as int) == Some((b.0 as int, b.1 as int)),
                None => closest_in(points@, target, max_mm as int, i as int) is None,
            },
        decreases points@.len() - i,
    {
        let d = haversine_distance(points[i], target);
        let better = match best {
            Some(b) => d < b.1,
            None => true,
        };
        if d < max_mm && better {
            best = Some((i, d));
        }
        i = i + 1;
    }
    match best {
        Some(b) => Some(b.0),
        None => None,
    }
}

fn reversed_range(pts: &Vec<GeoPoint>, lo: usize, hi: usize) -> (r: Vec<GeoPoint>)
    requires
        lo <= hi < pts@.len(),
    ensures
        r@ == pts@.subrange(lo as int, hi + 1).reverse(),
{
    let n = pts.len();
    let mut r: Vec<GeoPoint> = Vec::new();
    let mut k: usize = hi + 1;
    while k > lo
        invariant
            lo <= k <= hi + 1,
            hi < pts@.len(),
            r@.len() == hi + 1 - k,
            forall|m: int| 0 <= m < r@.len() ==> #[trigger] r@[m] == pts@[hi - m],
        decreases k - lo,
    {
        k = k - 1;
        r.push(pts[k]);
    }
    assert(r@ =~= pts@.subrange(lo as int, hi + 1).reverse());
    r
}

fn copy_range(pts: &Vec<GeoPoint>, lo: usize, hi: usize) -> (r: Vec<GeoPoint>)
    requires
        lo <= hi < pts@.len(),
    ensures
        r@ == pts@.subrange(lo as int, hi + 1),
{
    let n = pts.len();
    let mut r: Vec<GeoPoint> = Vec::new();
    let mut k: usize = lo;
    while k <= hi
        invariant
            n == pts@.len(),
            lo <= k <= hi + 1,
            hi < pts@.len(),
            r@ == pts@.subrange(lo as int, k as int),
        decreases hi + 1 - k,
    {
        r.push(pts[k]);
        k = k + 1;
        assert(r@ =~= pts@.subrange(lo as int, k as int));
    }
    r
}

/// The part of `line`'s geometry between two stops, in travel order.
pub fn extract_geometry_segment(
    geometries: &Vec<LineGeometry>,
    from_station_id: &String,
    to_station_id: &String,
    line_number: &String,
    stations: &Vec<Station>,
) -> (r: Vec<GeoPoint>)
    requires
        geometries_wf(geometries@),
        stations_wf(stations@),
    ensures
        r@ == segment_between(geometries@, from_station_id@, to_station_id@, line_number@, stations@),
{
    let li = match find_line(geometries, line_number) {
        Some(i) => i,
        None => {
            return Vec::new();
        },
    };
    let from_coord = lookup_station_coordinates(from_station_id, stations);
    let to_coord = lookup_station_coordinates(to_station_id, stations);
    if from_coord.is_origin() || to_coord.is_origin() {
        return Vec::new();
    }
    proof {
        lemma_stop_coords_wf(from_station_id@, stations@);
        lemma_stop_coords_wf(to_station_id@, stations@);
        let segs = geometries@[li as int].segments@;
        assert forall|k: int, j: int| 0 <= k < segs.len() && 0 <= j < segs[k]@.len() implies (#[trigger] segs[k]@[j]).wf() by {
            assert(geometries@[li as int].segments@[k]@[j].wf());
        }
        lemma_flatten_wf(segs);
    }
    let all_points = flatten_exec(&geometries[li].segments);
    let from_index = find_closest_point_index(&all_points, from_coord, MATCH_RADIUS_MM);
    let to_index = find_closest_point_index(&all_points, to_coord, MATCH_RADIUS_MM);
    match (from_index, to_index) {
        (Some(i), Some(j)) => {
            proof {
                assert(closest_in(all_points@, from_coord, MATCH_RADIUS_MM as int, all_points@.len() as int) is Some);
                lemma_closest_in_range(all_points@, from_coord, MATCH_RADIUS_MM as int, all_points@.len() as int);
                lemma_closest_in_range(all_points@, to_coord, MATCH_RADIUS_MM as int, all_points@.len() as int);
            }
            if i < j {
                copy_range(&all_points, i, j)
            } else if i > j {
                reversed_range(&all_points, j, i)
            } else {
                let mut r: Vec<GeoPoint> = Vec::new();
                r.push(from_coord);
                r.push(to_coord);
                assert(r@ =~= seq![from_coord, to_coord]);
                r
            }
        },
        _ => Vec::new(),
    }
}

proof fn lemma_closest_in_range(pts: Seq<GeoPoint>, target: GeoPoint, max_mm: int, n: int)
    requires
        n <= pts.len(),
    ensures
        closest_in(pts, target, max_mm, n) matches Some(x) ==> 0 <= x.0 < n,
    decreases n,
{
    if n > 0 {
        lemma_closest_in_range(pts, target, max_mm, n - 1);
    }
}

/// Whole seconds of travel for `d_mm` millimetres at 20 km/h.
pub open spec fn travel_seconds(d_mm: int) -> int {
    d_mm * 180 / 1_000_000
}

/// Waiting at the stop where the planned departure is more than five whole
/// minutes ahead; en route otherwise.
pub open spec fn status_for(now: int, departure: int) -> TramStatus {
    if minutes_between(now, departure) < -5 {
        TramStatus::AtStation
    } else {
        TramStatus::EnRoute
    }
}

/// The state of a vehicle seen for the first time.
pub open spec fn fresh_state(v: VehicleInfo, now: i64) -> TramState {
    TramState {
        vehicle_id: v.vehicle_id,
        trip_code: v.trip_code,
        physical_vehicle_id: v.physical_vehicle_id,
        line_number: v.line_number,
        destination: v.destination,
        origin: v.origin,
        current_position: GeoPoint { lon: 0, lat: 0 },
        progress_on_segment: 0,
        current_stop_index: 0,
        last_confirmed_stop: None,
        next_confirmed_stop: None,
        last_update: now,
        last_seen_in_feed: now,
        status: TramStatus::EnRoute,
        delay_minutes: v.delay_minutes,
    }
}

/// The state of a tracked vehicle after it was seen again in the feed.
pub open spec fn refreshed(t: TramState, v: VehicleInfo, now: i64, st: Seq<Station>) -> TramState {
    let base = TramState { last_seen_in_feed: now, delay_minutes: v.delay_minutes, last_update: now, ..t };
    match rfc3339_seconds(v.last_departure_planned@) {
        None => base,
        Some(dep) => {
            let from = stop_coords(v.current_stop_id@, st);
            TramState {
                status: status_for(now as int, dep as int),
                last_confirmed_stop: Some(
                    ConfirmedStop {
                        stop_id: v.current_stop_id,
                        stop_name: v.current_stop_name,
                        coordinates: from,
                        arrival_time: dep,
                        departure_time: Some(dep),
                    },
                ),
                next_confirmed_stop: match (v.next_stop_id, v.next_stop_name) {
                    (Some(id), Some(name)) => {
                        let to = stop_coords(id@, st);
                        Some(
                            ConfirmedStop {
                                stop_id: id,
                                stop_name: name,
                                coordinates: to,
                                arrival_time: (dep + travel_seconds(haversine_mm(from, to))) as i64,
                                departure_time: None,
                            },
                        )
                    },
                    _ => t.next_confirmed_stop,
                },
                ..base
            }
        },
    }
}

impl TramState {
    /// The state of a vehicle seen for the first time.
    pub fn from_vehicle_info(vehicle: &VehicleInfo, now: i64) -> (r: TramState)
        ensures
            r == fresh_state(*vehicle, now),
    {
        TramState {
            vehicle_id: vehicle.vehicle_id.clone(),
            trip_code: vehicle.trip_code,
            physical_vehicle_id: copy_opt_string(&vehicle.physical_vehicle_id),
            line_number: vehicle.line_number.clone(),
            destination: vehicle.destination.clone(),
            origin: copy_opt_string(&vehicle.origin),
            current_position: GeoPoint::origin(),
            progress_on_segment: 0,
            current_stop_index: 0,
            last_confirmed_stop: None,
            next_confirmed_stop: None,
            last_update: now,
            last_seen_in_feed: now,
            status: TramStatus::EnRoute,
            delay_minutes: vehicle.delay_minutes,
        }
    }

    /// Departure between two whole minutes ago and ten whole minutes ahead.
    pub fn is_at_station(&self, departure_time: i64, now: i64) -> (r: bool)
        ensures
            r == (-2 <= minutes_between(departure_time as int, now as int) <= 10),
    {
        let diff = whole_minutes(departure_time, now);
        diff >= -2 && diff <= 10
    }

    /// Departure more than two whole minutes ago.
    pub fn is_en_route(&self, departure_time: i64, now: i64) -> (r: bool)
        ensures
            r == (minutes_between(now as int, departure_time as int) > 2),
    {
        whole_minutes(now, departure_time) > 2
    }

    pub fn copy(&self) -> (r: TramState)
        ensures
            r == *self,
    {
        TramState {
            vehicle_id: self.vehicle_id.clone(),
            trip_code: self.trip_code,
            physical_vehicle_id: copy_opt_string(&self.physical_vehicle_id),
            line_number: self.line_number.clone(),
            destination: self.destination.clone(),
            origin: copy_opt_string(&self.origin),
            current_position: self.current_position,
            progress_on_segment: self.progress_on_segment,
            current_stop_index: self.current_stop_index,
            last_confirmed_stop: copy_opt_confirmed(&self.last_confirmed_stop),
            next_confirmed_stop: copy_opt_confirmed(&self.next_confirmed_stop),
            last_update: self.last_update,
            last_seen_in_feed: self.last_seen_in_feed,
            status: self.status,
            delay_minutes: self.delay_minutes,
        }
    }
}

/// Refreshes a tracked vehicle from its feed entry.
pub fn update_tram_from_vehicle(
    tram: &mut TramState,
    vehicle: &VehicleInfo,
    now: i64,
    stations: &Vec<Station>,
)
    requires
        stations_wf(stations@),
    ensures
        *final(tram) == refreshed(*old(tram), *vehicle, now, stations@),
{
    tram.last_seen_in_feed = now;
    tram.delay_minutes = vehicle.delay_minutes;
    if let Some(dep) = parse_rfc3339(vehicle.last_departure_planned.as_str()) {
        let from = lookup_station_coordinates(&vehicle.current_stop_id, stations);
        let minutes = whole_minutes(now, dep);
        if minutes < -5 {
            tram.status = TramStatus::AtStation;
        } else {
            tram.status = TramStatus::EnRoute;
        }
        tram.last_confirmed_stop = Some(
            ConfirmedStop {
                stop_id: vehicle.current_stop_id.clone(),
                stop_name: vehicle.current_stop_name.clone(),
                coordinates: from,
                arrival_time: dep,
                departure_time: Some(dep),
            },
        );
        match (&vehicle.next_stop_id, &vehicle.next_stop_name) {
            (Some(id), Some(name)) => {
                let to = lookup_station_coordinates(id, stations);
                proof {
                    lemma_stop_coords_wf(vehicle.current_stop_id@, stations@);
                    lemma_stop_coords_wf(id@, stations@);
                }
                let d = haversine_distance(from, to);
                let travel: i64 = (d * 180 / 1_000_000) as i64;
                tram.next_confirmed_stop = Some(
                    ConfirmedStop {
                        stop_id: id.clone(),
                        stop_name: name.clone(),
                        coordinates: to,
                        arrival_time: dep + travel,
                        departure_time: None,
                    },
                );
            },
            _ => {},
        }
    }
    tram.last_update = now;
}

/// Index of the first tracked vehicle with this id, searching from `i` on.
pub open spec fn tram_index(ts: Seq<TramState>, id: Seq<char>, i: int) -> Option<int>
    decreases ts.len() - i,
{
    if i < 0 || i >= ts.len() {
        None
    } else if ts[i].vehicle_id@ == id {
        Some(i)
    } else {
        tram_index(ts, id, i + 1)
    }
}

/// The tracked set after one feed entry: the vehicle is refreshed if tracked, added otherwise.
pub open spec fn ingest_one(ts: Seq<TramState>, v: VehicleInfo, now: i64, st: Seq<Station>) -> Seq<TramState> {
    match tram_index(ts, v.vehicle_id@, 0) {
        Some(i) => ts.update(i, refreshed(ts[i], v, now, st)),
        None => ts.push(fresh_state(v, now)),
    }
}

/// The tracked set after all feed entries, in order.
pub open spec fn ingest(ts: Seq<TramState>, vs: Seq<VehicleInfo>, now: i64, st: Seq<Station>) -> Seq<TramState>
    decreases vs.len(),
{
    if vs.len() == 0 {
        ts
    } else {
        ingest_one(ingest(ts, vs.drop_last(), now, st), vs.last(), now, st)
    }
}

pub open spec fn in_feed(vs: Seq<VehicleInfo>, id: Seq<char>) -> bool {
    exists|j: int| 0 <= j < vs.len() && (#[trigger] vs[j]).vehicle_id@ == id
}

/// A vehicle missing from the feed turns stale while it was last seen at most
/// sixty whole minutes ago, and is dropped otherwise.
pub open spec fn aged(t: TramState, vs: Seq<VehicleInfo>, now: i64) -> Option<TramState> {
    if in_feed(vs, t.vehicle_id@) {
        Some(t)
    } else {
        let m = minutes_between(now as int, t.last_seen_in_feed as int);
        if 0 <= m <= 60 {
            Some(TramState { status: TramStatus::Stale, ..t })
        } else {
            None
        }
    }
}

pub open spec fn age_out(ts: Seq<TramState>, vs: Seq<VehicleInfo>, now: i64) -> Seq<TramState>
    decreases ts.len(),
{
    if ts.len() == 0 {
        Seq::empty()
    } else {
        let r = age_out(ts.drop_last(), vs, now);
        match aged(ts.last(), vs, now) {
            Some(t) => r.push(t),
            None => r,
        }
    }
}

/// Time-based progress from `dep` to `arr` at `now`, clamped to `[0, FX]`;
/// zero where the interval is empty.
pub open spec fn progress_fx(now: int, dep: int, arr: int) -> int {
    let total = arr - dep;
    let elapsed = now - dep;
    if total <= 0 || elapsed <= 0 {
        0
    } else if elapsed >= total {
        FX as int
    } else {
        elapsed * FX / total
    }
}

/// A position is emitted for a vehicle at a station or en route with both
/// confirmed stops known (and, en route, the departure from the last one).
pub open spec fn emits(t: TramState) -> bool {
    match t.status {
        TramStatus::AtStation => t.last_confirmed_stop is Some && t.next_confirmed_stop is Some,
        TramStatus::EnRoute => t.last_confirmed_stop is Some && t.next_confirmed_stop is Some
            && t.last_confirmed_stop->0.departure_time is Some,
        _ => false,
    }
}

pub open spec fn position_matches(
    p: VehiclePosition,
    t: TramState,
    now: i64,
    g: Seq<LineGeometry>,
    st: Seq<Station>,
) -> bool {
    let c = t.last_confirmed_stop->0;
    let n = t.next_confirmed_stop->0;
    &&& p.vehicle_id == t.vehicle_id
    &&& p.line_number == t.line_number
    &&& p.line_name@ == "Straßenbahn "@ + t.line_number@
    &&& p.destination == t.destination
    &&& p.from_station_id == c.stop_id
    &&& p.to_station_id == n.stop_id
    &&& p.geometry_segment@ == segment_between(g, c.stop_id@, n.stop_id@, t.line_number@, st)
    &&& p.arrival_time == n.arrival_time
    &&& p.delay == t.delay_minutes
    &&& p.calculated_at == now
    &&& if t.status == TramStatus::AtStation {
        p.progress == 0 && p.departure_time == c.arrival_time
    } else {
        p.progress == progress_fx(now as int, c.departure_time->0 as int, n.arrival_time as int)
            && p.departure_time == c.departure_time->0
    }
}

/// The vehicles that get a position, in order.
pub open spec fn emitting(ts: Seq<TramState>) -> Seq<TramState>
    decreases ts.len(),
{
    if ts.len() == 0 {
        Seq::empty()
    } else if emits(ts.last()) {
        emitting(ts.drop_last()).push(ts.last())
    } else {
        emitting(ts.drop_last())
    }
}

/// `ps` holds one position for each vehicle that gets one, in order.
pub open spec fn positions_for(
    ps: Seq<VehiclePosition>,
    ts: Seq<TramState>,
    now: i64,
    g: Seq<LineGeometry>,
    st: Seq<Station>,
) -> bool {
    &&& ps.len() == emitting(ts).len()
    &&& forall|i: int| 0 <= i < ps.len() ==> position_matches(#[trigger] ps[i], emitting(ts)[i], now, g, st)
}

fn progress_between(now: i64, dep: i64, arr: i64) -> (r: u64)
    ensures
        r == progress_fx(now as int, dep as int, arr as int),
        r <= FX,
{
    let total: i128 = arr as i128 - dep as i128;
    let elapsed: i128 = now as i128 - dep as i128;
    if total <= 0 || elapsed <= 0 {
        0
    } else if elapsed >= total {
        FX as u64
    } else {
        assert(elapsed * (FX as i128) < total * (FX as i128)) by (nonlinear_arith)
            requires
                0 < elapsed < total,
        ;
        assert(elapsed * (FX as i128) <= 0x1_0000_0000_0000_0000 * (FX as i128)) by (nonlinear_arith)
            requires
                0 < elapsed <= 0x1_0000_0000_0000_0000,
        ;
        let q = elapsed * (FX as i128) / total;
        proof {
            vstd::arithmetic::div_mod::lemma_multiply_divide_lt(elapsed * (FX as i128), total as int, FX as int);
            vstd::arithmetic::div_mod::lemma_div_pos_is_pos(elapsed * (FX as i128), total as int);
        }
        q as u64
    }
}

pub fn copy_position(p: &VehiclePosition) -> (r: VehiclePosition)
    ensures
        r.vehicle_id == p.vehicle_id,
        r.line_number == p.line_number,
        r.line_name == p.line_name,
        r.destination == p.destination,
        r.progress == p.progress,
        r.from_station_id == p.from_station_id,
        r.to_station_id == p.to_station_id,
        r.geometry_segment@ == p.geometry_segment@,
        r.departure_time == p.departure_time,
        r.arrival_time == p.arrival_time,
        r.delay == p.delay,
        r.calculated_at == p.calculated_at,
{
    VehiclePosition {
        vehicle_id: p.vehicle_id.clone(),
        line_number: p.line_number.clone(),
        line_name: p.line_name.clone(),
        destination: p.destination.clone(),
        progress: p.progress,
        from_station_id: p.from_station_id.clone(),
        to_station_id: p.to_station_id.clone(),
        geometry_segment: copy_points(&p.geometry_segment),
        departure_time: p.departure_time,
        arrival_time: p.arrival_time,
        delay: p.delay,
        calculated_at: p.calculated_at,
    }
}

/// In-memory state of every tracked vehicle and the positions last computed.
pub struct VehiclePositionTracker {
    trams: Vec<TramState>,
    positions: Vec<VehiclePosition>,
    last_update: i64,
    line_geometries: Vec<LineGeometry>,
}

impl VehiclePositionTracker {
    pub closed spec fn trams_view(&self) -> Seq<TramState> {
        self.trams@
    }

    pub closed spec fn positions_view(&self) -> Seq<VehiclePosition> {
        self.positions@
    }

    pub closed spec fn geometries(&self) -> Seq<LineGeometry> {
        self.line_geometries@
    }

    pub closed spec fn last_update_time(&self) -> i64 {
        self.last_update
    }

    /// The line geometries hold valid points and no tracked vehicle is in the depot.
    pub open spec fn wf(&self) -> bool {
        &&& geometries_wf(self.geometries())
        &&& forall|i: int| 0 <= i < self.trams_view().len() ==> (#[trigger] self.trams_view()[i]).status
            != TramStatus::InDepot
        &&& ids_distinct(self.trams_view())
    }

    pub fn new(line_geometries: Vec<LineGeometry>, now: i64) -> (r: VehiclePositionTracker)
        requires
            geometries_wf(line_geometries@),
        ensures
            r.wf(),
            r.trams_view().len() == 0,
            r.positions_view().len() == 0,
            r.geometries() == line_geometries@,
            r.last_update_time() == now,
    {
        VehiclePositionTracker { trams: Vec::new(), positions: Vec::new(), last_update: now, line_geometries }
    }

    /// The position of one vehicle, where it gets one.
    pub fn calculate_tram_position(&self, tram: &TramState, now: i64, stations: &Vec<Station>) -> (r: Option<
        VehiclePosition,
    >)
        requires
            geometries_wf(self.geometries()),
            stations_wf(stations@),
        ensures
            r is Some <==> emits(*tram),
            r matches Some(p) ==> position_matches(p, *tram, now, self.geometries(), stations@),
            r matches Some(p) ==> p.progress <= FX,
    {
        let (confirmed, next) = match (&tram.last_confirmed_stop, &tram.next_confirmed_stop) {
            (Some(c), Some(n)) => (c, n),
            _ => {
                return None;
            },
        };
        let (progress, departure) = match tram.status {
            TramStatus::AtStation => (0u64, confirmed.arrival_time),
            TramStatus::EnRoute => match confirmed.departure_time {
                Some(dep) => (progress_between(now, dep, next.arrival_time), dep),
                None => {
                    return None;
                },
            },
            _ => {
                return None;
            },
        };
        let geometry_segment = extract_geometry_segment(
            &self.line_geometries,
            &confirmed.stop_id,
            &next.stop_id,
            &tram.line_number,
            stations,
        );
        let mut line_name = String::from_str("Straßenbahn ");
        line_name.append(tram.line_number.as_str());
        Some(
            VehiclePosition {
                vehicle_id: tram.vehicle_id.clone(),
                line_number: tram.line_number.clone(),
                line_name,
                destination: tram.destination.clone(),
                progress,
                from_station_id: confirmed.stop_id.clone(),
                to_station_id: next.stop_id.clone(),
                geometry_segment,
                departure_time: departure,
                arrival_time: next.arrival_time,
                delay: tram.delay_minutes,
                calculated_at: now,
            },
        )
    }

    /// Positions of every vehicle that gets one, in the order they are tracked.
    fn calculate_all_positions(&self, now: i64, stations: &Vec<Station>) -> (r: Vec<VehiclePosition>)
        requires
            geometries_wf(self.geometries()),
            stations_wf(stations@),
        ensures
            positions_for(r@, self.trams_view(), now, self.geometries(), stations@),
            forall|i: int| 0 <= i < r@.len() ==> (#[trigger] r@[i]).progress <= FX,
    {
        let mut out: Vec<VehiclePosition> = Vec::new();
        let mut k: usize = 0;
        while k < self.trams.len()
            invariant
                geometries_wf(self.geometries()),
                stations_wf(stations@),
                k <= self.trams@.len(),
                positions_for(out@, self.trams@.subrange(0, k as int), now, self.geometries(), stations@),
                forall|i: int| 0 <= i < out@.len() ==> (#[trigger] out@[i]).progress <= FX,
            decreases self.trams@.len() - k,
        {
            let ghost before = self.trams@.subrange(0, k as int);
            let ghost after = self.trams@.subrange(0, k + 1);
            assert(after.drop_last() =~= before);
            assert(after.last() == self.trams@[k as int]);
            let ghost out_before = out@;
            match self.calculate_tram_position(&self.trams[k], now, stations) {
                Some(p) => {
                    out.push(p);
                    assert forall|i: int| 0 <= i < out@.len() implies position_matches(
                        #[trigger] out@[i],
                        emitting(after)[i],
                        now,
                        self.geometries(),
                        stations@,
                    ) by {
                        if i < out_before.len() {
                            assert(out@[i] == out_before[i]);
                        }
                    }
                },
                None => {},
            }
            k = k + 1;
        }
        assert(self.trams@.subrange(0, k as int) =~= self.trams@);
        out
    }

    /// Drops or marks stale the vehicles that the feed no longer holds.
    fn handle_missing_trams(&mut self, vehicles: &Vec<VehicleInfo>, now: i64)
        requires
            old(self).wf(),
        ensures
            final(self).wf(),
            final(self).trams_view() == age_out(old(self).trams_view(), vehicles@, now),
            final(self).geometries() == old(self).geometries(),
            final(self).positions_view() == old(self).positions_view(),
            final(self).last_update_time() == old(self).last_update_time(),
    {
        let mut kept: Vec<TramState> = Vec::new();
        let mut k: usize = 0;
        while k < self.trams.len()
            invariant
                k <= self.trams@.len(),
                kept@ == age_out(self.trams@.subrange(0, k as int), vehicles@, now),
                forall|i: int| 0 <= i < kept@.len() ==> (#[trigger] kept@[i]).status != TramStatus::InDepot,
                ids_distinct(kept@),
                ids_distinct(self.trams@),
                forall|m: int|
                    0 <= m < kept@.len() ==> exists|j: int|
                        0 <= j < k && (#[trigger] kept@[m]).vehicle_id@ == self.trams@[j].vehicle_id@,
                forall|i: int| 0 <= i < self.trams@.len() ==> (#[trigger] self.trams@[i]).status
                    != TramStatus::InDepot,
            decreases self.trams@.len() - k,
        {
            let ghost after = self.trams@.subrange(0, k + 1);
            assert(after.drop_last() =~= self.trams@.subrange(0, k as int));
            assert(after.last() == self.trams@[k as int]);
            let tram = &self.trams[k];
            if vehicle_in_feed(vehicles, &tram.vehicle_id) {
                kept.push(tram.copy());
            } else {
                let m = whole_minutes(now, tram.last_seen_in_feed);
                if 0 <= m && m <= 60 {
                    let mut t = tram.copy();
                    t.status = TramStatus::Stale;
                    kept.push(t);
                }
            }
            k = k + 1;
        }
        assert(self.trams@.subrange(0, k as int) =~= self.trams@);
        self.trams = kept;
    }

    /// Refreshes or adds every vehicle of the feed.
    fn ingest_vehicles(&mut self, vehicles: &Vec<VehicleInfo>, stations: &Vec<Station>, now: i64)
        requires
            old(self).wf(),
            stations_wf(stations@),
        ensures
            final(self).wf(),
            final(self).trams_view() == ingest(old(self).trams_view(), vehicles@, now, stations@),
            final(self).geometries() == old(self).geometries(),
            final(self).positions_view() == old(self).positions_view(),
            final(self).last_update_time() == old(self).last_update_time(),
    {
        let ghost start = self.trams@;
        let mut i: usize = 0;
        while i < vehicles.len()
            invariant
                stations_wf(stations@),
                i <= vehicles@.len(),
                self.trams@ == ingest(start, vehicles@.subrange(0, i as int), now, stations@),
                forall|k: int| 0 <= k < self.trams@.len() ==> (#[trigger] self.trams@[k]).status
                    != TramStatus::InDepot,
                ids_distinct(self.trams@),
                self.line_geometries == old(self).line_geometries,
                self.positions == old(self).positions,
                self.last_update == old(self).last_update,
                geometries_wf(self.line_geometries@),
            decreases vehicles@.len() - i,
        {
            let ghost after = vehicles@.subrange(0, i + 1);
            assert(after.drop_last() =~= vehicles@.subrange(0, i as int));
            assert(after.last() == vehicles@[i as int]);
            let vehicle = &vehicles[i];
            match find_tram(&self.trams, &vehicle.vehicle_id) {
                Some(k) => {
                    update_tram_from_vehicle(&mut self.trams[k], vehicle, now, stations);
                },
                None => {
                    self.trams.push(TramState::from_vehicle_info(vehicle, now));
                },
            }
            i = i + 1;
        }
        assert(vehicles@.subrange(0, i as int) =~= vehicles@);
    }

    /// One tick: ingest the feed, age out missing vehicles, and compute the
    /// positions of those that get one.
    pub fn update(&mut self, vehicles: &Vec<VehicleInfo>, stations: &Vec<Station>, now: i64) -> (r:
        VehiclePositionsResponse)
        requires
            old(self).wf(),
            stations_wf(stations@),
        ensures
            final(self).wf(),
            final(self).trams_view() == age_out(
                ingest(old(self).trams_view(), vehicles@, now, stations@),
                vehicles@,
                now,
            ),
            final(self).geometries() == old(self).geometries(),
            final(self).last_update_time() == now,
            positions_for(r.vehicles@, final(self).trams_view(), now, final(self).geometries(), stations@),
            positions_for(
                final(self).positions_view(),
                final(self).trams_view(),
                now,
                final(self).geometries(),
                stations@,
            ),
            r.timestamp == now,
            forall|i: int| 0 <= i < final(self).trams_view().len() ==> (#[trigger] final(self).trams_view()[i]).status
                != TramStatus::InDepot,
            forall|i: int| 0 <= i < r.vehicles@.len() ==> (#[trigger] r.vehicles@[i]).progress <= FX,
    {
        self.ingest_vehicles(vehicles, stations, now);
        self.handle_missing_trams(vehicles, now);
        let positions = self.calculate_all_positions(now, stations);
        let mut stored: Vec<VehiclePosition> = Vec::new();
        let mut k: usize = 0;
        while k < positions.len()
            invariant
                k <= positions@.len(),
                stored@.len() == k,
                forall|i: int| 0 <= i < k ==> position_matches(
                    #[trigger] stored@[i],
                    emitting(self.trams@)[i],
                    now,
                    self.line_geometries@,
                    stations@,
                ),
                positions_for(positions@, self.trams@, now, self.line_geometries@, stations@),
            decreases positions@.len() - k,
        {
            let p = copy_position(&positions[k]);
            assert(position_matches(positions@[k as int], emitting(self.trams@)[k as int], now, self.line_geometries@, stations@));
            stored.push(p);
            k = k + 1;
        }
        self.positions = stored;
        self.last_update = now;
        VehiclePositionsResponse { vehicles: positions, timestamp: now }
    }

    /// Number of tracked vehicles at a station, en route, stale and in the depot.
    pub fn get_stats(&self) -> (r: (usize, usize, usize, usize))
        ensures
            r.0 == count_status(self.trams_view(), TramStatus::AtStation),
            r.1 == count_status(self.trams_view(), TramStatus::EnRoute),
            r.2 == count_status(self.trams_view(), TramStatus::Stale),
            r.3 == count_status(self.trams_view(), TramStatus::InDepot),
    {
        let mut a: usize = 0;
        let mut e: usize = 0;
        let mut s: usize = 0;
        let mut d: usize = 0;
        let mut k: usize = 0;
        while k < self.trams.len()
            invariant
                k <= self.trams@.len(),
                a == count_status(self.trams@.subrange(0, k as int), TramStatus::AtStation),
                e == count_status(self.trams@.subrange(0, k as int), TramStatus::EnRoute),
                s == count_status(self.trams@.subrange(0, k as int), TramStatus::Stale),
                d == count_status(self.trams@.subrange(0, k as int), TramStatus::InDepot),
                a + e + s + d == k,
            decreases self.trams@.len() - k,
        {
            let ghost after = self.trams@.subrange(0, k + 1);
            assert(after.drop_last() =~= self.trams@.subrange(0, k as int));
            match self.trams[k].status {
                TramStatus::AtStation => a = a + 1,
                TramStatus::EnRoute => e = e + 1,
                TramStatus::Stale => s = s + 1,
                TramStatus::InDepot => d = d + 1,
            }
            k = k + 1;
        }
        assert(self.trams@.subrange(0, k as int) =~= self.trams@);
        (a, e, s, d)
    }

    /// The positions of the last tick, stamped with its time.
    pub fn get_positions(&self) -> (r: VehiclePositionsResponse)
        ensures
            r.timestamp == self.last_update_time(),
            r.vehicles@.len() == self.positions_view().len(),
            forall|i: int| 0 <= i < r.vehicles@.len() ==> {
                let p = #[trigger] r.vehicles@[i];
                let q = self.positions_view()[i];
                &&& p.vehicle_id == q.vehicle_id
                &&& p.line_number == q.line_number
                &&& p.line_name == q.line_name
                &&& p.destination == q.destination
                &&& p.progress == q.progress
                &&& p.from_station_id == q.from_station_id
                &&& p.to_station_id == q.to_station_id
                &&& p.geometry_segment@ == q.geometry_segment@
                &&& p.departure_time == q.departure_time
                &&& p.arrival_time == q.arrival_time
                &&& p.delay == q.delay
                &&& p.calculated_at == q.calculated_at
            },
    {
        let mut out: Vec<VehiclePosition> = Vec::new();
        let mut k: usize = 0;
        while k < self.positions.len()
            invariant
                k <= self.positions@.len(),
                out@.len() == k,
                forall|i: int| 0 <= i < k ==> {
                    let p = #[trigger] out@[i];
                    let q = self.positions@[i];
                    &&& p.vehicle_id == q.vehicle_id
                    &&& p.line_number == q.line_number
                    &&& p.line_name == q.line_name
                    &&& p.destination == q.destination
                    &&& p.progress == q.progress
                    &&& p.from_station_id == q.from_station_id
                    &&& p.to_station_id == q.to_station_id
                    &&& p.geometry_segment@ == q.geometry_segment@
                    &&& p.departure_time == q.departure_time
                    &&& p.arrival_time == q.arrival_time
                    &&& p.delay == q.delay
                    &&& p.calculated_at == q.calculated_at
                },
            decreases self.positions@.len() - k,
        {
            out.push(copy_position(&self.positions[k]));
            k = k + 1;
        }
        VehiclePositionsResponse { vehicles: out, timestamp: self.last_update }
    }
}

fn vehicle_in_feed(vehicles: &Vec<VehicleInfo>, id: &String) -> (r: bool)
    ensures
        r == in_feed(vehicles@, id@),
{
    let mut j: usize = 0;
    while j < vehicles.len()
        invariant
            j <= vehicles@.len(),
            forall|m: int| 0 <= m < j ==> (#[trigger] vehicles@[m]).vehicle_id@ != id@,
        decreases vehicles@.len() - j,
    {
        if vehicles[j].vehicle_id == *id {
            return true;
        }
        j = j + 1;
    }
    false
}

fn find_tram(trams: &Vec<TramState>, id: &String) -> (r: Option<usize>)
    ensures
        match r {
            Some(i) => tram_index(trams@, id@, 0) == Some(i as int) && i < trams@.len(),
            None => tram_index(trams@, id@, 0) is None && forall|k: int|
                0 <= k < trams@.len() ==> (#[trigger] trams@[k]).vehicle_id@ != id@,
        },
{
    let mut i: usize = 0;
    while i < trams.len()
        invariant
            i <= trams@.len(),
            tram_index(trams@, id@, 0) == tram_index(trams@, id@, i as int),
            forall|k: int| 0 <= k < i ==> (#[trigger] trams@[k]).vehicle_id@ != id@,
        decreases trams@.len() - i,
    {
        if trams[i].vehicle_id == *id {
            return Some(i);
        }
        i = i + 1;
    }
    None
}

/// No two tracked vehicles share an id.
pub open spec fn ids_distinct(ts: Seq<TramState>) -> bool {
    forall|i: int, j: int|
        0 <= i < ts.len() && 0 <= j < ts.len() && i != j ==> (#[trigger] ts[i]).vehicle_id@ != (#[trigger] ts[j]).vehicle_id@
}

/// Number of vehicles in `ts` with status `st`.
pub open spec fn count_status(ts: Seq<TramState>, st: TramStatus) -> nat
    decreases ts.len(),
{
    if ts.len() == 0 {
        0
    } else {
        count_status(ts.drop_last(), st) + if ts.last().status == st {
            1nat
        } else {
            0nat
        }
    }
}

proof fn lemma_tram_index_matches(ts: Seq<TramState>, id: Seq<char>, i: int)
    ensures
        tram_index(ts, id, i) matches Some(k) ==> 0 <= k < ts.len() && ts[k].vehicle_id@ == id,
    decreases ts.len() - i,
{
    if 0 <= i < ts.len() && ts[i].vehicle_id@ != id {
        lemma_tram_index_matches(ts, id, i + 1);
    }
}

proof fn lemma_ingest_keeps_absent(ts: Seq<TramState>, vs: Seq<VehicleInfo>, now: i64, st: Seq<Station>, id: Seq<char>)
    requires
        !in_feed(vs, id),
    ensures
        forall|i: int|
            0 <= i < ingest(ts, vs, now, st).len() && (#[trigger] ingest(ts, vs, now, st)[i]).vehicle_id@ == id
                ==> exists|j: int| 0 <= j < ts.len() && ingest(ts, vs, now, st)[i] == ts[j],
    decreases vs.len(),
{
    if vs.len() > 0 {
        let init = vs.drop_last();
        assert(!in_feed(init, id)) by {
            if in_feed(init, id) {
                let j = choose|j: int| 0 <= j < init.len() && (#[trigger] init[j]).vehicle_id@ == id;
                assert(vs[j] == init[j]);
            }
        }
        lemma_ingest_keeps_absent(ts, init, now, st, id);
        let prev = ingest(ts, init, now, st);
        let v = vs.last();
        assert(v.vehicle_id@ != id) by {
            assert(vs[vs.len() - 1] == v);
        }
        lemma_tram_index_matches(prev, v.vehicle_id@, 0);
        let res = ingest(ts, vs, now, st);
        assert(res == ingest_one(prev, v, now, st));
        assert forall|i: int| 0 <= i < res.len() && (#[trigger] res[i]).vehicle_id@ == id implies exists|j: int|
            0 <= j < ts.len() && res[i] == ts[j] by {
            match tram_index(prev, v.vehicle_id@, 0) {
                Some(k) => {
                    assert(i != k);
                    assert(res[i] == prev[i]);
                },
                None => {
                    assert(i < prev.len());
                    assert(res[i] == prev[i]);
                },
            }
        }
    }
}

proof fn lemma_age_out_origin(ts: Seq<TramState>, vs: Seq<VehicleInfo>, now: i64)
    ensures
        forall|i: int|
            0 <= i < age_out(ts, vs, now).len() ==> exists|j: int|
                0 <= j < ts.len() && aged(ts[j], vs, now) == Some(#[trigger] age_out(ts, vs, now)[i]),
    decreases ts.len(),
{
    if ts.len() > 0 {
        let init = ts.drop_last();
        lemma_age_out_origin(init, vs, now);
        let r = age_out(init, vs, now);
        let res = age_out(ts, vs, now);
        assert forall|i: int| 0 <= i < res.len() implies exists|j: int|
            0 <= j < ts.len() && aged(ts[j], vs, now) == Some(#[trigger] res[i]) by {
            if i < r.len() {
                assert(res[i] == r[i]);
                let j = choose|j: int| 0 <= j < init.len() && aged(init[j], vs, now) == Some(r[i]);
                assert(init[j] == ts[j]);
            } else {
                assert(ts[ts.len() - 1] == ts.last());
            }
        }
    }
}

proof fn lemma_emitting_origin(ts: Seq<TramState>)
    ensures
        forall|i: int| 0 <= i < emitting(ts).len() ==> exists|j: int| 0 <= j < ts.len() && #[trigger] emitting(ts)[i] == ts[j],
    decreases ts.len(),
{
    if ts.len() > 0 {
        let init = ts.drop_last();
        lemma_emitting_origin(init);
        let e = emitting(init);
        assert forall|i: int| 0 <= i < emitting(ts).len() implies exists|j: int|
            0 <= j < ts.len() && #[trigger] emitting(ts)[i] == ts[j] by {
            if i < e.len() {
                assert(emitting(ts)[i] == e[i]);
                let j = choose|j: int| 0 <= j < init.len() && e[i] == init[j];
                assert(init[j] == ts[j]);
            } else {
                assert(ts[ts.len() - 1] == ts.last());
            }
        }
    }
}

/// A vehicle that is missing from the feed and was last seen more than sixty
/// whole minutes ago is no longer tracked after a tick, and no position of
/// that tick names it.
pub proof fn lemma_depot_removal(
    ts: Seq<TramState>,
    vs: Seq<VehicleInfo>,
    now: i64,
    st: Seq<Station>,
    g: Seq<LineGeometry>,
    ps: Seq<VehiclePosition>,
    id: Seq<char>,
)
    requires
        !in_feed(vs, id),
        forall|j: int|
            0 <= j < ts.len() && (#[trigger] ts[j]).vehicle_id@ == id ==> minutes_between(
                now as int,
                ts[j].last_seen_in_feed as int,
            ) > 60,
        positions_for(ps, age_out(ingest(ts, vs, now, st), vs, now), now, g, st),
    ensures
        forall|i: int|
            0 <= i < age_out(ingest(ts, vs, now, st), vs, now).len() ==> (#[trigger] age_out(
                ingest(ts, vs, now, st),
                vs,
                now,
            )[i]).vehicle_id@ != id,
        forall|i: int| 0 <= i < ps.len() ==> (#[trigger] ps[i]).vehicle_id@ != id,
{
    let ing = ingest(ts, vs, now, st);
    let res = age_out(ing, vs, now);
    lemma_ingest_keeps_absent(ts, vs, now, st, id);
    lemma_age_out_origin(ing, vs, now);
    lemma_emitting_origin(res);
    assert forall|i: int| 0 <= i < res.len() implies (#[trigger] res[i]).vehicle_id@ != id by {
        let j = choose|j: int| 0 <= j < ing.len() && aged(ing[j], vs, now) == Some(res[i]);
        if res[i].vehicle_id@ == id {
            assert(ing[j].vehicle_id@ == id);
            let k = choose|k: int| 0 <= k < ts.len() && ing[j] == ts[k];
            assert(ts[k].vehicle_id@ == id);
        }
    }
    assert forall|i: int| 0 <= i < ps.len() implies (#[trigger] ps[i]).vehicle_id@ != id by {
        assert(position_matches(ps[i], emitting(res)[i], now, g, st));
        let j = choose|j: int| 0 <= j < res.len() && emitting(res)[i] == res[j];
        assert(res[j].vehicle_id@ != id);
    }
}

} // verus!
