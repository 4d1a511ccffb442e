//! OpenStreetMap elements as the Overpass endpoint returns them, the
//! resolution of route relations into way geometries and stops, and the
//! platform-to-station mapping of stop areas.
use vstd::prelude::*;
use vstd::hash_map::HashMapWithView;
use crate::geo::GeoPoint;

verus! {

/// Text equality, character by character.
pub fn str_eq(a: &str, b: &str) -> (r: bool)
    ensures
        r == (a@ == b@),
{
    let n = a.unicode_len();
    if n != b.unicode_len() {
        return false;
    }
    let mut i: usize = 0;
    while i < n
        invariant
            n == a@.len(),
            n == b@.len(),
            i <= n,
            a@.subrange(0, i as int) == b@.subrange(0, i as int),
        decreases n - i,
    {
        if a.get_char(i) != b.get_char(i) {
            return false;
        }
        assert(a@.subrange(0, i + 1) =~= a@.subrange(0, i as int).push(a@[i as int]));
        assert(b@.subrange(0, i + 1) =~= b@.subrange(0, i as int).push(b@[i as int]));
        i = i + 1;
    }
    assert(a@ =~= a@.subrange(0, n as int));
    assert(b@ =~= b@.subrange(0, n as int));
    true
}

pub struct Center {
    pub lat: i64,
    pub lon: i64,
}

/// A member of a relation.
pub struct RelationMember {
    pub member_type: String,
    pub member_ref: i64,
    pub role: Option<String>,
}

/// A node, way or relation; coordinates in units of 10^-7 degree, tags as
/// key-value pairs with distinct keys.
pub struct OsmElement {
    pub element_type: String,
    pub id: i64,
    pub lat: Option<i64>,
    pub lon: Option<i64>,
    pub center: Option<Center>,
    pub tags: Option<Vec<(String, String)>>,
    pub nodes: Option<Vec<i64>>,
    pub members: Option<Vec<RelationMember>>,
}

pub struct OverpassResponse {
    pub elements: Vec<OsmElement>,
}

/// One way of a route with its geometry as `[lon, lat]` points.
pub struct RouteWay {
    pub way_osm_id: i64,
    pub sequence: i32,
    pub geometry: Vec<GeoPoint>,
}

/// One stop of a route.
pub struct RouteStop {
    pub osm_id: i64,
    pub osm_type: String,
    pub sequence: i32,
    pub role: String,
}

impl View for RouteWay {
    type V = (i64, i32, Seq<GeoPoint>);

    open spec fn view(&self) -> (i64, i32, Seq<GeoPoint>) {
        (self.way_osm_id, self.sequence, self.geometry@)
    }
}

impl View for RouteStop {
    type V = (i64, Seq<char>, i32, Seq<char>);

    open spec fn view(&self) -> (i64, Seq<char>, i32, Seq<char>) {
        (self.osm_id, self.osm_type@, self.sequence, self.role@)
    }
}

/// A route relation with its members resolved.
pub struct OsmRoute {
    pub osm_id: i64,
    pub osm_type: String,
    pub name: Option<String>,
    pub ref_number: Option<String>,
    pub route_type: String,
    pub operator: Option<String>,
    pub network: Option<String>,
    pub color: Option<String>,
    pub tags: Vec<(String, String)>,
    pub ways: Vec<RouteWay>,
    pub stops: Vec<RouteStop>,
}

/// Everything fetched for one area.
pub struct AreaFeatures {
    pub stations: Vec<OsmElement>,
    pub platforms: Vec<OsmElement>,
    pub stop_positions: Vec<OsmElement>,
    pub routes: Vec<OsmRoute>,
}

/// Failures of the Overpass endpoint.
pub enum OsmError {
    /// The request did not complete.
    NetworkError(String),
    /// HTTP 429 or 5xx.
    RetryableError(String),
    /// The body is not a valid response.
    ParseError(String),
    /// Any other unsuccessful HTTP status.
    HttpError(String),
}

impl OsmError {
    /// Network failures, HTTP 429 and HTTP 5xx are worth another attempt.
    pub fn is_retryable(&self) -> (r: bool)
        ensures
            r == (self is NetworkError || self is RetryableError),
    {
        match self {
            OsmError::NetworkError(_) => true,
            OsmError::RetryableError(_) => true,
            OsmError::ParseError(_) => false,
            OsmError::HttpError(_) => false,
        }
    }
}

/// The value of the first tag with this key.
pub open spec fn tag_of(tags: Seq<(String, String)>, key: Seq<char>) -> Option<String>
    decreases tags.len(),
{
    if tags.len() == 0 {
        None
    } else if tags[0].0@ == key {
        Some(tags[0].1)
    } else {
        tag_of(tags.drop_first(), key)
    }
}

pub open spec fn tags_of(e: OsmElement) -> Seq<(String, String)> {
    match e.tags {
        Some(t) => t@,
        None => Seq::empty(),
    }
}

pub(crate) fn find_tag<'a>(tags: &'a Vec<(String, String)>, key: &str) -> (r: Option<&'a String>)
    ensures
        match r {
            Some(v) => tag_of(tags@, key@) == Some(*v),
            None => tag_of(tags@, key@) is None,
        },
{
    let n = tags.len();
    let mut i: usize = 0;
    assert(tags@.subrange(0, n as int) =~= tags@);
    while i < n
        invariant
            n == tags@.len(),
            i <= n,
            tag_of(tags@, key@) == tag_of(tags@.subrange(i as int, n as int), key@),
        decreases n - i,
    {
        let ghost rest = tags@.subrange(i as int, n as int);
        assert(rest.drop_first() =~= tags@.subrange(i + 1, n as int));
        assert(rest[0] == tags@[i as int]);
        if str_eq(tags[i].0.as_str(), key) {
            return Some(&tags[i].1);
        }
        i = i + 1;
    }
    None
}

impl OsmElement {
    /// Latitude of a node, else of the centre of a way or relation.
    pub fn latitude(&self) -> (r: Option<i64>)
        ensures
            r == match self.lat {
                Some(l) => Some(l),
                None => match self.center {
                    Some(c) => Some(c.lat),
                    None => None,
                },
            },
    {
        match self.lat {
            Some(l) => Some(l),
            None => match &self.center {
                Some(c) => Some(c.lat),
                None => None,
            },
        }
    }

    /// Longitude of a node, else of the centre of a way or relation.
    pub fn longitude(&self) -> (r: Option<i64>)
        ensures
            r == match self.lon {
                Some(l) => Some(l),
                None => match self.center {
                    Some(c) => Some(c.lon),
                    None => None,
                },
            },
    {
        match self.lon {
            Some(l) => Some(l),
            None => match &self.center {
                Some(c) => Some(c.lon),
                None => None,
            },
        }
    }

    /// The value of a tag.
    pub fn tag(&self, key: &str) -> (r: Option<&String>)
        ensures
            match r {
                Some(v) => tag_of(tags_of(*self), key@) == Some(*v),
                None => tag_of(tags_of(*self), key@) is None,
            },
    {
        match &self.tags {
            Some(t) => find_tag(t, key),
            None => None,
        }
    }
}

pub open spec fn members_of(e: OsmElement) -> Seq<RelationMember> {
    match e.members {
        Some(m) => m@,
        None => Seq::empty(),
    }
}

/// The role of a member, empty where it has none.
pub open spec fn role_of(m: RelationMember) -> Seq<char> {
    match m.role {
        Some(r) => r@,
        None => Seq::empty(),
    }
}

fn role_str(m: &RelationMember) -> (r: &str)
    ensures
        r@ == role_of(*m),
{
    match &m.role {
        Some(r) => r.as_str(),
        None => {
            proof {
                reveal_strlit("");
            }
            ""
        },
    }
}

/// Coordinates of every node element that has them; a later element wins.
pub open spec fn node_map(es: Seq<OsmElement>) -> Map<i64, GeoPoint>
    decreases es.len(),
{
    if es.len() == 0 {
        Map::empty()
    } else {
        let m = node_map(es.drop_last());
        let e = es.last();
        if e.element_type@ == "node"@ && e.lat is Some && e.lon is Some {
            m.insert(e.id, GeoPoint { lon: e.lon->0, lat: e.lat->0 })
        } else {
            m
        }
    }
}

/// Node lists of every way element that has one; a later element wins.
pub open spec fn way_map(es: Seq<OsmElement>) -> Map<i64, Seq<i64>>
    decreases es.len(),
{
    if es.len() == 0 {
        Map::empty()
    } else {
        let m = way_map(es.drop_last());
        let e = es.last();
        if e.element_type@ == "way"@ && e.nodes is Some {
            m.insert(e.id, e.nodes->0@)
        } else {
            m
        }
    }
}

/// The `[lon, lat]` points of a way's nodes, in node order, skipping unknown nodes.
pub open spec fn way_geometry(ns: Seq<i64>, nodes: Map<i64, GeoPoint>) -> Seq<GeoPoint>
    decreases ns.len(),
{
    if ns.len() == 0 {
        Seq::empty()
    } else {
        let r = way_geometry(ns.drop_last(), nodes);
        if nodes.contains_key(ns.last()) {
            r.push(nodes[ns.last()])
        } else {
            r
        }
    }
}

/// The route way of member number `seq`: a way that is not a platform and
/// has at least one known node.
pub open spec fn member_way(
    m: RelationMember,
    seq: int,
    nodes: Map<i64, GeoPoint>,
    ways: Map<i64, Seq<i64>>,
) -> Option<(i64, i32, Seq<GeoPoint>)> {
    if m.member_type@ == "way"@ && role_of(m) != "platform"@ && ways.contains_key(m.member_ref) {
        let g = way_geometry(ways[m.member_ref], nodes);
        if g.len() > 0 {
            Some((m.member_ref, seq as i32, g))
        } else {
            None
        }
    } else {
        None
    }
}

/// The route stop of member number `seq`: a node whose role is `stop`,
/// `platform` or empty.
pub open spec fn member_stop(m: RelationMember, seq: int) -> Option<(i64, Seq<char>, i32, Seq<char>)> {
    let role = role_of(m);
    if m.member_type@ == "node"@ && (role == "stop"@ || role == "platform"@ || role.len() == 0) {
        Some((m.member_ref, "node"@, seq as i32, role))
    } else {
        None
    }
}

pub open spec fn ways_of(ms: Seq<RelationMember>, nodes: Map<i64, GeoPoint>, ways: Map<i64, Seq<i64>>) -> Seq<
    (i64, i32, Seq<GeoPoint>),
>
    decreases ms.len(),
{
    if ms.len() == 0 {
        Seq::empty()
    } else {
        let r = ways_of(ms.drop_last(), nodes, ways);
        match member_way(ms.last(), ms.len() - 1, nodes, ways) {
            Some(w) => r.push(w),
            None => r,
        }
    }
}

pub open spec fn stops_of(ms: Seq<RelationMember>) -> Seq<(i64, Seq<char>, i32, Seq<char>)>
    decreases ms.len(),
{
    if ms.len() == 0 {
        Seq::empty()
    } else {
        let r = stops_of(ms.drop_last());
        match member_stop(ms.last(), ms.len() - 1) {
            Some(st) => r.push(st),
            None => r,
        }
    }
}

/// A relation tagged `type=route`.
pub open spec fn is_route(e: OsmElement) -> bool {
    e.element_type@ == "relation"@ && (tag_of(tags_of(e), "type"@) matches Some(t) && t@ == "route"@)
}

pub open spec fn route_elements(es: Seq<OsmElement>) -> Seq<OsmElement>
    decreases es.len(),
{
    if es.len() == 0 {
        Seq::empty()
    } else if is_route(es.last()) {
        route_elements(es.drop_last()).push(es.last())
    } else {
        route_elements(es.drop_last())
    }
}

/// `r` is the route that relation `e` describes.
pub open spec fn route_matches(
    r: OsmRoute,
    e: OsmElement,
    nodes: Map<i64, GeoPoint>,
    ways: Map<i64, Seq<i64>>,
) -> bool {
    let tags = tags_of(e);
    &&& r.osm_id == e.id
    &&& r.osm_type@ == "relation"@
    &&& r.name == tag_of(tags, "name"@)
    &&& r.ref_number == tag_of(tags, "ref"@)
    &&& r.route_type@ == match tag_of(tags, "route"@) {
        Some(t) => t@,
        None => Seq::empty(),
    }
    &&& r.operator == tag_of(tags, "operator"@)
    &&& r.network == tag_of(tags, "network"@)
    &&& r.color == match tag_of(tags, "colour"@) {
        Some(c) => Some(c),
        None => tag_of(tags, "color"@),
    }
    &&& r.tags@ == tags
    &&& r.ways@.map_values(|w: RouteWay| w@) == ways_of(members_of(e), nodes, ways)
    &&& r.stops@.map_values(|s: RouteStop| s@) == stops_of(members_of(e))
}

fn copy_tag(t: Option<&String>) -> (r: Option<String>)
    ensures
        r == match t {
            Some(v) => Some(*v),
            None => None,
        },
{
    match t {
        Some(v) => Some(v.clone()),
        None => None,
    }
}

fn copy_tags(tags: &Option<Vec<(String, String)>>) -> (r: Vec<(String, String)>)
    ensures
        r@ == match tags {
            Some(t) => t@,
            None => Seq::empty(),
        },
{
    let mut r: Vec<(String, String)> = Vec::new();
    match tags {
        Some(t) => {
            let mut i: usize = 0;
            while i < t.len()
                invariant
                    i <= t@.len(),
                    r@ == t@.subrange(0, i as int),
                decreases t@.len() - i,
            {
                r.push((t[i].0.clone(), t[i].1.clone()));
                i = i + 1;
                assert(r@ =~= t@.subrange(0, i as int));
            }
            assert(r@ =~= t@);
        },
        None => {
            assert(r@ =~= Seq::<(String, String)>::empty());
        },
    }
    r
}

fn build_way_geometry(ids: &Vec<i64>, nodes: &HashMapWithView<i64, GeoPoint>) -> (r: Vec<GeoPoint>)
    ensures
        r@ == way_geometry(ids@, nodes@),
{
    let mut r: Vec<GeoPoint> = Vec::new();
    let mut i: usize = 0;
    while i < ids.len()
        invariant
            i <= ids@.len(),
            r@ == way_geometry(ids@.subrange(0, i as int), nodes@),
        decreases ids@.len() - i,
    {
        let ghost after = ids@.subrange(0, i + 1);
        assert(after.drop_last() =~= ids@.subrange(0, i as int));
        match nodes.get(&ids[i]) {
            Some(p) => r.push(*p),
            None => {},
        }
        i = i + 1;
    }
    assert(ids@.subrange(0, i as int) =~= ids@);
    r
}

/// Resolves the route relations of a response: node coordinates and way
/// node lists are indexed first, then each `type=route` relation becomes a
/// route with its ways (geometry in node order) and stops, each carrying its
/// position among the relation's members.
pub fn parse_routes_response(response: &OverpassResponse) -> (r: Result<Vec<OsmRoute>, OsmError>)
    ensures
        r matches Ok(routes) && {
            let es = response.elements@;
            let rel = route_elements(es);
            &&& routes@.len() == rel.len()
            &&& forall|i: int|
                0 <= i < rel.len() ==> route_matches(
                    #[trigger] routes@[i],
                    rel[i],
                    node_map(es),
                    way_map(es),
                )
        },
{
    let es = &response.elements;
    let n = es.len();
    let mut nodes: HashMapWithView<i64, GeoPoint> = HashMapWithView::new();
    let mut way_index: HashMapWithView<i64, usize> = HashMapWithView::new();
    let mut k: usize = 0;
    while k < n
        invariant
            n == es@.len(),
            k <= n,
            nodes@ == node_map(es@.subrange(0, k as int)),
            way_index@.dom() == way_map(es@.subrange(0, k as int)).dom(),
            forall|id: i64|
                #[trigger] way_index@.contains_key(id) ==> {
                    let w = way_index@[id] as int;
                    &&& 0 <= w < n
                    &&& es@[w].nodes is Some
                    &&& es@[w].nodes->0@ == way_map(es@.subrange(0, k as int))[id]
                },
        decreases n - k,
    {
        let ghost after = es@.subrange(0, k + 1);
        assert(after.drop_last() =~= es@.subrange(0, k as int));
        assert(after.last() == es@[k as int]);
        let e = &es[k];
        if str_eq(e.element_type.as_str(), "node") {
            match (e.lat, e.lon) {
                (Some(lat), Some(lon)) => {
                    nodes.insert(e.id, GeoPoint { lon, lat });
                },
                _ => {},
            }
            proof {
                reveal_strlit("node");
                reveal_strlit("way");
                assert("node"@ != "way"@) by {
                    assert("node"@[0] != "way"@[0]);
                }
            }
        } else if str_eq(e.element_type.as_str(), "way") {
            if e.nodes.is_some() {
                way_index.insert(e.id, k);
                assert(way_index@.dom() =~= way_map(after).dom());
            }
            proof {
                reveal_strlit("node");
                reveal_strlit("way");
            }
        }
        k = k + 1;
    }
    assert(es@.subrange(0, n as int) =~= es@);
    let ghost nm = node_map(es@);
    let ghost wm = way_map(es@);
    let mut routes: Vec<OsmRoute> = Vec::new();
    let mut k: usize = 0;
    while k < n
        invariant
            n == es@.len(),
            k <= n,
            nodes@ == nm,
            nm == node_map(es@),
            wm == way_map(es@),
            way_index@.dom() == wm.dom(),
            forall|id: i64|
                #[trigger] way_index@.contains_key(id) ==> {
                    let w = way_index@[id] as int;
                    &&& 0 <= w < n
                    &&& es@[w].nodes is Some
                    &&& es@[w].nodes->0@ == wm[id]
                },
            routes@.len() == route_elements(es@.subrange(0, k as int)).len(),
            forall|i: int|
                0 <= i < routes@.len() ==> route_matches(
                    #[trigger] routes@[i],
                    route_elements(es@.subrange(0, k as int))[i],
                    nm,
                    wm,
                ),
        decreases n - k,
    {
        let ghost after = es@.subrange(0, k + 1);
        assert(after.drop_last() =~= es@.subrange(0, k as int));
        assert(after.last() == es@[k as int]);
        let e = &es[k];
        let is_rel = str_eq(e.element_type.as_str(), "relation");
        let tags = copy_tags(&e.tags);
        let type_tag = find_tag(&tags, "type");
        let is_route_tag = match type_tag {
            Some(t) => str_eq(t.as_str(), "route"),
            None => false,
        };
        if is_rel && is_route_tag {
            let route = build_route(e, tags, &nodes, &way_index, es, Ghost(wm));
            let ghost before = routes@;
            routes.push(route);
            assert forall|i: int| 0 <= i < routes@.len() implies route_matches(
                #[trigger] routes@[i],
                route_elements(after)[i],
                nm,
                wm,
            ) by {
                if i < before.len() {
                    assert(routes@[i] == before[i]);
                }
            }
        }
        k = k + 1;
    }
    assert(es@.subrange(0, n as int) =~= es@);
    Ok(routes)
}

fn build_route(
    e: &OsmElement,
    tags: Vec<(String, String)>,
    nodes: &HashMapWithView<i64, GeoPoint>,
    way_index: &HashMapWithView<i64, usize>,
    es: &Vec<OsmElement>,
    wm: Ghost<Map<i64, Seq<i64>>>,
) -> (r: OsmRoute)
    requires
        tags@ == tags_of(*e),
        way_index@.dom() == wm@.dom(),
        forall|id: i64|
            #[trigger] way_index@.contains_key(id) ==> {
                let w = way_index@[id] as int;
                &&& 0 <= w < es@.len()
                &&& es@[w].nodes is Some
                &&& es@[w].nodes->0@ == wm@[id]
            },
    ensures
        route_matches(r, *e, nodes@, wm@),
{
    let name = copy_tag(find_tag(&tags, "name"));
    let ref_number = copy_tag(find_tag(&tags, "ref"));
    let route_type = match find_tag(&tags, "route") {
        Some(t) => t.clone(),
        None => String::new(),
    };
    let operator = copy_tag(find_tag(&tags, "operator"));
    let network = copy_tag(find_tag(&tags, "network"));
    let color = match find_tag(&tags, "colour") {
        Some(c) => Some(c.clone()),
        None => copy_tag(find_tag(&tags, "color")),
    };
    let mut ways: Vec<RouteWay> = Vec::new();
    let mut stops: Vec<RouteStop> = Vec::new();
    match &e.members {
        Some(members) => {
            let mut j: usize = 0;
            while j < members.len()
                invariant
                    j <= members@.len(),
                    members@ == members_of(*e),
                    way_index@.dom() == wm@.dom(),
                    forall|id: i64|
                        #[trigger] way_index@.contains_key(id) ==> {
                            let w = way_index@[id] as int;
                            &&& 0 <= w < es@.len()
                            &&& es@[w].nodes is Some
                            &&& es@[w].nodes->0@ == wm@[id]
                        },
                    ways@.map_values(|w: RouteWay| w@) == ways_of(members@.subrange(0, j as int), nodes@, wm@),
                    stops@.map_values(|s: RouteStop| s@) == stops_of(members@.subrange(0, j as int)),
                decreases members@.len() - j,
            {
                let ghost after = members@.subrange(0, j + 1);
                assert(after.drop_last() =~= members@.subrange(0, j as int));
                assert(after.last() == members@[j as int]);
                let m = &members[j];
                let role = role_str(m);
                let seq: i32 = #[verifier::truncate] (j as i32);
                let ghost ways_before = ways@;
                let ghost stops_before = stops@;
                if str_eq(m.member_type.as_str(), "way") {
                    if !str_eq(role, "platform") {
                        match way_index.get(&m.member_ref) {
                            Some(w) => {
                                let ids = es[*w].nodes.as_ref().unwrap();
                                let geometry = build_way_geometry(ids, nodes);
                                if geometry.len() > 0 {
                                    ways.push(RouteWay { way_osm_id: m.member_ref, sequence: seq, geometry });
                                }
                            },
                            None => {},
                        }
                    }
                    proof {
                        reveal_strlit("node");
                        reveal_strlit("way");
                        assert("node"@ != "way"@) by {
                            assert("node"@[0] != "way"@[0]);
                        }
                    }
                } else if str_eq(m.member_type.as_str(), "node") {
                    let keep = str_eq(role, "stop") || str_eq(role, "platform") || role.unicode_len() == 0;
                    if keep {
                        let mut node_type = String::new();
                        node_type.append("node");
                        stops.push(RouteStop { osm_id: m.member_ref, osm_type: node_type, sequence: seq, role: role.to_owned() });
                    }
                }
                assert(ways@.map_values(|w: RouteWay| w@) =~= ways_of(after, nodes@, wm@));
                assert(stops@.map_values(|s: RouteStop| s@) =~= stops_of(after));
                j = j + 1;
            }
            assert(members@.subrange(0, j as int) =~= members@);
        },
        None => {
            assert(ways@.map_values(|w: RouteWay| w@) =~= ways_of(members_of(*e), nodes@, wm@));
            assert(stops@.map_values(|s: RouteStop| s@) =~= stops_of(members_of(*e)));
        },
    }
    let mut osm_type = String::new();
    osm_type.append("relation");
    OsmRoute {
        osm_id: e.id,
        osm_type,
        name,
        ref_number,
        route_type,
        operator,
        network,
        color,
        tags,
        ways,
        stops,
    }
}

/// Members with role `platform` or `stop` map to the station `station`; a later member wins.
pub open spec fn member_mappings(m: Map<i64, i64>, ms: Seq<RelationMember>, station: i64) -> Map<i64, i64>
    decreases ms.len(),
{
    if ms.len() == 0 {
        m
    } else {
        let prev = member_mappings(m, ms.drop_last(), station);
        let role = role_of(ms.last());
        if role == "platform"@ || role == "stop"@ {
            prev.insert(ms.last().member_ref, station)
        } else {
            prev
        }
    }
}

/// The member-to-station mapping of all stop-area relations, in order.
pub open spec fn station_mappings(es: Seq<OsmElement>) -> Map<i64, i64>
    decreases es.len(),
{
    if es.len() == 0 {
        Map::empty()
    } else {
        let prev = station_mappings(es.drop_last());
        let e = es.last();
        if e.element_type@ == "relation"@ {
            member_mappings(prev, members_of(e), e.id)
        } else {
            prev
        }
    }
}

/// Maps each platform or stop member of a stop-area relation to the relation.
pub fn extract_station_platform_mappings(stations: &Vec<OsmElement>) -> (r: HashMapWithView<i64, i64>)
    ensures
        r@ == station_mappings(stations@),
{
    let mut mappings: HashMapWithView<i64, i64> = HashMapWithView::new();
    let mut k: usize = 0;
    while k < stations.len()
        invariant
            k <= stations@.len(),
            mappings@ == station_mappings(stations@.subrange(0, k as int)),
        decreases stations@.len() - k,
    {
        let ghost after = stations@.subrange(0, k + 1);
        assert(after.drop_last() =~= stations@.subrange(0, k as int));
        assert(after.last() == stations@[k as int]);
        let station = &stations[k];
        if str_eq(station.element_type.as_str(), "relation") {
            match &station.members {
                Some(members) => {
                    let ghost start = mappings@;
                    let mut j: usize = 0;
                    while j < members.len()
                        invariant
                            j <= members@.len(),
                            mappings@ == member_mappings(start, members@.subrange(0, j as int), station.id),
                        decreases members@.len() - j,
                    {
                        let ghost mafter = members@.subrange(0, j + 1);
                        assert(mafter.drop_last() =~= members@.subrange(0, j as int));
                        assert(mafter.last() == members@[j as int]);
                        let role = role_str(&members[j]);
                        if str_eq(role, "platform") || str_eq(role, "stop") {
                            mappings.insert(members[j].member_ref, station.id);
                        }
                        j = j + 1;
                    }
                    assert(members@.subrange(0, j as int) =~= members@);
                },
                None => {},
            }
        }
        k = k + 1;
    }
    assert(stations@.subrange(0, k as int) =~= stations@);
    mappings
}

/// Attempts of one Overpass request.
pub const MAX_RETRIES: u32 = 3;

/// Wait before the second attempt; each later wait doubles.
pub const INITIAL_RETRY_DELAY_SECS: u64 = 5;

/// How an HTTP status is treated.
#[derive(Clone, Copy, Debug, PartialEq, Eq, Structural)]
pub enum StatusClass {
    Success,
    Retryable,
    Fatal,
}

/// 2xx succeeds; 429 and 5xx are worth another attempt; anything else fails at once.
pub fn classify_status(status: u16) -> (r: StatusClass)
    ensures
        r == if 200 <= status <= 299 {
            StatusClass::Success
        } else if status == 429 || (500 <= status <= 599) {
            StatusClass::Retryable
        } else {
            StatusClass::Fatal
        },
{
    if 200 <= status && status <= 299 {
        StatusClass::Success
    } else if status == 429 || (500 <= status && status <= 599) {
        StatusClass::Retryable
    } else {
        StatusClass::Fatal
    }
}

pub open spec fn pow2(n: nat) -> nat
    decreases n,
{
    if n == 0 {
        1
    } else {
        2 * pow2((n - 1) as nat)
    }
}

/// After attempt number `attempt` (counting from 0) failed with `error`: the
/// seconds to wait before the next attempt, or `None` to give up with this error.
pub fn next_overpass_attempt(attempt: u32, error: &OsmError) -> (r: Option<u64>)
    ensures
        r == if (error is NetworkError || error is RetryableError) && attempt + 1 < MAX_RETRIES {
            Some((INITIAL_RETRY_DELAY_SECS * pow2(attempt as nat)) as u64)
        } else {
            None::<u64>
        },
{
    if !error.is_retryable() || attempt >= MAX_RETRIES - 1 {
        return None;
    }
    let mut d: u64 = INITIAL_RETRY_DELAY_SECS;
    let mut i: u32 = 0;
    while i < attempt
        invariant
            i <= attempt,
            attempt + 1 < MAX_RETRIES,
            d == INITIAL_RETRY_DELAY_SECS * pow2(i as nat),
        decreases attempt - i,
    {
        d = d * 2;
        i = i + 1;
    }
    Some(d)
}

/// Tries of one area sync.
pub const MAX_AREA_SYNC_TRIES: u32 = 5;

/// After try number `attempt` (counting from 1) of an area sync failed: the
/// seconds to wait before the next try (30 s more each time), or `None` to
/// give up on the area.
pub fn next_area_sync_attempt(attempt: u32) -> (r: Option<u64>)
    ensures
        r == if 1 <= attempt < MAX_AREA_SYNC_TRIES {
            Some((30 * attempt) as u64)
        } else {
            None::<u64>
        },
{
    if attempt >= 1 && attempt < MAX_AREA_SYNC_TRIES {
        Some(30 * attempt as u64)
    } else {
        None
    }
}

} // verus!
