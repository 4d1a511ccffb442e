//! Stations and platforms as the journey planner describes them, and the
//! departure-monitor records that the sync reads.
use vstd::prelude::*;
use crate::geo::GeoPoint;
use crate::ifopt::{extract_station_id, station_id_of};
use vstd::utf8::encode_utf8;

verus! {

/// A platform of a station; `coord` is `[lat, lon]` in units of 10^-7 degree.
pub struct Platform {
    pub id: String,
    pub name: String,
    pub coord: Option<Vec<i64>>,
    pub osm_id: Option<i64>,
}

/// A station with its platforms; `coord` is `[lat, lon]` in units of 10^-7 degree.
pub struct Station {
    pub station_id: String,
    pub station_name: String,
    pub coord: Option<Vec<i64>>,
    pub platforms: Vec<Platform>,
}

/// The `[lon, lat]` point of a `[lat, lon]` coordinate list with at least two values.
pub open spec fn coord_point(c: Option<Vec<i64>>) -> Option<GeoPoint> {
    match c {
        Some(v) => if v@.len() >= 2 {
            Some(GeoPoint { lon: v@[1], lat: v@[0] })
        } else {
            None
        },
        None => None,
    }
}

/// Every coordinate given is a valid point.
pub open spec fn coord_wf(c: Option<Vec<i64>>) -> bool {
    match coord_point(c) {
        Some(p) => p.wf(),
        None => true,
    }
}

impl Station {
    pub open spec fn wf(&self) -> bool {
        &&& coord_wf(self.coord)
        &&& forall|j: int| 0 <= j < self.platforms@.len() ==> coord_wf(#[trigger] self.platforms@[j].coord)
    }
}

pub open spec fn stations_wf(s: Seq<Station>) -> bool {
    forall|i: int| 0 <= i < s.len() ==> (#[trigger] s[i]).wf()
}

pub fn read_coord(c: &Option<Vec<i64>>) -> (r: Option<GeoPoint>)
    ensures
        r == coord_point(*c),
{
    match c {
        Some(v) => {
            if v.len() >= 2 {
                Some(GeoPoint { lon: v[1], lat: v[0] })
            } else {
                None
            }
        },
        None => None,
    }
}

/// A departure-monitor product: the class of the means of transport.
pub struct EfaProduct {
    pub id: i32,
    pub class: i32,
    pub name: String,
    pub icon_id: Option<i32>,
}

pub struct EfaDestination {
    pub id: Option<String>,
    pub name: String,
    pub dest_type: Option<String>,
}

pub struct EfaTransportation {
    pub id: String,
    pub name: String,
    pub number: String,
    pub product: EfaProduct,
    pub destination: EfaDestination,
    pub origin: Option<EfaDestination>,
}

pub struct EfaInfoLink {
    pub url_text: Option<String>,
    pub url: Option<String>,
    pub content: Option<String>,
    pub subtitle: Option<String>,
}

pub struct EfaInfo {
    pub priority: String,
    pub id: String,
    pub version: Option<i32>,
    pub info_type: String,
    pub info_links: Option<Vec<EfaInfoLink>>,
}

/// What the departure monitor tells of a location: the fields read from its
/// JSON object (`coord` holds its first two numbers, `[lat, lon]`, where both are numbers).
pub struct LocationFields {
    pub id: Option<String>,
    pub name: Option<String>,
    pub disassembled_name: Option<String>,
    pub platform_name: Option<String>,
    pub coord: Option<Vec<i64>>,
}

pub open spec fn opt_vec_view(c: Option<Vec<i64>>) -> Option<Seq<i64>> {
    match c {
        Some(v) => Some(v@),
        None => None,
    }
}

/// A platform as id, name, coordinate and OSM id.
pub open spec fn platform_view(p: Platform) -> (Seq<char>, Seq<char>, Option<Seq<i64>>, Option<i64>) {
    (p.id@, p.name@, opt_vec_view(p.coord), p.osm_id)
}

/// The platform name: the short name, else the platform name, else `Unknown`.
pub open spec fn platform_name_of(l: LocationFields) -> Seq<char> {
    match l.disassembled_name {
        Some(n) => n@,
        None => match l.platform_name {
            Some(n) => n@,
            None => "Unknown"@,
        },
    }
}

pub open spec fn has_platform(ps: Seq<(Seq<char>, Seq<char>, Option<Seq<i64>>, Option<i64>)>, id: Seq<char>) -> bool {
    exists|i: int| 0 <= i < ps.len() && (#[trigger] ps[i]).0 == id
}

/// The platforms of the stop events' locations, in order, the first of each id only.
pub open spec fn compact_platforms(ls: Seq<LocationFields>) -> Seq<(Seq<char>, Seq<char>, Option<Seq<i64>>, Option<i64>)>
    decreases ls.len(),
{
    if ls.len() == 0 {
        Seq::empty()
    } else {
        let prev = compact_platforms(ls.drop_last());
        let l = ls.last();
        match l.id {
            Some(id) => if has_platform(prev, id@) {
                prev
            } else {
                prev.push((id@, platform_name_of(l), opt_vec_view(l.coord), None))
            },
            None => prev,
        }
    }
}

fn copy_coord(c: &Option<Vec<i64>>) -> (r: Option<Vec<i64>>)
    ensures
        opt_vec_view(r) == opt_vec_view(*c),
{
    match c {
        Some(v) => {
            let mut out: Vec<i64> = Vec::new();
            let mut i: usize = 0;
            while i < v.len()
                invariant
                    i <= v@.len(),
                    out@ == v@.subrange(0, i as int),
                decreases v@.len() - i,
            {
                out.push(v[i]);
                i = i + 1;
                assert(out@ =~= v@.subrange(0, i as int));
            }
            assert(v@.subrange(0, i as int) =~= v@);
            Some(out)
        },
        None => None,
    }
}

fn platform_name(l: &LocationFields) -> (r: String)
    ensures
        r@ == platform_name_of(*l),
{
    match &l.disassembled_name {
        Some(n) => n.clone(),
        None => match &l.platform_name {
            Some(n) => n.clone(),
            None => String::from_str("Unknown"),
        },
    }
}

/// The compact form of a departure-monitor response: the first location
/// (which must have an id and a name) is the station, under the station part
/// of its IFOPT id; the stop events' locations give its platforms, each id
/// once, in order. `None` where there is no first location, or it lacks an
/// id or a name.
pub fn extract_compact_station_data(locations: &Vec<LocationFields>, event_locations: &Vec<LocationFields>) -> (r:
    Option<Station>)
    ensures
        match r {
            Some(st) => {
                &&& locations@.len() > 0
                &&& locations@[0].id is Some
                &&& locations@[0].name is Some
                &&& st.station_id@ == station_id_of(locations@[0].id->0@)
                &&& st.station_name@ == locations@[0].name->0@
                &&& opt_vec_view(st.coord) == opt_vec_view(locations@[0].coord)
                &&& st.platforms@.map_values(|p: Platform| platform_view(p)) == compact_platforms(event_locations@)
            },
            None => locations@.len() == 0 || locations@[0].id is None || locations@[0].name is None,
        },
{
    if locations.len() == 0 {
        return None;
    }
    let first = &locations[0];
    let (full_id, name) = match (&first.id, &first.name) {
        (Some(i), Some(n)) => (i, n),
        _ => {
            return None;
        },
    };
    let station_id = extract_station_id(full_id.as_str());
    let mut platforms: Vec<Platform> = Vec::new();
    let mut k: usize = 0;
    while k < event_locations.len()
        invariant
            k <= event_locations@.len(),
            platforms@.map_values(|p: Platform| platform_view(p)) == compact_platforms(
                event_locations@.subrange(0, k as int),
            ),
        decreases event_locations@.len() - k,
    {
        let ghost after = event_locations@.subrange(0, k + 1);
        assert(after.drop_last() =~= event_locations@.subrange(0, k as int));
        assert(after.last() == event_locations@[k as int]);
        let l = &event_locations[k];
        let ghost prev = platforms@.map_values(|p: Platform| platform_view(p));
        if let Some(id) = &l.id {
            let mut seen = false;
            let mut j: usize = 0;
            while j < platforms.len()
                invariant
                    j <= platforms@.len(),
                    prev == platforms@.map_values(|p: Platform| platform_view(p)),
                    seen == exists|m: int| 0 <= m < j && (#[trigger] prev[m]).0 == id@,
                decreases platforms@.len() - j,
            {
                assert(prev[j as int] == platform_view(platforms@[j as int]));
                if platforms[j].id == *id {
                    seen = true;
                }
                j = j + 1;
            }
            if !seen {
                let p = Platform { id: id.clone(), name: platform_name(l), coord: copy_coord(&l.coord), osm_id: None };
                platforms.push(p);
                assert(platforms@.map_values(|p: Platform| platform_view(p)) =~= prev.push(
                    (id@, platform_name_of(*l), opt_vec_view(l.coord), None),
                ));
            }
        }
        k = k + 1;
    }
    assert(event_locations@.subrange(0, k as int) =~= event_locations@);
    Some(
        Station {
            station_id,
            station_name: name.clone(),
            coord: copy_coord(&first.coord),
            platforms,
        },
    )
}

/// A stop serves trams where its product classes include class 4.
pub fn serves_trams(product_classes: &Option<Vec<i32>>) -> (r: bool)
    ensures
        r == (*product_classes matches Some(v) && exists|m: int| 0 <= m < v@.len() && v@[m] == 4i32),
{
    match product_classes {
        Some(v) => {
            let mut found = false;
            let mut i: usize = 0;
            while i < v.len()
                invariant
                    i <= v@.len(),
                    found == exists|m: int| 0 <= m < i && v@[m] == 4i32,
                decreases v@.len() - i,
            {
                if v[i] == 4 {
                    found = true;
                }
                i = i + 1;
            }
            found
        },
        None => false,
    }
}

/// ASCII letters, digits and `-`, `_`, `.`, `~` stand for themselves in a URL.
pub open spec fn url_safe_byte(b: u8) -> bool {
    (48 <= b <= 57) || (65 <= b <= 90) || (97 <= b <= 122) || b == 45 || b == 46 || b == 95 || b == 126
}

/// An upper-case hexadecimal digit.
pub open spec fn hex_char(d: u8) -> char {
    if d < 10 {
        (48 + d) as char
    } else {
        (55 + d) as char
    }
}

/// Percent-encoding of bytes: safe bytes as themselves, every other byte as
/// `%` and two upper-case hexadecimal digits.
pub open spec fn percent_encoded(bytes: Seq<u8>) -> Seq<char>
    decreases bytes.len(),
{
    if bytes.len() == 0 {
        Seq::empty()
    } else {
        let b = bytes.last();
        percent_encoded(bytes.drop_last()) + if url_safe_byte(b) {
            seq![b as char]
        } else {
            seq!['%', hex_char(b / 16), hex_char(b % 16)]
        }
    }
}

/// Relies on urlencoding's `encode`: it percent-encodes every byte of the
/// UTF-8 text except ASCII letters, digits and `-`, `_`, `.`, `~`, with
/// upper-case hexadecimal digits.
#[verifier::external_body]
fn url_encode(s: &str) -> (r: String)
    ensures
        r@ == percent_encoded(encode_utf8(s@)),
{
    urlencoding::encode(s).into_owned()
}

pub open spec fn digit_char(d: nat) -> char {
    if d == 0 {
        '0'
    } else if d == 1 {
        '1'
    } else if d == 2 {
        '2'
    } else if d == 3 {
        '3'
    } else if d == 4 {
        '4'
    } else if d == 5 {
        '5'
    } else if d == 6 {
        '6'
    } else if d == 7 {
        '7'
    } else if d == 8 {
        '8'
    } else {
        '9'
    }
}

/// Decimal digits of `n`, without leading zeros.
pub open spec fn decimal_text(n: nat) -> Seq<char>
    decreases n,
{
    if n < 10 {
        seq![digit_char(n)]
    } else {
        decimal_text(n / 10).push(digit_char(n % 10))
    }
}

fn digit_str(d: u32) -> (r: &'static str)
    requires
        d < 10,
    ensures
        r@ == seq![digit_char(d as nat)],
{
    match d {
        0 => {
            proof {
                reveal_strlit("0");
            }
            "0"
        },
        1 => {
            proof {
                reveal_strlit("1");
            }
            "1"
        },
        2 => {
            proof {
                reveal_strlit("2");
            }
            "2"
        },
        3 => {
            proof {
                reveal_strlit("3");
            }
            "3"
        },
        4 => {
            proof {
                reveal_strlit("4");
            }
            "4"
        },
        5 => {
            proof {
                reveal_strlit("5");
            }
            "5"
        },
        6 => {
            proof {
                reveal_strlit("6");
            }
            "6"
        },
        7 => {
            proof {
                reveal_strlit("7");
            }
            "7"
        },
        8 => {
            proof {
                reveal_strlit("8");
            }
            "8"
        },
        _ => {
            proof {
                reveal_strlit("9");
            }
            "9"
        },
    }
}

/// The decimal text of a number.
pub fn decimal(n: u32) -> (r: String)
    ensures
        r@ == decimal_text(n as nat),
    decreases n,
{
    if n < 10 {
        String::from_str(digit_str(n))
    } else {
        let mut s = decimal(n / 10);
        s.append(digit_str(n % 10));
        s
    }
}

/// Query of the departure monitor for one stop.
pub open spec fn monitor_query(station_id: Seq<char>, limit: u32, use_realtime: bool, tram_only: bool, arrivals: bool) -> Seq<char> {
    "https://bahnland-bayern.de/efa/XML_DM_REQUEST?mode=direct&name_dm="@ + percent_encoded(encode_utf8(station_id))
        + "&type_dm=stop&depType=stopEvents&outputFormat=rapidJSON&limit="@ + decimal_text(limit as nat)
        + (if arrivals {
        "&itdDateTimeDepArr=arr"@
    } else {
        Seq::empty()
    }) + (if use_realtime {
        "&useRealtime=1"@
    } else {
        Seq::empty()
    }) + (if tram_only {
        "&includedMeans=4"@
    } else {
        Seq::empty()
    })
}

fn monitor_url(station_id: &str, limit: u32, use_realtime: bool, tram_only: bool, arrivals: bool) -> (r: String)
    ensures
        r@ == monitor_query(station_id@, limit, use_realtime, tram_only, arrivals),
{
    let mut url = String::from_str("https://bahnland-bayern.de/efa/XML_DM_REQUEST?mode=direct&name_dm=");
    let encoded = url_encode(station_id);
    url.append(encoded.as_str());
    url.append("&type_dm=stop&depType=stopEvents&outputFormat=rapidJSON&limit=");
    let n = decimal(limit);
    url.append(n.as_str());
    let ghost base = url@;
    if arrivals {
        url.append("&itdDateTimeDepArr=arr");
    } else {
        assert(url@ =~= base + Seq::<char>::empty());
    }
    let ghost with_arr = url@;
    if use_realtime {
        url.append("&useRealtime=1");
    } else {
        assert(url@ =~= with_arr + Seq::<char>::empty());
    }
    let ghost with_rt = url@;
    if tram_only {
        url.append("&includedMeans=4");
    } else {
        assert(url@ =~= with_rt + Seq::<char>::empty());
    }
    url
}

/// URL of the departures of one stop.
pub fn departures_url(station_id: &str, limit: u32, use_realtime: bool, tram_only: bool) -> (r: String)
    ensures
        r@ == monitor_query(station_id@, limit, use_realtime, tram_only, false),
{
    monitor_url(station_id, limit, use_realtime, tram_only, false)
}

/// URL of the arrivals at one stop.
pub fn arrivals_url(station_id: &str, limit: u32, use_realtime: bool, tram_only: bool) -> (r: String)
    ensures
        r@ == monitor_query(station_id@, limit, use_realtime, tram_only, true),
{
    monitor_url(station_id, limit, use_realtime, tram_only, true)
}

/// URL of the stop finder for a search term; `stops_only` restricts it to
/// stops and asks for WGS84 coordinates.
pub fn stop_finder_url(search_term: &str, stops_only: bool) -> (r: String)
    ensures
        r@ == "https://bahnland-bayern.de/efa/XML_STOPFINDER_REQUEST?outputFormat=rapidJSON&type_sf=any&name_sf="@
            + percent_encoded(encode_utf8(search_term@)) + if stops_only {
            "&anyObjFilter_sf=2&coordOutputFormat=WGS84[DD.ddddd]"@
        } else {
            Seq::empty()
        },
{
    let mut url = String::from_str(
        "https://bahnland-bayern.de/efa/XML_STOPFINDER_REQUEST?outputFormat=rapidJSON&type_sf=any&name_sf=",
    );
    let encoded = url_encode(search_term);
    url.append(encoded.as_str());
    let ghost base = url@;
    if stops_only {
        url.append("&anyObjFilter_sf=2&coordOutputFormat=WGS84[DD.ddddd]");
    } else {
        assert(url@ =~= base + Seq::<char>::empty());
    }
    url
}

/// URL of the station information of one stop: one tram event with its
/// complete stop sequence and coordinates.
pub fn station_info_url(station_id: &str) -> (r: String)
    ensures
        r@ == "https://bahnland-bayern.de/efa/XML_DM_REQUEST?mode=direct&name_dm="@ + percent_encoded(
            encode_utf8(station_id@),
        )
            + "&type_dm=stop&depType=stopEvents&outputFormat=rapidJSON&includeCompleteStopSeq=1&useRealtime=1&limit=1&includedMeans=4&coordOutputFormat=EPSG:4326"@,
{
    let mut url = String::from_str("https://bahnland-bayern.de/efa/XML_DM_REQUEST?mode=direct&name_dm=");
    let encoded = url_encode(station_id);
    url.append(encoded.as_str());
    url.append(
        "&type_dm=stop&depType=stopEvents&outputFormat=rapidJSON&includeCompleteStopSeq=1&useRealtime=1&limit=1&includedMeans=4&coordOutputFormat=EPSG:4326",
    );
    url
}

} // verus!
