//! Overpass queries of an area: the bounding box as `south,west,north,east`
//! and, per transport type, the tag-filtered element queries.
use vstd::prelude::*;
use crate::config::{transport_name, BoundingBox, TransportType};
use crate::efa::{decimal, decimal_text, digit_char};

verus! {

/// `width` decimal digits of `f`, with leading zeros.
pub open spec fn padded_digits(f: nat, width: nat) -> Seq<char>
    decreases width,
{
    if width == 0 {
        Seq::empty()
    } else {
        padded_digits(f / 10, (width - 1) as nat).push(digit_char(f % 10))
    }
}

/// The fraction digits of `f` over `width` places, trailing zeros dropped.
pub open spec fn fraction_text(f: nat, width: nat) -> Seq<char>
    decreases width,
{
    if width > 0 && f % 10 == 0 {
        fraction_text(f / 10, (width - 1) as nat)
    } else {
        padded_digits(f, width)
    }
}

/// A coordinate in units of 10^-7 degree as a decimal number of degrees,
/// without trailing zeros.
pub open spec fn degree_text(x: int) -> Seq<char> {
    let a = if x < 0 {
        -x
    } else {
        x
    };
    let whole = a / 10_000_000;
    let frac = a % 10_000_000;
    (if x < 0 {
        "-"@
    } else {
        Seq::empty()
    }) + decimal_text(whole as nat) + if frac == 0 {
        Seq::empty()
    } else {
        "."@ + fraction_text(frac as nat, 7)
    }
}

/// The bounding box as Overpass takes it: `south,west,north,east`.
pub open spec fn bbox_text(b: BoundingBox) -> Seq<char> {
    degree_text(b.south as int) + ","@ + degree_text(b.west as int) + ","@ + degree_text(b.north as int) + ","@
        + degree_text(b.east as int)
}

fn padded(f: u32, width: u32) -> (r: String)
    ensures
        r@ == padded_digits(f as nat, width as nat),
    decreases width,
{
    if width == 0 {
        String::new()
    } else {
        let mut s = padded(f / 10, width - 1);
        let d = decimal(f % 10);
        s.append(d.as_str());
        s
    }
}

fn fraction(f: u32, width: u32) -> (r: String)
    ensures
        r@ == fraction_text(f as nat, width as nat),
    decreases width,
{
    if width > 0 && f % 10 == 0 {
        fraction(f / 10, width - 1)
    } else {
        padded(f, width)
    }
}

/// A coordinate as decimal degrees.
pub fn degrees_text(x: i64) -> (r: String)
    requires
        -2_000_000_000 <= x <= 2_000_000_000,
    ensures
        r@ == degree_text(x as int),
{
    let a: u64 = if x < 0 {
        (0 - x) as u64
    } else {
        x as u64
    };
    let whole = (a / 10_000_000) as u32;
    let frac = (a % 10_000_000) as u32;
    let mut s = if x < 0 {
        String::from_str("-")
    } else {
        String::new()
    };
    let w = decimal(whole);
    s.append(w.as_str());
    let ghost base = s@;
    if frac != 0 {
        s.append(".");
        let f = fraction(frac, 7);
        s.append(f.as_str());
    } else {
        assert(s@ =~= base + Seq::<char>::empty());
    }
    s
}

impl BoundingBox {
    /// Coordinates within +-200 degrees.
    pub open spec fn in_range(&self) -> bool {
        &&& -2_000_000_000 <= self.south <= 2_000_000_000
        &&& -2_000_000_000 <= self.west <= 2_000_000_000
        &&& -2_000_000_000 <= self.north <= 2_000_000_000
        &&& -2_000_000_000 <= self.east <= 2_000_000_000
    }

    /// `south,west,north,east`, as Overpass takes it.
    pub fn to_overpass_string(&self) -> (r: String)
        requires
            self.in_range(),
        ensures
            r@ == bbox_text(*self),
    {
        let mut s = degrees_text(self.south);
        s.append(",");
        s.append(degrees_text(self.west).as_str());
        s.append(",");
        s.append(degrees_text(self.north).as_str());
        s.append(",");
        s.append(degrees_text(self.east).as_str());
        s
    }
}

/// Which element query is meant.
#[derive(Clone, Copy, Debug, PartialEq, Eq, Structural)]
pub enum FeatureKind {
    Stations,
    Platforms,
    StopPositions,
}

/// The filters (each followed by the bounding box and `);`) of one kind of
/// feature for one transport type; only trams and buses have any.
pub open spec fn filters(kind: FeatureKind, t: TransportType) -> Seq<Seq<char>> {
    match (kind, t) {
        (FeatureKind::Stations, TransportType::Tram) | (FeatureKind::Stations, TransportType::Bus) => seq![
            "relation[\"public_transport\"=\"stop_area\"]("@,
            "node[\"public_transport\"=\"station\"]("@,
            "way[\"public_transport\"=\"station\"]("@,
        ],
        (FeatureKind::Platforms, TransportType::Tram) => seq![
            "node[\"public_transport\"=\"platform\"][\"tram\"=\"yes\"]("@,
            "way[\"public_transport\"=\"platform\"][\"tram\"=\"yes\"]("@,
            "node[\"railway\"=\"platform\"][\"tram\"=\"yes\"]("@,
            "way[\"railway\"=\"platform\"][\"tram\"=\"yes\"]("@,
        ],
        (FeatureKind::Platforms, TransportType::Bus) => seq![
            "node[\"public_transport\"=\"platform\"][\"bus\"=\"yes\"]("@,
            "way[\"public_transport\"=\"platform\"][\"bus\"=\"yes\"]("@,
            "node[\"highway\"=\"platform\"]("@,
        ],
        (FeatureKind::StopPositions, TransportType::Tram) => seq![
            "node[\"public_transport\"=\"stop_position\"][\"tram\"=\"yes\"]("@,
        ],
        (FeatureKind::StopPositions, TransportType::Bus) => seq![
            "node[\"public_transport\"=\"stop_position\"][\"bus\"=\"yes\"]("@,
        ],
        _ => Seq::empty(),
    }
}

/// The query lines of one kind of feature for all transport types, in order.
pub open spec fn query_lines(kind: FeatureKind, types: Seq<TransportType>, bounds: Seq<char>) -> Seq<Seq<char>>
    decreases types.len(),
{
    if types.len() == 0 {
        Seq::empty()
    } else {
        query_lines(kind, types.drop_last(), bounds) + filters(kind, types.last()).map_values(
            |f: Seq<char>| f + bounds + ");"@,
        )
    }
}

/// Lines joined by line breaks.
pub open spec fn joined(lines: Seq<Seq<char>>) -> Seq<char>
    decreases lines.len(),
{
    if lines.len() == 0 {
        Seq::empty()
    } else if lines.len() == 1 {
        lines[0]
    } else {
        joined(lines.drop_last()) + "\n"@ + lines.last()
    }
}

pub open spec fn output_of(kind: FeatureKind) -> Seq<char> {
    match kind {
        FeatureKind::Stations => "out body center;"@,
        FeatureKind::Platforms => "out center;"@,
        FeatureKind::StopPositions => "out;"@,
    }
}

/// The element query of one kind of feature, or none where no transport type has filters.
pub open spec fn element_query(kind: FeatureKind, types: Seq<TransportType>, bounds: Seq<char>) -> Option<Seq<char>> {
    let lines = query_lines(kind, types, bounds);
    if lines.len() == 0 {
        None
    } else {
        Some("[out:json][timeout:90];\n(\n"@ + joined(lines) + "\n);\n"@ + output_of(kind))
    }
}

fn filter_strs(kind: FeatureKind, t: TransportType) -> (r: Vec<&'static str>)
    ensures
        r@.map_values(|s: &str| s@) == filters(kind, t),
{
    let mut v: Vec<&'static str> = Vec::new();
    match (kind, t) {
        (FeatureKind::Stations, TransportType::Tram) | (FeatureKind::Stations, TransportType::Bus) => {
            v.push("relation[\"public_transport\"=\"stop_area\"](");
            v.push("node[\"public_transport\"=\"station\"](");
            v.push("way[\"public_transport\"=\"station\"](");
        },
        (FeatureKind::Platforms, TransportType::Tram) => {
            v.push("node[\"public_transport\"=\"platform\"][\"tram\"=\"yes\"](");
            v.push("way[\"public_transport\"=\"platform\"][\"tram\"=\"yes\"](");
            v.push("node[\"railway\"=\"platform\"][\"tram\"=\"yes\"](");
            v.push("way[\"railway\"=\"platform\"][\"tram\"=\"yes\"](");
        },
        (FeatureKind::Platforms, TransportType::Bus) => {
            v.push("node[\"public_transport\"=\"platform\"][\"bus\"=\"yes\"](");
            v.push("way[\"public_transport\"=\"platform\"][\"bus\"=\"yes\"](");
            v.push("node[\"highway\"=\"platform\"](");
        },
        (FeatureKind::StopPositions, TransportType::Tram) => {
            v.push("node[\"public_transport\"=\"stop_position\"][\"tram\"=\"yes\"](");
        },
        (FeatureKind::StopPositions, TransportType::Bus) => {
            v.push("node[\"public_transport\"=\"stop_position\"][\"bus\"=\"yes\"](");
        },
        _ => {},
    }
    assert(v@.map_values(|s: &str| s@) =~= filters(kind, t));
    v
}

fn join_lines(lines: &Vec<String>) -> (r: String)
    ensures
        r@ == joined(lines@.map_values(|s: String| s@)),
{
    let mut out = String::new();
    let mut i: usize = 0;
    while i < lines.len()
        invariant
            i <= lines@.len(),
            out@ == joined(lines@.subrange(0, i as int).map_values(|s: String| s@)),
        decreases lines@.len() - i,
    {
        let ghost prev = lines@.subrange(0, i as int).map_values(|s: String| s@);
        let ghost next = lines@.subrange(0, i + 1).map_values(|s: String| s@);
        assert(next.drop_last() =~= prev);
        if i > 0 {
            out.append("\n");
        } else {
            assert(next.len() == 1);
        }
        out.append(lines[i].as_str());
        i = i + 1;
    }
    assert(lines@.subrange(0, i as int) =~= lines@);
    out
}

/// The element query of one kind of feature in an area, or `None` where none
/// of its transport types has filters for that kind.
pub fn build_element_query(kind: FeatureKind, bounding_box: &BoundingBox, transport_types: &Vec<TransportType>) -> (r:
    Option<String>)
    requires
        bounding_box.in_range(),
    ensures
        match r {
            Some(q) => element_query(kind, transport_types@, bbox_text(*bounding_box)) == Some(q@),
            None => element_query(kind, transport_types@, bbox_text(*bounding_box)) is None,
        },
{
    let bounds = bounding_box.to_overpass_string();
    let mut lines: Vec<String> = Vec::new();
    let mut k: usize = 0;
    while k < transport_types.len()
        invariant
            k <= transport_types@.len(),
            bounds@ == bbox_text(*bounding_box),
            lines@.map_values(|s: String| s@) == query_lines(kind, transport_types@.subrange(0, k as int), bounds@),
        decreases transport_types@.len() - k,
    {
        let ghost after = transport_types@.subrange(0, k + 1);
        assert(after.drop_last() =~= transport_types@.subrange(0, k as int));
        let fs = filter_strs(kind, transport_types[k]);
        let ghost before = lines@.map_values(|s: String| s@);
        let ghost fv = fs@.map_values(|s: &str| s@);
        let mut j: usize = 0;
        while j < fs.len()
            invariant
                j <= fs@.len(),
                fv == fs@.map_values(|s: &str| s@),
                lines@.map_values(|s: String| s@) == before + fv.subrange(0, j as int).map_values(
                    |f: Seq<char>| f + bounds@ + ");"@,
                ),
            decreases fs@.len() - j,
        {
            let mut line = String::from_str(fs[j]);
            line.append(bounds.as_str());
            line.append(");");
            assert(fv[j as int] == fs@[j as int]@);
            let ghost lv = line@;
            let ghost old_lines = lines@;
            lines.push(line);
            assert(lines@.map_values(|s: String| s@) =~= old_lines.map_values(|s: String| s@).push(lv));
            assert(fv.subrange(0, j + 1).map_values(|f: Seq<char>| f + bounds@ + ");"@) =~= fv.subrange(
                0,
                j as int,
            ).map_values(|f: Seq<char>| f + bounds@ + ");"@).push(fv[j as int] + bounds@ + ");"@));
            j = j + 1;
            assert(lines@.map_values(|s: String| s@) =~= before + fv.subrange(0, j as int).map_values(
                |f: Seq<char>| f + bounds@ + ");"@,
            ));
        }
        assert(fv.subrange(0, j as int) =~= fv);
        assert(after.last() == transport_types@[k as int]);
        k = k + 1;
    }
    assert(transport_types@.subrange(0, k as int) =~= transport_types@);
    if lines.len() == 0 {
        return None;
    }
    let mut q = String::from_str("[out:json][timeout:90];\n(\n");
    let body = join_lines(&lines);
    q.append(body.as_str());
    q.append("\n);\n");
    match kind {
        FeatureKind::Stations => q.append("out body center;"),
        FeatureKind::Platforms => q.append("out center;"),
        FeatureKind::StopPositions => q.append("out;"),
    }
    Some(q)
}

/// One route filter per transport type, in order.
pub open spec fn route_lines(types: Seq<TransportType>, bounds: Seq<char>) -> Seq<Seq<char>> {
    types.map_values(
        |t: TransportType| "relation[\"type\"=\"route\"][\"route\"=\""@ + transport_name(t) + "\"]("@ + bounds + ");"@,
    )
}

/// The route query: route relations with their members, then the members'
/// ways and nodes.
pub open spec fn route_query(types: Seq<TransportType>, bounds: Seq<char>) -> Seq<char> {
    "[out:json][timeout:180];\n(\n"@ + joined(route_lines(types, bounds)) + "\n);\nout body;\n>;\nout skel qt;"@
}

/// The route query of an area.
pub fn build_route_query(bounding_box: &BoundingBox, transport_types: &Vec<TransportType>) -> (r: String)
    requires
        bounding_box.in_range(),
    ensures
        r@ == route_query(transport_types@, bbox_text(*bounding_box)),
{
    let bounds = bounding_box.to_overpass_string();
    let mut lines: Vec<String> = Vec::new();
    let mut k: usize = 0;
    while k < transport_types.len()
        invariant
            k <= transport_types@.len(),
            bounds@ == bbox_text(*bounding_box),
            lines@.map_values(|s: String| s@) == route_lines(transport_types@.subrange(0, k as int), bounds@),
        decreases transport_types@.len() - k,
    {
        let mut line = String::from_str("relation[\"type\"=\"route\"][\"route\"=\"");
        line.append(transport_types[k].as_str());
        line.append("\"](");
        line.append(bounds.as_str());
        line.append(");");
        let ghost old_lines = lines@;
        let ghost lv = line@;
        lines.push(line);
        assert(lines@.map_values(|s: String| s@) =~= old_lines.map_values(|s: String| s@).push(lv));
        k = k + 1;
        assert(route_lines(transport_types@.subrange(0, k as int), bounds@) =~= route_lines(
            transport_types@.subrange(0, k - 1),
            bounds@,
        ).push(lv));
    }
    assert(transport_types@.subrange(0, k as int) =~= transport_types@);
    let mut q = String::from_str("[out:json][timeout:180];\n(\n");
    let body = join_lines(&lines);
    q.append(body.as_str());
    q.append("\n);\nout body;\n>;\nout skel qt;");
    q
}

} // verus!
