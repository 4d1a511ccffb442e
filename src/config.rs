//! Configuration: the areas to synchronise, each with a bounding box and the
//! kinds of transport it carries.
use vstd::prelude::*;

verus! {

/// A bounding box in units of 10^-7 degree.
pub struct BoundingBox {
    pub south: i64,
    pub west: i64,
    pub north: i64,
    pub east: i64,
}

/// A kind of public transport.
#[derive(Clone, Copy, Debug, PartialEq, Eq, Structural)]
pub enum TransportType {
    Tram,
    Bus,
    Subway,
    Train,
    Ferry,
    /// A kind that the data does not tell.
    Unknown,
}

pub open spec fn transport_name(t: TransportType) -> Seq<char> {
    match t {
        TransportType::Tram => "tram"@,
        TransportType::Bus => "bus"@,
        TransportType::Subway => "subway"@,
        TransportType::Train => "train"@,
        TransportType::Ferry => "ferry"@,
        TransportType::Unknown => "unknown"@,
    }
}

impl TransportType {
    /// The lower-case name used in configuration and in queries.
    pub fn as_str(&self) -> (r: &'static str)
        ensures
            r@ == transport_name(*self),
    {
        match self {
            TransportType::Tram => "tram",
            TransportType::Bus => "bus",
            TransportType::Subway => "subway",
            TransportType::Train => "train",
            TransportType::Ferry => "ferry",
            TransportType::Unknown => "unknown",
        }
    }
}

/// An area to synchronise.
pub struct Area {
    pub name: String,
    pub bounding_box: BoundingBox,
    pub transport_types: Vec<TransportType>,
}

pub struct Config {
    pub areas: Vec<Area>,
    /// Allowed CORS origins; required unless `cors_permissive` is set.
    pub cors_origins: Vec<String>,
    /// Allow every origin.
    pub cors_permissive: bool,
}

pub enum ConfigError {
    ReadError(String),
    ParseError(String),
}

/// Failures of an area sync.
pub enum SyncError {
    OsmError(String),
    EfaError(String),
    DatabaseError(String),
}

} // verus!
