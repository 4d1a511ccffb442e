pub mod api;
pub mod config;
pub mod departures;
pub mod efa;
pub mod geo;
pub mod ifopt;
pub mod osm;
pub mod time;
pub mod topology;
pub mod tracker;
pub mod overpass;
