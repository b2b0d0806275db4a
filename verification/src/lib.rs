//! Verified core of a motorcycle route planner working on OpenStreetMap data.

pub mod gps_hash;
pub mod gps_coords_hash_map;
pub mod gpx_writer;
pub mod text;
pub mod numbers;
pub mod generation;
pub mod osm;
pub mod osm_data;
pub mod proximity;
pub mod rmdf;
pub mod sorted;
pub mod map_data;
pub mod viewer_api;
pub mod output_dir;
