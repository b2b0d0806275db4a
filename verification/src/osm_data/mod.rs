//! Reading OpenStreetMap data: the streaming reader of Overpass JSON, the
//! rules of the PBF readers, and the areas of the map.

pub mod json_parser;
pub mod in_memory_pbf;
pub mod pbf_area_reader;
pub mod pbf_reader;
