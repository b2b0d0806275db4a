//! The in-memory graph that one map tile is generated from.

use vstd::prelude::*;

pub mod assemble;
pub mod graph;
pub mod restriction;
pub mod tags;

verus! {

/// The direction in which a line may be travelled.
#[derive(Clone, Copy, Debug, PartialEq, Eq, Structural)]
pub enum LineDirection {
    BothWays,
    OneWay,
    Roundabout,
}

/// A line between two consecutive nodes of a way.
#[derive(Clone, Copy, Debug, PartialEq, Eq, Structural)]
pub struct GenerationLine {
    pub from_node_id: u64,
    pub to_node_id: u64,
    pub direction: LineDirection,
    pub tags: tags::TagSetId,
}

/// A point of the tile graph. Coordinates are the IEEE-754 bit patterns of the
/// degrees (see `OsmNode`).
#[derive(Clone, Copy, Debug, PartialEq, Eq, Structural)]
pub struct GenerationPoint {
    pub id: u64,
    pub lat_bits: u64,
    pub lon_bits: u64,
    pub residential_in_proximity: bool,
    pub nogo_area: bool,
}

/// Failures of graph generation.
#[derive(Clone, Debug, PartialEq, Eq)]
pub enum GenerationError {
    MissingPoint { point_id: u64 },
}

} // verus!
pub mod materialize;
pub mod tile_materializer;
