//! Map data as routing reads it from generated tiles: references to points and lines
//! of a tile, the points and lines they resolve to, and their tags.

use vstd::prelude::*;

pub mod element_tags;
pub mod graph;
pub mod line;
pub mod point;
pub mod way;

verus! {

/// Whether a turn restriction allows only the listed turn or forbids it.
#[derive(Clone, Copy, Debug, PartialEq, Eq, Structural)]
pub enum MapDataRuleType {
    OnlyAllowed,
    NotAllowed,
}

/// A turn rule at a point: from any of the `from` lines to any of the `to`
/// lines the turn is allowed only, or not allowed.
pub struct MapDataRule {
    pub from_lines: Vec<graph::MapDataElementRef<line::MapDataLine>>,
    pub to_lines: Vec<graph::MapDataElementRef<line::MapDataLine>>,
    pub rule_type: MapDataRuleType,
}

/// Failures of building map data.
#[derive(Clone, Debug, PartialEq, Eq)]
pub enum MapDataError {
    MissingPoint { point_id: u64 },
    MissingViaMember { relation_id: u64 },
    MissingViaPoint { relation_id: u64, point_id: u64 },
    UnknownRestriction { relation_id: u64, restriction: String },
}

} // verus!
