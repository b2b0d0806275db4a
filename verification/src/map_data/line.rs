//! A line of the map as routing reads it from a loaded tile.

use vstd::prelude::*;
use crate::generation::LineDirection;
use crate::map_data::graph::{ElementTagSetRef, MapDataElement, MapDataElementRef, TileElementStore, TileLine, stored_line};
use crate::map_data::point::MapDataPoint;
use crate::rmdf::{TileId, direction_of_code, direction_of_code_spec};

verus! {

/// A line: its two points, the direction in which it may be travelled, and
/// its tag set.
pub struct MapDataLine {
    pub points: (MapDataElementRef<MapDataPoint>, MapDataElementRef<MapDataPoint>),
    pub direction: LineDirection,
    pub tags: ElementTagSetRef,
}

/// Whether `l` is line record `rec` of tile `tile`: its first point in that
/// tile, its second point in the tile that the record names, the direction
/// of the record's code, and the record's tag set in that tile.
pub open spec fn line_of_record(tile: TileId, rec: TileLine, l: MapDataLine) -> bool {
    &&& l.points.0.tile() == tile
    &&& l.points.0.id() == rec.point_a_osm_id
    &&& l.points.1.tile() == rec.point_b_tile_id
    &&& l.points.1.id() == rec.point_b_osm_id
    &&& l.direction == direction_of_code_spec(rec.direction)
    &&& l.tags == (ElementTagSetRef { tile_id: tile, tag_set_idx: rec.tag_set_index })
}

impl MapDataLine {
    /// Whether the line may only be travelled from its first point.
    pub fn is_one_way(&self) -> (r: bool)
        ensures
            r == (self.direction == LineDirection::OneWay),
    {
        match self.direction {
            LineDirection::OneWay => true,
            _ => false,
        }
    }

    /// Whether the line is part of a roundabout.
    pub fn is_roundabout(&self) -> (r: bool)
        ensures
            r == (self.direction == LineDirection::Roundabout),
    {
        match self.direction {
            LineDirection::Roundabout => true,
            _ => false,
        }
    }
}

impl MapDataElement for MapDataLine {
    open spec fn held_in(store: TileElementStore, tile_id: TileId, element_id: u64) -> bool {
        stored_line(store, tile_id, element_id) is Some
    }

    open spec fn resolved_from(store: TileElementStore, tile_id: TileId, element_id: u64, element: Self) -> bool {
        stored_line(store, tile_id, element_id) matches Some(rec) && line_of_record(tile_id, rec, element)
    }

    /// Line `element_id` (an index) of tile `tile_id`.
    fn get_from_tiles(store: &TileElementStore, tile_id: TileId, element_id: u64) -> (res: Self) {
        let rec = store.line_record(tile_id, element_id).unwrap();
        MapDataLine {
            points: (
                MapDataElementRef::new(tile_id, rec.point_a_osm_id),
                MapDataElementRef::new(rec.point_b_tile_id, rec.point_b_osm_id),
            ),
            direction: direction_of_code(rec.direction),
            tags: ElementTagSetRef::new(tile_id, rec.tag_set_index),
        }
    }
}

} // verus!
