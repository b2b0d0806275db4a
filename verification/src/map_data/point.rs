//! A point of the map as routing reads it from a loaded tile.

use vstd::prelude::*;
use crate::map_data::MapDataRule;
use crate::map_data::graph::{
    MapDataElement, MapDataElementRef, TileAdjacency, TileElementStore, TilePoint, stored_point,
};
use crate::map_data::line::MapDataLine;
use crate::rmdf::TileId;

verus! {

/// A point: its OSM id, the `f32` bit patterns of its coordinates, the lines
/// that touch it, its turn rules and its proximity flags.
pub struct MapDataPoint {
    pub id: u64,
    pub lat_bits: u32,
    pub lon_bits: u32,
    pub lines: Vec<MapDataElementRef<MapDataLine>>,
    pub rules: Vec<MapDataRule>,
    pub residential_in_proximity: bool,
    pub nogo_area: bool,
}

/// Whether the line references name, in order, the lines of the adjacency
/// entries.
pub open spec fn lines_of_adjacency(lines: Seq<MapDataElementRef<MapDataLine>>, adjacent: Seq<TileAdjacency>) -> bool {
    &&& lines.len() == adjacent.len()
    &&& forall|k: int| 0 <= k < lines.len() ==> (#[trigger] lines[k]).tile() == adjacent[k].line_tile_id
        && lines[k].id() == adjacent[k].line_index
}

/// Whether `p` is the point of record `rec`: its id, coordinates and flags,
/// the lines that the record lists as touching it, and no rules (the tiles
/// hold none for points).
pub open spec fn point_of_record(rec: TilePoint, p: MapDataPoint) -> bool {
    &&& p.id == rec.osm_id
    &&& p.lat_bits == rec.lat_bits
    &&& p.lon_bits == rec.lon_bits
    &&& p.residential_in_proximity == rec.residential_in_proximity
    &&& p.nogo_area == rec.nogo_area
    &&& lines_of_adjacency(p.lines@, rec.adjacent@)
    &&& p.rules@.len() == 0
}

impl MapDataPoint {
    /// Whether more than two lines touch the point.
    pub fn is_junction(&self) -> (r: bool)
        ensures
            r == (self.lines@.len() > 2),
    {
        self.lines.len() > 2
    }
}

impl MapDataElement for MapDataPoint {
    open spec fn held_in(store: TileElementStore, tile_id: TileId, element_id: u64) -> bool {
        stored_point(store, tile_id, element_id) is Some
    }

    open spec fn resolved_from(store: TileElementStore, tile_id: TileId, element_id: u64, element: Self) -> bool {
        stored_point(store, tile_id, element_id) matches Some(rec) && point_of_record(rec, element)
    }

    /// Point `element_id` (an OSM id) of tile `tile_id`, with the lines that
    /// its record lists.
    fn get_from_tiles(store: &TileElementStore, tile_id: TileId, element_id: u64) -> (res: Self) {
        let rec = store.point_record(tile_id, element_id).unwrap();
        let mut lines: Vec<MapDataElementRef<MapDataLine>> = Vec::new();
        let mut k: usize = 0;
        while k < rec.adjacent.len()
            invariant
                k <= rec.adjacent@.len(),
                lines@.len() == k,
                forall|j: int| 0 <= j < k ==> (#[trigger] lines@[j]).tile() == rec.adjacent@[j].line_tile_id
                    && lines@[j].id() == rec.adjacent@[j].line_index,
            decreases rec.adjacent@.len() - k,
        {
            let a = rec.adjacent[k];
            lines.push(MapDataElementRef::new(a.line_tile_id, a.line_index));
            k = k + 1;
        }
        MapDataPoint {
            id: rec.osm_id,
            lat_bits: rec.lat_bits,
            lon_bits: rec.lon_bits,
            lines,
            rules: Vec::new(),
            residential_in_proximity: rec.residential_in_proximity,
            nogo_area: rec.nogo_area,
        }
    }
}

} // verus!
