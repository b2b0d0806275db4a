//! Tile-aware references to tag values, tag sets, points and lines, and the
//! tables of loaded tiles that they are resolved against: the tag tables, and
//! the point and line records.

use std::marker::PhantomData;
use vstd::prelude::*;
use vstd::string::*;
use crate::rmdf::{TileId, TagSetRecord, TAG_VALUE_NONE};
use crate::map_data::line::MapDataLine;
use crate::map_data::point::MapDataPoint;

verus! {

/// The tag tables of one loaded tile.
pub struct TileTagTable {
    pub tile_id: TileId,
    pub tag_values: Vec<String>,
    pub tag_sets: Vec<TagSetRecord>,
}

/// The tag tables of the loaded tiles, looked up by tile id (the first table of a
/// tile id is the one used).
pub struct TileTagStore {
    pub tiles: Vec<TileTagTable>,
}

/// The position of the first table of `tile` in `tiles`.
pub open spec fn first_table(tiles: Seq<TileTagTable>, tile: TileId) -> Option<int> {
    if exists|i: int| 0 <= i < tiles.len() && tiles[i].tile_id == tile {
        let i = choose|i: int|
            0 <= i < tiles.len() && tiles[i].tile_id == tile && forall|j: int|
                0 <= j < i ==> tiles[j].tile_id != tile;
        Some(i)
    } else {
        None
    }
}

/// Tag value `idx` of tile `tile`, if the tile is loaded and has that value.
pub open spec fn stored_tag_value(tiles: Seq<TileTagTable>, tile: TileId, idx: u32) -> Option<Seq<char>> {
    match first_table(tiles, tile) {
        Some(i) => if (idx as int) < tiles[i].tag_values@.len() {
            Some(tiles[i].tag_values@[idx as int]@)
        } else {
            None
        },
        None => None,
    }
}

/// Tag set record `idx` of tile `tile`, if the tile is loaded and has that record.
pub open spec fn stored_tag_set(tiles: Seq<TileTagTable>, tile: TileId, idx: u32) -> Option<TagSetRecord> {
    match first_table(tiles, tile) {
        Some(i) => if (idx as int) < tiles[i].tag_sets@.len() {
            Some(tiles[i].tag_sets@[idx as int])
        } else {
            None
        },
        None => None,
    }
}

impl TileTagStore {
    /// No tiles loaded.
    pub fn new() -> (res: Self)
        ensures
            res.tiles@.len() == 0,
    {
        TileTagStore { tiles: Vec::new() }
    }

    /// Adds the tag tables of a tile.
    pub fn add_tile(&mut self, table: TileTagTable)
        ensures
            final(self).tiles@ == old(self).tiles@.push(table),
    {
        self.tiles.push(table);
    }

    fn find(&self, tile: TileId) -> (res: Option<usize>)
        ensures
            match res {
                Some(i) => i < self.tiles@.len() && first_table(self.tiles@, tile) == Some(i as int),
                None => first_table(self.tiles@, tile) is None,
            },
    {
        let mut i: usize = 0;
        while i < self.tiles.len()
            invariant
                i <= self.tiles@.len(),
                forall|j: int| 0 <= j < i ==> self.tiles@[j].tile_id != tile,
            decreases self.tiles@.len() - i,
        {
            if self.tiles[i].tile_id == tile {
                assert(first_table(self.tiles@, tile) == Some(i as int)) by {
                    let k = choose|k: int|
                        0 <= k < self.tiles@.len() && self.tiles@[k].tile_id == tile && forall|j: int|
                            0 <= j < k ==> self.tiles@[j].tile_id != tile;
                    assert(k == i);
                }
                return Some(i);
            }
            i = i + 1;
        }
        None
    }

    /// Tag value `idx` of tile `tile` (see `stored_tag_value`).
    pub fn get_tag_value(&self, tile: TileId, idx: u32) -> (res: Option<String>)
        ensures
            match res {
                Some(s) => stored_tag_value(self.tiles@, tile, idx) == Some(s@),
                None => stored_tag_value(self.tiles@, tile, idx) is None,
            },
    {
        match self.find(tile) {
            Some(i) => {
                if (idx as usize) < self.tiles[i].tag_values.len() {
                    Some(self.tiles[i].tag_values[idx as usize].clone())
                } else {
                    None
                }
            },
            None => None,
        }
    }

    /// Tag set record `idx` of tile `tile` (see `stored_tag_set`).
    pub fn get_tag_set_record(&self, tile: TileId, idx: u32) -> (res: Option<TagSetRecord>)
        ensures
            res == stored_tag_set(self.tiles@, tile, idx),
    {
        match self.find(tile) {
            Some(i) => {
                if (idx as usize) < self.tiles[i].tag_sets.len() {
                    Some(self.tiles[i].tag_sets[idx as usize])
                } else {
                    None
                }
            },
            None => None,
        }
    }
}

/// A tag value of a tile, or the absence of a tag (`TAG_VALUE_NONE`).
#[derive(Clone, Copy, Debug, PartialEq, Eq, Hash, Structural)]
pub struct ElementTagValueRef {
    pub tile_id: TileId,
    pub tag_value_idx: u32,
}

/// The string a tag value reference resolves to.
pub open spec fn tag_value_of(r: ElementTagValueRef, tiles: Seq<TileTagTable>) -> Option<Seq<char>> {
    if r.tag_value_idx == TAG_VALUE_NONE {
        None
    } else {
        stored_tag_value(tiles, r.tile_id, r.tag_value_idx)
    }
}

impl ElementTagValueRef {
    /// The reference of a missing tag.
    pub fn none(tile_id: TileId) -> (res: Self)
        ensures
            res.tile_id == tile_id,
            res.tag_value_idx == TAG_VALUE_NONE,
    {
        ElementTagValueRef { tile_id, tag_value_idx: TAG_VALUE_NONE }
    }

    /// The reference of tag value `tag_idx`.
    pub fn some(tile_id: TileId, tag_idx: u32) -> (res: Self)
        ensures
            res.tile_id == tile_id,
            res.tag_value_idx == tag_idx,
    {
        ElementTagValueRef { tile_id, tag_value_idx: tag_idx }
    }

    /// The reference of a stored index, where `TAG_VALUE_NONE` means a missing tag.
    pub fn from_idx(tile_id: TileId, tag_idx: u32) -> (res: Self)
        ensures
            res.tile_id == tile_id,
            res.tag_value_idx == tag_idx,
    {
        if tag_idx == TAG_VALUE_NONE {
            Self::none(tile_id)
        } else {
            Self::some(tile_id, tag_idx)
        }
    }

    /// The tag value, when the tag is present and its tile holds it.
    pub fn get(&self, tiles: &TileTagStore) -> (res: Option<String>)
        ensures
            match res {
                Some(s) => tag_value_of(*self, tiles.tiles@) == Some(s@),
                None => tag_value_of(*self, tiles.tiles@) is None,
            },
    {
        if self.tag_value_idx == TAG_VALUE_NONE {
            return None;
        }
        tiles.get_tag_value(self.tile_id, self.tag_value_idx)
    }
}

/// A tag set of a tile.
#[derive(Clone, Copy, Debug, PartialEq, Eq, Structural)]
pub struct ElementTagSetRef {
    pub tile_id: TileId,
    pub tag_set_idx: u32,
}

/// The five tags that routing reads, as references into one tile.
#[derive(Clone, Copy, Debug, PartialEq, Eq, Hash, Structural)]
pub struct ElementTagSet {
    pub name: ElementTagValueRef,
    pub hw_ref: ElementTagValueRef,
    pub highway: ElementTagValueRef,
    pub surface: ElementTagValueRef,
    pub smoothness: ElementTagValueRef,
}

/// The tag set that a record of tile `tile` stands for.
pub open spec fn tag_set_of_record(tile: TileId, r: TagSetRecord) -> ElementTagSet {
    ElementTagSet {
        name: ElementTagValueRef { tile_id: tile, tag_value_idx: r.name_idx },
        hw_ref: ElementTagValueRef { tile_id: tile, tag_value_idx: r.hw_ref_idx },
        highway: ElementTagValueRef { tile_id: tile, tag_value_idx: r.highway_idx },
        surface: ElementTagValueRef { tile_id: tile, tag_value_idx: r.surface_idx },
        smoothness: ElementTagValueRef { tile_id: tile, tag_value_idx: r.smoothness_idx },
    }
}

/// The record with every tag absent.
pub open spec fn empty_record() -> TagSetRecord {
    TagSetRecord {
        name_idx: TAG_VALUE_NONE,
        hw_ref_idx: TAG_VALUE_NONE,
        highway_idx: TAG_VALUE_NONE,
        surface_idx: TAG_VALUE_NONE,
        smoothness_idx: TAG_VALUE_NONE,
    }
}

impl ElementTagSetRef {
    /// The reference of tag set `idx` of tile `tile_id`.
    pub fn new(tile_id: TileId, idx: u32) -> (res: Self)
        ensures
            res.tile_id == tile_id,
            res.tag_set_idx == idx,
    {
        ElementTagSetRef { tile_id, tag_set_idx: idx }
    }

    /// The tag set: the tile's record, or all tags absent when the tile does not
    /// hold it.
    pub fn get(&self, tiles: &TileTagStore) -> (res: ElementTagSet)
        ensures
            res == tag_set_of_record(
                self.tile_id,
                match stored_tag_set(tiles.tiles@, self.tile_id, self.tag_set_idx) {
                    Some(r) => r,
                    None => empty_record(),
                },
            ),
    {
        let record = match tiles.get_tag_set_record(self.tile_id, self.tag_set_idx) {
            Some(r) => r,
            None => TagSetRecord {
                name_idx: TAG_VALUE_NONE,
                hw_ref_idx: TAG_VALUE_NONE,
                highway_idx: TAG_VALUE_NONE,
                surface_idx: TAG_VALUE_NONE,
                smoothness_idx: TAG_VALUE_NONE,
            },
        };
        ElementTagSet {
            name: ElementTagValueRef::from_idx(self.tile_id, record.name_idx),
            hw_ref: ElementTagValueRef::from_idx(self.tile_id, record.hw_ref_idx),
            highway: ElementTagValueRef::from_idx(self.tile_id, record.highway_idx),
            surface: ElementTagValueRef::from_idx(self.tile_id, record.surface_idx),
            smoothness: ElementTagValueRef::from_idx(self.tile_id, record.smoothness_idx),
        }
    }
}

impl ElementTagSet {
    /// The `name` tag.
    pub fn name(&self, tiles: &TileTagStore) -> (res: Option<String>)
        ensures
            res matches Some(s) ==> tag_value_of(self.name, tiles.tiles@) == Some(s@),
            res is None ==> tag_value_of(self.name, tiles.tiles@) is None,
    {
        self.name.get(tiles)
    }

    /// The `ref` tag.
    pub fn hw_ref(&self, tiles: &TileTagStore) -> (res: Option<String>)
        ensures
            res matches Some(s) ==> tag_value_of(self.hw_ref, tiles.tiles@) == Some(s@),
            res is None ==> tag_value_of(self.hw_ref, tiles.tiles@) is None,
    {
        self.hw_ref.get(tiles)
    }

    /// The `highway` tag.
    pub fn highway(&self, tiles: &TileTagStore) -> (res: Option<String>)
        ensures
            res matches Some(s) ==> tag_value_of(self.highway, tiles.tiles@) == Some(s@),
            res is None ==> tag_value_of(self.highway, tiles.tiles@) is None,
    {
        self.highway.get(tiles)
    }

    /// The `surface` tag.
    pub fn surface(&self, tiles: &TileTagStore) -> (res: Option<String>)
        ensures
            res matches Some(s) ==> tag_value_of(self.surface, tiles.tiles@) == Some(s@),
            res is None ==> tag_value_of(self.surface, tiles.tiles@) is None,
    {
        self.surface.get(tiles)
    }

    /// The `smoothness` tag.
    pub fn smoothness(&self, tiles: &TileTagStore) -> (res: Option<String>)
        ensures
            res matches Some(s) ==> tag_value_of(self.smoothness, tiles.tiles@) == Some(s@),
            res is None ==> tag_value_of(self.smoothness, tiles.tiles@) is None,
    {
        self.smoothness.get(tiles)
    }
}

/// A line that touches a point, as a loaded tile lists it: the line (its
/// tile and index) and the point at its other end (its tile and OSM id).
#[derive(Clone, Copy, Debug, PartialEq, Eq, Structural)]
pub struct TileAdjacency {
    pub line_tile_id: TileId,
    pub line_index: u64,
    pub other_tile_id: TileId,
    pub other_osm_id: u64,
}

/// A point record of a loaded tile: its OSM id, the `f32` bit patterns of
/// its coordinates, its proximity flags, and the lines that touch it.
pub struct TilePoint {
    pub osm_id: u64,
    pub lat_bits: u32,
    pub lon_bits: u32,
    pub residential_in_proximity: bool,
    pub nogo_area: bool,
    pub adjacent: Vec<TileAdjacency>,
}

/// A line record of a loaded tile: its first point (in the line's tile), its
/// second point with the tile that holds it, its direction code and its tag
/// set index.
#[derive(Clone, Copy, Debug, PartialEq, Eq, Structural)]
pub struct TileLine {
    pub point_a_osm_id: u64,
    pub point_b_tile_id: TileId,
    pub point_b_osm_id: u64,
    pub direction: u8,
    pub tag_set_index: u32,
}

/// The point and line records of one loaded tile (lines by index).
pub struct TileElementTable {
    pub tile_id: TileId,
    pub points: Vec<TilePoint>,
    pub lines: Vec<TileLine>,
}

/// The point and line records of the loaded tiles, looked up by tile id (the
/// first table of a tile id is the one used).
pub struct TileElementStore {
    pub tiles: Vec<TileElementTable>,
}

/// The position of the first element table of `tile`.
pub open spec fn first_element_table(tiles: Seq<TileElementTable>, tile: TileId) -> Option<int> {
    if exists|i: int| 0 <= i < tiles.len() && tiles[i].tile_id == tile {
        let i = choose|i: int|
            0 <= i < tiles.len() && tiles[i].tile_id == tile && forall|j: int|
                0 <= j < i ==> tiles[j].tile_id != tile;
        Some(i)
    } else {
        None
    }
}

/// The position of the first point record with OSM id `id`.
pub open spec fn first_point_with_id(points: Seq<TilePoint>, id: u64) -> Option<int> {
    if exists|i: int| 0 <= i < points.len() && points[i].osm_id == id {
        let i = choose|i: int|
            0 <= i < points.len() && points[i].osm_id == id && forall|j: int|
                0 <= j < i ==> points[j].osm_id != id;
        Some(i)
    } else {
        None
    }
}

/// The record of point `id` of tile `tile`, if the tile is loaded and holds it.
pub open spec fn stored_point(store: TileElementStore, tile: TileId, id: u64) -> Option<TilePoint> {
    match first_element_table(store.tiles@, tile) {
        Some(t) => match first_point_with_id(store.tiles@[t].points@, id) {
            Some(k) => Some(store.tiles@[t].points@[k]),
            None => None,
        },
        None => None,
    }
}

/// The record of line `index` of tile `tile`, if the tile is loaded and has it.
pub open spec fn stored_line(store: TileElementStore, tile: TileId, index: u64) -> Option<TileLine> {
    match first_element_table(store.tiles@, tile) {
        Some(t) => if (index as int) < store.tiles@[t].lines@.len() {
            Some(store.tiles@[t].lines@[index as int])
        } else {
            None
        },
        None => None,
    }
}

impl TileElementStore {
    /// No tiles loaded.
    pub fn new() -> (res: Self)
        ensures
            res.tiles@.len() == 0,
    {
        TileElementStore { tiles: Vec::new() }
    }

    /// Adds the point and line records of a tile.
    pub fn add_tile(&mut self, table: TileElementTable)
        ensures
            final(self).tiles@ == old(self).tiles@.push(table),
    {
        self.tiles.push(table);
    }

    fn find(&self, tile: TileId) -> (res: Option<usize>)
        ensures
            match res {
                Some(i) => i < self.tiles@.len() && first_element_table(self.tiles@, tile) == Some(i as int),
                None => first_element_table(self.tiles@, tile) is None,
            },
    {
        let mut i: usize = 0;
        while i < self.tiles.len()
            invariant
                i <= self.tiles@.len(),
                forall|j: int| 0 <= j < i ==> self.tiles@[j].tile_id != tile,
            decreases self.tiles@.len() - i,
        {
            if self.tiles[i].tile_id == tile {
                assert(first_element_table(self.tiles@, tile) == Some(i as int)) by {
                    let k = choose|k: int|
                        0 <= k < self.tiles@.len() && self.tiles@[k].tile_id == tile && forall|j: int|
                            0 <= j < k ==> self.tiles@[j].tile_id != tile;
                    assert(k == i);
                }
                return Some(i);
            }
            i = i + 1;
        }
        None
    }

    /// The record of point `id` of tile `tile` (see `stored_point`).
    pub fn point_record(&self, tile: TileId, id: u64) -> (res: Option<&TilePoint>)
        ensures
            match res {
                Some(p) => stored_point(*self, tile, id) == Some(*p),
                None => stored_point(*self, tile, id) is None,
            },
    {
        let t = match self.find(tile) {
            Some(t) => t,
            None => {
                return None;
            },
        };
        let points = &self.tiles[t].points;
        let mut k: usize = 0;
        while k < points.len()
            invariant
                k <= points@.len(),
                t < self.tiles@.len(),
                first_element_table(self.tiles@, tile) == Some(t as int),
                points@ == self.tiles@[t as int].points@,
                forall|j: int| 0 <= j < k ==> points@[j].osm_id != id,
            decreases points@.len() - k,
        {
            if points[k].osm_id == id {
                assert(first_point_with_id(points@, id) == Some(k as int)) by {
                    let c = choose|c: int|
                        0 <= c < points@.len() && points@[c].osm_id == id && forall|j: int|
                            0 <= j < c ==> points@[j].osm_id != id;
                    assert(c == k);
                }
                return Some(&points[k]);
            }
            k = k + 1;
        }
        None
    }

    /// The record of line `index` of tile `tile` (see `stored_line`).
    pub fn line_record(&self, tile: TileId, index: u64) -> (res: Option<TileLine>)
        ensures
            res == stored_line(*self, tile, index),
    {
        match self.find(tile) {
            Some(t) => {
                if index < self.tiles[t].lines.len() as u64 {
                    Some(self.tiles[t].lines[index as usize])
                } else {
                    None
                }
            },
            None => None,
        }
    }
}

/// An element (a point or a line) that a tile-aware reference resolves to
/// from the records of the loaded tiles.
pub trait MapDataElement: Sized {
    /// Whether the loaded tiles hold element `element_id` of tile `tile_id`.
    spec fn held_in(store: TileElementStore, tile_id: TileId, element_id: u64) -> bool;

    /// Whether `element` is element `element_id` of tile `tile_id` as the
    /// loaded tiles hold it.
    spec fn resolved_from(store: TileElementStore, tile_id: TileId, element_id: u64, element: Self) -> bool;

    /// Element `element_id` of tile `tile_id`, read from the loaded tiles.
    fn get_from_tiles(store: &TileElementStore, tile_id: TileId, element_id: u64) -> (res: Self)
        requires
            Self::held_in(*store, tile_id, element_id),
        ensures
            Self::resolved_from(*store, tile_id, element_id, res),
    ;
}

/// A reference to a point (by OSM id) or a line (by index) of a tile.
pub struct MapDataElementRef<T> {
    tile_id: TileId,
    element_id: u64,
    _marker: PhantomData<T>,
}

impl<T> MapDataElementRef<T> {
    /// The tile of the referenced element.
    pub closed spec fn tile(&self) -> TileId {
        self.tile_id
    }

    /// The id of the referenced element within its tile.
    pub closed spec fn id(&self) -> u64 {
        self.element_id
    }

    /// The reference to element `element_id` of tile `tile_id`.
    pub fn new(tile_id: TileId, element_id: u64) -> (res: Self)
        ensures
            res.tile() == tile_id,
            res.id() == element_id,
    {
        MapDataElementRef { tile_id, element_id, _marker: PhantomData }
    }

    /// The tile of the referenced element.
    pub fn get_tile_id(&self) -> (res: TileId)
        ensures
            res == self.tile(),
    {
        self.tile_id
    }

    /// The id of the referenced element within its tile.
    pub fn get_element_id(&self) -> (res: u64)
        ensures
            res == self.id(),
    {
        self.element_id
    }

    /// A copy of this reference.
    pub fn duplicate(&self) -> (res: Self)
        ensures
            res.tile() == self.tile(),
            res.id() == self.id(),
    {
        MapDataElementRef { tile_id: self.tile_id, element_id: self.element_id, _marker: PhantomData }
    }

    /// Whether two references name the same element of the same tile.
    pub fn same_element(&self, other: &Self) -> (res: bool)
        ensures
            res == (self.tile() == other.tile() && self.id() == other.id()),
    {
        self.tile_id == other.tile_id && self.element_id == other.element_id
    }
}

impl<T: MapDataElement> MapDataElementRef<T> {
    /// The referenced element, read from the loaded tiles, which must hold it.
    pub fn get(&self, store: &TileElementStore) -> (res: T)
        requires
            T::held_in(*store, self.tile(), self.id()),
        ensures
            T::resolved_from(*store, self.tile(), self.id(), res),
    {
        T::get_from_tiles(store, self.tile_id, self.element_id)
    }
}

/// A reference to a line of a tile (by index).
pub type MapDataLineRef = MapDataElementRef<MapDataLine>;

/// A reference to a point of a tile (by OSM id).
pub type MapDataPointRef = MapDataElementRef<MapDataPoint>;

impl TileElementStore {
    /// The lines that touch a point, each with the point at its other end, as
    /// the point's record lists them; the loaded tiles must hold the point.
    pub fn get_adjacent(&self, center_point: &MapDataPointRef) -> (r: Vec<(MapDataLineRef, MapDataPointRef)>)
        requires
            stored_point(*self, center_point.tile(), center_point.id()) is Some,
        ensures
            ({
                let adjacent = stored_point(*self, center_point.tile(), center_point.id())->0.adjacent@;
                &&& r@.len() == adjacent.len()
                &&& forall|k: int| 0 <= k < r@.len() ==> {
                    &&& (#[trigger] r@[k]).0.tile() == adjacent[k].line_tile_id
                    &&& r@[k].0.id() == adjacent[k].line_index
                    &&& r@[k].1.tile() == adjacent[k].other_tile_id
                    &&& r@[k].1.id() == adjacent[k].other_osm_id
                }
            }),
    {
        let rec = self.point_record(center_point.get_tile_id(), center_point.get_element_id()).unwrap();
        let mut r: Vec<(MapDataLineRef, MapDataPointRef)> = Vec::new();
        let mut k: usize = 0;
        while k < rec.adjacent.len()
            invariant
                k <= rec.adjacent@.len(),
                r@.len() == k,
                forall|j: int| 0 <= j < k ==> {
                    &&& (#[trigger] r@[j]).0.tile() == rec.adjacent@[j].line_tile_id
                    &&& r@[j].0.id() == rec.adjacent@[j].line_index
                    &&& r@[j].1.tile() == rec.adjacent@[j].other_tile_id
                    &&& r@[j].1.id() == rec.adjacent@[j].other_osm_id
                },
            decreases rec.adjacent@.len() - k,
        {
            let a = rec.adjacent[k];
            r.push((MapDataElementRef::new(a.line_tile_id, a.line_index), MapDataElementRef::new(a.other_tile_id, a.other_osm_id)));
            k = k + 1;
        }
        r
    }
}

} // verus!
