use ridi_router::generation::LineDirection;
use ridi_router::map_data::graph::{
    ElementTagSetRef, ElementTagValueRef, MapDataElementRef, MapDataLineRef, MapDataPointRef, TileAdjacency,
    TileElementStore, TileElementTable, TileLine, TilePoint, TileTagStore, TileTagTable,
};
use ridi_router::map_data::line::MapDataLine;
use ridi_router::map_data::point::MapDataPoint;
use ridi_router::map_data::way::MapDataWayPoints;
use ridi_router::rmdf::{TagSetRecord, TileId, TAG_VALUE_NONE};

fn store() -> TileTagStore {
    let mut store = TileTagStore::new();
    store.add_tile(TileTagTable {
        tile_id: TileId { col: 1, row: 1 },
        tag_values: vec!["Ring Road".to_string(), "secondary".to_string()],
        tag_sets: vec![TagSetRecord { name_idx: 0, hw_ref_idx: TAG_VALUE_NONE, highway_idx: 1, surface_idx: 5, smoothness_idx: TAG_VALUE_NONE }],
    });
    store.add_tile(TileTagTable {
        tile_id: TileId { col: 1, row: 1 },
        tag_values: vec!["shadowed".to_string()],
        tag_sets: vec![],
    });
    store
}

#[test]
fn tag_values_resolve_in_the_first_table_of_their_tile() {
    let s = store();
    let tile = TileId { col: 1, row: 1 };
    assert_eq!(ElementTagValueRef::some(tile, 0).get(&s), Some("Ring Road".to_string()));
    assert_eq!(ElementTagValueRef::from_idx(tile, 1).get(&s), Some("secondary".to_string()));
    assert_eq!(ElementTagValueRef::none(tile).get(&s), None);
    assert_eq!(ElementTagValueRef::some(tile, 2).get(&s), None);
    assert_eq!(ElementTagValueRef::some(TileId { col: 9, row: 9 }, 0).get(&s), None);
    assert_eq!(s.get_tag_value(tile, 0), Some("Ring Road".to_string()));
}

#[test]
fn tag_sets_resolve_or_come_back_empty() {
    let s = store();
    let tile = TileId { col: 1, row: 1 };
    let set = ElementTagSetRef::new(tile, 0).get(&s);
    assert_eq!(set.name(&s), Some("Ring Road".to_string()));
    assert_eq!(set.highway(&s), Some("secondary".to_string()));
    assert_eq!(set.hw_ref(&s), None);
    assert_eq!(set.surface(&s), None);
    assert_eq!(set.smoothness(&s), None);
    assert_eq!(set.surface.tag_value_idx, 5);

    let missing = ElementTagSetRef::new(tile, 1).get(&s);
    assert_eq!(missing.name.tag_value_idx, TAG_VALUE_NONE);
    assert_eq!(missing.smoothness.tag_value_idx, TAG_VALUE_NONE);
    assert_eq!(missing.name.tile_id, tile);
}

#[test]
fn element_refs_keep_tile_and_id() {
    let a: MapDataElementRef<()> = MapDataElementRef::new(TileId { col: 2, row: 3 }, 42);
    assert_eq!(a.get_tile_id(), TileId { col: 2, row: 3 });
    assert_eq!(a.get_element_id(), 42);
    let b = a.duplicate();
    assert!(a.same_element(&b));
    let c: MapDataElementRef<()> = MapDataElementRef::new(TileId { col: 2, row: 4 }, 42);
    assert!(!a.same_element(&c));
}

#[test]
fn way_points_neighbours_and_ends() {
    let tile = TileId { col: 0, row: 0 };
    let refs: Vec<MapDataElementRef<()>> = vec![10, 20, 30].into_iter().map(|id| MapDataElementRef::new(tile, id)).collect();
    let mut way = MapDataWayPoints::from_vec(refs);
    assert_eq!(way.len(), 3);
    assert!(way.is_first_or_last(&MapDataElementRef::new(tile, 10)));
    assert!(way.is_first_or_last(&MapDataElementRef::new(tile, 30)));
    assert!(!way.is_first_or_last(&MapDataElementRef::new(tile, 20)));
    assert_eq!(way.get_after(0).map(|p| p.get_element_id()), Some(20));
    assert!(way.get_after(2).is_none());
    assert_eq!(way.get_before(2).map(|p| p.get_element_id()), Some(20));
    assert!(way.get_before(0).is_none());
    assert!(way.get_before(5).is_none());
    way.add(MapDataElementRef::new(tile, 40));
    let ids: Vec<u64> = way.iter().iter().map(|p| p.get_element_id()).collect();
    assert_eq!(ids, vec![10, 20, 30, 40]);
    let empty: MapDataWayPoints<()> = MapDataWayPoints::new();
    assert!(!empty.is_first_or_last(&MapDataElementRef::new(tile, 10)));
}

fn loaded_tiles() -> TileElementStore {
    let t = TileId { col: 2, row: 3 };
    let u = TileId { col: 2, row: 4 };
    let mut store = TileElementStore::new();
    store.add_tile(TileElementTable {
        tile_id: t,
        points: vec![
            TilePoint {
                osm_id: 100,
                lat_bits: 56.5f32.to_bits(),
                lon_bits: 24.25f32.to_bits(),
                residential_in_proximity: true,
                nogo_area: false,
                adjacent: vec![
                    TileAdjacency { line_tile_id: t, line_index: 0, other_tile_id: u, other_osm_id: 200 },
                    TileAdjacency { line_tile_id: t, line_index: 1, other_tile_id: t, other_osm_id: 101 },
                ],
            },
            TilePoint {
                osm_id: 101,
                lat_bits: 0,
                lon_bits: 0,
                residential_in_proximity: false,
                nogo_area: true,
                adjacent: vec![],
            },
        ],
        lines: vec![
            TileLine { point_a_osm_id: 100, point_b_tile_id: u, point_b_osm_id: 200, direction: 1, tag_set_index: 7 },
            TileLine { point_a_osm_id: 100, point_b_tile_id: t, point_b_osm_id: 101, direction: 9, tag_set_index: 3 },
        ],
    });
    store
}

#[test]
fn point_refs_resolve_to_their_records() {
    let store = loaded_tiles();
    let t = TileId { col: 2, row: 3 };
    let point: MapDataPoint = MapDataPointRef::new(t, 100).get(&store);
    assert_eq!(point.id, 100);
    assert_eq!(f32::from_bits(point.lat_bits), 56.5);
    assert_eq!(f32::from_bits(point.lon_bits), 24.25);
    assert!(point.residential_in_proximity && !point.nogo_area);
    assert!(point.rules.is_empty());
    let lines: Vec<(TileId, u64)> = point.lines.iter().map(|l| (l.get_tile_id(), l.get_element_id())).collect();
    assert_eq!(lines, vec![(t, 0), (t, 1)]);
    assert!(!point.is_junction());
    let other: MapDataPoint = MapDataPointRef::new(t, 101).get(&store);
    assert!(other.nogo_area && other.lines.is_empty());
}

#[test]
fn line_refs_resolve_to_their_records() {
    let store = loaded_tiles();
    let t = TileId { col: 2, row: 3 };
    let u = TileId { col: 2, row: 4 };
    let line: MapDataLine = MapDataLineRef::new(t, 0).get(&store);
    assert_eq!((line.points.0.get_tile_id(), line.points.0.get_element_id()), (t, 100));
    assert_eq!((line.points.1.get_tile_id(), line.points.1.get_element_id()), (u, 200));
    assert!(line.is_one_way() && !line.is_roundabout());
    assert_eq!(line.tags, ElementTagSetRef { tile_id: t, tag_set_idx: 7 });
    // an unknown direction code reads as both ways
    let line: MapDataLine = MapDataLineRef::new(t, 1).get(&store);
    assert_eq!(line.direction, LineDirection::BothWays);
}

#[test]
fn adjacent_lines_and_their_other_points() {
    let store = loaded_tiles();
    let t = TileId { col: 2, row: 3 };
    let u = TileId { col: 2, row: 4 };
    let adjacent: Vec<((TileId, u64), (TileId, u64))> = store
        .get_adjacent(&MapDataPointRef::new(t, 100))
        .iter()
        .map(|(l, p)| ((l.get_tile_id(), l.get_element_id()), (p.get_tile_id(), p.get_element_id())))
        .collect();
    assert_eq!(adjacent, vec![((t, 0), (u, 200)), ((t, 1), (t, 101))]);
    assert!(store.point_record(u, 200).is_none());
    assert!(store.line_record(t, 2).is_none());
}
