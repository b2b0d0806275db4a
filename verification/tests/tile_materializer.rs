use geo::{Coord, Intersects, Line, Rect};
use ridi_router::generation::assemble::build_generation_graph;
use ridi_router::generation::graph::GenerationGraph;
use ridi_router::generation::tile_materializer::{
    expand_restriction_support, extract_materialized_tile, validate_materialized_tile, MaterializationError,
    MaterializedTileData, PbfQuery,
};
use ridi_router::osm::{OsmNode, OsmRelation, OsmRelationMember, OsmRelationMemberRole, OsmRelationMemberType, OsmTags, OsmWay};
use std::collections::{HashMap, HashSet};

#[derive(Clone, Copy)]
struct TileBounds {
    lat_min: f32,
    lat_max: f32,
    lon_min: f32,
    lon_max: f32,
}

fn lat(n: &OsmNode) -> f64 {
    f64::from_bits(n.lat_bits)
}

fn lon(n: &OsmNode) -> f64 {
    f64::from_bits(n.lon_bits)
}

fn node_in_bounds(node: &OsmNode, bounds: &TileBounds) -> bool {
    lat(node) >= bounds.lat_min as f64
        && lat(node) <= bounds.lat_max as f64
        && lon(node) >= bounds.lon_min as f64
        && lon(node) <= bounds.lon_max as f64
}

fn segment_intersects_bounds(from_node: &OsmNode, to_node: &OsmNode, bounds: &TileBounds) -> bool {
    if node_in_bounds(from_node, bounds) || node_in_bounds(to_node, bounds) {
        return true;
    }
    let rect = Rect::new(
        Coord { x: bounds.lon_min as f64, y: bounds.lat_min as f64 },
        Coord { x: bounds.lon_max as f64, y: bounds.lat_max as f64 },
    );
    let line = Line::new(Coord { x: lon(from_node), y: lat(from_node) }, Coord { x: lon(to_node), y: lat(to_node) });
    line.intersects(&rect)
}

/// A bounding box as (lat_min, lat_max, lon_min, lon_max).
type BBox = Option<(f64, f64, f64, f64)>;

fn expand(b: BBox, la: f64, lo: f64) -> BBox {
    Some(match b {
        None => (la, la, lo, lo),
        Some((a, c, d, e)) => (a.min(la), c.max(la), d.min(lo), e.max(lo)),
    })
}

fn union(a: BBox, b: BBox) -> BBox {
    match b {
        None => a,
        Some((la0, la1, lo0, lo1)) => expand(expand(a, la0, lo0), la1, lo1),
    }
}

fn bbox_intersects(b: BBox, bounds: &TileBounds) -> bool {
    match b {
        None => false,
        Some((la0, la1, lo0, lo1)) => {
            la0 <= bounds.lat_max as f64 && la1 >= bounds.lat_min as f64 && lo0 <= bounds.lon_max as f64 && lo1 >= bounds.lon_min as f64
        }
    }
}

/// What the spatial index of the map data answers for the bounds.
fn test_pbf(nodes: Vec<OsmNode>, ways: Vec<OsmWay>, relations: Vec<OsmRelation>, bounds: &TileBounds) -> PbfQuery {
    let nodes_by_id: HashMap<u64, OsmNode> = nodes.iter().map(|n| (n.id, *n)).collect();
    let way_bbox = |w: &OsmWay| {
        w.point_ids.iter().filter_map(|id| nodes_by_id.get(id)).fold(None, |b, n| expand(b, lat(n), lon(n)))
    };
    let ways_by_id: HashMap<u64, OsmWay> = ways.iter().map(|w| (w.id, w.clone())).collect();
    let nodes_in_bounds = nodes.iter().filter(|n| node_in_bounds(n, bounds)).copied().collect();
    let ways_in_bounds = ways.iter().filter(|w| bbox_intersects(way_bbox(w), bounds)).cloned().collect();
    let relations_in_bounds = relations
        .iter()
        .filter(|r| {
            let bbox = r.members.iter().fold(None, |b, m| match m.member_type {
                OsmRelationMemberType::Node => match nodes_by_id.get(&m.member_ref) {
                    Some(n) => expand(b, lat(n), lon(n)),
                    None => b,
                },
                OsmRelationMemberType::Way => match ways_by_id.get(&m.member_ref) {
                    Some(w) => union(b, way_bbox(w)),
                    None => b,
                },
                OsmRelationMemberType::Relation => b,
            });
            bbox_intersects(bbox, bounds)
        })
        .cloned()
        .collect();
    PbfQuery { nodes_in_bounds, ways_in_bounds, relations_in_bounds, nodes_by_id, ways_by_id }
}

fn test_bounds() -> TileBounds {
    TileBounds { lat_min: 0.0, lat_max: 1.0, lon_min: 0.0, lon_max: 1.0 }
}

fn make_node(id: u64, lat: f64, lon: f64) -> OsmNode {
    OsmNode { id, lat_bits: lat.to_bits(), lon_bits: lon.to_bits(), residential_in_proximity: false, nogo_area: false }
}

fn make_way(id: u64, point_ids: &[u64]) -> OsmWay {
    OsmWay {
        id,
        point_ids: point_ids.to_vec(),
        tags: Some(OsmTags::from_pairs(vec![("highway".to_string(), "primary".to_string())])),
    }
}

fn make_relation(id: u64, from_way: u64, via_node: u64, to_way: u64) -> OsmRelation {
    OsmRelation {
        id,
        members: vec![
            OsmRelationMember { member_type: OsmRelationMemberType::Way, role: OsmRelationMemberRole::From, member_ref: from_way },
            OsmRelationMember { member_type: OsmRelationMemberType::Node, role: OsmRelationMemberRole::Via, member_ref: via_node },
            OsmRelationMember { member_type: OsmRelationMemberType::Way, role: OsmRelationMemberRole::To, member_ref: to_way },
        ],
        tags: OsmTags::from_pairs(vec![
            ("type".to_string(), "restriction".to_string()),
            ("restriction".to_string(), "no_right_turn".to_string()),
        ]),
    }
}

fn extract(pbf: PbfQuery) -> MaterializedTileData {
    let b = test_bounds();
    extract_materialized_tile(pbf, move |n: &OsmNode| node_in_bounds(n, &b), move |x: &OsmNode, y: &OsmNode| {
        segment_intersects_bounds(x, y, &b)
    })
    .unwrap()
}

fn build_graph(tile: &MaterializedTileData) -> GenerationGraph {
    let nodes: Vec<OsmNode> = tile.nodes.values().copied().collect();
    build_generation_graph(nodes, tile.ways.clone(), tile.relations.clone())
}

fn line_endpoints_present(graph: &GenerationGraph) -> bool {
    let ids: HashSet<u64> = graph.get_points().iter().map(|p| p.id).collect();
    graph.get_lines().iter().all(|l| ids.contains(&l.from_node_id) && ids.contains(&l.to_node_id))
}

#[test]
fn materializes_sparse_border_crossing_way_without_seed_nodes() {
    let pbf = test_pbf(vec![make_node(1, 0.5, -0.1), make_node(2, 0.5, 1.1)], vec![make_way(10, &[1, 2])], vec![], &test_bounds());

    let tile = extract(pbf);
    let graph = build_graph(&tile);

    assert_eq!(tile.nodes.len(), 2);
    assert_eq!(tile.ways.len(), 1);
    assert_eq!(graph.get_lines().len(), 1);
    assert!(line_endpoints_present(&graph));
}

#[test]
fn does_not_duplicate_entire_remote_tail_of_long_way() {
    let pbf = test_pbf(
        vec![make_node(1, 0.5, -0.1), make_node(2, 0.5, 0.5), make_node(3, 0.5, 1.1), make_node(4, 0.5, 5.0)],
        vec![make_way(10, &[1, 2, 3, 4])],
        vec![],
        &test_bounds(),
    );

    let tile = extract(pbf);

    assert!(tile.nodes.contains_key(&1));
    assert!(tile.nodes.contains_key(&2));
    assert!(tile.nodes.contains_key(&3));
    assert!(!tile.nodes.contains_key(&4));
}

#[test]
fn keeps_restriction_support_after_border_node_expansion() {
    let pbf = test_pbf(
        vec![make_node(1, 0.5, -0.1), make_node(2, 0.5, 0.5), make_node(3, 0.5, 1.1)],
        vec![make_way(10, &[1, 2]), make_way(20, &[2, 3])],
        vec![make_relation(100, 10, 2, 20)],
        &test_bounds(),
    );

    let tile = extract(pbf);
    let graph = build_graph(&tile);

    assert_eq!(tile.relations.len(), 1);
    assert!(graph.get_restrictions_by_via().contains_key(&2));
}

#[test]
fn relation_driven_expansion_adds_missing_support_way() {
    let pbf = test_pbf(
        vec![make_node(1, 0.5, -0.1), make_node(2, 0.5, 0.5), make_node(3, 0.5, 1.1)],
        vec![make_way(10, &[1, 2]), make_way(20, &[2, 3])],
        vec![make_relation(100, 10, 2, 20)],
        &test_bounds(),
    );

    let mut tile = MaterializedTileData {
        nodes: HashMap::from([(1, make_node(1, 0.5, -0.1)), (2, make_node(2, 0.5, 0.5))]),
        ways: vec![make_way(10, &[1, 2])],
        relations: Vec::new(),
    };
    let mut way_ids = HashSet::from([10]);

    let b = test_bounds();
    expand_restriction_support(
        &pbf.relations_in_bounds,
        &pbf.nodes_by_id,
        &pbf.ways_by_id,
        &|n: &OsmNode| node_in_bounds(n, &b),
        &|x: &OsmNode, y: &OsmNode| segment_intersects_bounds(x, y, &b),
        &mut tile,
        &mut way_ids,
    );

    assert!(way_ids.contains(&20));
    assert!(tile.nodes.contains_key(&3));
    assert!(tile.ways.iter().any(|way| way.id == 20));
}

#[test]
fn unresolved_restriction_still_skips_after_expansion() {
    let pbf = test_pbf(
        vec![make_node(1, 0.5, 0.5), make_node(2, 0.5, 1.1), make_node(3, 0.5, 5.0)],
        vec![make_way(10, &[1, 2]), make_way(20, &[2, 3])],
        vec![make_relation(100, 10, 2, 20)],
        &test_bounds(),
    );

    let tile = extract(pbf);
    let graph = build_graph(&tile);

    assert_eq!(tile.relations.len(), 1);
    assert!(tile.ways.iter().any(|way| way.id == 10));
    assert!(!tile.ways.iter().any(|way| way.id == 20));
    assert!(graph.get_restrictions_by_via().is_empty());
    assert_eq!(graph.get_restriction_skip_stats().malformed_or_unresolved_relations, 1);
}

#[test]
fn validation_rejects_missing_locally_relevant_segment_endpoints() {
    let pbf = test_pbf(vec![make_node(1, 0.5, -0.1), make_node(2, 0.5, 1.1)], vec![make_way(10, &[1, 2])], vec![], &test_bounds());
    let tile = MaterializedTileData {
        nodes: HashMap::from([(1, make_node(1, 0.5, -0.1))]),
        ways: vec![make_way(10, &[1, 2])],
        relations: Vec::new(),
    };

    let b = test_bounds();
    let err = validate_materialized_tile(&pbf.nodes_by_id, &|x: &OsmNode, y: &OsmNode| segment_intersects_bounds(x, y, &b), &tile)
        .unwrap_err();

    assert_eq!(
        err,
        MaterializationError::MissingLocallyRelevantSegmentEndpoints { way_id: 10, from_node_id: 1, to_node_id: 2 }
    );
}

#[test]
fn empty_tile_keeps_no_relations() {
    let pbf = test_pbf(
        vec![make_node(1, 5.0, 5.0), make_node(2, 6.0, 6.0)],
        vec![make_way(10, &[1, 2])],
        vec![make_relation(100, 10, 1, 10)],
        &test_bounds(),
    );
    let tile = extract(pbf);
    assert!(tile.nodes.is_empty());
    assert!(tile.ways.is_empty());
    assert!(tile.relations.is_empty());
}

#[test]
fn unroutable_ways_stay_out() {
    let mut footway = make_way(10, &[1, 2]);
    footway.tags = Some(OsmTags::from_pairs(vec![("highway".to_string(), "footway".to_string())]));
    let pbf = test_pbf(vec![make_node(1, 0.2, 0.2), make_node(2, 0.3, 0.3)], vec![footway], vec![], &test_bounds());
    let tile = extract(pbf);
    assert_eq!(tile.nodes.len(), 2);
    assert!(tile.ways.is_empty());
}

fn plain_node(id: u64, lat: f64, lon: f64) -> OsmNode {
    OsmNode { id, lat_bits: lat.to_bits(), lon_bits: lon.to_bits(), residential_in_proximity: false, nogo_area: false }
}

#[test]
fn test_tile_data_validation_no_orphaned_ways() {
    let mut tile_data = MaterializedTileData::default();
    tile_data.nodes.insert(1, plain_node(1, 50.0, 10.0));
    tile_data.nodes.insert(2, plain_node(2, 50.1, 10.1));
    tile_data.ways.push(OsmWay { id: 100, point_ids: vec![1, 2], tags: Some(OsmTags::new()) });

    let node_ids: HashSet<u64> = tile_data.nodes.keys().copied().collect();
    for way in &tile_data.ways {
        let missing_nodes: Vec<u64> = way.point_ids.iter().filter(|id| !node_ids.contains(id)).copied().collect();
        assert!(missing_nodes.is_empty(), "Way {} should not have orphaned nodes, but found {:?}", way.id, missing_nodes);
    }
}

#[test]
fn test_tile_data_validation_detects_orphaned_ways() {
    let mut tile_data = MaterializedTileData::default();
    tile_data.nodes.insert(1, plain_node(1, 50.0, 10.0));
    tile_data.ways.push(OsmWay { id: 100, point_ids: vec![1, 2], tags: Some(OsmTags::new()) });

    let node_ids: HashSet<u64> = tile_data.nodes.keys().copied().collect();
    for way in &tile_data.ways {
        let missing_nodes: Vec<u64> = way.point_ids.iter().filter(|id| !node_ids.contains(id)).copied().collect();
        if way.id == 100 {
            assert_eq!(missing_nodes, vec![2], "Way 100 should have orphaned node 2");
        }
    }
}
