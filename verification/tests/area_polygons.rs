use geo::{Contains, Coord, LineString, Point, Polygon};
use ridi_router::osm::{OsmNode, OsmRelation, OsmRelationMember, OsmRelationMemberRole, OsmRelationMemberType, OsmTags, OsmWay};
use ridi_router::osm_data::in_memory_pbf::{extract_area_polygons, AreaPolygon};
use std::collections::HashMap;

type Pt = (u64, u64);

fn coords_match(a: &Pt, b: &Pt) -> bool {
    (f64::from_bits(a.0) - f64::from_bits(b.0)).abs() < 1e-9 && (f64::from_bits(a.1) - f64::from_bits(b.1)).abs() < 1e-9
}

fn contains(ring: &Vec<Pt>, p: &Pt) -> bool {
    let coords: Vec<Coord<f64>> =
        ring.iter().map(|q| Coord { x: f64::from_bits(q.0), y: f64::from_bits(q.1) }).collect();
    Polygon::new(LineString::new(coords), vec![]).contains(&Point::new(f64::from_bits(p.0), f64::from_bits(p.1)))
}

fn pt(lon: f64, lat: f64) -> Pt {
    (lon.to_bits(), lat.to_bits())
}

struct AreaData {
    nodes: HashMap<u64, OsmNode>,
    ways: HashMap<u64, OsmWay>,
    relations: HashMap<u64, OsmRelation>,
}

impl AreaData {
    fn new() -> Self {
        AreaData { nodes: HashMap::new(), ways: HashMap::new(), relations: HashMap::new() }
    }

    fn node(&mut self, id: u64, lon: f64, lat: f64) {
        self.nodes.insert(
            id,
            OsmNode { id, lat_bits: lat.to_bits(), lon_bits: lon.to_bits(), residential_in_proximity: false, nogo_area: false },
        );
    }

    fn way(&mut self, id: u64, point_ids: &[u64]) {
        self.ways.insert(id, OsmWay { id, point_ids: point_ids.to_vec(), tags: None });
    }

    fn relation(&mut self, id: u64, kind: &str, members: &[(u64, &str)]) {
        let tags = OsmTags::from_pairs(vec![("type".to_string(), kind.to_string())]);
        let members = members
            .iter()
            .map(|(r, role)| OsmRelationMember {
                member_type: OsmRelationMemberType::Way,
                role: OsmRelationMemberRole::Other(role.to_string()),
                member_ref: *r,
            })
            .collect();
        self.relations.insert(id, OsmRelation { id, members, tags });
    }

    fn polygons(&self, way_ids: &[u64], relation_ids: &[u64]) -> Vec<AreaPolygon> {
        extract_area_polygons(way_ids, relation_ids, &self.ways, &self.relations, &self.nodes, coords_match, &contains)
    }
}

/// Nodes 1..4 at the corners of a 10 x 10 square, 11..14 of a small square
/// inside it, 21..24 of a small square outside it.
fn squares() -> AreaData {
    let mut m = AreaData::new();
    m.node(1, 0.0, 0.0);
    m.node(2, 10.0, 0.0);
    m.node(3, 10.0, 10.0);
    m.node(4, 0.0, 10.0);
    m.node(11, 2.0, 2.0);
    m.node(12, 3.0, 2.0);
    m.node(13, 3.0, 3.0);
    m.node(14, 2.0, 3.0);
    m.node(21, 20.0, 20.0);
    m.node(22, 21.0, 20.0);
    m.node(23, 21.0, 21.0);
    m.node(24, 20.0, 21.0);
    m
}

fn square() -> Vec<Pt> {
    vec![pt(0.0, 0.0), pt(10.0, 0.0), pt(10.0, 10.0), pt(0.0, 10.0), pt(0.0, 0.0)]
}

#[test]
fn closed_ways_become_polygons() {
    let mut m = squares();
    m.way(100, &[1, 2, 3, 4, 1]);
    m.way(101, &[1, 2, 3, 4]);
    m.way(102, &[1, 2, 99, 1]);
    let polygons = m.polygons(&[100, 101, 102, 555], &[]);
    assert_eq!(polygons, vec![AreaPolygon { exterior: square(), holes: vec![] }]);
}

#[test]
fn plain_relation_takes_its_closed_member_ways() {
    let mut m = squares();
    m.way(100, &[1, 2, 3, 4, 1]);
    m.way(101, &[21, 22, 23]);
    m.relation(7, "boundary", &[(101, "outer"), (100, "inner")]);
    let polygons = m.polygons(&[], &[7, 8]);
    assert_eq!(polygons, vec![AreaPolygon { exterior: square(), holes: vec![] }]);
}

#[test]
fn multipolygon_joins_outer_ways_and_keeps_contained_holes() {
    let mut m = squares();
    m.way(100, &[1, 2, 3]);
    m.way(101, &[3, 4, 1]);
    m.way(110, &[11, 12, 13, 14, 11]);
    m.way(120, &[21, 22, 23, 24, 21]);
    m.relation(7, "multipolygon", &[(100, "outer"), (101, ""), (110, "inner"), (120, "inner")]);
    let polygons = m.polygons(&[], &[7]);
    let hole = vec![pt(2.0, 2.0), pt(3.0, 2.0), pt(3.0, 3.0), pt(2.0, 3.0), pt(2.0, 2.0)];
    assert_eq!(polygons, vec![AreaPolygon { exterior: square(), holes: vec![hole] }]);
}

#[test]
fn multipolygon_without_a_closing_outer_ring_gives_nothing() {
    let mut m = squares();
    m.way(100, &[1, 2, 3]);
    m.way(110, &[11, 12, 13, 14, 11]);
    m.relation(7, "multipolygon", &[(100, "outer"), (110, "inner")]);
    assert!(m.polygons(&[], &[7]).is_empty());
}

#[test]
fn closed_ways_come_before_relations() {
    let mut m = squares();
    m.way(100, &[1, 2, 3, 4, 1]);
    m.way(120, &[21, 22, 23, 24, 21]);
    m.relation(7, "multipolygon", &[(100, "outer")]);
    let polygons = m.polygons(&[120], &[7]);
    let far = vec![pt(20.0, 20.0), pt(21.0, 20.0), pt(21.0, 21.0), pt(20.0, 21.0), pt(20.0, 20.0)];
    assert_eq!(
        polygons,
        vec![AreaPolygon { exterior: far, holes: vec![] }, AreaPolygon { exterior: square(), holes: vec![] }]
    );
}
