use ridi_router::generation::assemble::build_generation_graph;
use ridi_router::osm::{OsmNode, OsmRelation, OsmRelationMember, OsmRelationMemberRole, OsmRelationMemberType, OsmTags, OsmWay};

fn node(id: u64) -> OsmNode {
    OsmNode { id, lat_bits: (id as f64).to_bits(), lon_bits: 0, residential_in_proximity: false, nogo_area: false }
}

fn tags(pairs: &[(&str, &str)]) -> OsmTags {
    OsmTags::from_pairs(pairs.iter().map(|(k, v)| (k.to_string(), v.to_string())).collect())
}

fn way(id: u64, point_ids: &[u64]) -> OsmWay {
    OsmWay { id, point_ids: point_ids.to_vec(), tags: Some(tags(&[("highway", "primary")])) }
}

fn member(member_type: OsmRelationMemberType, role: OsmRelationMemberRole, member_ref: u64) -> OsmRelationMember {
    OsmRelationMember { member_type, role, member_ref }
}

fn restriction(id: u64, from_way: u64, via_node: u64, to_way: u64) -> OsmRelation {
    OsmRelation {
        id,
        members: vec![
            member(OsmRelationMemberType::Way, OsmRelationMemberRole::From, from_way),
            member(OsmRelationMemberType::Node, OsmRelationMemberRole::Via, via_node),
            member(OsmRelationMemberType::Way, OsmRelationMemberRole::To, to_way),
        ],
        tags: tags(&[("type", "restriction"), ("restriction", "no_right_turn")]),
    }
}

#[test]
fn graph_is_built_from_nodes_ways_and_relations() {
    let graph = build_generation_graph(
        vec![node(3), node(1), node(2)],
        vec![way(10, &[1, 2]), way(20, &[2, 3]), way(30, &[3])],
        vec![restriction(100, 10, 2, 20), restriction(101, 10, 2, 40)],
    );

    let ids: Vec<u64> = graph.get_points().iter().map(|p| p.id).collect();
    assert_eq!(ids, vec![1, 2, 3]);
    let lines: Vec<(u64, u64)> = graph.get_lines().iter().map(|l| (l.from_node_id, l.to_node_id)).collect();
    assert_eq!(lines, vec![(1, 2), (2, 3)]);
    assert_eq!(graph.get_tags().len(), (1, 1));

    let rules = &graph.get_restrictions_by_via()[&2];
    assert_eq!(rules.len(), 1);
    assert_eq!(rules[0].relation_id, 100);
    assert_eq!(rules[0].from_line_indices, vec![0]);
    assert_eq!(rules[0].to_line_indices, vec![1]);
    assert_eq!(graph.get_restriction_skip_stats().malformed_or_unresolved_relations, 1);
}

#[test]
fn segments_with_nodes_outside_the_tile_are_left_out() {
    let graph = build_generation_graph(vec![node(2), node(1)], vec![way(10, &[1, 2, 9, 1])], vec![]);
    let lines: Vec<(u64, u64)> = graph.get_lines().iter().map(|l| (l.from_node_id, l.to_node_id)).collect();
    assert_eq!(lines, vec![(1, 2)]);
    assert!(graph.get_restrictions_by_via().is_empty());
    assert!(graph.get_restriction_skip_stats().is_empty());
}
