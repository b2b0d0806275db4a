use ridi_router::generation::graph::GenerationGraph;
use ridi_router::generation::restriction::GenerationRestrictionRuleType;
use ridi_router::generation::tags::TagSetId;
use ridi_router::generation::{GenerationLine, LineDirection};
use ridi_router::osm::{
    OsmNode, OsmRelation, OsmRelationMember, OsmRelationMemberRole, OsmRelationMemberType,
    OsmTags, OsmWay,
};
use ridi_router::rmdf::serialize_rule_type;
use ridi_router::rmdf::writer::{
    build_point_layout, build_spatial_index, layout_tile_sections, serialize_line_refs,
    serialize_lines, serialize_points, serialize_rules, serialize_tag_values, GridCellEntry,
    OrderedPoint, PointRecord, RmdfWriterError, RuleRecord, StringEntry,
};
use ridi_router::rmdf::TileId;

fn node(id: u64, lat: f64, lon: f64) -> OsmNode {
    OsmNode {
        id,
        lat_bits: lat.to_bits(),
        lon_bits: lon.to_bits(),
        residential_in_proximity: false,
        nogo_area: false,
    }
}

fn tags(pairs: &[(&str, &str)]) -> OsmTags {
    OsmTags::from_pairs(pairs.iter().map(|(k, v)| (k.to_string(), v.to_string())).collect())
}

fn make_way(id: u64, point_ids: &[u64]) -> OsmWay {
    OsmWay {
        id,
        point_ids: point_ids.to_vec(),
        tags: Some(tags(&[("highway", "primary")])),
    }
}

fn make_relation(id: u64, restriction: &str, members: Vec<OsmRelationMember>) -> OsmRelation {
    OsmRelation {
        id,
        members,
        tags: tags(&[("type", "restriction"), ("restriction", restriction)]),
    }
}

fn relation_way_member(role: OsmRelationMemberRole, member_ref: u64) -> OsmRelationMember {
    OsmRelationMember { member_type: OsmRelationMemberType::Way, role, member_ref }
}

fn relation_node_member(role: OsmRelationMemberRole, member_ref: u64) -> OsmRelationMember {
    OsmRelationMember { member_type: OsmRelationMemberType::Node, role, member_ref }
}

/// The grid cell of each point: points of different whole degrees of
/// latitude are in different cells, ordered northwards.
fn cells_by_latitude(graph: &GenerationGraph) -> Vec<u32> {
    graph
        .points
        .iter()
        .map(|p| f64::from_bits(p.lat_bits) as u32)
        .collect()
}

fn writer_test_graph() -> GenerationGraph {
    let mut graph = GenerationGraph::new();

    for id in 1..=6 {
        graph.insert_node(node(id, id as f64, id as f64));
    }

    graph.insert_way(make_way(10, &[1, 2, 3]));
    graph.insert_way(make_way(20, &[2, 4]));
    graph.insert_way(make_way(30, &[5, 2]));
    graph.insert_way(make_way(40, &[4, 6]));

    graph.insert_relation(make_relation(
        100,
        "no_left_turn",
        vec![
            relation_way_member(OsmRelationMemberRole::From, 10),
            relation_node_member(OsmRelationMemberRole::Via, 2),
            relation_way_member(OsmRelationMemberRole::To, 20),
        ],
    ));
    graph.insert_relation(make_relation(
        101,
        "only_right_turn",
        vec![
            relation_way_member(OsmRelationMemberRole::From, 10),
            relation_node_member(OsmRelationMemberRole::Via, 2),
            relation_way_member(OsmRelationMemberRole::To, 30),
        ],
    ));
    graph.insert_relation(make_relation(
        102,
        "no_straight_on",
        vec![
            relation_way_member(OsmRelationMemberRole::From, 20),
            relation_node_member(OsmRelationMemberRole::Via, 4),
            relation_way_member(OsmRelationMemberRole::To, 40),
        ],
    ));

    graph
}

fn layout_of(graph: &GenerationGraph) -> Vec<OrderedPoint> {
    build_point_layout(graph, &cells_by_latitude(graph)).unwrap()
}

fn slice_for_point(line_refs: &[u64], point_record: &PointRecord) -> Vec<u64> {
    let start = point_record.lines_offset as usize;
    let end = start + point_record.lines_count as usize;
    line_refs[start..end].to_vec()
}

fn slice_for_rule(payload: &[u64], rule_record: &RuleRecord, from_side: bool) -> Vec<u64> {
    let (start, count) = if from_side {
        (rule_record.from_lines_offset as usize, rule_record.from_lines_count as usize)
    } else {
        (rule_record.to_lines_offset as usize, rule_record.to_lines_count as usize)
    };
    payload[start..start + count].to_vec()
}

#[test]
fn test_serialize_points_writes_real_line_and_rule_offsets() {
    let graph = writer_test_graph();
    let point_layout = layout_of(&graph);

    let point_records = serialize_points(&point_layout);

    assert_eq!(point_records.len(), 6);
    assert_eq!(
        point_records.iter().map(|point| point.osm_id).collect::<Vec<_>>(),
        vec![1, 2, 3, 4, 5, 6]
    );

    assert_eq!(point_records[0].lines_offset, 0);
    assert_eq!(point_records[0].lines_count, 1);
    assert_eq!(point_records[0].rules_count, 0);

    assert_eq!(point_records[1].lines_offset, 1);
    assert_eq!(point_records[1].lines_count, 4);
    assert_eq!(point_records[1].rules_offset, 0);
    assert_eq!(point_records[1].rules_count, 2);

    assert_eq!(point_records[3].lines_offset, 6);
    assert_eq!(point_records[3].lines_count, 2);
    assert_eq!(point_records[3].rules_offset, 2);
    assert_eq!(point_records[3].rules_count, 1);

    assert_eq!(point_records[4].rules_count, 0);
    assert_eq!(point_records[5].rules_count, 0);
}

#[test]
fn test_build_point_layout_sorts_points_within_each_cell_by_osm_id() {
    let mut graph = GenerationGraph::new();

    for id in [30, 10, 20] {
        graph.insert_node(node(id, 1.0, 1.0));
    }

    graph.insert_way(make_way(10, &[30, 10, 20]));

    let point_layout = layout_of(&graph);

    assert_eq!(
        point_layout.iter().map(|ordered_point| ordered_point.point.id).collect::<Vec<_>>(),
        vec![10, 20, 30]
    );
}

#[test]
fn test_serialize_line_refs_match_point_slices() {
    let graph = writer_test_graph();
    let point_layout = layout_of(&graph);
    let point_records = serialize_points(&point_layout);
    let line_refs = serialize_line_refs(&point_layout);

    assert_eq!(line_refs, vec![0, 0, 1, 2, 3, 1, 2, 4, 3, 4]);
    assert_eq!(slice_for_point(&line_refs, &point_records[0]), vec![0]);
    assert_eq!(slice_for_point(&line_refs, &point_records[1]), vec![0, 1, 2, 3]);
    assert_eq!(slice_for_point(&line_refs, &point_records[3]), vec![2, 4]);
}

#[test]
fn test_serialize_rules_writes_rule_records_and_payload_slices() {
    let graph = writer_test_graph();
    let point_layout = layout_of(&graph);
    let (rule_records, payload) = serialize_rules(&graph, &point_layout).unwrap();

    assert_eq!(rule_records.len(), 3);

    assert_eq!(payload, vec![0, 1, 2, 0, 1, 3, 2, 4]);

    assert_eq!(rule_records[0].from_lines_offset, 0);
    assert_eq!(rule_records[0].from_lines_count, 2);
    assert_eq!(rule_records[0].to_lines_offset, 2);
    assert_eq!(rule_records[0].to_lines_count, 1);
    assert_eq!(
        rule_records[0].rule_type,
        serialize_rule_type(&GenerationRestrictionRuleType::NotAllowed)
    );
    assert_eq!(slice_for_rule(&payload, &rule_records[0], true), vec![0, 1]);
    assert_eq!(slice_for_rule(&payload, &rule_records[0], false), vec![2]);

    assert_eq!(rule_records[1].from_lines_offset, 3);
    assert_eq!(rule_records[1].from_lines_count, 2);
    assert_eq!(rule_records[1].to_lines_offset, 5);
    assert_eq!(rule_records[1].to_lines_count, 1);
    assert_eq!(
        rule_records[1].rule_type,
        serialize_rule_type(&GenerationRestrictionRuleType::OnlyAllowed)
    );
    assert_eq!(slice_for_rule(&payload, &rule_records[1], true), vec![0, 1]);
    assert_eq!(slice_for_rule(&payload, &rule_records[1], false), vec![3]);

    assert_eq!(rule_records[2].from_lines_offset, 6);
    assert_eq!(rule_records[2].from_lines_count, 1);
    assert_eq!(rule_records[2].to_lines_offset, 7);
    assert_eq!(rule_records[2].to_lines_count, 1);
    assert_eq!(slice_for_rule(&payload, &rule_records[2], true), vec![2]);
    assert_eq!(slice_for_rule(&payload, &rule_records[2], false), vec![4]);
}

#[test]
fn test_write_tile_header_rule_count_tracks_rule_records_only() {
    let graph = writer_test_graph();
    let _tile_id = TileId { col: 1, row: 2 };
    let sections = layout_tile_sections(&graph, &cells_by_latitude(&graph)).unwrap();

    assert_eq!(sections.rules.len(), 3);
    assert!(sections.rule_line_refs.len() > sections.rules.len());
    assert_eq!(sections.points.len(), 6);
    assert_eq!(sections.lines.len(), 5);
    assert_eq!(sections.spatial_index.len(), 6);
}

#[test]
fn writer_spatial_index_groups_runs_of_cells() {
    let mut graph = GenerationGraph::new();
    let coords = [(1, 5.5), (2, 5.1), (3, 7.2), (4, 7.9), (5, 7.0), (6, 9.3)];
    for (id, lat) in coords {
        graph.insert_node(node(id, lat, 0.0));
    }
    graph.insert_way(make_way(1, &[1, 2, 3, 4, 5, 6]));
    let layout = layout_of(&graph);
    let entries = build_spatial_index(&layout);
    assert_eq!(
        entries,
        vec![
            GridCellEntry { cell_id: 5, points_offset: 0, points_count: 2 },
            GridCellEntry { cell_id: 7, points_offset: 2, points_count: 3 },
            GridCellEntry { cell_id: 9, points_offset: 5, points_count: 1 },
        ]
    );
    assert!(build_spatial_index(&Vec::new()).is_empty());
}

#[test]
fn writer_leaves_out_points_without_lines() {
    let mut graph = GenerationGraph::new();
    for id in 1..=4 {
        graph.insert_node(node(id, 1.0, 1.0));
    }
    graph.insert_way(make_way(1, &[3, 1]));
    let layout = layout_of(&graph);
    assert_eq!(layout.iter().map(|p| p.point.id).collect::<Vec<_>>(), vec![1, 3]);
    assert_eq!(layout[1].position, 2);
}

#[test]
fn writer_line_records_carry_points_direction_and_tags() {
    let mut graph = GenerationGraph::new();
    graph.insert_node(node(1, 1.5, 2.5));
    graph.insert_node(node(2, 3.5, 4.5));
    graph.insert_way(OsmWay {
        id: 7,
        point_ids: vec![1, 2],
        tags: Some(tags(&[("highway", "primary"), ("oneway", "yes")])),
    });
    let lines = serialize_lines(&graph).unwrap();
    assert_eq!(lines.len(), 1);
    assert_eq!(lines[0].point_a_osm_id, 1);
    assert_eq!(lines[0].point_b_osm_id, 2);
    assert_eq!(f64::from_bits(lines[0].point_b_lat_bits), 3.5);
    assert_eq!(lines[0].direction, 1);
    assert_eq!(lines[0].tag_set_index, graph.lines[0].tags.tag_set_idx);

    graph.lines.push(GenerationLine {
        from_node_id: 2,
        to_node_id: 99,
        direction: LineDirection::BothWays,
        tags: TagSetId::new(TileId { col: 0, row: 0 }, 0),
    });
    assert_eq!(
        serialize_lines(&graph).unwrap_err(),
        RmdfWriterError::MissingPoint { point_id: 99 }
    );
}

#[test]
fn writer_tag_values_pool_holds_utf8_bytes() {
    let mut graph = GenerationGraph::new();
    graph.insert_node(node(1, 1.0, 1.0));
    graph.insert_node(node(2, 1.0, 1.0));
    graph.insert_way(OsmWay {
        id: 7,
        point_ids: vec![1, 2],
        tags: Some(tags(&[("highway", "primary"), ("name", "Alūksnes iela")])),
    });
    let (entries, pool) = serialize_tag_values(&graph);
    assert_eq!(entries.len(), graph.tags.tag_values.len());
    let mut offset = 0u64;
    for (entry, value) in entries.iter().zip(graph.tags.tag_values.iter()) {
        assert_eq!(
            *entry,
            StringEntry { offset, length: value.len() as u32 }
        );
        let start = entry.offset as usize;
        assert_eq!(&pool[start..start + entry.length as usize], value.as_bytes());
        offset += value.len() as u64;
    }
    assert_eq!(pool.len() as u64, offset);
    assert!(graph.tags.tag_values.iter().any(|v| v == "Alūksnes iela"));
}
