use ridi_router::generation::graph::GenerationGraph;
use ridi_router::generation::restriction::{
    GenerationRestrictionRule, GenerationRestrictionRuleType, GenerationRestrictionSkipReason,
    GenerationRestrictionSkipStats,
};
use ridi_router::osm::{
    OsmNode, OsmRelation, OsmRelationMember, OsmRelationMemberRole, OsmRelationMemberType,
    OsmTags, OsmWay,
};

fn node(id: u64, lat: f64, lon: f64, residential: bool, nogo: bool) -> OsmNode {
    OsmNode {
        id,
        lat_bits: lat.to_bits(),
        lon_bits: lon.to_bits(),
        residential_in_proximity: residential,
        nogo_area: nogo,
    }
}

fn tags(pairs: &[(&str, &str)]) -> OsmTags {
    OsmTags::from_pairs(pairs.iter().map(|(k, v)| (k.to_string(), v.to_string())).collect())
}

fn seeded_graph() -> GenerationGraph {
    let mut graph = GenerationGraph::new();
    for id in 1..=7 {
        graph.insert_node(node(id, id as f64, id as f64, false, false));
    }
    graph
}

fn make_way(id: u64, point_ids: &[u64]) -> OsmWay {
    OsmWay {
        id,
        point_ids: point_ids.to_vec(),
        tags: Some(tags(&[("highway", "primary")])),
    }
}

fn insert_base_ways(graph: &mut GenerationGraph) {
    graph.insert_way(make_way(10, &[1, 2, 3]));
    graph.insert_way(make_way(20, &[2, 4, 5]));
    graph.insert_way(make_way(30, &[6, 2, 7]));
}

fn make_relation(
    id: u64,
    restriction: &str,
    members: Vec<OsmRelationMember>,
    extra_tags: &[(&str, &str)],
) -> OsmRelation {
    let mut pairs = vec![("type", "restriction"), ("restriction", restriction)];
    pairs.extend_from_slice(extra_tags);
    OsmRelation { id, members, tags: tags(&pairs) }
}

fn relation_way_member(role: OsmRelationMemberRole, member_ref: u64) -> OsmRelationMember {
    OsmRelationMember { member_type: OsmRelationMemberType::Way, role, member_ref }
}

fn relation_node_member(role: OsmRelationMemberRole, member_ref: u64) -> OsmRelationMember {
    OsmRelationMember { member_type: OsmRelationMemberType::Node, role, member_ref }
}

#[test]
fn graph_test_insert_node_preserves_flags() {
    let mut graph = GenerationGraph::new();
    graph.insert_node(node(12345, 56.95, 24.1, true, true));

    assert_eq!(graph.points.len(), 1);
    let point = &graph.points[0];
    assert_eq!(point.id, 12345);
    assert!(point.residential_in_proximity);
    assert!(point.nogo_area);
}

#[test]
fn graph_test_insert_node_with_false_flags() {
    let mut graph = GenerationGraph::new();
    graph.insert_node(node(67890, 56.95, 24.1, false, false));

    let point = &graph.points[0];
    assert!(!point.residential_in_proximity);
    assert!(!point.nogo_area);
}

#[test]
fn generation_graph_test_insert_node_preserves_flags() {
    let mut graph = GenerationGraph::new();
    graph.insert_node(node(12345, 56.95, 24.1, true, true));

    assert_eq!(graph.points.len(), 1);
    let point = &graph.points[0];
    assert_eq!(point.id, 12345);
    assert_eq!(point.residential_in_proximity, true);
    assert_eq!(point.nogo_area, true);
}

#[test]
fn generation_graph_test_insert_node_with_false_flags() {
    let mut graph = GenerationGraph::new();
    graph.insert_node(node(67890, 56.95, 24.1, false, false));

    let point = &graph.points[0];
    assert_eq!(point.residential_in_proximity, false);
    assert_eq!(point.nogo_area, false);
}

#[test]
fn test_insert_way_records_generated_line_indices() {
    let mut graph = seeded_graph();

    graph.insert_way(make_way(10, &[1, 2, 3]));

    assert_eq!(graph.way_line_indices.get(&10), Some(&vec![0, 1]));
    assert_eq!(graph.lines.len(), 2);
}

#[test]
fn test_insert_relation_materializes_supported_rules() {
    let mut graph = seeded_graph();
    insert_base_ways(&mut graph);

    graph.insert_relation(make_relation(
        100,
        "no_left_turn",
        vec![
            relation_way_member(OsmRelationMemberRole::From, 10),
            relation_node_member(OsmRelationMemberRole::Via, 2),
            relation_way_member(OsmRelationMemberRole::To, 20),
        ],
        &[],
    ));
    graph.insert_relation(make_relation(
        101,
        "only_right_turn",
        vec![
            relation_way_member(OsmRelationMemberRole::From, 10),
            relation_node_member(OsmRelationMemberRole::Via, 2),
            relation_way_member(OsmRelationMemberRole::To, 30),
        ],
        &[],
    ));

    let rules = graph.restrictions_by_via.get(&2).expect("via node 2 should have rules");
    assert_eq!(rules.len(), 2);

    assert_eq!(
        rules[0],
        GenerationRestrictionRule {
            relation_id: 100,
            via_node_id: 2,
            rule_type: GenerationRestrictionRuleType::NotAllowed,
            from_line_indices: vec![0, 1],
            to_line_indices: vec![2],
        }
    );

    assert_eq!(
        rules[1],
        GenerationRestrictionRule {
            relation_id: 101,
            via_node_id: 2,
            rule_type: GenerationRestrictionRuleType::OnlyAllowed,
            from_line_indices: vec![0, 1],
            to_line_indices: vec![4, 5],
        }
    );
}

#[test]
fn test_insert_relation_keeps_only_via_adjacent_line_indices() {
    let mut graph = seeded_graph();
    insert_base_ways(&mut graph);

    graph.insert_relation(make_relation(
        200,
        "no_right_turn",
        vec![
            relation_way_member(OsmRelationMemberRole::From, 10),
            relation_node_member(OsmRelationMemberRole::Via, 2),
            relation_way_member(OsmRelationMemberRole::To, 20),
        ],
        &[],
    ));

    let rule = &graph.restrictions_by_via.get(&2).unwrap()[0];
    assert_eq!(rule.from_line_indices, vec![0, 1]);
    assert_eq!(rule.to_line_indices, vec![2]);
    assert!(!rule.to_line_indices.contains(&3));
}

#[test]
fn test_insert_relation_flattens_multi_to_relations() {
    let mut graph = seeded_graph();
    insert_base_ways(&mut graph);

    graph.insert_relation(make_relation(
        300,
        "no_straight_on",
        vec![
            relation_way_member(OsmRelationMemberRole::From, 10),
            relation_node_member(OsmRelationMemberRole::Via, 2),
            relation_way_member(OsmRelationMemberRole::To, 20),
            relation_way_member(OsmRelationMemberRole::To, 30),
        ],
        &[],
    ));

    let rule = &graph.restrictions_by_via.get(&2).unwrap()[0];
    assert_eq!(rule.to_line_indices, vec![2, 4, 5]);
}

#[test]
fn test_insert_relation_skips_when_any_to_member_is_missing_locally() {
    let mut graph = seeded_graph();
    insert_base_ways(&mut graph);

    graph.insert_relation(make_relation(
        301,
        "no_straight_on",
        vec![
            relation_way_member(OsmRelationMemberRole::From, 10),
            relation_node_member(OsmRelationMemberRole::Via, 2),
            relation_way_member(OsmRelationMemberRole::To, 20),
            relation_way_member(OsmRelationMemberRole::To, 9999),
        ],
        &[],
    ));

    assert!(graph.restrictions_by_via.is_empty());
    assert_eq!(graph.restriction_skip_stats.malformed_or_unresolved_relations, 1);
}

#[test]
fn test_insert_relation_skips_unsupported_and_malformed_relations() {
    let mut graph = seeded_graph();
    insert_base_ways(&mut graph);

    graph.insert_relation(make_relation(
        400,
        "no_right_turn",
        vec![
            relation_way_member(OsmRelationMemberRole::From, 10),
            relation_way_member(OsmRelationMemberRole::Via, 20),
            relation_way_member(OsmRelationMemberRole::To, 30),
        ],
        &[],
    ));
    graph.insert_relation(make_relation(
        401,
        "no_right_turn",
        vec![
            relation_way_member(OsmRelationMemberRole::From, 10),
            relation_node_member(OsmRelationMemberRole::Via, 2),
            relation_way_member(OsmRelationMemberRole::To, 30),
        ],
        &[("restriction:conditional", "no_right_turn @ (Mo-Fr 08:00-18:00)")],
    ));
    graph.insert_relation(make_relation(
        402,
        "no_right_turn",
        vec![
            relation_way_member(OsmRelationMemberRole::From, 10),
            relation_node_member(OsmRelationMemberRole::Via, 2),
            relation_way_member(OsmRelationMemberRole::To, 30),
        ],
        &[("restriction:motorcycle", "no_right_turn")],
    ));
    graph.insert_relation(make_relation(
        403,
        "no_right_turn",
        vec![
            relation_way_member(OsmRelationMemberRole::From, 10),
            relation_node_member(OsmRelationMemberRole::Via, 2),
            relation_way_member(OsmRelationMemberRole::To, 30),
        ],
        &[("except", "bicycle")],
    ));
    graph.insert_relation(make_relation(
        404,
        "no_right_turn",
        vec![
            relation_way_member(OsmRelationMemberRole::From, 9999),
            relation_node_member(OsmRelationMemberRole::Via, 2),
            relation_way_member(OsmRelationMemberRole::To, 30),
        ],
        &[],
    ));

    assert!(graph.restrictions_by_via.is_empty());
    assert_eq!(graph.restriction_skip_stats.via_way_relations, 1);
    assert_eq!(graph.restriction_skip_stats.conditional_relations, 1);
    assert_eq!(graph.restriction_skip_stats.restriction_variant_relations, 1);
    assert_eq!(graph.restriction_skip_stats.except_relations, 1);
    assert_eq!(graph.restriction_skip_stats.malformed_or_unresolved_relations, 1);
}

#[test]
fn insert_way_skips_short_and_untagged_ways() {
    let mut graph = seeded_graph();
    graph.insert_way(make_way(10, &[1]));
    graph.insert_way(OsmWay { id: 11, point_ids: vec![1, 2], tags: None });
    assert!(graph.lines.is_empty());
    assert!(graph.way_line_indices.is_empty());
}

#[test]
fn insert_way_skips_segments_with_missing_nodes_and_sets_direction() {
    let mut graph = seeded_graph();
    graph.insert_way(OsmWay {
        id: 10,
        point_ids: vec![1, 99, 2, 3],
        tags: Some(tags(&[("highway", "primary_link"), ("oneway", "1")])),
    });
    assert_eq!(graph.lines.len(), 1);
    assert_eq!(graph.lines[0].from_node_id, 2);
    assert_eq!(graph.lines[0].to_node_id, 3);
    assert_eq!(graph.lines[0].direction, ridi_router::generation::LineDirection::OneWay);
    assert_eq!(graph.way_line_indices.get(&10), Some(&vec![0]));
    // the highway value is stored without its `_link` suffix
    assert_eq!(graph.tags.tag_values, vec!["primary".to_string()]);

    graph.insert_way(OsmWay {
        id: 20,
        point_ids: vec![4, 5],
        tags: Some(tags(&[("highway", "primary"), ("junction", "roundabout")])),
    });
    assert_eq!(graph.lines[1].direction, ridi_router::generation::LineDirection::Roundabout);
    // same tag values: same tag set
    assert_eq!(graph.lines[1].tags, graph.lines[0].tags);
    assert_eq!(graph.tags.tag_sets.len(), 1);
}

#[test]
fn skip_stats_summary_and_labels() {
    let mut stats = GenerationRestrictionSkipStats::zero();
    assert!(stats.is_empty());
    assert!(stats.summary_parts().is_empty());
    stats.increment(GenerationRestrictionSkipReason::ViaWay);
    stats.increment(GenerationRestrictionSkipReason::MalformedOrUnresolved);
    stats.increment(GenerationRestrictionSkipReason::MalformedOrUnresolved);
    assert!(!stats.is_empty());
    assert_eq!(
        stats.summary_parts(),
        vec!["via_way=1".to_string(), "malformed_or_unresolved=2".to_string()]
    );
    assert_eq!(GenerationRestrictionSkipReason::ViaWay.label(), "via_way");
    assert_eq!(GenerationRestrictionSkipReason::RestrictionVariant.label(), "restriction_variant");
}

#[test]
fn insert_relation_tells_why_it_skipped() {
    let mut graph = seeded_graph();
    insert_base_ways(&mut graph);
    let skip = graph
        .insert_relation(make_relation(
            501,
            "no_right_turn",
            vec![
                relation_way_member(OsmRelationMemberRole::From, 10),
                relation_node_member(OsmRelationMemberRole::Via, 2),
                relation_way_member(OsmRelationMemberRole::To, 30),
            ],
            &[],
        ));
    assert_eq!(skip, None);
    let skip = graph.insert_relation(make_relation(502, "no_right_turn", vec![], &[("except", "bicycle")])).unwrap();
    assert_eq!(skip.reason, GenerationRestrictionSkipReason::Except);
    assert_eq!(skip.explanation, "except=* restrictions are not supported");
    let skip = graph.insert_relation(make_relation(503, "no_left", vec![], &[])).unwrap();
    assert_eq!(skip.reason, GenerationRestrictionSkipReason::MalformedOrUnresolved);
    assert_eq!(skip.explanation, "unsupported restriction value \"no_left\"");
    let plain = OsmRelation { id: 504, members: vec![], tags: tags(&[("type", "multipolygon")]) };
    assert_eq!(graph.insert_relation(plain).unwrap().explanation, "unsupported relation type Some(\"multipolygon\"); expected type=restriction");
    let untyped = OsmRelation { id: 505, members: vec![], tags: tags(&[]) };
    assert_eq!(graph.insert_relation(untyped).unwrap().explanation, "unsupported relation type None; expected type=restriction");
    let skip = graph
        .insert_relation(make_relation(
            506,
            "no_right_turn",
            vec![relation_node_member(OsmRelationMemberRole::From, 7), relation_node_member(OsmRelationMemberRole::Via, 2)],
            &[],
        ))
        .unwrap();
    assert_eq!(skip.explanation, "from member 7 must be a way, got Node");
    let skip = graph
        .insert_relation(make_relation(507, "no_right_turn", vec![relation_way_member(OsmRelationMemberRole::From, 10)], &[]))
        .unwrap();
    assert_eq!(skip.explanation, "restriction relation has no to way members");
    let skip = graph
        .insert_relation(make_relation(
            508,
            "no_right_turn",
            vec![
                relation_way_member(OsmRelationMemberRole::From, 10),
                relation_way_member(OsmRelationMemberRole::To, 30),
            ],
            &[],
        ))
        .unwrap();
    assert_eq!(skip.explanation, "restriction relation must have exactly one via node, got 0");
    let skip = graph
        .insert_relation(make_relation(
            509,
            "no_right_turn",
            vec![
                relation_way_member(OsmRelationMemberRole::From, 10),
                relation_node_member(OsmRelationMemberRole::Via, 99),
                relation_way_member(OsmRelationMemberRole::To, 30),
            ],
            &[],
        ))
        .unwrap();
    assert_eq!(skip.explanation, "via node 99 is not present in this tile");
}

#[test]
fn test_insert_relation_warns_on_skipped_relations() {
    let mut graph = seeded_graph();
    insert_base_ways(&mut graph);
    let skip = graph
        .insert_relation(make_relation(
            500,
            "no_right_turn",
            vec![
                relation_way_member(OsmRelationMemberRole::From, 10),
                relation_way_member(OsmRelationMemberRole::Via, 20),
                relation_way_member(OsmRelationMemberRole::To, 30),
            ],
            &[],
        ))
        .unwrap();
    assert_eq!(skip.reason.label(), "via_way");
    assert_eq!(skip.explanation, "via-way restrictions are not supported");
    assert!(graph.restrictions_by_via.is_empty());
    assert_eq!(graph.restriction_skip_stats.via_way_relations, 1);
}
