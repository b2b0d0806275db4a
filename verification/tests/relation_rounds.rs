use ridi_router::osm::{OsmRelation, OsmRelationMember, OsmRelationMemberRole, OsmRelationMemberType, OsmTags};
use ridi_router::osm_data::in_memory_pbf::resolve_relations;

fn relation(id: u64, members: &[(OsmRelationMemberType, u64)]) -> OsmRelation {
    OsmRelation {
        id,
        members: members
            .iter()
            .map(|(t, r)| OsmRelationMember {
                member_type: *t,
                role: OsmRelationMemberRole::Other("outer".to_string()),
                member_ref: *r,
            })
            .collect(),
        tags: OsmTags::new(),
    }
}

use OsmRelationMemberType::{Node, Relation, Way};

#[test]
fn nested_relations_resolve_after_their_members() {
    let rels = vec![
        (relation(1, &[(Way, 10), (Node, 11)]), true, false),
        (relation(2, &[(Relation, 1)]), false, true),
        (relation(3, &[(Relation, 2), (Relation, 1)]), true, true),
        (relation(4, &[(Relation, 4)]), true, false),
        (relation(5, &[(Relation, 999)]), true, false),
        (relation(6, &[]), false, true),
    ];
    let r = resolve_relations(&rels);
    assert_eq!(r.rounds, vec![vec![0, 5], vec![1], vec![2]]);
    assert_eq!(r.residential, vec![1, 3]);
    assert_eq!(r.military, vec![6, 2, 3]);
}

#[test]
fn later_relation_with_the_same_id_replaces_the_earlier() {
    let rels = vec![(relation(7, &[]), true, false), (relation(7, &[(Way, 1)]), false, true)];
    let r = resolve_relations(&rels);
    assert_eq!(r.rounds, vec![vec![1]]);
    assert!(r.residential.is_empty());
    assert_eq!(r.military, vec![7]);
}

#[test]
fn resolution_stops_after_ten_rounds() {
    // a chain of twelve relations, each a member of the next
    let mut rels = vec![(relation(100, &[]), true, false)];
    for k in 1..12u64 {
        rels.push((relation(100 + k, &[(Relation, 100 + k - 1)]), true, false));
    }
    let r = resolve_relations(&rels);
    assert_eq!(r.rounds.len(), 10);
    assert_eq!(r.rounds[9], vec![9]);
    assert_eq!(r.residential, (100..110).collect::<Vec<u64>>());
}

#[test]
fn no_relations_no_rounds() {
    let r = resolve_relations(&vec![]);
    assert!(r.rounds.is_empty() && r.residential.is_empty() && r.military.is_empty());
}
