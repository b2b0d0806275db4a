//! The decisions of tile materialization that do not depend on geometry: which ways
//! are routable, which relations are restrictions and what supports them, and the
//! one-way-per-id bookkeeping of the materialized ways.

use std::collections::HashSet;
use vstd::prelude::*;
use vstd::string::*;
use crate::generation::graph::role_refs;
use crate::osm::{
    OsmRelation, OsmRelationMember, OsmRelationMemberRole, OsmRelationMemberType, OsmWay, tag_is,
};
use crate::text::{str_eq, starts_with, is_prefix};

verus! {

broadcast use vstd::std_specs::hash::group_hash_axioms;

/// The highway values that routing uses.
pub open spec fn allowed_highway(v: Seq<char>) -> bool {
    v == "motorway"@ || v == "trunk"@ || v == "primary"@ || v == "secondary"@ || v == "tertiary"@
        || v == "unclassified"@ || v == "residential"@ || v == "motorway_link"@ || v
        == "trunk_link"@ || v == "primary_link"@ || v == "secondary_link"@ || v
        == "tertiary_link"@ || v == "living_street"@ || v == "track"@ || v == "escape"@ || v
        == "raceway"@ || v == "road"@
}

/// Whether a way is routable: it has a `highway` tag with an allowed value, or it is a
/// `highway=path` with `motorcycle=yes`.
pub open spec fn routable_highway(way: OsmWay) -> bool {
    match way.tags {
        None => false,
        Some(t) => t@.contains_key("highway"@) && (allowed_highway(t@["highway"@]) || (t@["highway"@]
            == "path"@ && tag_is(t@, "motorcycle"@, "yes"@))),
    }
}

/// The highway values that routing uses, one by one: the road classes from
/// motorway down to unclassified and residential, their link roads, living
/// streets, tracks, escape lanes, raceways and roads of unknown class.
pub open spec fn allowed_highway_values() -> Seq<Seq<char>> {
    seq![
        "motorway"@, "trunk"@, "primary"@, "secondary"@, "tertiary"@, "unclassified"@,
        "residential"@, "motorway_link"@, "trunk_link"@, "primary_link"@, "secondary_link"@,
        "tertiary_link"@, "living_street"@, "track"@, "escape"@, "raceway"@, "road"@,
    ]
}

/// The values that routing uses are exactly the seventeen of
/// `allowed_highway_values`: each of them is allowed, and an allowed value is
/// one of them. So a `highway=residential` street is routable.
pub proof fn lemma_allowed_highway_values()
    ensures
        allowed_highway_values().len() == 17,
        forall|k: int| 0 <= k < 17 ==> allowed_highway(#[trigger] allowed_highway_values()[k]),
        forall|v: Seq<char>| #[trigger] allowed_highway(v) ==> exists|k: int| 0 <= k < 17
            && allowed_highway_values()[k] == v,
        allowed_highway("residential"@),
{
    let l = allowed_highway_values();
    assert forall|v: Seq<char>| #[trigger] allowed_highway(v) implies exists|k: int| 0 <= k < 17
        && l[k] == v by {
        if v == l[0] {} else if v == l[1] {} else if v == l[2] {} else if v == l[3] {}
        else if v == l[4] {} else if v == l[5] {} else if v == l[6] {} else if v == l[7] {}
        else if v == l[8] {} else if v == l[9] {} else if v == l[10] {} else if v == l[11] {}
        else if v == l[12] {} else if v == l[13] {} else if v == l[14] {} else if v == l[15] {}
        else { assert(v == l[16]); }
    }
}

/// A way whose `highway` tag holds one of the values that routing uses is
/// routable, whatever its other tags.
pub proof fn lemma_listed_highway_routable(way: OsmWay, k: int)
    requires
        0 <= k < 17,
        way.tags matches Some(t) && t@.contains_key("highway"@) && t@["highway"@]
            == allowed_highway_values()[k],
    ensures
        routable_highway(way),
{
    lemma_allowed_highway_values();
}

/// Whether a highway value is one that routing uses.
pub fn is_allowed_highway_value(v: &str) -> (res: bool)
    ensures
        res == allowed_highway(v@),
{
    str_eq(v, "motorway") || str_eq(v, "trunk") || str_eq(v, "primary") || str_eq(v, "secondary")
        || str_eq(v, "tertiary") || str_eq(v, "unclassified") || str_eq(v, "residential")
        || str_eq(v, "motorway_link") || str_eq(v, "trunk_link") || str_eq(v, "primary_link")
        || str_eq(v, "secondary_link") || str_eq(v, "tertiary_link") || str_eq(v, "living_street")
        || str_eq(v, "track") || str_eq(v, "escape") || str_eq(v, "raceway") || str_eq(v, "road")
}

/// Whether a way is routable (see `routable_highway`).
pub fn is_routable_highway(way: &OsmWay) -> (res: bool)
    ensures
        res == routable_highway(*way),
{
    let tags = match &way.tags {
        Some(t) => t,
        None => {
            return false;
        },
    };
    let highway_value = match tags.get("highway") {
        Some(v) => v,
        None => {
            return false;
        },
    };
    is_allowed_highway_value(highway_value.as_str()) || (str_eq(highway_value.as_str(), "path")
        && tags.has_value("motorcycle", "yes"))
}

/// Whether a relation's `type` tag starts with `restriction`.
pub open spec fn restriction_relation(relation: OsmRelation) -> bool {
    relation.tags@.contains_key("type"@) && is_prefix("restriction"@, relation.tags@["type"@])
}

/// Whether a relation's `type` tag starts with `restriction`.
pub fn is_restriction_relation(relation: &OsmRelation) -> (res: bool)
    ensures
        res == restriction_relation(*relation),
{
    match relation.tags.get("type") {
        Some(v) => starts_with(v.as_str(), "restriction"),
        None => false,
    }
}

/// Whether some member of a relation is a via way.
pub open spec fn has_via_way(ms: Seq<OsmRelationMember>) -> bool {
    exists|i: int| 0 <= i < ms.len() && (#[trigger] ms[i]).role is Via && ms[i].member_type is Way
}

/// The support of a restriction: `from` way ids, the via node id, `to` way ids.
/// There is none when a member is a via way, or when the `from` or `to` ways are
/// missing, or when there is not exactly one via node.
pub open spec fn restriction_support(ms: Seq<OsmRelationMember>) -> Option<(Seq<u64>, u64, Seq<u64>)> {
    if has_via_way(ms) || role_refs(ms, 0).len() == 0 || role_refs(ms, 1).len() == 0 || role_refs(
        ms,
        2,
    ).len() != 1 {
        None
    } else {
        Some((role_refs(ms, 0), role_refs(ms, 2)[0], role_refs(ms, 1)))
    }
}

/// The `from` ways, via node and `to` ways of a restriction (see `restriction_support`).
pub fn parse_restriction_support(relation: &OsmRelation) -> (res: Option<(Vec<u64>, u64, Vec<u64>)>)
    ensures
        match restriction_support(relation.members@) {
            None => res is None,
            Some((from, via, to)) => res matches Some(r) && r.0@ == from && r.1 == via && r.2@ == to,
        },
{
    let ghost ms = relation.members@;
    let mut from_way_ids: Vec<u64> = Vec::new();
    let mut to_way_ids: Vec<u64> = Vec::new();
    let mut via_node_ids: Vec<u64> = Vec::new();
    let mut i: usize = 0;
    assert(ms.take(0) =~= Seq::<OsmRelationMember>::empty());
    while i < relation.members.len()
        invariant
            ms == relation.members@,
            i <= ms.len(),
            !has_via_way(ms.take(i as int)),
            from_way_ids@ == role_refs(ms.take(i as int), 0),
            to_way_ids@ == role_refs(ms.take(i as int), 1),
            via_node_ids@ == role_refs(ms.take(i as int), 2),
        decreases ms.len() - i,
    {
        let member = &relation.members[i];
        proof {
            assert(ms.take(i + 1).drop_last() =~= ms.take(i as int));
            assert(ms.take(i + 1).last() == ms[i as int]);
        }
        match (&member.role, &member.member_type) {
            (OsmRelationMemberRole::From, OsmRelationMemberType::Way) => {
                from_way_ids.push(member.member_ref);
            },
            (OsmRelationMemberRole::To, OsmRelationMemberType::Way) => {
                to_way_ids.push(member.member_ref);
            },
            (OsmRelationMemberRole::Via, OsmRelationMemberType::Node) => {
                via_node_ids.push(member.member_ref);
            },
            (OsmRelationMemberRole::Via, OsmRelationMemberType::Way) => {
                assert(ms[i as int].role is Via && ms[i as int].member_type is Way);
                return None;
            },
            _ => {},
        }
        proof {
            assert(!has_via_way(ms.take(i + 1))) by {
                if has_via_way(ms.take(i + 1)) {
                    let j = choose|j: int| 0 <= j < i + 1 && (#[trigger] ms.take(i + 1)[j]).role is Via && ms.take(i + 1)[j].member_type is Way;
                    if j < i {
                        assert(ms.take(i as int)[j] == ms.take(i + 1)[j]);
                    }
                }
            }
        }
        i = i + 1;
    }
    assert(ms.take(ms.len() as int) =~= ms);
    if from_way_ids.len() == 0 || to_way_ids.len() == 0 || via_node_ids.len() != 1 {
        return None;
    }
    let via = via_node_ids[0];
    Some((from_way_ids, via, to_way_ids))
}

/// Whether some member of a relation is already in the tile: a node among `node_ids`,
/// a way among `way_ids`, or any relation member.
pub open spec fn members_in_closure(ms: Seq<OsmRelationMember>, node_ids: Set<u64>, way_ids: Set<u64>) -> bool {
    exists|i: int|
        0 <= i < ms.len() && match (#[trigger] ms[i]).member_type {
            OsmRelationMemberType::Node => node_ids.contains(ms[i].member_ref),
            OsmRelationMemberType::Way => way_ids.contains(ms[i].member_ref),
            OsmRelationMemberType::Relation => true,
        }
}

/// Whether some member of a relation is already in the tile (see `members_in_closure`).
pub fn relation_has_members_in_closure(
    relation: &OsmRelation,
    node_ids: &HashSet<u64>,
    way_ids: &HashSet<u64>,
) -> (res: bool)
    ensures
        res == members_in_closure(relation.members@, node_ids@, way_ids@),
{
    let mut i: usize = 0;
    while i < relation.members.len()
        invariant
            i <= relation.members@.len(),
            forall|j: int| 0 <= j < i ==> !match (#[trigger] relation.members@[j]).member_type {
                OsmRelationMemberType::Node => node_ids@.contains(relation.members@[j].member_ref),
                OsmRelationMemberType::Way => way_ids@.contains(relation.members@[j].member_ref),
                OsmRelationMemberType::Relation => true,
            },
        decreases relation.members@.len() - i,
    {
        let member = &relation.members[i];
        let inside = match member.member_type {
            OsmRelationMemberType::Node => node_ids.contains(&member.member_ref),
            OsmRelationMemberType::Way => way_ids.contains(&member.member_ref),
            OsmRelationMemberType::Relation => true,
        };
        if inside {
            return true;
        }
        i = i + 1;
    }
    false
}

/// Adds a way to the tile unless a way with its id was added before.
pub fn insert_way_once(tile_ways: &mut Vec<OsmWay>, way_ids: &mut HashSet<u64>, way: OsmWay)
    ensures
        final(way_ids)@ == old(way_ids)@.insert(way.id),
        old(way_ids)@.contains(way.id) ==> final(tile_ways)@ == old(tile_ways)@,
        !old(way_ids)@.contains(way.id) ==> final(tile_ways)@ == old(tile_ways)@.push(way),
{
    if way_ids.insert(way.id) {
        tile_ways.push(way);
    }
}

} // verus!
