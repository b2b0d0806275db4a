//! The rules by which the PBF readers of the routing data choose ways and
//! turn relation members into the library's members.
//!
//! The routing reader keeps a way with an allowed `highway` value (or a
//! `highway=path` open to motorcycles) unless it is tagged
//! `motor_vehicle=destination`; the plain reader keeps a way whose
//! `highway` value is not one of the values that motor traffic does not use.
//! A relation member's role must be `from`, `to` or `via`, and it must be a
//! way or a node.

use vstd::prelude::*;
use vstd::string::*;
use crate::generation::materialize::{allowed_highway, is_allowed_highway_value};
use crate::osm::{OsmRelationMemberRole, OsmRelationMemberType, OsmTags, tag_is};
use crate::text::str_eq;

verus! {

/// Whether the routing reader keeps a way with these tags: its `highway`
/// value is allowed, or it is `path` and the way has `motorcycle=yes`; and
/// the way is not tagged `motor_vehicle=destination`.
pub open spec fn routable_pbf_tags(t: Map<Seq<char>, Seq<char>>) -> bool {
    &&& t.contains_key("highway"@)
    &&& (allowed_highway(t["highway"@]) || (t["highway"@] == "path"@ && tag_is(t, "motorcycle"@, "yes"@)))
    &&& !tag_is(t, "motor_vehicle"@, "destination"@)
}

/// Whether the routing reader keeps a way (see `routable_pbf_tags`).
pub fn routable_pbf_way(tags: &OsmTags) -> (r: bool)
    ensures
        r == routable_pbf_tags(tags@),
{
    let highway = match tags.get("highway") {
        Some(v) => v,
        None => {
            return false;
        },
    };
    let allowed = is_allowed_highway_value(highway.as_str()) || (str_eq(highway.as_str(), "path")
        && tags.has_value("motorcycle", "yes"));
    allowed && !tags.has_value("motor_vehicle", "destination")
}

/// The highway values that the plain reader drops.
pub open spec fn excluded_highway(v: Seq<char>) -> bool {
    v == "proposed"@ || v == "cycleway"@ || v == "steps"@ || v == "pedestrian"@ || v == "path"@
        || v == "service"@ || v == "footway"@
}

/// The highway values that the plain reader drops, one by one: proposed
/// roads, cycleways, steps, pedestrian streets, paths, service roads and
/// footways.
pub open spec fn excluded_highway_values() -> Seq<Seq<char>> {
    seq!["proposed"@, "cycleway"@, "steps"@, "pedestrian"@, "path"@, "service"@, "footway"@]
}

/// The plain reader drops exactly the seven values of
/// `excluded_highway_values`, and keeps a way tagged with any other
/// `highway` value.
pub proof fn lemma_excluded_highway_values(t: Map<Seq<char>, Seq<char>>)
    ensures
        forall|k: int| 0 <= k < 7 ==> excluded_highway(#[trigger] excluded_highway_values()[k]),
        forall|v: Seq<char>| #[trigger] excluded_highway(v) ==> exists|k: int| 0 <= k < 7
            && excluded_highway_values()[k] == v,
        t.contains_key("highway"@) ==> (pbf_way_kept_spec(t) <==> forall|k: int| 0 <= k < 7
            ==> excluded_highway_values()[k] != t["highway"@]),
{
    let l = excluded_highway_values();
    assert forall|v: Seq<char>| #[trigger] excluded_highway(v) implies exists|k: int| 0 <= k < 7
        && l[k] == v by {
        if v == l[0] {} else if v == l[1] {} else if v == l[2] {} else if v == l[3] {}
        else if v == l[4] {} else if v == l[5] {} else { assert(v == l[6]); }
    }
    if t.contains_key("highway"@) && !pbf_way_kept_spec(t) {
        let v = t["highway"@];
        assert(excluded_highway(v));
        let k = choose|k: int| 0 <= k < 7 && l[k] == v;
        assert(l[k] == v);
    }
}

/// Whether the plain reader keeps a way with these tags: it has a `highway`
/// tag whose value is not one that it drops (see `excluded_highway`).
pub open spec fn pbf_way_kept_spec(t: Map<Seq<char>, Seq<char>>) -> bool {
    t.contains_key("highway"@) && !excluded_highway(t["highway"@])
}

/// Whether the plain reader keeps a way (see `pbf_way_kept_spec`).
pub fn pbf_way_kept(tags: &OsmTags) -> (r: bool)
    ensures
        r == pbf_way_kept_spec(tags@),
{
    match tags.get("highway") {
        Some(v) => {
            let v = v.as_str();
            !(str_eq(v, "proposed") || str_eq(v, "cycleway") || str_eq(v, "steps") || str_eq(v, "pedestrian")
                || str_eq(v, "path") || str_eq(v, "service") || str_eq(v, "footway"))
        },
        None => false,
    }
}

/// Why a relation member cannot be read.
#[derive(Clone, Copy, Debug, PartialEq, Eq)]
pub enum PbfMemberError {
    /// The role is none of `from`, `to` and `via`.
    UnknownRole,
    /// The member is a relation.
    UnexpectedMemberType,
}

/// The role that a member's role text names: `from`, `to` or `via`;
/// any other text is an unknown role.
pub open spec fn role_of(role: Seq<char>) -> Result<OsmRelationMemberRole, PbfMemberError> {
    if role == "from"@ {
        Ok(OsmRelationMemberRole::From)
    } else if role == "to"@ {
        Ok(OsmRelationMemberRole::To)
    } else if role == "via"@ {
        Ok(OsmRelationMemberRole::Via)
    } else {
        Err(PbfMemberError::UnknownRole)
    }
}

/// The text that names a relation member's role in OSM data.
pub open spec fn role_name(r: OsmRelationMemberRole) -> Seq<char> {
    match r {
        OsmRelationMemberRole::From => "from"@,
        OsmRelationMemberRole::To => "to"@,
        OsmRelationMemberRole::Via => "via"@,
        OsmRelationMemberRole::Other(s) => s@,
    }
}

/// A role text is read exactly when it is `from`, `to` or `via`, and then as
/// the role that it names; any other text is an unknown role.
pub proof fn lemma_role_of_names(v: Seq<char>)
    ensures
        role_of(v) is Ok <==> (v == "from"@ || v == "to"@ || v == "via"@),
        role_of(v) matches Ok(r) ==> role_name(r) == v && !(r is Other),
        role_of(v) is Err ==> role_of(v) == Err::<OsmRelationMemberRole, PbfMemberError>(
            PbfMemberError::UnknownRole,
        ),
{
    reveal_strlit("from");
    reveal_strlit("to");
    reveal_strlit("via");
    assert("to"@[0] != "from"@[0]);
    assert("via"@[0] != "from"@[0]);
    assert("via"@[0] != "to"@[0]);
}

/// The role of a relation member (see `role_of`).
pub fn member_role(role: &str) -> (r: Result<OsmRelationMemberRole, PbfMemberError>)
    ensures
        r == role_of(role@),
{
    if str_eq(role, "from") {
        Ok(OsmRelationMemberRole::From)
    } else if str_eq(role, "to") {
        Ok(OsmRelationMemberRole::To)
    } else if str_eq(role, "via") {
        Ok(OsmRelationMemberRole::Via)
    } else {
        Err(PbfMemberError::UnknownRole)
    }
}

/// The type of a relation member: a way or a node stays what it is; a
/// relation member cannot be read.
pub fn member_type(kind: OsmRelationMemberType) -> (r: Result<OsmRelationMemberType, PbfMemberError>)
    ensures
        r == match kind {
            OsmRelationMemberType::Relation => Err(PbfMemberError::UnexpectedMemberType),
            _ => Ok(kind),
        },
{
    match kind {
        OsmRelationMemberType::Way => Ok(OsmRelationMemberType::Way),
        OsmRelationMemberType::Node => Ok(OsmRelationMemberType::Node),
        OsmRelationMemberType::Relation => Err(PbfMemberError::UnexpectedMemberType),
    }
}

} // verus!
