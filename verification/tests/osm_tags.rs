use ridi_router::osm_data::in_memory_pbf::{has_military_tags, relation_load_class, way_load_class};
use ridi_router::osm_data::pbf_reader::{member_role, member_type, pbf_way_kept, routable_pbf_way, PbfMemberError};
use ridi_router::generation::materialize::{is_restriction_relation, is_routable_highway, parse_restriction_support};
use ridi_router::osm::{OsmRelation, OsmRelationMember, OsmRelationMemberRole, OsmRelationMemberType, OsmTags, OsmWay};

fn tags(pairs: &[(&str, &str)]) -> OsmTags {
    OsmTags::from_pairs(pairs.iter().map(|(k, v)| (k.to_string(), v.to_string())).collect())
}

fn way(t: Option<OsmTags>) -> OsmWay {
    OsmWay { id: 1, point_ids: vec![1, 2], tags: t }
}

#[test]
fn tag_map_operations() {
    let mut t = tags(&[("highway", "primary"), ("name", "A"), ("name", "B")]);
    assert_eq!(t.len(), 2);
    assert_eq!(t.get("name"), Some(&"B".to_string()));
    assert!(t.contains_key("highway"));
    assert!(!t.contains_key("surface"));
    assert!(t.has_value("highway", "primary"));
    assert!(!t.has_value("highway", "secondary"));
    t.insert("surface".to_string(), "gravel".to_string());
    assert_eq!(t.get("surface"), Some(&"gravel".to_string()));
    assert!(t.any_key_starts_with("sur"));
    assert!(t.any_key_ends_with("way"));
    assert!(!t.any_key_ends_with(":conditional"));
    assert_eq!(OsmTags::new().len(), 0);
}

#[test]
fn one_way_and_roundabout() {
    assert!(way(Some(tags(&[("oneway", "yes")]))).is_one_way());
    assert!(!way(Some(tags(&[("oneway", "no")]))).is_one_way());
    assert!(way(Some(tags(&[("junction", "roundabout")]))).is_one_way());
    assert!(way(Some(tags(&[("junction", "roundabout")]))).is_roundabout());
    assert!(!way(Some(tags(&[("oneway", "yes")]))).is_roundabout());
    assert!(!way(None).is_one_way());
    assert!(!way(None).is_roundabout());
}

#[test]
fn routable_highways() {
    assert!(is_routable_highway(&way(Some(tags(&[("highway", "primary_link")])))));
    assert!(is_routable_highway(&way(Some(tags(&[("highway", "track")])))));
    assert!(!is_routable_highway(&way(Some(tags(&[("highway", "footway")])))));
    assert!(is_routable_highway(&way(Some(tags(&[("highway", "path"), ("motorcycle", "yes")])))));
    assert!(!is_routable_highway(&way(Some(tags(&[("highway", "path")])))));
    assert!(!is_routable_highway(&way(Some(tags(&[("name", "x")])))));
    assert!(!is_routable_highway(&way(None)));
}

fn member(member_type: OsmRelationMemberType, role: OsmRelationMemberRole, member_ref: u64) -> OsmRelationMember {
    OsmRelationMember { member_type, role, member_ref }
}

#[test]
fn restriction_support_is_parsed() {
    let relation = OsmRelation {
        id: 7,
        members: vec![
            member(OsmRelationMemberType::Way, OsmRelationMemberRole::From, 10),
            member(OsmRelationMemberType::Node, OsmRelationMemberRole::Via, 2),
            member(OsmRelationMemberType::Way, OsmRelationMemberRole::To, 20),
            member(OsmRelationMemberType::Way, OsmRelationMemberRole::To, 30),
        ],
        tags: tags(&[("type", "restriction:hgv")]),
    };
    assert!(is_restriction_relation(&relation));
    assert_eq!(parse_restriction_support(&relation), Some((vec![10], 2, vec![20, 30])));

    let via_way = OsmRelation {
        members: vec![
            member(OsmRelationMemberType::Way, OsmRelationMemberRole::From, 10),
            member(OsmRelationMemberType::Way, OsmRelationMemberRole::Via, 15),
            member(OsmRelationMemberType::Way, OsmRelationMemberRole::To, 20),
        ],
        ..relation.clone()
    };
    assert_eq!(parse_restriction_support(&via_way), None);
    let no_type = OsmRelation { tags: tags(&[("route", "bus")]), ..relation };
    assert!(!is_restriction_relation(&no_type));
}

#[test]
fn military_tags() {
    assert!(has_military_tags(&tags(&[("landuse", "military")])));
    assert!(has_military_tags(&tags(&[("military", "barracks")])));
    assert!(has_military_tags(&tags(&[("landuse", "forest"), ("military", "")])));
    assert!(!has_military_tags(&tags(&[("landuse", "forest")])));
    assert!(!has_military_tags(&OsmTags::new()));
}

#[test]
fn loader_keeps_roads_areas_loops_and_boundary_pieces() {
    let none = tags(&[]);
    assert_eq!(way_load_class(&tags(&[("highway", "primary")]), &vec![1]), Some((false, false)));
    assert_eq!(way_load_class(&tags(&[("landuse", "residential")]), &vec![1]), Some((true, false)));
    assert_eq!(way_load_class(&tags(&[("military", "base")]), &vec![1]), Some((false, true)));
    assert_eq!(way_load_class(&none, &vec![1, 2]), Some((false, false)));
    assert_eq!(way_load_class(&none, &vec![1]), None);
    assert_eq!(way_load_class(&none, &vec![]), None);
    // a highway of one node is kept for its tag; a closed loop is kept whatever its tags
    assert_eq!(way_load_class(&tags(&[("highway", "track")]), &vec![]), Some((false, false)));
    assert_eq!(way_load_class(&tags(&[("highway", "track")]), &vec![1, 2, 3, 1]), Some((false, false)));
}

#[test]
fn loader_keeps_multipolygons_and_area_relations() {
    assert_eq!(relation_load_class(&tags(&[("type", "multipolygon")])), Some((false, false)));
    assert_eq!(
        relation_load_class(&tags(&[("type", "multipolygon"), ("landuse", "military")])),
        Some((false, true))
    );
    assert_eq!(relation_load_class(&tags(&[("landuse", "residential")])), Some((true, false)));
    assert_eq!(relation_load_class(&tags(&[("type", "restriction")])), None);
    assert_eq!(relation_load_class(&tags(&[])), None);
}

#[test]
fn routing_reader_keeps_allowed_highways_open_to_motor_traffic() {
    assert!(routable_pbf_way(&tags(&[("highway", "primary")])));
    assert!(routable_pbf_way(&tags(&[("highway", "track")])));
    assert!(routable_pbf_way(&tags(&[("highway", "path"), ("motorcycle", "yes")])));
    assert!(!routable_pbf_way(&tags(&[("highway", "path")])));
    assert!(!routable_pbf_way(&tags(&[("highway", "footway")])));
    assert!(!routable_pbf_way(&tags(&[("highway", "primary"), ("motor_vehicle", "destination")])));
    assert!(routable_pbf_way(&tags(&[("highway", "primary"), ("motor_vehicle", "no")])));
    assert!(!routable_pbf_way(&tags(&[("landuse", "residential")])));
}

#[test]
fn plain_reader_drops_highways_without_motor_traffic() {
    assert!(pbf_way_kept(&tags(&[("highway", "primary")])));
    assert!(pbf_way_kept(&tags(&[("highway", "bridleway")])));
    for v in ["proposed", "cycleway", "steps", "pedestrian", "path", "service", "footway"] {
        assert!(!pbf_way_kept(&tags(&[("highway", v)])));
    }
    assert!(!pbf_way_kept(&tags(&[("name", "x")])));
}

#[test]
fn pbf_members_need_a_known_role_and_type() {
    assert_eq!(member_role("from"), Ok(OsmRelationMemberRole::From));
    assert_eq!(member_role("to"), Ok(OsmRelationMemberRole::To));
    assert_eq!(member_role("via"), Ok(OsmRelationMemberRole::Via));
    assert_eq!(member_role("outer"), Err(PbfMemberError::UnknownRole));
    assert_eq!(member_type(OsmRelationMemberType::Way), Ok(OsmRelationMemberType::Way));
    assert_eq!(member_type(OsmRelationMemberType::Node), Ok(OsmRelationMemberType::Node));
    assert_eq!(member_type(OsmRelationMemberType::Relation), Err(PbfMemberError::UnexpectedMemberType));
}
