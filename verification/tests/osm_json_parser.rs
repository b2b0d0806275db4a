use ridi_router::osm::{OsmRelationMemberRole, OsmRelationMemberType, OsmTags};
use ridi_router::osm_data::json_parser::{
    JsonToken, JsonTokenKind, OsmElement, OsmElementType, OsmJsonParser, OsmJsonParserError, OsmRelMemberRole,
    OsmRelMemberType,
};

fn tags(pairs: &[(&str, &str)]) -> OsmTags {
    OsmTags::from_pairs(
        pairs
            .iter()
            .map(|(k, v)| (k.to_string(), v.to_string()))
            .collect(),
    )
}

fn parse_all(lines: &[&str]) -> Vec<OsmElement> {
    let mut parser = OsmJsonParser::new();
    let mut all_elements = Vec::new();
    for line in lines {
        let elements = parser.parse_line(line.as_bytes().to_owned()).unwrap();
        for element in elements {
            all_elements.push(element);
        }
    }
    all_elements
}

fn assert_node(el: &OsmElement, id: u64, lat: f64, lon: f64, expected_tags: Option<OsmTags>) {
    assert_eq!(el.element_type, Some(OsmElementType::Node));
    assert_eq!(el.id, Some(id));
    assert_eq!(el.lat.as_ref().map(|t| t.parse::<f64>().unwrap()), Some(lat));
    assert_eq!(el.lon.as_ref().map(|t| t.parse::<f64>().unwrap()), Some(lon));
    assert_eq!(el.tags, expected_tags);
    assert_eq!(el.nodes, None);
    assert_eq!(el.members, None);
}

const HEADER: [&str; 9] = [
    r#"{"#,
    r#"  "version": 0.6,"#,
    r#"  "generator": "Overpass API 0.7.62.1 084b4234","#,
    r#"  "osm3s": {"#,
    r#"    "timestamp_osm_base": "2024-07-23T11:01:29Z","#,
    r#"    "copyright": "The data included in this document is from www.openstreetmap.org. The data is made available under ODbL.""#,
    r#"  },"#,
    r#"  "elements": ["#,
    r#""#,
];

fn document(body: &[&'static str]) -> Vec<&'static str> {
    let mut lines: Vec<&'static str> = HEADER.to_vec();
    lines.extend_from_slice(body);
    lines.push(r#"  ]"#);
    lines.push(r#"}"#);
    lines
}

#[test]
fn ignore_other_keys() {
    let input = vec![
        r#"{"#,
        r#"  "version": 0.6,"#,
        r#"  "generator": "Overpass API 0.7.62.1 084b4234","#,
        r#"  "osm3s": {"#,
        r#"    "timestamp_osm_base": "2024-07-23T11:01:29Z","#,
        r#"    "copyright": "The data included in this document is from www.openstreetmap.org. The data is made available under ODbL.""#,
        r#"  },"#,
        r#"  "elements": ["#,
        r#""#,
        r#"{"#,
        r#"  "type": "node","#,
        r#"  "id": 18483373,"#,
        r#"  "lat": 57.1995635,"#,
        r#"  "lon": 25.0419124",#,
        r#"  "some": 25.0419124",#,
        r#"  "other": "tags","#,
        r#"  "tags": {"#,
        r#"    "highway": "traffic_signals""#,
        r#"  }"#,
        r#"}"#,
        r#"  ]"#,
        r#"}"#,
    ];

    let all_elements = parse_all(&input);

    assert_eq!(all_elements.len(), 1);
    assert_node(
        &all_elements[0],
        18483373,
        57.1995635,
        25.0419124,
        Some(tags(&[("highway", "traffic_signals")])),
    );
}

#[test]
fn return_err_on_wrong_values() {
    let input = vec![
        r#"{"#,
        r#"  "version": 0.6,"#,
        r#"  "generator": "Overpass API 0.7.62.1 084b4234","#,
        r#"  "osm3s": {"#,
        r#"    "timestamp_osm_base": "2024-07-23T11:01:29Z","#,
        r#"    "copyright": "The data included in this document is from www.openstreetmap.org. The data is made available under ODbL.""#,
        r#"  },"#,
        r#"  "elements": ["#,
        r#""#,
        r#"{"#,
        r#"  "type": "wrong-value","#,
        r#"  "id": 18483373,"#,
        r#"  "lat": 57.1995635,"#,
        r#"  "lon": 25.0419124",#,
        r#"}"#,
        r#"  ]"#,
        r#"}"#,
    ];

    let mut parser = OsmJsonParser::new();
    for (line_idx, &line) in input.iter().enumerate() {
        let parse_result = parser.parse_line(line.as_bytes().to_owned());
        if line_idx < 10 {
            assert_eq!(parse_result, Ok(Vec::new()));
        } else if line_idx == 10 {
            assert_eq!(
                parse_result,
                Err(OsmJsonParserError::UnknownNodeType {
                    node_type: String::from("wrong-value")
                })
            );
        } else if line_idx > 10 {
            assert_eq!(
                parse_result,
                Err(OsmJsonParserError::ParserInErrorState {
                    error: Box::new(OsmJsonParserError::UnknownNodeType {
                        node_type: String::from("wrong-value")
                    })
                })
            );
        }
    }

    let input = vec![
        r#"{"#,
        r#"  "version": 0.6,"#,
        r#"  "generator": "Overpass API 0.7.62.1 084b4234","#,
        r#"  "osm3s": {"#,
        r#"    "timestamp_osm_base": "2024-07-23T11:01:29Z","#,
        r#"    "copyright": "The data included in this document is from www.openstreetmap.org. The data is made available under ODbL.""#,
        r#"  },"#,
        r#"  "elements": ["#,
        r#""#,
        r#"{"#,
        r#"  "type": "relation","#,
        r#"  "id": 16896043,"#,
        r#"  "members": ["#,
        r#"    {"#,
        r#"      "type": "wrong-value","#,
        r#"      "ref": 979880972,"#,
        r#"      "role": "from""#,
        r#"    },"#,
        r#"    {"#,
        r#"      "type": "node","#,
        r#"      "ref": 32705747,"#,
        r#"      "role": "via""#,
        r#"    },"#,
        r#"    {"#,
        r#"      "type": "way","#,
        r#"      "ref": 69666743,"#,
        r#"      "role": "to""#,
        r#"    }"#,
        r#"  ],"#,
        r#"  "tags": {"#,
        r#"    "restriction": "no_right_turn","#,
        r#"    "type": "restriction""#,
        r#"  }"#,
        r#"}"#,
        r#"  ]"#,
        r#"}"#,
    ];

    let mut parser = OsmJsonParser::new();
    for (line_idx, &line) in input.iter().enumerate() {
        let parse_result = parser.parse_line(line.as_bytes().to_owned());
        if line_idx < 14 {
            assert_eq!(parse_result, Ok(Vec::new()));
        } else if line_idx == 14 {
            assert_eq!(
                parse_result,
                Err(OsmJsonParserError::UnknownMemberType {
                    member_type: String::from("wrong-value")
                })
            );
        } else if line_idx > 14 {
            assert_eq!(
                parse_result,
                Err(OsmJsonParserError::ParserInErrorState {
                    error: Box::new(OsmJsonParserError::UnknownMemberType {
                        member_type: String::from("wrong-value")
                    })
                })
            );
        }
    }
}

#[test]
fn json_reads_way_with_nodes_and_tags() {
    let input = document(&[
        r#"{"#,
        r#"  "type": "way","#,
        r#"  "id": 80944232,"#,
        r#"  "nodes": ["#,
        r#"    1242609397,"#,
        r#"    923273378,"#,
        r#"    923273458"#,
        r#"  ],"#,
        r#"  "tags": {"#,
        r#"    "highway": "living_street","#,
        r#"    "name": "Alūksnes iela""#,
        r#"  }"#,
        r#"}"#,
    ]);
    let all_elements = parse_all(&input);
    assert_eq!(all_elements.len(), 1);
    let el = &all_elements[0];
    assert_eq!(el.element_type, Some(OsmElementType::Way));
    assert_eq!(el.id, Some(80944232));
    assert_eq!(el.nodes, Some(vec![1242609397, 923273378, 923273458]));
    assert_eq!(
        el.tags,
        Some(tags(&[("highway", "living_street"), ("name", "Alūksnes iela")]))
    );

    let way = el.get_way_element().unwrap();
    assert_eq!(way.id, 80944232);
    assert_eq!(way.point_ids, vec![1242609397, 923273378, 923273458]);
    assert_eq!(way.tags.as_ref().and_then(|t| t.get("highway").cloned()), Some("living_street".to_string()));
    assert_eq!(el.get_node_element(), Err(OsmJsonParserError::ElementIsNotNode));
}

#[test]
fn json_reads_relation_members_in_order() {
    let input = document(&[
        r#"{"#,
        r#"  "type": "relation","#,
        r#"  "id": 14385700,"#,
        r#"  "members": ["#,
        r#"    {"#,
        r#"      "type": "way","#,
        r#"      "ref": 37854864,"#,
        r#"      "role": "from""#,
        r#"    },"#,
        r#"    {"#,
        r#"      "type": "node","#,
        r#"      "ref": 6721285159,"#,
        r#"      "role": "via""#,
        r#"    },"#,
        r#"    {"#,
        r#"      "type": "way","#,
        r#"      "ref": 37854864,"#,
        r#"      "role": "outer""#,
        r#"    }"#,
        r#"  ],"#,
        r#"  "tags": {"#,
        r#"    "restriction": "no_u_turn","#,
        r#"    "type": "restriction""#,
        r#"  }"#,
        r#"}"#,
    ]);
    let all_elements = parse_all(&input);
    assert_eq!(all_elements.len(), 1);
    let el = &all_elements[0];
    let members = el.members.as_ref().unwrap();
    assert_eq!(members.len(), 3);
    assert_eq!(members[0].member_type, Some(OsmRelMemberType::Way));
    assert_eq!(members[0].role, Some(OsmRelMemberRole::From));
    assert_eq!(members[1].member_ref, Some(6721285159));
    assert_eq!(members[2].role, Some(OsmRelMemberRole::Other("outer".to_string())));

    let relation = el.get_relation_element().unwrap();
    assert_eq!(relation.id, 14385700);
    assert_eq!(relation.members.len(), 3);
    assert_eq!(relation.members[1].member_type, OsmRelationMemberType::Node);
    assert_eq!(relation.members[1].role, OsmRelationMemberRole::Via);
    assert_eq!(relation.members[1].member_ref, 6721285159);
    assert_eq!(
        relation.members[2].role,
        OsmRelationMemberRole::Other("outer".to_string())
    );
    assert_eq!(
        relation.tags,
        tags(&[("restriction", "no_u_turn"), ("type", "restriction")])
    );
}

#[test]
fn json_node_element_reports_first_missing_value() {
    let input = document(&[r#"{ "type": "node", "id": 7, "lat": 1.5 }"#]);
    let all_elements = parse_all(&input);
    assert_eq!(all_elements.len(), 1);
    assert_eq!(
        all_elements[0].get_node_element(),
        Err(OsmJsonParserError::MissingValueForElement {
            element_type: "node".to_string(),
            value: "lon".to_string()
        })
    );
    assert_eq!(
        all_elements[0].get_relation_element(),
        Err(OsmJsonParserError::ElementIsNotWay)
    );

    let complete = parse_all(&document(&[r#"{ "type": "node", "id": 7, "lat": 1.5, "lon": -2e1 }"#]));
    let node = complete[0].get_node_element().unwrap();
    assert_eq!(node.id, 7);
    assert_eq!(node.lat, "1.5");
    assert_eq!(node.lon, "-2e1");
}

#[test]
fn json_element_without_type_is_an_error() {
    let element = OsmElement::new();
    assert_eq!(
        element.get_element_type(),
        Err(OsmJsonParserError::MissingElementType {
            element: OsmElement::new()
        })
    );
    assert_eq!(element.get_way_element(), Err(OsmJsonParserError::ElementIsNotWay));
}

#[test]
fn json_relation_member_without_role_is_an_error() {
    let input = document(&[r#"{ "type": "relation", "id": 3, "members": [ { "type": "way", "ref": 9 } ], "tags": { "type": "restriction" } }"#]);
    let all_elements = parse_all(&input);
    assert_eq!(
        all_elements[0].get_relation_element(),
        Err(OsmJsonParserError::MissingValueForElement {
            element_type: "member".to_string(),
            value: "role".to_string()
        })
    );
}

#[test]
fn json_array_at_root_is_an_error() {
    let mut parser = OsmJsonParser::new();
    assert_eq!(
        parser.parse_line(b"[".to_vec()),
        Err(OsmJsonParserError::ArrayFoundInRoot)
    );
    assert_eq!(
        parser.parse_line(b"{".to_vec()),
        Err(OsmJsonParserError::ParserInErrorState {
            error: Box::new(OsmJsonParserError::ArrayFoundInRoot)
        })
    );
}

#[test]
fn json_closing_bracket_inside_object_is_an_error() {
    let mut parser = OsmJsonParser::new();
    assert_eq!(
        parser.parse_line(br#"{ "a": 1 ]"#.to_vec()),
        Err(OsmJsonParserError::UnexpectedToken {
            token: JsonTokenKind::BracketClose,
            context: "not in a list".to_string()
        })
    );
    let mut parser = OsmJsonParser::new();
    assert_eq!(
        parser.parse_line(br#"{ "a": [ 1 }"#.to_vec()),
        Err(OsmJsonParserError::UnexpectedToken {
            token: JsonTokenKind::CurlyClose,
            context: "not in a object".to_string()
        })
    );
}

#[test]
fn json_bad_numbers_are_errors() {
    let mut parser = OsmJsonParser::new();
    for line in HEADER.iter() {
        assert_eq!(parser.parse_line(line.as_bytes().to_vec()), Ok(Vec::new()));
    }
    assert_eq!(parser.parse_line(b"{".to_vec()), Ok(Vec::new()));
    assert_eq!(
        parser.parse_line(br#""id": "12x","#.to_vec()),
        Err(OsmJsonParserError::FailedToParseNodeId {
            value: "12x".to_string()
        })
    );

    let mut parser = OsmJsonParser::new();
    for line in HEADER.iter() {
        parser.parse_line(line.as_bytes().to_vec()).unwrap();
    }
    parser.parse_line(b"{".to_vec()).unwrap();
    assert_eq!(
        parser.parse_line(br#""lat": "north","#.to_vec()),
        Err(OsmJsonParserError::FailedToParseLat {
            value: "north".to_string()
        })
    );

    let mut parser = OsmJsonParser::new();
    for line in HEADER.iter() {
        parser.parse_line(line.as_bytes().to_vec()).unwrap();
    }
    parser.parse_line(b"{".to_vec()).unwrap();
    assert_eq!(
        parser.parse_line(br#""lon": 1.2.3,"#.to_vec()),
        Err(OsmJsonParserError::FailedToParseLon {
            value: "1.2.3".to_string()
        })
    );
}

#[test]
fn json_invalid_utf8_is_an_error() {
    let mut parser = OsmJsonParser::new();
    let result = parser.parse_line(vec![b'"', 0xff, b'"']);
    assert!(matches!(
        result,
        Err(OsmJsonParserError::Utf8ParseError { .. })
    ));
}

#[test]
fn json_elements_outside_elements_list_are_ignored() {
    let all_elements = parse_all(&[r#"{ "other": [ { "type": "node", "id": 1, "lat": 0, "lon": 0 } ] }"#]);
    assert!(all_elements.is_empty());
}

#[test]
fn json_several_elements_on_one_line_come_in_order() {
    let all_elements = parse_all(&document(&[
        r#"{ "type": "node", "id": 1, "lat": 1, "lon": 2 }, { "type": "node", "id": 2, "lat": 3, "lon": 4 }"#,
    ]));
    assert_eq!(all_elements.len(), 2);
    assert_node(&all_elements[0], 1, 1.0, 2.0, None);
    assert_node(&all_elements[1], 2, 3.0, 4.0, None);
}

use JsonTokenKind::{BracketClose, BracketOpen, Colon, Comma, CurlyClose, CurlyOpen, Invalid, Number, Str};

fn tok(kind: JsonTokenKind) -> JsonToken {
    JsonToken { kind, bytes: None }
}

fn text(kind: JsonTokenKind, s: &str) -> JsonToken {
    JsonToken { kind, bytes: Some(s.as_bytes().to_vec()) }
}

#[test]
fn tokens_of_a_node_give_the_node() {
    let mut parser = OsmJsonParser::new();
    let opening = vec![tok(CurlyOpen), text(Str, "\"elements\""), tok(Colon), tok(BracketOpen)];
    assert!(parser.parse_tokens(&opening).unwrap().is_empty());
    let node = vec![
        tok(CurlyOpen),
        text(Str, "\"type\""),
        tok(Colon),
        text(Str, "\"node\""),
        tok(Comma),
        text(Str, "\"id\""),
        tok(Colon),
        text(Number, "42"),
        tok(Comma),
        text(Str, "\"lat\""),
        tok(Colon),
        text(Number, "56.5"),
        tok(Comma),
        text(Str, "\"lon\""),
        tok(Colon),
        text(Number, "24.25"),
        tok(CurlyClose),
    ];
    let elements = parser.parse_tokens(&node).unwrap();
    assert_eq!(elements.len(), 1);
    assert_node(&elements[0], 42, 56.5, 24.25, None);
}

#[test]
fn a_line_and_its_tokens_read_alike() {
    let line = r#"{"elements": [{"type": "node", "id": 7, "lat": 1.5, "lon": 2.5}]}"#;
    let mut by_line = OsmJsonParser::new();
    let from_line = by_line.parse_line(line.as_bytes().to_owned()).unwrap();
    let mut by_tokens = OsmJsonParser::new();
    let tokens = vec![
        tok(CurlyOpen), text(Str, "\"elements\""), tok(Colon), tok(BracketOpen),
        tok(CurlyOpen), text(Str, "\"type\""), tok(Colon), text(Str, "\"node\""), tok(Comma),
        text(Str, "\"id\""), tok(Colon), text(Number, "7"), tok(Comma),
        text(Str, "\"lat\""), tok(Colon), text(Number, "1.5"), tok(Comma),
        text(Str, "\"lon\""), tok(Colon), text(Number, "2.5"), tok(CurlyClose),
        tok(BracketClose), tok(CurlyClose),
    ];
    let from_tokens = by_tokens.parse_tokens(&tokens).unwrap();
    assert_eq!(from_line, from_tokens);
    assert_eq!(from_tokens.len(), 1);
    assert_node(&from_tokens[0], 7, 1.5, 2.5, None);
}

#[test]
fn a_refused_token_stops_the_reader() {
    let mut parser = OsmJsonParser::new();
    assert!(parser.parse_tokens(&vec![tok(Invalid)]).unwrap().is_empty());
    assert_eq!(parser.parse_tokens(&vec![tok(BracketOpen)]), Err(OsmJsonParserError::ArrayFoundInRoot));
    assert!(matches!(
        parser.parse_tokens(&vec![tok(CurlyOpen)]),
        Err(OsmJsonParserError::ParserInErrorState { .. })
    ));
}
