use ridi_router::map_data::graph::TileTagTable;
use ridi_router::rmdf::{TagSetRecord, TileId, TAG_VALUE_NONE};
use ridi_router::viewer_api::{check_tile_filename, direction_name, point_flags, resolve_tags, TagResponse, TileFilenameError};

fn table() -> TileTagTable {
    TileTagTable {
        tile_id: TileId { col: 3, row: 4 },
        tag_values: vec!["Main Street".to_string(), "primary".to_string(), "asphalt".to_string()],
        tag_sets: vec![
            TagSetRecord { name_idx: 0, hw_ref_idx: TAG_VALUE_NONE, highway_idx: 1, surface_idx: 2, smoothness_idx: TAG_VALUE_NONE },
            TagSetRecord { name_idx: 7, hw_ref_idx: 0, highway_idx: TAG_VALUE_NONE, surface_idx: 1, smoothness_idx: 2 },
        ],
    }
}

#[test]
fn tile_filenames_are_checked() {
    assert_eq!(check_tile_filename("tile_1_2.rmdf"), Ok(()));
    assert_eq!(check_tile_filename("../tile_1_2.rmdf"), Err(TileFilenameError::InvalidFilename));
    assert_eq!(check_tile_filename("dir/tile.rmdf"), Err(TileFilenameError::InvalidFilename));
    assert_eq!(check_tile_filename("dir\\tile.rmdf"), Err(TileFilenameError::InvalidFilename));
    assert_eq!(check_tile_filename("tile_1_2.json"), Err(TileFilenameError::NotRmdf));
    assert_eq!(check_tile_filename("..json"), Err(TileFilenameError::InvalidFilename));
    assert_eq!(check_tile_filename(".rmdf"), Ok(()));
}

#[test]
fn direction_names() {
    assert_eq!(direction_name(0), "BothWays");
    assert_eq!(direction_name(1), "OneWay");
    assert_eq!(direction_name(2), "Roundabout");
    assert_eq!(direction_name(3), "Unknown");
    assert_eq!(direction_name(255), "Unknown");
}

#[test]
fn point_flag_names() {
    assert!(point_flags(false, false).is_empty());
    assert_eq!(point_flags(true, false), vec!["residential_in_proximity".to_string()]);
    assert_eq!(point_flags(false, true), vec!["nogo_area".to_string()]);
    assert_eq!(point_flags(true, true), vec!["residential_in_proximity".to_string(), "nogo_area".to_string()]);
}

#[test]
fn tags_are_resolved_from_the_tile_table() {
    let t = table();
    assert_eq!(
        resolve_tags(&t, 0),
        Some(TagResponse {
            name: Some("Main Street".to_string()),
            highway: Some("primary".to_string()),
            surface: Some("asphalt".to_string()),
            smoothness: None,
        })
    );
    assert_eq!(
        resolve_tags(&t, 1),
        Some(TagResponse { name: None, highway: None, surface: Some("primary".to_string()), smoothness: Some("asphalt".to_string()) })
    );
    assert_eq!(resolve_tags(&t, 2), None);
    assert_eq!(TagResponse::default(), TagResponse { name: None, highway: None, surface: None, smoothness: None });
}
