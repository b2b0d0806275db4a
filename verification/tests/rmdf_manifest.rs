use ridi_router::rmdf::manifest::checksum_text;
use ridi_router::rmdf::manifest::{compute_neighbors, parse_tile_id_from_filename, sort_tile_ids};
use ridi_router::rmdf::TileId;

#[test]
fn manifest_parses_tile_stems() {
    assert_eq!(parse_tile_id_from_filename("tile_12_34"), Some(TileId { col: 12, row: 34 }));
    assert_eq!(parse_tile_id_from_filename("tile_0_179"), Some(TileId { col: 0, row: 179 }));
    assert_eq!(parse_tile_id_from_filename("tile_+7_007"), Some(TileId { col: 7, row: 7 }));
    assert_eq!(parse_tile_id_from_filename("tile_65535_1"), Some(TileId { col: 65535, row: 1 }));
}

#[test]
fn manifest_rejects_other_stems() {
    assert_eq!(parse_tile_id_from_filename("tile_12"), None);
    assert_eq!(parse_tile_id_from_filename("tile_1_2_3"), None);
    assert_eq!(parse_tile_id_from_filename("tiles_1_2"), None);
    assert_eq!(parse_tile_id_from_filename("tile__2"), None);
    assert_eq!(parse_tile_id_from_filename("tile_1_-2"), None);
    assert_eq!(parse_tile_id_from_filename("tile_65536_1"), None);
    assert_eq!(parse_tile_id_from_filename("tile_1_x"), None);
    assert_eq!(parse_tile_id_from_filename("manifest"), None);
    assert_eq!(parse_tile_id_from_filename(""), None);
}

#[test]
fn manifest_file_names_read_back() {
    for tile in [TileId { col: 0, row: 0 }, TileId { col: 359, row: 179 }, TileId { col: 21, row: 147 }] {
        let name = tile.to_filename();
        let stem = name.strip_suffix(".rmdf").unwrap();
        assert_eq!(parse_tile_id_from_filename(stem), Some(tile));
    }
    assert_eq!(TileId { col: 21, row: 147 }.to_filename(), "tile_21_147.rmdf");
}

#[test]
fn manifest_sorts_tiles_by_column_then_row() {
    let ids = vec![
        TileId { col: 2, row: 1 },
        TileId { col: 1, row: 5 },
        TileId { col: 2, row: 0 },
        TileId { col: 1, row: 5 },
        TileId { col: 0, row: 9 },
    ];
    assert_eq!(
        sort_tile_ids(ids),
        vec![
            TileId { col: 0, row: 9 },
            TileId { col: 1, row: 5 },
            TileId { col: 1, row: 5 },
            TileId { col: 2, row: 0 },
            TileId { col: 2, row: 1 },
        ]
    );
    assert!(sort_tile_ids(Vec::new()).is_empty());
}

#[test]
fn manifest_neighbors_are_the_generated_adjacent_tiles() {
    let tiles = vec![
        TileId { col: 10, row: 10 },
        TileId { col: 10, row: 11 },
        TileId { col: 11, row: 9 },
        TileId { col: 9, row: 10 },
    ];
    let n = compute_neighbors(TileId { col: 10, row: 10 }, &tiles);
    assert_eq!(n.north, Some("tile_10_11.rmdf".to_string()));
    assert_eq!(n.south, None);
    assert_eq!(n.east, None);
    assert_eq!(n.west, Some("tile_9_10.rmdf".to_string()));
    assert_eq!(n.southeast, Some("tile_11_9.rmdf".to_string()));
    assert_eq!(n.northeast, None);
    assert_eq!(n.northwest, None);
    assert_eq!(n.southwest, None);
}

#[test]
fn manifest_neighbors_stop_at_the_grid_edge() {
    let tiles = vec![TileId { col: 0, row: 179 }, TileId { col: 359, row: 178 }];
    let n = compute_neighbors(TileId { col: 0, row: 179 }, &tiles);
    assert_eq!(n.north, None);
    assert_eq!(n.west, None);
    assert_eq!(n.southwest, None);
    assert_eq!(n.south, None);
    let n = compute_neighbors(TileId { col: 359, row: 179 }, &tiles);
    assert_eq!(n.south, Some("tile_359_178.rmdf".to_string()));
    assert_eq!(n.east, None);
}

#[test]
fn checksum_text_is_lowercase_hex() {
    assert_eq!(checksum_text(&[]), "sha256:");
    assert_eq!(checksum_text(&[0x00, 0x0f, 0xa0, 0xff, 0x3c]), "sha256:000fa0ff3c");
    let digest: Vec<u8> = (0u8..32).collect();
    let text = checksum_text(&digest);
    assert_eq!(text.len(), 7 + 64);
    assert!(text.ends_with("1c1d1e1f"));
}
