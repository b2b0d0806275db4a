use ridi_router::proximity::rasterized_grid::{GridCell, RasterizedProximityGrid};

const GRID_CELL_SIZE_DEG: f32 = 0.0005;

/// The grid that covers the bounds, laid out as the generator lays it out.
fn grid_for_bounds(lat_min: f64, lat_max: f64, lon_min: f64, lon_max: f64) -> RasterizedProximityGrid {
    let lat_min = lat_min as f32 - GRID_CELL_SIZE_DEG;
    let lat_max = lat_max as f32 + GRID_CELL_SIZE_DEG;
    let lon_min = lon_min as f32 - GRID_CELL_SIZE_DEG;
    let lon_max = lon_max as f32 + GRID_CELL_SIZE_DEG;
    let cols = ((lon_max - lon_min) / GRID_CELL_SIZE_DEG).ceil() as u32;
    let rows = ((lat_max - lat_min) / GRID_CELL_SIZE_DEG).ceil() as u32;
    RasterizedProximityGrid::with_dimensions(cols, rows, lon_min.to_bits(), lat_min.to_bits())
}

fn cell_index(grid: &RasterizedProximityGrid, lat: f32, lon: f32) -> Option<usize> {
    let lon_min = f32::from_bits(grid.lon_min_bits());
    let lat_min = f32::from_bits(grid.lat_min_bits());
    let col = ((lon - lon_min) / GRID_CELL_SIZE_DEG) as i32;
    let row = ((lat - lat_min) / GRID_CELL_SIZE_DEG) as i32;
    grid.cell_index_at(col, row)
}

fn sectors(cell: &GridCell) -> [f32; 8] {
    cell.residential_sectors.map(f32::from_bits)
}

#[test]
fn test_grid_serialization() {
    let mut grid = grid_for_bounds(50.0, 50.01, 10.0, 10.01);

    let index = cell_index(&grid, 50.005, 10.005).unwrap();
    if let Some(cell) = grid.get_cell_by_index_mut(index) {
        cell.residential_sectors[0] = 50000.0f32.to_bits();
        cell.residential_sectors[2] = 30000.0f32.to_bits();
        cell.is_military_interior = true;
    }

    let bytes = grid.to_bytes();
    let restored =
        RasterizedProximityGrid::from_bytes(&bytes).expect("Deserialization should succeed");

    assert_eq!(grid.dimensions(), restored.dimensions());
    assert_eq!(grid.lon_min_bits(), restored.lon_min_bits());
    assert_eq!(grid.lat_min_bits(), restored.lat_min_bits());

    let stored_cell = &grid.cells()[index];
    let restored_cell = &restored.cells()[cell_index(&restored, 50.005, 10.005).unwrap()];
    assert_eq!(sectors(stored_cell), sectors(restored_cell));
    assert_eq!(stored_cell.is_military_interior, restored_cell.is_military_interior);
    assert_eq!(sectors(restored_cell)[0], 50000.0);
    assert!(restored_cell.is_military_interior);
}

#[test]
fn test_gridcell_new_vs_default() {
    let cell_new = GridCell::new();
    let cell_default = GridCell::default();

    assert_eq!(cell_new.residential_sectors, cell_default.residential_sectors);
    assert_eq!(cell_new.is_military_interior, cell_default.is_military_interior);

    assert_eq!(sectors(&cell_new), [0.0f32; 8]);
    assert!(!cell_new.is_military_interior);
}

#[test]
fn test_grid_serialization_buffer_too_small() {
    let result = RasterizedProximityGrid::from_bytes(&[]);
    assert!(result.is_err());

    let result = RasterizedProximityGrid::from_bytes(&[0, 0, 0]);
    assert!(result.is_err());

    let grid = grid_for_bounds(50.0, 50.01, 10.0, 10.01);
    let bytes = grid.to_bytes();

    let result = RasterizedProximityGrid::from_bytes(&bytes[..16]);
    assert!(result.is_err());
}

#[test]
fn test_grid_serialization_empty_grid() {
    let grid = grid_for_bounds(50.0, 50.001, 10.0, 10.001);

    let bytes = grid.to_bytes();
    let restored = RasterizedProximityGrid::from_bytes(&bytes).expect("Should deserialize");

    for cell in restored.cells().iter() {
        assert_eq!(sectors(cell), [0.0f32; 8]);
        assert!(!cell.is_military_interior);
    }
}

#[test]
fn grid_bytes_layout_is_little_endian() {
    let mut grid = RasterizedProximityGrid::with_dimensions(2, 1, 0x0102_0304, 0xa0b0_c0d0);
    grid.get_cell_by_index_mut(1).unwrap().residential_sectors[7] = 0x1122_3344;
    grid.get_cell_by_index_mut(1).unwrap().is_military_interior = true;
    let bytes = grid.to_bytes();
    assert_eq!(bytes.len(), 16 + 2 * 36);
    assert_eq!(&bytes[0..16], &[2, 0, 0, 0, 1, 0, 0, 0, 4, 3, 2, 1, 0xd0, 0xc0, 0xb0, 0xa0]);
    let second = &bytes[16 + 36..];
    assert_eq!(&second[28..32], &[0x44, 0x33, 0x22, 0x11]);
    assert_eq!(&second[32..36], &[1, 0, 0, 0]);
    assert_eq!(grid.count_nogo(), 1);
    assert_eq!(grid.cell_count(), 2);
}

#[test]
fn grid_from_bytes_reports_which_part_is_missing() {
    assert_eq!(
        RasterizedProximityGrid::from_bytes(&[0u8; 15]).err(),
        Some("Buffer too small for header")
    );
    let mut header = vec![1u8, 0, 0, 0, 2, 0, 0, 0, 0, 0, 0, 0, 0, 0, 0, 0];
    assert_eq!(
        RasterizedProximityGrid::from_bytes(&header).err(),
        Some("Buffer too small for cells")
    );
    header.extend_from_slice(&[0u8; 72]);
    header[16 + 36 + 32] = 7;
    let grid = RasterizedProximityGrid::from_bytes(&header).unwrap();
    assert_eq!(grid.dimensions(), (1, 2));
    assert!(!grid.cells()[0].is_military_interior);
    assert!(grid.cells()[1].is_military_interior);
    assert_eq!(grid.to_bytes()[16 + 36 + 32], 1);
}

#[test]
fn grid_out_of_range_index_gives_no_cell() {
    let mut grid = RasterizedProximityGrid::with_dimensions(3, 2, 0, 0);
    assert_eq!(grid.cell_count(), 6);
    assert!(grid.get_cell_by_index_mut(6).is_none());
    assert!(grid.get_cell_by_index_mut(5).is_some());
    assert_eq!(grid.count_nogo(), 0);
}

#[test]
fn cell_index_at_is_row_major_within_the_grid() {
    let grid = RasterizedProximityGrid::with_dimensions(3, 2, 0, 0);
    assert_eq!(grid.cell_index_at(0, 0), Some(0));
    assert_eq!(grid.cell_index_at(2, 0), Some(2));
    assert_eq!(grid.cell_index_at(0, 1), Some(3));
    assert_eq!(grid.cell_index_at(2, 1), Some(5));
    assert_eq!(grid.cell_index_at(3, 0), None);
    assert_eq!(grid.cell_index_at(0, 2), None);
    assert_eq!(grid.cell_index_at(-1, 0), None);
    assert_eq!(grid.cell_index_at(0, -1), None);
    let empty = RasterizedProximityGrid::with_dimensions(0, 0, 0, 0);
    assert_eq!(empty.cell_index_at(0, 0), None);
}
