use ridi_router::gps_coords_hash_map::{nearest_candidate, GpsCoordsHashMap, GpsCoordsHashMapPoint};
use ridi_router::gps_hash::{get_adjusted_coords, gps_hash_from_adjusted, HashOffset};

fn point(id: i64, lat: f64, lon: f64) -> GpsCoordsHashMapPoint {
    GpsCoordsHashMapPoint { id, lat_bits: lat.to_bits(), lon_bits: lon.to_bits() }
}

fn hash(lat: f64, lon: f64, offset: HashOffset) -> u64 {
    let lat_scaled = ((lat as f32 + 90.0) * 100000.0).trunc() as u32;
    let lon_scaled = ((lon as f32 + 180.0) * 100000.0).trunc() as u32;
    let (lat_adj, lon_adj) = get_adjusted_coords(lat_scaled, lon_scaled, offset);
    gps_hash_from_adjusted(lat_adj, lon_adj)
}

fn hashes(lat: f64, lon: f64) -> [u64; 4] {
    [
        hash(lat, lon, HashOffset::Unshifted),
        hash(lat, lon, HashOffset::Lat),
        hash(lat, lon, HashOffset::Lon),
        hash(lat, lon, HashOffset::LatLon),
    ]
}

#[test]
fn empty_map_has_no_candidates() {
    let map = GpsCoordsHashMap::new();
    assert!(map.get_grid_candidates(0).is_none());
    assert!(map.get_grid_candidates(u64::MAX).is_none());
}

#[test]
fn exact_hash_gives_the_point_once() {
    let mut map = GpsCoordsHashMap::new();
    map.insert(point(7, 1.0, 2.0), [100, 200, 300, 400]);
    let found = map.get_grid_candidates(200).unwrap();
    assert_eq!(found, vec![point(7, 1.0, 2.0)]);
}

#[test]
fn block_widens_until_it_holds_a_point() {
    let mut map = GpsCoordsHashMap::new();
    // Around 0b1100, level 1 spans 0b1100..=0b1111 and holds nothing; level 2
    // spans 0b0000..=0b1111 and holds the first two points.
    map.insert(point(1, 0.0, 0.0), [0b1000, 0b1000, 0b1000, 0b1000]);
    map.insert(point(2, 0.0, 0.0), [0b1011, 0b1011, 0b1011, 0b1011]);
    map.insert(point(3, 0.0, 0.0), [0b1_0000, 0b1_0000, 0b1_0000, 0b1_0000]);
    let found = map.get_grid_candidates(0b1100).unwrap();
    let ids: Vec<i64> = found.iter().map(|p| p.id).collect();
    assert_eq!(ids, vec![1, 2]);
    let found = map.get_grid_candidates(0b1001).unwrap();
    let ids: Vec<i64> = found.iter().map(|p| p.id).collect();
    assert_eq!(ids, vec![1, 2]);
    let found = map.get_grid_candidates(0b1_0001).unwrap();
    let ids: Vec<i64> = found.iter().map(|p| p.id).collect();
    assert_eq!(ids, vec![3]);
}

#[test]
fn candidates_come_in_hash_order() {
    let mut map = GpsCoordsHashMap::new();
    map.insert(point(1, 0.0, 0.0), [19, 19, 19, 19]);
    map.insert(point(2, 0.0, 0.0), [17, 17, 17, 17]);
    map.insert(point(3, 0.0, 0.0), [18, 18, 18, 18]);
    let ids: Vec<i64> = map.get_grid_candidates(16).unwrap().iter().map(|p| p.id).collect();
    assert_eq!(ids, vec![2, 3, 1]);
}

#[test]
fn later_point_replaces_one_with_the_same_hash() {
    let mut map = GpsCoordsHashMap::new();
    map.insert(point(1, 0.0, 0.0), [5, 5, 5, 5]);
    map.insert(point(2, 0.0, 0.0), [5, 5, 5, 5]);
    assert_eq!(map.get_grid_candidates(5).unwrap(), vec![point(2, 0.0, 0.0)]);
}

#[test]
fn other_quarter_below_the_search_hash_is_not_searched() {
    let mut map = GpsCoordsHashMap::new();
    map.insert(point(1, 0.0, 0.0), [0, 0, 0, 0]);
    assert!(map.get_grid_candidates(0xC000_0000_0000_0000).is_none());
    assert_eq!(map.get_grid_candidates(0x3FFF_FFFF_FFFF_FFFF).unwrap().len(), 1);
}

#[test]
fn last_block_takes_the_hashes_from_the_search_hash_up() {
    let mut map = GpsCoordsHashMap::new();
    map.insert(point(1, 1.0, 1.0), [0xC000_0000_0000_0001; 4]);
    map.insert(point(2, 2.0, 2.0), [0x8000_0000_0000_0000; 4]);
    map.insert(point(3, 3.0, 3.0), [0x4000_0000_0000_0000; 4]);
    // nothing shares the top two bits of 0x1000..., so the search ends with
    // every point at or above it, in hash order
    let ids: Vec<i64> = map.get_grid_candidates(0x1000_0000_0000_0000).unwrap().iter().map(|p| p.id).collect();
    assert_eq!(ids, vec![3, 2, 1]);
    let ids: Vec<i64> = map.get_grid_candidates(0x0000_0000_0000_0005).unwrap().iter().map(|p| p.id).collect();
    assert_eq!(ids, vec![3, 2, 1]);
    // the block of level 31 around 0x9000... holds point 2 alone
    let ids: Vec<i64> = map.get_grid_candidates(0x9000_0000_0000_0000).unwrap().iter().map(|p| p.id).collect();
    assert_eq!(ids, vec![2]);
}

#[test]
fn single_point_is_found_near_it() {
    let mut map = GpsCoordsHashMap::new();
    map.insert(point(1, 57.1640, 24.8652), hashes(57.1640, 24.8652));
    let found = map.get_grid_candidates(hash(57.1670, 24.8658, HashOffset::Unshifted)).unwrap();
    assert!(!found.is_empty());
    assert!(found.iter().all(|p| p.id == 1));
}

#[test]
fn nearest_candidate_takes_the_first_of_the_nearest() {
    let p = |id: i64| GpsCoordsHashMapPoint { id, lat_bits: 0, lon_bits: 0 };
    assert_eq!(nearest_candidate(&vec![]), None);
    assert_eq!(nearest_candidate(&vec![(7, p(1))]), Some(p(1)));
    assert_eq!(nearest_candidate(&vec![(7, p(1)), (3, p(2)), (5, p(3)), (3, p(4))]), Some(p(2)));
    assert_eq!(nearest_candidate(&vec![(0, p(9)), (0, p(8))]), Some(p(9)));
}
