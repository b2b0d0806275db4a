use ridi_router::gps_hash::{get_adjusted_coords, gps_hash_from_adjusted, interleave_u32_with_zeros, HashOffset};

struct InterleaveTest {
    input: u32,
    output: u64,
}

#[test]
fn interleave_works() {
    let tests = vec![
        InterleaveTest {
            input: 0b11010011001110100100010000110000,
            output: 0b101000100000101000001010100010000010000000100000000010100000000,
        },
        InterleaveTest {
            input: 0b01001001100001110000001000110010,
            output: 0b001000001000001010000000001010100000000000001000000010100000100,
        },
    ];

    for test_case in tests {
        let result = interleave_u32_with_zeros(test_case.input);
        assert_eq!(result, test_case.output);
    }
}

#[test]
fn interleave_spreads_extremes() {
    assert_eq!(interleave_u32_with_zeros(0), 0);
    assert_eq!(interleave_u32_with_zeros(u32::MAX), 0x5555_5555_5555_5555);
    assert_eq!(interleave_u32_with_zeros(1), 1);
    assert_eq!(interleave_u32_with_zeros(0b10), 0b100);
}

#[test]
fn coords_adj_offsets() {
    // truncated scaled values for lat 57.153232 and lon 24.858824
    let lat_scaled = 14715323u32;
    let lon_scaled = 20485882u32;
    assert_eq!(get_adjusted_coords(lat_scaled, lon_scaled, HashOffset::Unshifted), (29430646, 20485882));
    assert_eq!(get_adjusted_coords(lat_scaled, lon_scaled, HashOffset::Lat), (29430647, 20485882));
    assert_eq!(get_adjusted_coords(lat_scaled, lon_scaled, HashOffset::LatLon), (29430647, 20485883));
    assert_eq!(get_adjusted_coords(lat_scaled, lon_scaled, HashOffset::Lon), (29430646, 20485883));
}

#[test]
fn hash_works_from_adjusted() {
    assert_eq!(
        gps_hash_from_adjusted(29430646, 20485882),
        0b11101001010100001001000011000111100111111101101100
    );
    assert_eq!(
        gps_hash_from_adjusted(29430647, 20485883),
        0b11101001010100001001000011000111100111111101101111
    );
    assert_eq!(
        gps_hash_from_adjusted(2500200, 11050000),
        0b010011000110100001001001011110000010100110000000
    );
    assert_eq!(
        gps_hash_from_adjusted(2500200, 11050001),
        0b010011000110100001001001011110000010100110000001
    );
}

/// Scaled coordinates as the application computes them from degrees.
fn scaled(lat: f32, lon: f32) -> (u32, u32) {
    (((lat + 90.0) * 100000.0).trunc() as u32, ((lon + 180.0) * 100000.0).trunc() as u32)
}

fn coords_hash(lat: f32, lon: f32, offset: HashOffset) -> u64 {
    let (lat_scaled, lon_scaled) = scaled(lat, lon);
    let (lat_adj, lon_adj) = get_adjusted_coords(lat_scaled, lon_scaled, offset);
    gps_hash_from_adjusted(lat_adj, lon_adj)
}

#[test]
fn coords_adj_works() {
    let tests = vec![
        (57.153232, 24.858824, HashOffset::Unshifted, 29430646, 20485882),
        (57.153232, 24.858824, HashOffset::Lat, 29430647, 20485882),
        (57.153232, 24.858824, HashOffset::LatLon, 29430647, 20485883),
        (57.153232, 24.858824, HashOffset::Lon, 29430646, 20485883),
        (-77.499, -69.500, HashOffset::Unshifted, 2500200, 11050000),
        (-77.499, -69.500, HashOffset::Lat, 2500201, 11050000),
        (-77.499, -69.500, HashOffset::LatLon, 2500201, 11050001),
        (-77.499, -69.500, HashOffset::Lon, 2500200, 11050001),
    ];

    for (input_lat, input_lon, offset, output_lat, output_lon) in tests {
        let (lat_scaled, lon_scaled) = scaled(input_lat, input_lon);
        let (lat_adj, lon_adj) = get_adjusted_coords(lat_scaled, lon_scaled, offset);
        assert_eq!(lat_adj, output_lat);
        assert_eq!(lon_adj, output_lon);
    }
}

#[test]
fn hash_works() {
    let tests: Vec<(f32, f32, HashOffset, u64)> = vec![
        (57.153232, 24.858824, HashOffset::Unshifted, 0b11101001010100001001000011000111100111111101101100),
        (57.153232, 24.858824, HashOffset::Lat, 0b11101001010100001001000011000111100111111101101110),
        (57.153232, 24.858824, HashOffset::LatLon, 0b11101001010100001001000011000111100111111101101111),
        (57.153232, 24.858824, HashOffset::Lon, 0b11101001010100001001000011000111100111111101101101),
        (-77.499, -69.500, HashOffset::Unshifted, 0b010011000110100001001001011110000010100110000000),
        (-77.499, -69.500, HashOffset::Lat, 0b010011000110100001001001011110000010100110000010),
        (-77.499, -69.500, HashOffset::LatLon, 0b010011000110100001001001011110000010100110000011),
        (-77.499, -69.500, HashOffset::Lon, 0b010011000110100001001001011110000010100110000001),
    ];

    for (lat, lon, offset, output) in tests {
        assert_eq!(coords_hash(lat, lon, offset), output);
    }
}
