//! Spatial hashing of GPS coordinates by bit interleaving (a Z-order curve).

use vstd::prelude::*;

verus! {

/// Whether bit `i` of `x` is set.
pub open spec fn bit_of(x: u64, i: u64) -> bool {
    (x >> i) & 1u64 == 1u64
}

/// Which neighbouring hash cell a coordinate is shifted into before hashing.
pub enum HashOffset {
    Unshifted,
    Lat,
    LatLon,
    Lon,
}

/// Spreads the 32 bits of `input` over the even bit positions of a `u64`:
/// bit `i` of the input lands on bit `2 * i` of the output, all odd bits are clear.
pub fn interleave_u32_with_zeros(input: u32) -> (output: u64)
    ensures
        forall|i: u64| i < 32 ==> (#[trigger] bit_of(input as u64, i)) == bit_of(output, (2 * i) as u64),
        forall|j: u64| j < 64 && j % 2 == 1 ==> !#[trigger] bit_of(output, j),
{
    let x0: u64 = input as u64;
    let x1: u64 = (x0 ^ (x0 << 16u64)) & 0x0000ffff0000ffffu64;
    let x2: u64 = (x1 ^ (x1 << 8u64)) & 0x00ff00ff00ff00ffu64;
    let x3: u64 = (x2 ^ (x2 << 4u64)) & 0x0f0f0f0f0f0f0f0fu64;
    let x4: u64 = (x3 ^ (x3 << 2u64)) & 0x3333333333333333u64;
    let x5: u64 = (x4 ^ (x4 << 1u64)) & 0x5555555555555555u64;
    assert(forall|i: u64| i < 32 ==> ((x0 >> i) & 1u64 == 1u64) == ((x5 >> (2 * i)) & 1u64 == 1u64))
        by (bit_vector)
        requires
            x0 < 0x1_0000_0000u64,
            x1 == (x0 ^ (x0 << 16u64)) & 0x0000ffff0000ffffu64,
            x2 == (x1 ^ (x1 << 8u64)) & 0x00ff00ff00ff00ffu64,
            x3 == (x2 ^ (x2 << 4u64)) & 0x0f0f0f0f0f0f0f0fu64,
            x4 == (x3 ^ (x3 << 2u64)) & 0x3333333333333333u64,
            x5 == (x4 ^ (x4 << 1u64)) & 0x5555555555555555u64,
    ;
    assert(forall|j: u64| j < 64 && j % 2 == 1 ==> (x5 >> j) & 1u64 != 1u64) by (bit_vector)
        requires
            x5 == (x4 ^ (x4 << 1u64)) & 0x5555555555555555u64,
    ;
    x5
}


/// Whether an offset moves the latitude component into the next cell.
pub open spec fn shifts_lat(offset: HashOffset) -> bool {
    offset is Lat || offset is LatLon
}

/// Whether an offset moves the longitude component into the next cell.
pub open spec fn shifts_lon(offset: HashOffset) -> bool {
    offset is Lon || offset is LatLon
}

/// Integer hash coordinates from the truncated, scaled coordinates
/// (`trunc((lat + 90) * 1e5)` and `trunc((lon + 180) * 1e5)`): the latitude is doubled,
/// and each component is moved by one where the offset asks for it.
pub fn get_adjusted_coords(lat_scaled: u32, lon_scaled: u32, offset: HashOffset) -> (res: (u32, u32))
    requires
        2 * lat_scaled + 1 <= u32::MAX,
        shifts_lon(offset) ==> lon_scaled < u32::MAX,
    ensures
        res.0 == 2 * lat_scaled + (if shifts_lat(offset) { 1int } else { 0int }),
        res.1 == lon_scaled + (if shifts_lon(offset) { 1int } else { 0int }),
{
    let lat_adj: u32 = lat_scaled * 2;
    let lon_adj: u32 = lon_scaled;
    match offset {
        HashOffset::Unshifted => (lat_adj, lon_adj),
        HashOffset::Lat => (lat_adj + 1, lon_adj),
        HashOffset::LatLon => (lat_adj + 1, lon_adj + 1),
        HashOffset::Lon => (lat_adj, lon_adj + 1),
    }
}

/// Z-order hash of adjusted coordinates: bit `2 * i + 1` is bit `i` of the latitude,
/// bit `2 * i` is bit `i` of the longitude.
pub fn gps_hash_from_adjusted(lat_adj: u32, lon_adj: u32) -> (hash: u64)
    ensures
        forall|i: u64|
            i < 32 ==> (#[trigger] bit_of(lat_adj as u64, i)) == bit_of(hash, (2 * i + 1) as u64),
        forall|i: u64|
            i < 32 ==> (#[trigger] bit_of(lon_adj as u64, i)) == bit_of(hash, (2 * i) as u64),
{
    let a = interleave_u32_with_zeros(lat_adj);
    let b = interleave_u32_with_zeros(lon_adj);
    let hash: u64 = (a << 1u64) | b;
    assert forall|i: u64| i < 32 implies (#[trigger] bit_of(lat_adj as u64, i)) == bit_of(
        hash,
        (2 * i + 1) as u64,
    ) by {
        assert(bit_of(b, (2 * i + 1) as u64) == false);
        assert(bit_of(lat_adj as u64, i) == bit_of(a, (2 * i) as u64));
        assert(((hash >> (2 * i + 1) as u64) & 1u64 == 1u64) == (((a >> (2 * i) as u64) & 1u64
            == 1u64) || ((b >> (2 * i + 1) as u64) & 1u64 == 1u64))) by (bit_vector)
            requires
                hash == (a << 1u64) | b,
                i < 32,
        ;
    }
    assert forall|i: u64| i < 32 implies (#[trigger] bit_of(lon_adj as u64, i)) == bit_of(
        hash,
        (2 * i) as u64,
    ) by {
        assert(bit_of(lon_adj as u64, i) == bit_of(b, (2 * i) as u64));
        if i > 0 {
            assert(bit_of(a, (2 * i - 1) as u64) == false);
            assert(((hash >> (2 * i) as u64) & 1u64 == 1u64) == (((a >> (2 * i - 1) as u64) & 1u64
                == 1u64) || ((b >> (2 * i) as u64) & 1u64 == 1u64))) by (bit_vector)
                requires
                    hash == (a << 1u64) | b,
                    0 < i < 32,
            ;
        } else {
            assert(((hash >> 0u64) & 1u64 == 1u64) == ((b >> 0u64) & 1u64 == 1u64)) by (bit_vector)
                requires
                    hash == (a << 1u64) | b,
            ;
        }
    }
    hash
}

} // verus!
