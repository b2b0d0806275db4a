use ridi_router::osm_data::in_memory_pbf::{connect_ways_into_rings, is_closed_ring};

type Coord = (f64, f64);

fn coords_match(a: &Coord, b: &Coord) -> bool {
    (a.0 - b.0).abs() < 1e-9 && (a.1 - b.1).abs() < 1e-9
}

fn ls(coords: &[(f64, f64)]) -> Vec<Coord> {
    coords.to_vec()
}

#[test]
fn connect_ways_discards_incomplete_chains() {
    let rings = connect_ways_into_rings(
        vec![ls(&[(0.0, 0.0), (1.0, 0.0)]), ls(&[(1.0, 0.0), (1.0, 1.0)]), ls(&[(1.0, 1.0), (0.0, 1.0)])],
        coords_match,
    );

    assert!(rings.is_empty());
}

#[test]
fn connect_ways_handles_prepend_reversed_case() {
    let rings = connect_ways_into_rings(
        vec![
            ls(&[(1.0, 0.0), (1.0, 1.0)]),
            ls(&[(1.0, 0.0), (0.0, 0.0)]),
            ls(&[(0.0, 1.0), (0.0, 0.0)]),
            ls(&[(1.0, 1.0), (0.0, 1.0)]),
        ],
        coords_match,
    );

    assert_eq!(rings.len(), 1);
    let ring = &rings[0];
    assert_eq!(ring.first(), ring.last());
    assert!(ring.iter().any(|coord| coords_match(coord, &(0.0, 0.0))));
    assert!(ring.iter().any(|coord| coords_match(coord, &(1.0, 0.0))));
    assert!(ring.iter().any(|coord| coords_match(coord, &(1.0, 1.0))));
    assert!(ring.iter().any(|coord| coords_match(coord, &(0.0, 1.0))));
}

#[test]
fn ring_follows_the_chaining_order() {
    // start (0,0)->(1,0); (1,1)->(1,0) is appended backwards; (0,1)->(1,1)
    // likewise; (0,1)->(0,0) is appended forwards and closes the ring.
    let rings = connect_ways_into_rings(
        vec![
            ls(&[(0.0, 0.0), (1.0, 0.0)]),
            ls(&[(1.0, 1.0), (1.0, 0.0)]),
            ls(&[(0.0, 1.0), (1.0, 1.0)]),
            ls(&[(0.0, 1.0), (0.0, 0.0)]),
        ],
        coords_match,
    );
    assert_eq!(rings, vec![vec![(0.0, 0.0), (1.0, 0.0), (1.0, 1.0), (0.0, 1.0), (0.0, 0.0)]]);
}

#[test]
fn prepending_keeps_the_chain_start() {
    // the second way ends where the chain starts and is put in front of it,
    // without its last point; the third closes the ring at the chain's end
    let rings = connect_ways_into_rings(
        vec![ls(&[(1.0, 0.0), (1.0, 1.0)]), ls(&[(0.0, 0.0), (1.0, 0.0)]), ls(&[(1.0, 1.0), (0.0, 0.0)])],
        coords_match,
    );
    assert_eq!(rings, vec![vec![(0.0, 0.0), (1.0, 0.0), (1.0, 1.0), (0.0, 0.0)]]);
}

#[test]
fn closed_way_stays_a_ring_and_short_ways_are_skipped() {
    let square = ls(&[(0.0, 0.0), (2.0, 0.0), (2.0, 2.0), (0.0, 0.0)]);
    let rings = connect_ways_into_rings(vec![ls(&[(5.0, 5.0)]), square.clone(), ls(&[])], coords_match);
    assert_eq!(rings, vec![square]);
}

#[test]
fn tolerance_decides_what_meets() {
    let rings = connect_ways_into_rings(
        vec![ls(&[(0.0, 0.0), (1.0, 0.0), (1.0, 1.0)]), ls(&[(1.0, 1.0), (0.0, 1.0), (0.0, 1e-12)])],
        coords_match,
    );
    assert_eq!(rings.len(), 1);
    assert_eq!(rings[0].len(), 5);
    assert_eq!(rings[0][4], (0.0, 1e-12));
}

#[test]
fn is_closed_ring_needs_four_points() {
    assert!(!is_closed_ring(&ls(&[(0.0, 0.0), (1.0, 0.0), (0.0, 0.0)]), &coords_match));
    assert!(is_closed_ring(&ls(&[(0.0, 0.0), (1.0, 0.0), (1.0, 1.0), (0.0, 0.0)]), &coords_match));
    assert!(!is_closed_ring(&ls(&[(0.0, 0.0), (1.0, 0.0), (1.0, 1.0), (0.0, 1.0)]), &coords_match));
}
