use ridi_router::osm_data::pbf_area_reader::{get_line_strings_from_boundary, try_get_line_strings_from_boundary};

type Point = (f64, f64);

fn same(a: &Point, b: &Point) -> bool {
    a == b
}

#[test]
fn boundary_ways_join_with_repeated_junction_points() {
    let lines = get_line_strings_from_boundary(
        vec![
            vec![(0.0, 1.0), (1.0, 1.0)],
            vec![(1.0, 0.0), (1.0, 1.0)],
            vec![(1.0, 0.0), (0.0, 0.0)],
            vec![(0.0, 0.0), (0.0, 1.0)],
        ],
        same,
    );
    assert_eq!(
        lines,
        vec![vec![(0.0, 0.0), (0.0, 1.0), (0.0, 1.0), (1.0, 1.0), (1.0, 1.0), (1.0, 0.0), (1.0, 0.0), (0.0, 0.0)]]
    );
}

#[test]
fn open_boundary_is_dropped() {
    let lines = get_line_strings_from_boundary(
        vec![vec![(0.0, 0.0), (1.0, 0.0)], vec![(1.0, 0.0), (1.0, 1.0)]],
        same,
    );
    assert!(lines.is_empty());
}

#[test]
fn separate_boundaries_each_close() {
    let a = vec![(0.0, 0.0), (1.0, 0.0), (1.0, 1.0), (0.0, 0.0)];
    let b = vec![(5.0, 5.0), (6.0, 5.0), (5.0, 5.0)];
    let lines = get_line_strings_from_boundary(vec![a.clone(), b.clone()], same);
    assert_eq!(lines, vec![b, a]);
}

#[test]
fn empty_ways_are_skipped() {
    let a = vec![(0.0, 0.0), (1.0, 0.0), (0.0, 0.0)];
    let lines = get_line_strings_from_boundary(vec![a.clone(), vec![]], same);
    assert_eq!(lines, vec![a]);
    assert!(get_line_strings_from_boundary(Vec::<Vec<Point>>::new(), same).is_empty());
}

#[test]
fn one_point_ways_join_where_a_way_continues_them() {
    assert!(get_line_strings_from_boundary(vec![vec![(3.0, 3.0)]], same).is_empty());
    let a = vec![(0.0, 0.0), (1.0, 0.0), (0.0, 0.0)];
    let lines = get_line_strings_from_boundary(vec![a, vec![(0.0, 0.0)]], same);
    assert_eq!(lines, vec![vec![(0.0, 0.0), (0.0, 0.0), (1.0, 0.0), (0.0, 0.0)]]);
}

#[test]
fn joining_that_would_never_end_is_refused() {
    // the last way is a single point, and no other way starts or ends there
    assert_eq!(try_get_line_strings_from_boundary(vec![vec![(5.0, 5.0), (6.0, 6.0)], vec![(1.0, 1.0)]], same), None);
    let a = vec![(0.0, 0.0), (1.0, 0.0), (0.0, 0.0)];
    assert_eq!(try_get_line_strings_from_boundary(vec![a.clone()], same), Some(vec![a]));
}
