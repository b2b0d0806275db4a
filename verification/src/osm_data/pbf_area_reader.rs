//! Joining the point lists of a boundary's member ways into closed lines.
//!
//! The last way starts a line; the first remaining way that ends or starts
//! where the line ends is appended whole (reversed when it does not start
//! there), so the shared point appears twice; when no way continues the
//! line, the line is kept if it closes and a new line starts from the last
//! remaining way. Whether two points are the same is the caller's `same`.

use vstd::prelude::*;
use crate::osm_data::in_memory_pbf::{append_backward, append_forward, match_function, meets, views};

verus! {

/// Whether the points form a closed line: more than one point, and `same`
/// says that the first and the last are the same point.
pub open spec fn closed_line<P, F: Fn(&P, &P) -> bool>(s: Seq<P>, same: F) -> bool {
    s.len() > 1 && meets(same, s[0], s.last())
}

/// The position of the first way, from position `i` on, that has a point and
/// ends or starts at `last`.
pub open spec fn continuing_way<P, F: Fn(&P, &P) -> bool>(ways: Seq<Seq<P>>, last: P, same: F, i: int) -> Option<int>
    decreases ways.len() - i,
{
    if i < 0 || i >= ways.len() {
        None
    } else if ways[i].len() > 0 && (meets(same, ways[i].last(), last) || meets(same, ways[i][0], last)) {
        Some(i)
    } else {
        continuing_way(ways, last, same, i + 1)
    }
}

/// A way that `continuing_way` finds is one of the ways, from position `i` on.
pub proof fn lemma_continuing_way_in_range<P, F: Fn(&P, &P) -> bool>(ways: Seq<Seq<P>>, last: P, same: F, i: int)
    ensures
        continuing_way(ways, last, same, i) matches Some(k) ==> i <= k < ways.len() && ways[k].len() > 0,
    decreases ways.len() - i,
{
    if 0 <= i < ways.len() {
        lemma_continuing_way_in_range(ways, last, same, i + 1);
    }
}

/// The line after way `w` continued it at its last point: `w` appended whole,
/// forwards when it starts there, else reversed.
pub open spec fn continued<P, F: Fn(&P, &P) -> bool>(cur: Seq<P>, w: Seq<P>, same: F) -> Seq<P> {
    if meets(same, w[0], cur.last()) {
        cur + w
    } else {
        cur + w.reverse()
    }
}

/// The closed lines that joining gives, from the remaining ways and the line
/// being built: with no line, the last way starts one; the first way that
/// continues the line (see `continuing_way`) is taken out and joined (see
/// `continued`); a line of more than one point that no way continues is kept
/// when it closes, and dropped otherwise. `None` where the joining never ends:
/// a line of a single point that no remaining way continues.
pub open spec fn boundary_lines<P, F: Fn(&P, &P) -> bool>(ways: Seq<Seq<P>>, cur: Seq<P>, same: F) -> Option<Seq<Seq<P>>>
    decreases 2 * ways.len() + if cur.len() > 0 { 1int } else { 0int },
{
    if ways.len() == 0 {
        Some(if closed_line(cur, same) { seq![cur] } else { Seq::empty() })
    } else if cur.len() == 0 {
        boundary_lines(ways.drop_last(), ways.last(), same)
    } else {
        proof {
            lemma_continuing_way_in_range(ways, cur.last(), same, 0);
        }
        match continuing_way(ways, cur.last(), same, 0) {
            Some(k) => boundary_lines(ways.remove(k), continued(cur, ways[k], same), same),
            None => if cur.len() > 1 {
                match boundary_lines(ways, Seq::empty(), same) {
                    Some(rest) => Some(if closed_line(cur, same) { seq![cur] + rest } else { rest }),
                    None => None,
                }
            } else {
                None
            },
        }
    }
}

/// Every line that joining gives is closed.
pub proof fn lemma_boundary_lines_closed<P, F: Fn(&P, &P) -> bool>(ways: Seq<Seq<P>>, cur: Seq<P>, same: F)
    ensures
        boundary_lines(ways, cur, same) matches Some(lines) ==> forall|r: int| 0 <= r < lines.len() ==> closed_line(#[trigger] lines[r], same),
    decreases 2 * ways.len() + if cur.len() > 0 { 1int } else { 0int },
{
    if ways.len() == 0 {
    } else if cur.len() == 0 {
        lemma_boundary_lines_closed(ways.drop_last(), ways.last(), same);
    } else {
        lemma_continuing_way_in_range(ways, cur.last(), same, 0);
        match continuing_way(ways, cur.last(), same, 0) {
            Some(k) => lemma_boundary_lines_closed(ways.remove(k), continued(cur, ways[k], same), same),
            None => if cur.len() > 1 {
                lemma_boundary_lines_closed(ways, Seq::empty(), same);
                if let Some(rest) = boundary_lines(ways, Seq::empty(), same) {
                    if closed_line(cur, same) {
                        let lines = seq![cur] + rest;
                        assert forall|r: int| 0 <= r < lines.len() implies closed_line(#[trigger] lines[r], same) by {
                            if r > 0 {
                                assert(lines[r] == rest[r - 1]);
                            }
                        }
                    }
                }
            },
        }
    }
}

/// Joins the point lists of a boundary's member ways into closed lines (see
/// `boundary_lines`), or gives `None` where that joining would never end (a
/// line of a single point that no remaining way continues). `same` must
/// answer the same for the same points.
pub fn try_get_line_strings_from_boundary<P: Copy, F: Fn(&P, &P) -> bool>(ways_with_points: Vec<Vec<P>>, same: F) -> (r: Option<Vec<Vec<P>>>)
    requires
        match_function(same),
    ensures
        r is None <==> boundary_lines(views(ways_with_points@), Seq::empty(), same) is None,
        r matches Some(boundaries) ==> Some(views(boundaries@)) == boundary_lines(views(ways_with_points@), Seq::empty(), same),
        r matches Some(boundaries) ==> forall|k: int| 0 <= k < boundaries@.len() ==> closed_line(#[trigger] boundaries@[k]@, same),
{
    let ghost target = boundary_lines(views(ways_with_points@), Seq::empty(), same);
    let mut ways = ways_with_points;
    let mut boundaries: Vec<Vec<P>> = Vec::new();
    let mut current: Vec<P> = Vec::new();
    proof {
        if let Some(lines) = target {
            assert(views(boundaries@) + lines =~= lines);
        }
    }
    while ways.len() > 0
        invariant
            match_function(same),
            target == boundary_lines(views(ways_with_points@), Seq::empty(), same),
            target == match boundary_lines(views(ways@), current@, same) {
                Some(rest) => Some(views(boundaries@) + rest),
                None => None,
            },
        decreases 2 * ways@.len() + if current@.len() > 0 { 1int } else { 0int },
    {
        let ghost ways_before = views(ways@);
        let ghost cur_before = current@;
        if current.len() == 0 {
            let way = ways.pop().unwrap();
            assert(views(ways@) =~= ways_before.drop_last());
            append_forward(&mut current, &way, 0);
            assert(way@.subrange(0, way@.len() as int) =~= way@);
            assert(current@ =~= ways_before.last());
        } else {
            let last_point = current[current.len() - 1];
            let mut found: Option<usize> = None;
            let mut i: usize = 0;
            while i < ways.len() && found.is_none()
                invariant
                    match_function(same),
                    i <= ways@.len(),
                    ways_before == views(ways@),
                    last_point == cur_before.last(),
                    found is None ==> continuing_way(ways_before, last_point, same, 0) == continuing_way(ways_before, last_point, same, i as int),
                    found matches Some(k) ==> continuing_way(ways_before, last_point, same, 0) == Some(k as int),
                decreases ways@.len() - i + if found is None { 1int } else { 0int },
            {
                let len = ways[i].len();
                if len > 0 {
                    let way_end = ways[i][len - 1];
                    let way_start = ways[i][0];
                    assert(ways_before[i as int] == ways@[i as int]@);
                    if same(&way_end, &last_point) || same(&way_start, &last_point) {
                        found = Some(i);
                    } else {
                        i = i + 1;
                    }
                } else {
                    assert(ways_before[i as int] == ways@[i as int]@);
                    i = i + 1;
                }
            }
            proof {
                lemma_continuing_way_in_range(ways_before, last_point, same, 0);
            }
            match found {
                Some(idx) => {
                    let way = ways.remove(idx);
                    assert(way@ == ways_before[idx as int]);
                    assert(views(ways@) =~= ways_before.remove(idx as int));
                    let way_len = way.len();
                    let way_start = way[0];
                    if same(&way_start, &last_point) {
                        append_forward(&mut current, &way, 0);
                        assert(way@.subrange(0, way_len as int) =~= way@);
                    } else {
                        append_backward(&mut current, &way, 0, way_len);
                        assert(way@.subrange(0, way_len as int) =~= way@);
                    }
                    assert(current@ == continued(cur_before, way@, same));
                },
                None => {
                    if current.len() > 1 {
                        let first_point = current[0];
                        let ghost rest = boundary_lines(ways_before, Seq::empty(), same);
                        let ghost before = views(boundaries@);
                        if same(&first_point, &last_point) {
                            boundaries.push(current);
                            assert(views(boundaries@) =~= before.push(cur_before));
                            proof {
                                if let Some(rl) = rest {
                                    assert(views(boundaries@) + rl =~= before + (seq![cur_before] + rl));
                                }
                            }
                        }
                        current = Vec::new();
                    } else {
                        proof {
                            assert(continuing_way(ways_before, last_point, same, i as int) is None);
                            assert(ways_before.len() > 0);
                            assert(cur_before.len() == 1);
                            assert(boundary_lines(ways_before, cur_before, same) is None);
                            assert(views(ways@) == ways_before);
                            assert(current@ == cur_before);
                        }
                        return None;
                    }
                },
            }
        }
    }
    if current.len() > 1 {
        let first_point = current[0];
        let last_point = current[current.len() - 1];
        let ghost before = views(boundaries@);
        if same(&first_point, &last_point) {
            let ghost cur = current@;
            boundaries.push(current);
            assert(views(boundaries@) =~= before + seq![cur]);
        } else {
            assert(views(boundaries@) =~= before + Seq::<Seq<P>>::empty());
        }
    } else {
        assert(views(boundaries@) =~= views(boundaries@) + Seq::<Seq<P>>::empty());
    }
    proof {
        lemma_boundary_lines_closed(views(ways_with_points@), Seq::empty(), same);
        assert forall|k: int| 0 <= k < boundaries@.len() implies closed_line(#[trigger] boundaries@[k]@, same) by {
            assert(views(boundaries@)[k] == boundaries@[k]@);
        }
    }
    Some(boundaries)
}


/// Joins the point lists of a boundary's member ways into closed lines (see
/// `boundary_lines`). `same` must answer the same for the same points; the
/// ways must not leave a one-point line that no way continues, on which the
/// joining would never end.
pub fn get_line_strings_from_boundary<P: Copy, F: Fn(&P, &P) -> bool>(ways_with_points: Vec<Vec<P>>, same: F) -> (boundaries: Vec<Vec<P>>)
    requires
        match_function(same),
        boundary_lines(views(ways_with_points@), Seq::empty(), same) is Some,
    ensures
        Some(views(boundaries@)) == boundary_lines(views(ways_with_points@), Seq::empty(), same),
        forall|r: int| 0 <= r < boundaries@.len() ==> closed_line(#[trigger] boundaries@[r]@, same),
{
    match try_get_line_strings_from_boundary(ways_with_points, same) {
        Some(boundaries) => boundaries,
        None => Vec::new(),
    }
}

} // verus!
