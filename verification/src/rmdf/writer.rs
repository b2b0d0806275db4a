//! The layout of a tile's sections, computed from its generation graph.
//!
//! Only points that some line touches are stored. They are ordered by the
//! spatial grid cell that holds them, then by OSM id (points with the same id
//! in one cell keep their order in the graph). Each point refers to a slice of
//! the line-reference section (the lines that touch it) and to a slice of the
//! rule section (the turn restrictions at it); each rule refers to two slices
//! of the rule payload (its from lines and its to lines). The spatial index
//! has one entry per run of points in the same cell.
//!
//! Coordinates stay the bit patterns that the graph holds; the grid cell of
//! each point is given, computed from its coordinates by the caller.

use std::collections::HashMap;
use vstd::prelude::*;
use vstd::string::*;
use vstd::utf8::encode_utf8;
use crate::generation::{GenerationLine, GenerationPoint};
use crate::generation::tags::TagSet;
use crate::rmdf::{TagSetRecord, direction_code, direction_code_spec, rule_type_code_spec, serialize_rule_type};
use crate::generation::graph::{GenerationGraph, rules_at};
use crate::generation::restriction::GenerationRestrictionRule;

verus! {

broadcast use vstd::std_specs::hash::group_hash_axioms;

/// The indices of the lines that touch point `id`, in line order (a line from
/// and to the same point is listed twice).
pub open spec fn point_lines(lines: Seq<GenerationLine>, id: u64) -> Seq<usize>
    decreases lines.len(),
{
    if lines.len() == 0 {
        seq![]
    } else {
        let i = (lines.len() - 1) as usize;
        let l = lines.last();
        point_lines(lines.drop_last(), id) + (if l.from_node_id == id {
            seq![i]
        } else {
            seq![]
        }) + (if l.to_node_id == id {
            seq![i]
        } else {
            seq![]
        })
    }
}

/// Appends `i` to the list of `key`.
fn append_line(map: &mut HashMap<u64, Vec<usize>>, key: u64, i: usize)
    ensures
        final(map)@.dom() == old(map)@.dom().insert(key),
        forall|k: u64| k != key && #[trigger] old(map)@.contains_key(k) ==> final(map)@[k] == old(map)@[k],
        final(map)@[key]@ == (if old(map)@.contains_key(key) {
            old(map)@[key]@
        } else {
            Seq::<usize>::empty()
        }).push(i),
{
    let mut list = match map.remove(&key) {
        Some(l) => l,
        None => Vec::new(),
    };
    list.push(i);
    map.insert(key, list);
    assert(map@.dom() =~= old(map)@.dom().insert(key));
}

/// For every point that a line touches, the lines that touch it.
pub fn build_point_lines_map(graph: &GenerationGraph) -> (map: HashMap<u64, Vec<usize>>)
    ensures
        forall|id: u64| #[trigger] map@.contains_key(id) <==> point_lines(graph.lines@, id).len() > 0,
        forall|id: u64| #[trigger] map@.contains_key(id) ==> map@[id]@ == point_lines(graph.lines@, id),
{
    let lines = &graph.lines;
    let mut map: HashMap<u64, Vec<usize>> = HashMap::new();
    let mut i: usize = 0;
    while i < lines.len()
        invariant
            i <= lines.len(),
            forall|id: u64| #[trigger] map@.contains_key(id) <==> point_lines(lines@.take(i as int), id).len() > 0,
            forall|id: u64| #[trigger] map@.contains_key(id) ==> map@[id]@ == point_lines(lines@.take(i as int), id),
        decreases lines.len() - i,
    {
        let line = lines[i];
        let ghost before = map@;
        append_line(&mut map, line.from_node_id, i);
        let ghost mid = map@;
        append_line(&mut map, line.to_node_id, i);
        proof {
            let t = lines@.take(i + 1);
            assert(t.drop_last() =~= lines@.take(i as int));
            assert(t.last() == line);
            assert forall|id: u64| #[trigger] map@.contains_key(id) <==> point_lines(t, id).len() > 0 by {
                assert(point_lines(t, id) == point_lines(lines@.take(i as int), id) + (if line.from_node_id == id {
                    seq![i]
                } else {
                    seq![]
                }) + (if line.to_node_id == id {
                    seq![i]
                } else {
                    seq![]
                }));
            }
            assert forall|id: u64| #[trigger] map@.contains_key(id) implies map@[id]@ == point_lines(t, id) by {
                let prev = point_lines(lines@.take(i as int), id);
                let a: Seq<usize> = if line.from_node_id == id {
                    seq![i]
                } else {
                    seq![]
                };
                let b: Seq<usize> = if line.to_node_id == id {
                    seq![i]
                } else {
                    seq![]
                };
                assert(point_lines(t, id) == prev + a + b);
                if id == line.from_node_id && id == line.to_node_id {
                    assert(map@[id]@ =~= prev + a + b);
                } else if id == line.from_node_id {
                    assert(mid[id]@ =~= prev + a);
                    assert(map@[id]@ =~= prev + a + b);
                } else if id == line.to_node_id {
                    assert(map@[id]@ =~= prev + a + b);
                } else {
                    assert(map@[id]@ =~= prev + a + b);
                }
            }
        }
        i = i + 1;
    }
    assert(lines@.take(lines.len() as int) =~= lines@);
    map
}

/// A stored point's sort key: its grid cell, its OSM id, its position in the graph.
pub type PointKey = (u32, u64, usize);

/// The order of stored points: by cell, then by id, then by position.
pub open spec fn key_lt(a: PointKey, b: PointKey) -> bool {
    a.0 < b.0 || (a.0 == b.0 && (a.1 < b.1 || (a.1 == b.1 && a.2 < b.2)))
}

/// Whether the keys are in strictly increasing order.
pub open spec fn keys_sorted(s: Seq<PointKey>) -> bool {
    forall|i: int, j: int| 0 <= i < j < s.len() ==> key_lt(#[trigger] s[i], #[trigger] s[j])
}

/// The key of the point at `pos`.
pub open spec fn point_key(points: Seq<GenerationPoint>, cell_ids: Seq<u32>, pos: int) -> PointKey {
    (cell_ids[pos], points[pos].id, pos as usize)
}

/// Whether the point at `pos` is stored: some line touches it.
pub open spec fn is_stored(lines: Seq<GenerationLine>, points: Seq<GenerationPoint>, pos: int) -> bool {
    point_lines(lines, points[pos].id).len() > 0
}

/// Whether `out` is the storage order of the points: the keys of exactly the
/// stored points, in increasing order.
pub open spec fn storage_order(
    out: Seq<PointKey>,
    lines: Seq<GenerationLine>,
    points: Seq<GenerationPoint>,
    cell_ids: Seq<u32>,
) -> bool {
    &&& keys_sorted(out)
    &&& forall|k: int| 0 <= k < out.len() ==> (#[trigger] out[k]).2 < points.len() && out[k]
        == point_key(points, cell_ids, out[k].2 as int) && is_stored(lines, points, out[k].2 as int)
    &&& forall|p: int| 0 <= p < points.len() && is_stored(lines, points, p) ==> out.contains(
        #[trigger] point_key(points, cell_ids, p),
    )
}

fn key_less(a: PointKey, b: PointKey) -> (r: bool)
    ensures
        r == key_lt(a, b),
{
    a.0 < b.0 || (a.0 == b.0 && (a.1 < b.1 || (a.1 == b.1 && a.2 < b.2)))
}

/// Inserts `x` into sorted keys that all come before or after it.
fn insert_key(v: &mut Vec<PointKey>, x: PointKey)
    requires
        keys_sorted(old(v)@),
        forall|k: int| 0 <= k < old(v)@.len() ==> #[trigger] old(v)@[k] != x,
    ensures
        keys_sorted(final(v)@),
        final(v)@.len() == old(v)@.len() + 1,
        forall|y: PointKey| #[trigger] final(v)@.contains(y) <==> old(v)@.contains(y) || y == x,
        forall|k: int| 0 <= k < final(v)@.len() ==> #[trigger] final(v)@[k] == x || old(v)@.contains(final(v)@[k]),
{
    let mut pos: usize = 0;
    while pos < v.len() && key_less(v[pos], x)
        invariant
            pos <= v.len(),
            v@ == old(v)@,
            keys_sorted(v@),
            forall|i: int| 0 <= i < pos ==> key_lt(#[trigger] v@[i], x),
        decreases v.len() - pos,
    {
        pos = pos + 1;
    }
    let ghost before = v@;
    v.insert(pos, x);
    proof {
        assert(v@ =~= before.subrange(0, pos as int).push(x) + before.subrange(
            pos as int,
            before.len() as int,
        ));
        if pos < before.len() {
            assert(!key_lt(before[pos as int], x));
            assert(before[pos as int] != x);
            assert(key_lt(x, before[pos as int]));
        }
        assert forall|i: int, j: int| 0 <= i < j < v@.len() implies key_lt(#[trigger] v@[i], #[trigger] v@[j]) by {
            if j < pos {
            } else if i < pos && j == pos {
            } else if i < pos {
                assert(key_lt(before[i], before[j - 1]));
            } else if i == pos {
                if j - 1 > pos {
                    assert(key_lt(before[pos as int], before[j - 1]));
                }
            } else {
                assert(key_lt(before[i - 1], before[j - 1]));
            }
        }
        assert forall|y: PointKey| #[trigger] v@.contains(y) <==> before.contains(y) || y == x by {
            if v@.contains(y) {
                let k = choose|k: int| 0 <= k < v@.len() && v@[k] == y;
                if k < pos {
                    assert(before[k] == y);
                } else if k > pos {
                    assert(before[k - 1] == y);
                }
            }
            if before.contains(y) {
                let k = choose|k: int| 0 <= k < before.len() && before[k] == y;
                if k < pos {
                    assert(v@[k] == y);
                } else {
                    assert(v@[k + 1] == y);
                }
            }
            if y == x {
                assert(v@[pos as int] == x);
            }
        }
        assert forall|k: int| 0 <= k < v@.len() implies #[trigger] v@[k] == x || before.contains(v@[k]) by {
            if k < pos {
                assert(before[k] == v@[k]);
            } else if k > pos {
                assert(before[k - 1] == v@[k]);
            }
        }
    }
}

/// The points that some line touches, in storage order (see `storage_order`),
/// given the grid cell of every point of the graph.
pub fn collect_ordered_connected_points(
    graph: &GenerationGraph,
    point_lines_map: &HashMap<u64, Vec<usize>>,
    cell_ids: &[u32],
) -> (out: Vec<PointKey>)
    requires
        cell_ids@.len() == graph.points@.len(),
        forall|id: u64| #[trigger] point_lines_map@.contains_key(id) <==> point_lines(graph.lines@, id).len() > 0,
    ensures
        storage_order(out@, graph.lines@, graph.points@, cell_ids@),
        out@.len() <= graph.points@.len(),
{
    let points = &graph.points;
    let ghost lines = graph.lines@;
    let mut out: Vec<PointKey> = Vec::new();
    let mut p: usize = 0;
    while p < points.len()
        invariant
            p <= points.len(),
            cell_ids@.len() == points@.len(),
            lines == graph.lines@,
            points@ == graph.points@,
            forall|id: u64| #[trigger] point_lines_map@.contains_key(id) <==> point_lines(lines, id).len() > 0,
            keys_sorted(out@),
            out@.len() <= p,
            forall|k: int| 0 <= k < out@.len() ==> (#[trigger] out@[k]).2 < p && out@[k]
                == point_key(points@, cell_ids@, out@[k].2 as int) && is_stored(lines, points@, out@[k].2 as int),
            forall|q: int| 0 <= q < p && is_stored(lines, points@, q) ==> out@.contains(
                #[trigger] point_key(points@, cell_ids@, q),
            ),
        decreases points.len() - p,
    {
        let point = points[p];
        if point_lines_map.contains_key(&point.id) {
            let x: PointKey = (cell_ids[p], point.id, p);
            assert(x == point_key(points@, cell_ids@, p as int));
            let ghost before = out@;
            insert_key(&mut out, x);
            proof {
                assert forall|k: int| 0 <= k < out@.len() implies (#[trigger] out@[k]).2 < p + 1 && out@[k]
                    == point_key(points@, cell_ids@, out@[k].2 as int) && is_stored(lines, points@, out@[k].2 as int) by {
                    if out@[k] != x {
                        let j = choose|j: int| 0 <= j < before.len() && before[j] == out@[k];
                        assert(before[j].2 < p);
                    }
                }
                assert forall|q: int| 0 <= q < p + 1 && is_stored(lines, points@, q) implies out@.contains(
                    #[trigger] point_key(points@, cell_ids@, q),
                ) by {
                    if q < p {
                        assert(before.contains(point_key(points@, cell_ids@, q)));
                    }
                }
            }
        } else {
            proof {
                assert forall|q: int| 0 <= q < p + 1 && is_stored(lines, points@, q) implies out@.contains(
                    #[trigger] point_key(points@, cell_ids@, q),
                ) by {
                    if q == p {
                        assert(!is_stored(lines, points@, q));
                    }
                }
            }
        }
        p = p + 1;
    }
    out
}

/// What can keep a tile from being laid out: a count that the format stores
/// in 32 bits and that does not fit, or a line whose point is missing.
#[derive(Clone, Copy, Debug, PartialEq, Eq)]
pub enum RmdfWriterError {
    PointLineRefCountTooLarge { point_id: u64 },
    PointRuleCountTooLarge { point_id: u64 },
    RuleLineCountTooLarge { relation_id: u64 },
    RuleRecordCountTooLarge,
    MissingPoint { point_id: u64 },
}

/// A stored point with the slices of the line-reference and rule sections
/// that belong to it; `position` is its index in the graph's points.
#[derive(Debug)]
pub struct OrderedPoint {
    pub cell_id: u32,
    pub position: usize,
    pub point: GenerationPoint,
    pub line_indices: Vec<u64>,
    pub lines_offset: u64,
    pub lines_count: u32,
    pub rules_offset: u64,
    pub rules_count: u32,
}

/// The key of a laid-out point.
pub open spec fn layout_key(op: OrderedPoint) -> PointKey {
    (op.cell_id, op.point.id, op.position)
}

/// Line indices as the 64-bit values that the format stores.
pub open spec fn as_u64_indices(s: Seq<usize>) -> Seq<u64> {
    s.map_values(|i: usize| i as u64)
}

/// The rules at point `id`.
pub open spec fn rules_of(graph: GenerationGraph, id: u64) -> Seq<GenerationRestrictionRule> {
    rules_at(graph.restrictions_by_via@, id)
}

/// Whether the counts of a stored point fit in the 32 bits that store them.
pub open spec fn point_counts_fit(graph: GenerationGraph, id: u64) -> bool {
    point_lines(graph.lines@, id).len() <= u32::MAX && rules_of(graph, id).len() <= u32::MAX
}

/// Whether `layout` lays out the points of `graph` (with the grid cells
/// `cell_ids`): the stored points in storage order, each with the lines that
/// touch it and the number of rules at it, and with slices that follow each
/// other from offset 0.
pub open spec fn layout_of(layout: Seq<OrderedPoint>, graph: GenerationGraph, cell_ids: Seq<u32>) -> bool {
    &&& storage_order(layout.map_values(|op: OrderedPoint| layout_key(op)), graph.lines@, graph.points@, cell_ids)
    &&& forall|k: int| 0 <= k < layout.len() ==> {
        let op = #[trigger] layout[k];
        &&& op.point == graph.points@[op.position as int]
        &&& op.line_indices@ == as_u64_indices(point_lines(graph.lines@, op.point.id))
        &&& op.lines_count == op.line_indices@.len()
        &&& op.rules_count == rules_of(graph, op.point.id).len()
    }
    &&& layout.len() > 0 ==> layout[0].lines_offset == 0 && layout[0].rules_offset == 0
    &&& forall|k: int| 0 < k < layout.len() ==> (#[trigger] layout[k]).lines_offset
        == layout[k - 1].lines_offset + layout[k - 1].lines_count && layout[k].rules_offset
        == layout[k - 1].rules_offset + layout[k - 1].rules_count
}

fn to_u64_indices(list: &Vec<usize>) -> (r: Vec<u64>)
    ensures
        r@ == as_u64_indices(list@),
{
    let mut r: Vec<u64> = Vec::new();
    let mut i: usize = 0;
    while i < list.len()
        invariant
            i <= list.len(),
            r@ =~= as_u64_indices(list@.take(i as int)),
        decreases list.len() - i,
    {
        r.push(list[i] as u64);
        i = i + 1;
        assert(r@ =~= as_u64_indices(list@.take(i as int)));
    }
    assert(list@.take(list.len() as int) =~= list@);
    r
}

/// Lays out the stored points of the graph (see `layout_of`); `cell_ids` holds
/// the grid cell of every point of the graph. It fails when the count of lines
/// or rules of a stored point does not fit in 32 bits.
pub fn build_point_layout(graph: &GenerationGraph, cell_ids: &[u32]) -> (r: Result<
    Vec<OrderedPoint>,
    RmdfWriterError,
>)
    requires
        cell_ids@.len() == graph.points@.len(),
        graph.points@.len() <= u32::MAX,
    ensures
        r is Ok <==> forall|p: int| 0 <= p < graph.points@.len() && is_stored(graph.lines@, graph.points@, p)
            ==> point_counts_fit(*graph, #[trigger] graph.points@[p].id),
        r matches Ok(layout) ==> layout_of(layout@, *graph, cell_ids@) && layout@.len() <= graph.points@.len(),
        r matches Err(e) ==> match e {
            RmdfWriterError::PointLineRefCountTooLarge { point_id } => point_lines(graph.lines@, point_id).len() > u32::MAX,
            RmdfWriterError::PointRuleCountTooLarge { point_id } => point_lines(graph.lines@, point_id).len() > 0 && rules_of(*graph, point_id).len() > u32::MAX,
            _ => false,
        },
{
    let map = build_point_lines_map(graph);
    let order = collect_ordered_connected_points(graph, &map, cell_ids);
    let ghost keys = order@;
    let mut layout: Vec<OrderedPoint> = Vec::new();
    let mut line_offset: u64 = 0;
    let mut rule_offset: u64 = 0;
    let mut k: usize = 0;
    while k < order.len()
        invariant
            k <= order.len(),
            order@ == keys,
            keys.len() <= u32::MAX,
            keys.len() <= graph.points@.len(),
            storage_order(keys, graph.lines@, graph.points@, cell_ids@),
            forall|id: u64| #[trigger] map@.contains_key(id) <==> point_lines(graph.lines@, id).len() > 0,
            forall|id: u64| #[trigger] map@.contains_key(id) ==> map@[id]@ == point_lines(graph.lines@, id),
            layout@.len() == k,
            forall|j: int| 0 <= j < k ==> layout_key(#[trigger] layout@[j]) == keys[j],
            forall|j: int| 0 <= j < k ==> point_counts_fit(*graph, keys[j].1),
            forall|j: int| 0 <= j < k ==> {
                let op = #[trigger] layout@[j];
                &&& op.point == graph.points@[op.position as int]
                &&& op.line_indices@ == as_u64_indices(point_lines(graph.lines@, op.point.id))
                &&& op.lines_count == op.line_indices@.len()
                &&& op.rules_count == rules_of(*graph, op.point.id).len()
            },
            k > 0 ==> layout@[0].lines_offset == 0 && layout@[0].rules_offset == 0,
            forall|j: int| 0 < j < k ==> (#[trigger] layout@[j]).lines_offset
                == layout@[j - 1].lines_offset + layout@[j - 1].lines_count && layout@[j].rules_offset
                == layout@[j - 1].rules_offset + layout@[j - 1].rules_count,
            k == 0 ==> line_offset == 0 && rule_offset == 0,
            k > 0 ==> line_offset == layout@[k - 1].lines_offset + layout@[k - 1].lines_count,
            k > 0 ==> rule_offset == layout@[k - 1].rules_offset + layout@[k - 1].rules_count,
            line_offset <= k * 0xffff_ffff,
            rule_offset <= k * 0xffff_ffff,
        decreases order.len() - k,
    {
        let (cell_id, id, pos) = order[k];
        let point = graph.points[pos];
        let list = match map.get(&id) {
            Some(l) => l,
            None => {
                assert(false);
                return Err(RmdfWriterError::MissingPoint { point_id: id });
            },
        };
        if list.len() > 0xffff_ffff {
            return Err(RmdfWriterError::PointLineRefCountTooLarge { point_id: id });
        }
        let lines_count = list.len() as u32;
        let rules_count: u32 = match graph.restrictions_by_via.get(&id) {
            Some(rules) => {
                if rules.len() > 0xffff_ffff {
                    return Err(RmdfWriterError::PointRuleCountTooLarge { point_id: id });
                }
                rules.len() as u32
            },
            None => 0,
        };
        let line_indices = to_u64_indices(list);
        layout.push(
            OrderedPoint {
                cell_id,
                position: pos,
                point,
                line_indices,
                lines_offset: line_offset,
                lines_count,
                rules_offset: rule_offset,
                rules_count,
            },
        );
        line_offset = line_offset + lines_count as u64;
        rule_offset = rule_offset + rules_count as u64;
        k = k + 1;
    }
    proof {
        let lk = layout@.map_values(|op: OrderedPoint| layout_key(op));
        assert(lk =~= keys);
        assert forall|p: int| 0 <= p < graph.points@.len() && is_stored(graph.lines@, graph.points@, p)
            implies point_counts_fit(*graph, #[trigger] graph.points@[p].id) by {
            let x = point_key(graph.points@, cell_ids@, p);
            assert(keys.contains(x));
            let j = choose|j: int| 0 <= j < keys.len() && keys[j] == x;
            assert(keys[j].1 == graph.points@[p].id);
        }
    }
    Ok(layout)
}

/// An entry of the spatial index: a run of stored points in one grid cell.
#[derive(Clone, Copy, Debug, PartialEq, Eq)]
pub struct GridCellEntry {
    pub cell_id: u32,
    pub points_offset: u64,
    pub points_count: u32,
}

/// The grid cells of the laid-out points, in order.
pub open spec fn layout_cells(layout: Seq<OrderedPoint>) -> Seq<u32> {
    layout.map_values(|op: OrderedPoint| op.cell_id)
}

/// Whether `entries` are the runs of equal cells of `cells`: they cover the
/// points one after the other from the first to the last, each holds at
/// least one point and only points of its cell, and neighbouring runs are in
/// different cells.
pub open spec fn cell_runs(entries: Seq<GridCellEntry>, cells: Seq<u32>) -> bool {
    &&& (cells.len() == 0 <==> entries.len() == 0)
    &&& entries.len() > 0 ==> entries[0].points_offset == 0 && entries.last().points_offset
        + entries.last().points_count == cells.len()
    &&& forall|j: int| 0 <= j < entries.len() - 1 ==> #[trigger] entries[j + 1].points_offset
        == entries[j].points_offset + entries[j].points_count && entries[j].cell_id != entries[j
        + 1].cell_id
    &&& forall|j: int| 0 <= j < entries.len() ==> (#[trigger] entries[j]).points_count > 0
        && entries[j].points_offset + entries[j].points_count <= cells.len()
    &&& forall|j: int, i: int|
        #![trigger entries[j], cells[i]]
        0 <= j < entries.len() && entries[j].points_offset <= i < entries[j].points_offset
            + entries[j].points_count ==> cells[i] == entries[j].cell_id
}

/// The spatial index of the laid-out points: one entry per run of points in
/// the same grid cell (see `cell_runs`).
pub fn build_spatial_index(layout: &Vec<OrderedPoint>) -> (entries: Vec<GridCellEntry>)
    requires
        layout@.len() <= u32::MAX,
    ensures
        cell_runs(entries@, layout_cells(layout@)),
{
    let ghost cells = layout_cells(layout@);
    let mut entries: Vec<GridCellEntry> = Vec::new();
    let mut has_current = false;
    let mut current_cell: u32 = 0;
    let mut current_offset: u64 = 0;
    let mut current_count: u32 = 0;
    let mut k: usize = 0;
    while k < layout.len()
        invariant
            k <= layout.len(),
            layout@.len() <= u32::MAX,
            cells == layout_cells(layout@),
            has_current <==> k > 0,
            !has_current ==> entries@.len() == 0,
            has_current ==> current_offset + current_count == k && current_count > 0,
            has_current ==> forall|i: int| current_offset <= i < k ==> cells[i] == current_cell,
            has_current ==> cell_runs(entries@, cells.take(current_offset as int)),
            has_current && entries@.len() > 0 ==> entries@.last().cell_id != current_cell,
        decreases layout.len() - k,
    {
        let cell_id = layout[k].cell_id;
        if has_current && cell_id == current_cell {
            current_count = current_count + 1;
        } else if has_current {
            let ghost before = entries@;
            entries.push(GridCellEntry { cell_id: current_cell, points_offset: current_offset, points_count: current_count });
            proof {
                let t = cells.take(k as int);
                assert forall|j: int, i: int|
                    #![trigger entries@[j], t[i]]
                    0 <= j < entries@.len() && entries@[j].points_offset <= i < entries@[j].points_offset
                        + entries@[j].points_count implies t[i] == entries@[j].cell_id by {
                    if j < before.len() {
                        assert(cells.take(current_offset as int)[i] == cells[i]);
                    }
                }
            }
            current_cell = cell_id;
            current_offset = k as u64;
            current_count = 1;
        } else {
            has_current = true;
            current_cell = cell_id;
            current_offset = k as u64;
            current_count = 1;
            assert(cells.take(0) =~= Seq::<u32>::empty());
        }
        k = k + 1;
    }
    if has_current {
        let ghost before = entries@;
        entries.push(GridCellEntry { cell_id: current_cell, points_offset: current_offset, points_count: current_count });
        proof {
            assert forall|j: int, i: int|
                #![trigger entries@[j], cells[i]]
                0 <= j < entries@.len() && entries@[j].points_offset <= i < entries@[j].points_offset
                    + entries@[j].points_count implies cells[i] == entries@[j].cell_id by {
                if j < before.len() {
                    assert(cells.take(current_offset as int)[i] == cells[i]);
                }
            }
        }
    }
    entries
}

/// The record of a stored point: its id, its coordinates (bit patterns as the
/// graph holds them), its slices of the line-reference and rule sections, and
/// its flags.
#[derive(Clone, Copy, Debug, PartialEq, Eq)]
pub struct PointRecord {
    pub osm_id: u64,
    pub lat_bits: u64,
    pub lon_bits: u64,
    pub lines_offset: u64,
    pub lines_count: u32,
    pub rules_offset: u64,
    pub rules_count: u32,
    pub residential_in_proximity: bool,
    pub nogo_area: bool,
}

/// The record of a laid-out point.
pub open spec fn point_record_of(op: OrderedPoint) -> PointRecord {
    PointRecord {
        osm_id: op.point.id,
        lat_bits: op.point.lat_bits,
        lon_bits: op.point.lon_bits,
        lines_offset: op.lines_offset,
        lines_count: op.lines_count,
        rules_offset: op.rules_offset,
        rules_count: op.rules_count,
        residential_in_proximity: op.point.residential_in_proximity,
        nogo_area: op.point.nogo_area,
    }
}

/// A point record carries its own point's identity and flags, field for field:
/// the OSM id, the coordinates, and the residential-proximity and no-go flags
/// each come from the same field of the point, never from another.
pub proof fn lemma_point_record_fields(op: OrderedPoint)
    ensures
        point_record_of(op).osm_id == op.point.id,
        point_record_of(op).lat_bits == op.point.lat_bits,
        point_record_of(op).lon_bits == op.point.lon_bits,
        point_record_of(op).lines_offset == op.lines_offset,
        point_record_of(op).lines_count == op.lines_count,
        point_record_of(op).rules_offset == op.rules_offset,
        point_record_of(op).rules_count == op.rules_count,
        point_record_of(op).residential_in_proximity == op.point.residential_in_proximity,
        point_record_of(op).nogo_area == op.point.nogo_area,
{
}

/// The point records, one per laid-out point, in order.
pub fn serialize_points(layout: &Vec<OrderedPoint>) -> (records: Vec<PointRecord>)
    ensures
        records@.len() == layout@.len(),
        forall|k: int| 0 <= k < layout@.len() ==> #[trigger] records@[k] == point_record_of(layout@[k]),
        forall|k: int| 0 <= k < layout@.len() ==> {
            &&& (#[trigger] records@[k]).osm_id == layout@[k].point.id
            &&& records@[k].residential_in_proximity == layout@[k].point.residential_in_proximity
            &&& records@[k].nogo_area == layout@[k].point.nogo_area
        },
{
    let mut records: Vec<PointRecord> = Vec::new();
    let mut k: usize = 0;
    while k < layout.len()
        invariant
            k <= layout.len(),
            records@.len() == k,
            forall|j: int| 0 <= j < k ==> #[trigger] records@[j] == point_record_of(layout@[j]),
        decreases layout.len() - k,
    {
        let op = &layout[k];
        records.push(
            PointRecord {
                osm_id: op.point.id,
                lat_bits: op.point.lat_bits,
                lon_bits: op.point.lon_bits,
                lines_offset: op.lines_offset,
                lines_count: op.lines_count,
                rules_offset: op.rules_offset,
                rules_count: op.rules_count,
                residential_in_proximity: op.point.residential_in_proximity,
                nogo_area: op.point.nogo_area,
            },
        );
        k = k + 1;
    }
    records
}

/// The record of a line: both points with their coordinates, the direction
/// code and the tag set.
#[derive(Clone, Copy, Debug, PartialEq, Eq)]
pub struct LineRecord {
    pub point_a_osm_id: u64,
    pub point_a_lat_bits: u64,
    pub point_a_lon_bits: u64,
    pub point_b_osm_id: u64,
    pub point_b_lat_bits: u64,
    pub point_b_lon_bits: u64,
    pub direction: u8,
    pub tag_set_index: u32,
}

/// The record of `line` between the points `a` and `b`.
pub open spec fn line_record_of(line: GenerationLine, a: GenerationPoint, b: GenerationPoint) -> LineRecord {
    LineRecord {
        point_a_osm_id: a.id,
        point_a_lat_bits: a.lat_bits,
        point_a_lon_bits: a.lon_bits,
        point_b_osm_id: b.id,
        point_b_lat_bits: b.lat_bits,
        point_b_lon_bits: b.lon_bits,
        direction: direction_code_spec(line.direction),
        tag_set_index: line.tags.tag_set_idx,
    }
}

/// The point of the graph that an id names (the last one added with it).
pub open spec fn point_named(graph: GenerationGraph, id: u64) -> GenerationPoint {
    graph.points@[graph.points_map@[id] as int]
}

/// Whether both points of every line are in the graph.
pub open spec fn line_points_present(graph: GenerationGraph) -> bool {
    forall|i: int| 0 <= i < graph.lines@.len() ==> graph.points_map@.contains_key(
        (#[trigger] graph.lines@[i]).from_node_id,
    ) && graph.points_map@.contains_key(graph.lines@[i].to_node_id)
}

/// The line records, one per line of the graph; a line whose point is
/// missing is an error (which a well-formed graph never has).
pub fn serialize_lines(graph: &GenerationGraph) -> (r: Result<Vec<LineRecord>, RmdfWriterError>)
    requires
        forall|id: u64| #[trigger] graph.points_map@.contains_key(id) ==> graph.points_map@[id]
            < graph.points@.len(),
    ensures
        r is Ok <==> line_points_present(*graph),
        r matches Ok(records) ==> records@.len() == graph.lines@.len() && forall|i: int|
            0 <= i < graph.lines@.len() ==> #[trigger] records@[i] == line_record_of(
                graph.lines@[i],
                point_named(*graph, graph.lines@[i].from_node_id),
                point_named(*graph, graph.lines@[i].to_node_id),
            ),
        r matches Err(e) ==> (e matches RmdfWriterError::MissingPoint { point_id } && !graph.points_map@.contains_key(point_id)),
{
    let mut records: Vec<LineRecord> = Vec::new();
    let mut i: usize = 0;
    while i < graph.lines.len()
        invariant
            i <= graph.lines@.len(),
            forall|id: u64| #[trigger] graph.points_map@.contains_key(id) ==> graph.points_map@[id]
                < graph.points@.len(),
            records@.len() == i,
            forall|j: int| 0 <= j < i ==> graph.points_map@.contains_key(
                (#[trigger] graph.lines@[j]).from_node_id,
            ) && graph.points_map@.contains_key(graph.lines@[j].to_node_id),
            forall|j: int| 0 <= j < i ==> #[trigger] records@[j] == line_record_of(
                graph.lines@[j],
                point_named(*graph, graph.lines@[j].from_node_id),
                point_named(*graph, graph.lines@[j].to_node_id),
            ),
        decreases graph.lines@.len() - i,
    {
        let line = graph.lines[i];
        let a = match graph.points_map.get(&line.from_node_id) {
            Some(idx) => graph.points[*idx],
            None => return Err(RmdfWriterError::MissingPoint { point_id: line.from_node_id }),
        };
        let b = match graph.points_map.get(&line.to_node_id) {
            Some(idx) => graph.points[*idx],
            None => return Err(RmdfWriterError::MissingPoint { point_id: line.to_node_id }),
        };
        records.push(
            LineRecord {
                point_a_osm_id: a.id,
                point_a_lat_bits: a.lat_bits,
                point_a_lon_bits: a.lon_bits,
                point_b_osm_id: b.id,
                point_b_lat_bits: b.lat_bits,
                point_b_lon_bits: b.lon_bits,
                direction: direction_code(line.direction),
                tag_set_index: line.tags.tag_set_idx,
            },
        );
        i = i + 1;
    }
    Ok(records)
}

/// The line references of the laid-out points, one after the other.
pub open spec fn line_refs_of(layout: Seq<OrderedPoint>) -> Seq<u64>
    decreases layout.len(),
{
    if layout.len() == 0 {
        seq![]
    } else {
        line_refs_of(layout.drop_last()) + layout.last().line_indices@
    }
}

/// The line-reference section: the line indices of every laid-out point, one
/// point after the other.
pub fn serialize_line_refs(layout: &Vec<OrderedPoint>) -> (refs: Vec<u64>)
    ensures
        refs@ == line_refs_of(layout@),
{
    let mut refs: Vec<u64> = Vec::new();
    let mut k: usize = 0;
    assert(layout@.take(0) =~= Seq::<OrderedPoint>::empty());
    while k < layout.len()
        invariant
            k <= layout.len(),
            refs@ == line_refs_of(layout@.take(k as int)),
        decreases layout.len() - k,
    {
        let ghost before = refs@;
        let indices = &layout[k].line_indices;
        let mut i: usize = 0;
        while i < indices.len()
            invariant
                i <= indices.len(),
                refs@ == before + indices@.take(i as int),
            decreases indices.len() - i,
        {
            refs.push(indices[i]);
            i = i + 1;
            assert(refs@ =~= before + indices@.take(i as int));
        }
        assert(indices@.take(indices.len() as int) =~= indices@);
        assert(layout@.take(k + 1).drop_last() =~= layout@.take(k as int));
        k = k + 1;
    }
    assert(layout@.take(layout.len() as int) =~= layout@);
    refs
}

/// Where a laid-out point's line references start: after those of the
/// points before it (the law behind `serialize_line_refs`: the slice of each
/// point holds exactly its lines).
pub proof fn lemma_line_refs_slices(layout: Seq<OrderedPoint>, k: int)
    requires
        0 <= k < layout.len(),
        layout[0].lines_offset == 0,
        forall|j: int| 0 <= j < layout.len() ==> (#[trigger] layout[j]).lines_count == layout[j].line_indices@.len(),
        forall|j: int| 0 < j < layout.len() ==> (#[trigger] layout[j]).lines_offset
            == layout[j - 1].lines_offset + layout[j - 1].lines_count,
    ensures
        layout[k].lines_offset == line_refs_of(layout.take(k)).len(),
        line_refs_of(layout).subrange(
            layout[k].lines_offset as int,
            layout[k].lines_offset + layout[k].lines_count,
        ) == layout[k].line_indices@,
    decreases layout.len(),
{
    lemma_line_refs_prefix_len(layout, k);
    lemma_line_refs_take(layout, k + 1);
    let before = line_refs_of(layout.take(k));
    let upto = line_refs_of(layout.take(k + 1));
    assert(layout.take(k + 1).drop_last() =~= layout.take(k));
    assert(upto == before + layout[k].line_indices@);
    assert(line_refs_of(layout).subrange(0, upto.len() as int) == upto);
    assert(line_refs_of(layout).subrange(before.len() as int, upto.len() as int)
        =~= upto.subrange(before.len() as int, upto.len() as int));
    assert(upto.subrange(before.len() as int, upto.len() as int) =~= layout[k].line_indices@);
}

proof fn lemma_line_refs_prefix_len(layout: Seq<OrderedPoint>, k: int)
    requires
        0 <= k < layout.len(),
        layout[0].lines_offset == 0,
        forall|j: int| 0 <= j < layout.len() ==> (#[trigger] layout[j]).lines_count == layout[j].line_indices@.len(),
        forall|j: int| 0 < j < layout.len() ==> (#[trigger] layout[j]).lines_offset
            == layout[j - 1].lines_offset + layout[j - 1].lines_count,
    ensures
        layout[k].lines_offset == line_refs_of(layout.take(k)).len(),
    decreases k,
{
    if k == 0 {
        assert(layout.take(0) =~= Seq::<OrderedPoint>::empty());
    } else {
        lemma_line_refs_prefix_len(layout, k - 1);
        assert(layout.take(k).drop_last() =~= layout.take(k - 1));
        assert(layout[k].lines_offset == layout[k - 1].lines_offset + layout[k - 1].lines_count);
    }
}

proof fn lemma_line_refs_take(layout: Seq<OrderedPoint>, k: int)
    requires
        0 <= k <= layout.len(),
    ensures
        line_refs_of(layout.take(k)).len() <= line_refs_of(layout).len(),
        line_refs_of(layout).subrange(0, line_refs_of(layout.take(k)).len() as int) == line_refs_of(layout.take(k)),
    decreases layout.len() - k,
{
    if k == layout.len() {
        assert(layout.take(k) =~= layout);
        assert(line_refs_of(layout).subrange(0, line_refs_of(layout).len() as int) =~= line_refs_of(layout));
    } else {
        lemma_line_refs_take(layout, k + 1);
        let a = line_refs_of(layout.take(k));
        let b = line_refs_of(layout.take(k + 1));
        assert(layout.take(k + 1).drop_last() =~= layout.take(k));
        assert(b == a + layout[k].line_indices@);
        assert(line_refs_of(layout).subrange(0, a.len() as int) =~= b.subrange(0, a.len() as int));
        assert(b.subrange(0, a.len() as int) =~= a);
    }
}

/// Where a tag value's bytes lie in the string pool, and how many there are.
#[derive(Clone, Copy, Debug, PartialEq, Eq)]
pub struct StringEntry {
    pub offset: u64,
    pub length: u32,
}

/// The UTF-8 bytes of the values, one after the other.
pub open spec fn string_pool(values: Seq<String>) -> Seq<u8>
    decreases values.len(),
{
    if values.len() == 0 {
        seq![]
    } else {
        string_pool(values.drop_last()) + encode_utf8(values.last()@)
    }
}

/// The entry of value `k`: where its bytes start in the pool and how many
/// there are (kept to 32 bits).
pub open spec fn string_entry_of(values: Seq<String>, k: int) -> StringEntry {
    StringEntry {
        offset: string_pool(values.take(k)).len() as u64,
        length: encode_utf8(values[k]@).len() as u32,
    }
}

/// The tag-value section: one entry per tag value, and the pool of their
/// UTF-8 bytes.
pub fn serialize_tag_values(graph: &GenerationGraph) -> (r: (Vec<StringEntry>, Vec<u8>))
    ensures
        r.0@.len() == graph.tags.tag_values@.len(),
        forall|k: int| 0 <= k < graph.tags.tag_values@.len() ==> #[trigger] r.0@[k] == string_entry_of(graph.tags.tag_values@, k),
        r.1@ == string_pool(graph.tags.tag_values@),
{
    let values = &graph.tags.tag_values;
    let mut entries: Vec<StringEntry> = Vec::new();
    let mut pool: Vec<u8> = Vec::new();
    let mut k: usize = 0;
    assert(values@.take(0) =~= Seq::<String>::empty());
    while k < values.len()
        invariant
            k <= values.len(),
            entries@.len() == k,
            pool@ == string_pool(values@.take(k as int)),
            forall|j: int| 0 <= j < k ==> #[trigger] entries@[j] == string_entry_of(values@, j),
        decreases values.len() - k,
    {
        let bytes = values[k].as_str().as_bytes();
        let entry = StringEntry { offset: pool.len() as u64, length: bytes.len() as u32 };
        let ghost before = pool@;
        let mut i: usize = 0;
        while i < bytes.len()
            invariant
                i <= bytes@.len(),
                pool@ == before + bytes@.take(i as int),
            decreases bytes@.len() - i,
        {
            pool.push(bytes[i]);
            i = i + 1;
            assert(pool@ =~= before + bytes@.take(i as int));
        }
        proof {
            assert(bytes@.take(bytes@.len() as int) =~= bytes@);
            assert(values@.take(k + 1).drop_last() =~= values@.take(k as int));
            assert(entry == string_entry_of(values@, k as int));
        }
        entries.push(entry);
        k = k + 1;
    }
    assert(values@.take(values.len() as int) =~= values@);
    (entries, pool)
}

/// The record of a tag set: the index of each of its values.
pub open spec fn tag_set_record_of(t: TagSet) -> TagSetRecord {
    TagSetRecord {
        name_idx: t.name.tag_value_idx,
        hw_ref_idx: t.hw_ref.tag_value_idx,
        highway_idx: t.highway.tag_value_idx,
        surface_idx: t.surface.tag_value_idx,
        smoothness_idx: t.smoothness.tag_value_idx,
    }
}

/// The tag-set section: one record per tag set.
pub fn serialize_tag_sets(graph: &GenerationGraph) -> (records: Vec<TagSetRecord>)
    ensures
        records@.len() == graph.tags.tag_sets@.len(),
        forall|k: int| 0 <= k < records@.len() ==> #[trigger] records@[k] == tag_set_record_of(graph.tags.tag_sets@[k]),
{
    let sets = &graph.tags.tag_sets;
    let mut records: Vec<TagSetRecord> = Vec::new();
    let mut k: usize = 0;
    while k < sets.len()
        invariant
            k <= sets.len(),
            records@.len() == k,
            forall|j: int| 0 <= j < k ==> #[trigger] records@[j] == tag_set_record_of(sets@[j]),
        decreases sets.len() - k,
    {
        let t = &sets[k];
        records.push(
            TagSetRecord {
                name_idx: t.name.tag_value_idx,
                hw_ref_idx: t.hw_ref.tag_value_idx,
                highway_idx: t.highway.tag_value_idx,
                surface_idx: t.surface.tag_value_idx,
                smoothness_idx: t.smoothness.tag_value_idx,
            },
        );
        k = k + 1;
    }
    records
}

/// The record of a turn restriction: its from and to slices of the rule
/// payload, and its type code.
#[derive(Clone, Copy, Debug, PartialEq, Eq)]
pub struct RuleRecord {
    pub from_lines_offset: u64,
    pub from_lines_count: u32,
    pub to_lines_offset: u64,
    pub to_lines_count: u32,
    pub rule_type: u8,
}

/// The rules stored with the laid-out points: the rules at each point, one
/// point after the other.
pub open spec fn rules_in_layout(graph: GenerationGraph, layout: Seq<OrderedPoint>) -> Seq<GenerationRestrictionRule>
    decreases layout.len(),
{
    if layout.len() == 0 {
        seq![]
    } else {
        rules_in_layout(graph, layout.drop_last()) + rules_of(graph, layout.last().point.id)
    }
}

/// Rule line indices as the 64-bit values that the payload stores.
pub open spec fn rule_lines_u64(s: Seq<u32>) -> Seq<u64> {
    s.map_values(|i: u32| i as u64)
}

/// The rule payload: each rule's from lines, then its to lines, one rule
/// after the other.
pub open spec fn rule_payload(rules: Seq<GenerationRestrictionRule>) -> Seq<u64>
    decreases rules.len(),
{
    if rules.len() == 0 {
        seq![]
    } else {
        rule_payload(rules.drop_last()) + rule_lines_u64(rules.last().from_line_indices@)
            + rule_lines_u64(rules.last().to_line_indices@)
    }
}

/// The record of rule `k`: its slices start where the payload of the rules
/// before it ends.
pub open spec fn rule_record_of(rules: Seq<GenerationRestrictionRule>, k: int) -> RuleRecord {
    let start = rule_payload(rules.take(k)).len();
    let rule = rules[k];
    RuleRecord {
        from_lines_offset: start as u64,
        from_lines_count: rule.from_line_indices@.len() as u32,
        to_lines_offset: (start + rule.from_line_indices@.len()) as u64,
        to_lines_count: rule.to_line_indices@.len() as u32,
        rule_type: rule_type_code_spec(rule.rule_type),
    }
}

/// Whether the line counts of every rule fit in 32 bits.
pub open spec fn rule_counts_fit(rules: Seq<GenerationRestrictionRule>) -> bool {
    forall|k: int| 0 <= k < rules.len() ==> (#[trigger] rules[k]).from_line_indices@.len() <= u32::MAX
        && rules[k].to_line_indices@.len() <= u32::MAX
}

fn append_rule_lines(payload: &mut Vec<u64>, lines: &Vec<u32>)
    ensures
        final(payload)@ == old(payload)@ + rule_lines_u64(lines@),
{
    let mut i: usize = 0;
    while i < lines.len()
        invariant
            i <= lines.len(),
            payload@ == old(payload)@ + rule_lines_u64(lines@.take(i as int)),
        decreases lines.len() - i,
    {
        payload.push(lines[i] as u64);
        i = i + 1;
        assert(payload@ =~= old(payload)@ + rule_lines_u64(lines@.take(i as int)));
    }
    assert(lines@.take(lines.len() as int) =~= lines@);
}

/// The rule section: a record per rule of the laid-out points (in layout
/// order) and the payload of their line indices. It fails when a rule's line
/// count, or the number of rules, does not fit in 32 bits.
pub fn serialize_rules(graph: &GenerationGraph, layout: &Vec<OrderedPoint>) -> (r: Result<
    (Vec<RuleRecord>, Vec<u64>),
    RmdfWriterError,
>)
    ensures
        r is Ok <==> rule_counts_fit(rules_in_layout(*graph, layout@)) && rules_in_layout(
            *graph,
            layout@,
        ).len() <= u32::MAX,
        r matches Ok(sections) ==> {
            let rules = rules_in_layout(*graph, layout@);
            &&& sections.0@.len() == rules.len()
            &&& forall|k: int| 0 <= k < rules.len() ==> #[trigger] sections.0@[k] == rule_record_of(rules, k)
            &&& sections.1@ == rule_payload(rules)
        },
        r matches Err(e) ==> match e {
            RmdfWriterError::RuleLineCountTooLarge { relation_id } => !rule_counts_fit(rules_in_layout(*graph, layout@)),
            RmdfWriterError::RuleRecordCountTooLarge => rules_in_layout(*graph, layout@).len() > u32::MAX,
            _ => false,
        },
{
    let mut records: Vec<RuleRecord> = Vec::new();
    let mut payload: Vec<u64> = Vec::new();
    let ghost all = rules_in_layout(*graph, layout@);
    let mut k: usize = 0;
    assert(layout@.take(0) =~= Seq::<OrderedPoint>::empty());
    while k < layout.len()
        invariant
            k <= layout.len(),
            all == rules_in_layout(*graph, layout@),
            records@.len() == rules_in_layout(*graph, layout@.take(k as int)).len(),
            rule_counts_fit(rules_in_layout(*graph, layout@.take(k as int))),
            forall|j: int| 0 <= j < records@.len() ==> #[trigger] records@[j] == rule_record_of(rules_in_layout(*graph, layout@.take(k as int)), j),
            payload@ == rule_payload(rules_in_layout(*graph, layout@.take(k as int))),
        decreases layout.len() - k,
    {
        let ghost done = rules_in_layout(*graph, layout@.take(k as int));
        assert(layout@.take(k + 1).drop_last() =~= layout@.take(k as int));
        let id = layout[k].point.id;
        match graph.restrictions_by_via.get(&id) {
            None => {
                assert(rules_in_layout(*graph, layout@.take(k + 1)) =~= done);
            },
            Some(rules) => {
                let ghost here = rules@;
                assert(rules_of(*graph, id) == here);
                assert(rules_in_layout(*graph, layout@.take(k + 1)) == done + here);
                let mut i: usize = 0;
                assert(here.take(0) =~= Seq::<GenerationRestrictionRule>::empty());
                assert(done + here.take(0) =~= done);
                while i < rules.len()
                    invariant
                        i <= rules.len(),
                        k < layout@.len(),
                        here == rules@,
                        all == rules_in_layout(*graph, layout@),
                        rules_in_layout(*graph, layout@.take(k + 1)) == done + here,
                        records@.len() == (done + here.take(i as int)).len(),
                        rule_counts_fit(done + here.take(i as int)),
                        forall|j: int| 0 <= j < records@.len() ==> #[trigger] records@[j] == rule_record_of(done + here.take(i as int), j),
                        payload@ == rule_payload(done + here.take(i as int)),
                    decreases rules.len() - i,
                {
                    let rule = &rules[i];
                    let ghost cur = done + here.take(i as int);
                    let ghost next = done + here.take(i + 1);
                    assert(next.drop_last() =~= cur);
                    assert(next.last() == *rule);
                    if rule.from_line_indices.len() > 0xffff_ffff || rule.to_line_indices.len() > 0xffff_ffff {
                        proof {
                            assert(!rule_counts_fit(next));
                            lemma_rules_in_layout_prefix(*graph, layout@, k + 1);
                            assert(next == rules_in_layout(*graph, layout@).take(next.len() as int)) by {
                                assert(rules_in_layout(*graph, layout@.take(k + 1)) == done + here);
                                assert(next =~= (done + here).take(next.len() as int));
                            }
                            let bad = next.len() - 1;
                            assert(all[bad] == next[bad]);
                        }
                        return Err(RmdfWriterError::RuleLineCountTooLarge { relation_id: rule.relation_id });
                    }
                    let from_offset = payload.len() as u64;
                    let from_count = rule.from_line_indices.len() as u32;
                    append_rule_lines(&mut payload, &rule.from_line_indices);
                    let to_offset = payload.len() as u64;
                    let to_count = rule.to_line_indices.len() as u32;
                    append_rule_lines(&mut payload, &rule.to_line_indices);
                    let record = RuleRecord {
                        from_lines_offset: from_offset,
                        from_lines_count: from_count,
                        to_lines_offset: to_offset,
                        to_lines_count: to_count,
                        rule_type: serialize_rule_type(&rule.rule_type),
                    };
                    proof {
                        assert(next.take(cur.len() as int) =~= cur);
                        assert(record == rule_record_of(next, cur.len() as int));
                        assert forall|j: int| 0 <= j < next.len() implies (#[trigger] next[j]).from_line_indices@.len() <= u32::MAX
                            && next[j].to_line_indices@.len() <= u32::MAX by {
                            if j < cur.len() {
                                assert(next[j] == cur[j]);
                            }
                        }
                        assert forall|j: int| 0 <= j < cur.len() implies rule_record_of(next, j) == rule_record_of(cur, j) by {
                            assert(next.take(j) =~= cur.take(j));
                            assert(next[j] == cur[j]);
                        }
                    }
                    records.push(record);
                    i = i + 1;
                }
                assert(here.take(here.len() as int) =~= here);
                assert(rules_in_layout(*graph, layout@.take(k + 1)) == done + here);
            },
        }
        k = k + 1;
    }
    assert(layout@.take(layout.len() as int) =~= layout@);
    if records.len() > 0xffff_ffff {
        return Err(RmdfWriterError::RuleRecordCountTooLarge);
    }
    Ok((records, payload))
}

proof fn lemma_rules_in_layout_prefix(graph: GenerationGraph, layout: Seq<OrderedPoint>, k: int)
    requires
        0 <= k <= layout.len(),
    ensures
        rules_in_layout(graph, layout.take(k)).len() <= rules_in_layout(graph, layout).len(),
        rules_in_layout(graph, layout).take(rules_in_layout(graph, layout.take(k)).len() as int)
            == rules_in_layout(graph, layout.take(k)),
    decreases layout.len() - k,
{
    if k == layout.len() {
        assert(layout.take(k) =~= layout);
        assert(rules_in_layout(graph, layout).take(rules_in_layout(graph, layout).len() as int)
            =~= rules_in_layout(graph, layout));
    } else {
        lemma_rules_in_layout_prefix(graph, layout, k + 1);
        let a = rules_in_layout(graph, layout.take(k));
        let b = rules_in_layout(graph, layout.take(k + 1));
        assert(layout.take(k + 1).drop_last() =~= layout.take(k));
        assert(rules_in_layout(graph, layout).take(a.len() as int) =~= b.take(a.len() as int));
        assert(b.take(a.len() as int) =~= a);
    }
}

proof fn lemma_rule_payload_take(rules: Seq<GenerationRestrictionRule>, k: int)
    requires
        0 <= k <= rules.len(),
    ensures
        rule_payload(rules.take(k)).len() <= rule_payload(rules).len(),
        rule_payload(rules).take(rule_payload(rules.take(k)).len() as int) == rule_payload(rules.take(k)),
    decreases rules.len() - k,
{
    if k == rules.len() {
        assert(rules.take(k) =~= rules);
        assert(rule_payload(rules).take(rule_payload(rules).len() as int) =~= rule_payload(rules));
    } else {
        lemma_rule_payload_take(rules, k + 1);
        let a = rule_payload(rules.take(k));
        let b = rule_payload(rules.take(k + 1));
        assert(rules.take(k + 1).drop_last() =~= rules.take(k));
        assert(rule_payload(rules).take(a.len() as int) =~= b.take(a.len() as int));
        assert(b.take(a.len() as int) =~= a);
    }
}

/// Where each rule's lines lie in the payload: the from slice of its record
/// holds its from lines and the to slice its to lines (the law behind
/// `serialize_rules`).
pub proof fn lemma_rule_payload_slices(rules: Seq<GenerationRestrictionRule>, k: int)
    requires
        0 <= k < rules.len(),
        rule_counts_fit(rules),
        rule_payload(rules).len() <= u64::MAX,
    ensures
        ({
            let r = rule_record_of(rules, k);
            &&& rule_payload(rules).subrange(
                r.from_lines_offset as int,
                r.from_lines_offset + r.from_lines_count,
            ) == rule_lines_u64(rules[k].from_line_indices@)
            &&& rule_payload(rules).subrange(
                r.to_lines_offset as int,
                r.to_lines_offset + r.to_lines_count,
            ) == rule_lines_u64(rules[k].to_line_indices@)
        }),
{
    lemma_rule_payload_take(rules, k + 1);
    let before = rule_payload(rules.take(k));
    let upto = rule_payload(rules.take(k + 1));
    let from = rule_lines_u64(rules[k].from_line_indices@);
    let to = rule_lines_u64(rules[k].to_line_indices@);
    assert(rules.take(k + 1).drop_last() =~= rules.take(k));
    assert(upto == before + from + to);
    let all = rule_payload(rules);
    let b0 = before.len() as int;
    let b1 = b0 + from.len();
    let b2 = upto.len() as int;
    assert(all.subrange(b0, b1) =~= upto.subrange(b0, b1));
    assert(upto.subrange(b0, b1) =~= from);
    assert(all.subrange(b1, b2) =~= upto.subrange(b1, b2));
    assert(upto.subrange(b1, b2) =~= to);
}

/// The sections of a tile, ready to be written: the point layout, the
/// spatial index, the point, line, tag and rule records, the line references
/// of the points, the tag value bytes and the rule payload.
#[derive(Debug)]
pub struct TileSections {
    pub point_layout: Vec<OrderedPoint>,
    pub spatial_index: Vec<GridCellEntry>,
    pub points: Vec<PointRecord>,
    pub lines: Vec<LineRecord>,
    pub line_refs: Vec<u64>,
    pub tag_values: Vec<StringEntry>,
    pub tag_strings: Vec<u8>,
    pub tag_sets: Vec<TagSetRecord>,
    pub rules: Vec<RuleRecord>,
    pub rule_line_refs: Vec<u64>,
}

/// Whether `t` holds the sections of `graph` (with the grid cells `cell_ids`).
pub open spec fn sections_of(t: TileSections, graph: GenerationGraph, cell_ids: Seq<u32>) -> bool {
    let layout = t.point_layout@;
    let rules = rules_in_layout(graph, layout);
    &&& layout_of(layout, graph, cell_ids)
    &&& cell_runs(t.spatial_index@, layout_cells(layout))
    &&& t.points@.len() == layout.len()
    &&& forall|k: int| 0 <= k < layout.len() ==> #[trigger] t.points@[k] == point_record_of(layout[k])
    &&& t.lines@.len() == graph.lines@.len()
    &&& forall|i: int| 0 <= i < graph.lines@.len() ==> #[trigger] t.lines@[i] == line_record_of(
        graph.lines@[i],
        point_named(graph, graph.lines@[i].from_node_id),
        point_named(graph, graph.lines@[i].to_node_id),
    )
    &&& t.line_refs@ == line_refs_of(layout)
    &&& t.tag_values@.len() == graph.tags.tag_values@.len()
    &&& forall|k: int| 0 <= k < graph.tags.tag_values@.len() ==> #[trigger] t.tag_values@[k] == string_entry_of(graph.tags.tag_values@, k)
    &&& t.tag_strings@ == string_pool(graph.tags.tag_values@)
    &&& t.tag_sets@.len() == graph.tags.tag_sets@.len()
    &&& forall|k: int| 0 <= k < t.tag_sets@.len() ==> #[trigger] t.tag_sets@[k] == tag_set_record_of(graph.tags.tag_sets@[k])
    &&& t.rules@.len() == rules.len()
    &&& forall|k: int| 0 <= k < rules.len() ==> #[trigger] t.rules@[k] == rule_record_of(rules, k)
    &&& t.rule_line_refs@ == rule_payload(rules)
}

/// Lays out all sections of a tile from its graph, in the order in which they
/// are written (what `write_tile_from_graph` writes, before the header and
/// the checksum). `cell_ids` holds the grid cell of every point of the graph.
/// It fails when a count of the layout or of the rules does not fit in 32
/// bits, or when a line's point is missing, and otherwise gives the sections
/// (see `sections_of`).
pub fn layout_tile_sections(graph: &GenerationGraph, cell_ids: &[u32]) -> (r: Result<
    TileSections,
    RmdfWriterError,
>)
    requires
        graph.wf(),
        cell_ids@.len() == graph.points@.len(),
        graph.points@.len() <= u32::MAX,
    ensures
        r matches Ok(t) ==> sections_of(t, *graph, cell_ids@),
        r is Err ==> !(forall|p: int| 0 <= p < graph.points@.len() && is_stored(graph.lines@, graph.points@, p)
            ==> point_counts_fit(*graph, #[trigger] graph.points@[p].id)) || (exists|layout: Seq<OrderedPoint>|
            layout_of(layout, *graph, cell_ids@) && !(rule_counts_fit(#[trigger] rules_in_layout(*graph, layout))
            && rules_in_layout(*graph, layout).len() <= u32::MAX)),
{
    let point_layout = match build_point_layout(graph, cell_ids) {
        Ok(layout) => layout,
        Err(e) => return Err(e),
    };
    let spatial_index = build_spatial_index(&point_layout);
    let points = serialize_points(&point_layout);
    let lines = match serialize_lines(graph) {
        Ok(lines) => lines,
        Err(e) => return Err(e),
    };
    let line_refs = serialize_line_refs(&point_layout);
    let (tag_values, tag_strings) = serialize_tag_values(graph);
    let tag_sets = serialize_tag_sets(graph);
    let (rules, rule_line_refs) = match serialize_rules(graph, &point_layout) {
        Ok(sections) => sections,
        Err(e) => {
            assert(layout_of(point_layout@, *graph, cell_ids@));
            return Err(e);
        },
    };
    Ok(
        TileSections {
            point_layout,
            spatial_index,
            points,
            lines,
            line_refs,
            tag_values,
            tag_strings,
            tag_sets,
            rules,
            rule_line_refs,
        },
    )
}

} // verus!
