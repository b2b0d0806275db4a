//! Materializing one tile from the map data around it: the nodes inside the
//! buffered tile bounds, the routable ways with a segment that reaches into
//! the bounds (with the end nodes of every such segment), the ways and nodes
//! that a turn restriction reaching into the tile needs, and the restrictions
//! whose members are in the tile.
//!
//! Whether a node or a segment lies in the bounds is geometry on
//! floating-point coordinates; the caller answers it through `node_in_bounds`
//! and `segment_in_bounds`, which must answer the same for the same nodes.

use std::collections::{HashMap, HashSet};
use vstd::prelude::*;
use crate::generation::materialize::{
    is_restriction_relation, is_routable_highway, members_in_closure, parse_restriction_support, restriction_relation,
    restriction_support, routable_highway,
};
use crate::osm::{OsmNode, OsmRelation, OsmRelationMemberType, OsmWay};

verus! {

broadcast use vstd::std_specs::hash::group_hash_axioms;

/// Whether `f` answers for every pair of nodes, and always the same.
pub open spec fn pair_function<S: Fn(&OsmNode, &OsmNode) -> bool>(f: S) -> bool {
    &&& forall|a: &OsmNode, b: &OsmNode| #[trigger] f.requires((a, b))
    &&& forall|a: &OsmNode, b: &OsmNode, r1: bool, r2: bool|
        #[trigger] f.ensures((a, b), r1) && #[trigger] f.ensures((a, b), r2) ==> r1 == r2
}

/// Whether `f` answers for every node, and always the same.
pub open spec fn node_function<N: Fn(&OsmNode) -> bool>(f: N) -> bool {
    &&& forall|a: &OsmNode| #[trigger] f.requires((a,))
    &&& forall|a: &OsmNode, r1: bool, r2: bool| #[trigger] f.ensures((a,), r1) && #[trigger] f.ensures((a,), r2) ==> r1 == r2
}

/// Whether every node of the map data is stored under its own id.
pub open spec fn keyed_by_id(by_id: Map<u64, OsmNode>) -> bool {
    forall|id: u64| #[trigger] by_id.contains_key(id) ==> by_id[id].id == id
}

/// The answer of `segment_in_bounds` for the segment from `a` to `b`.
pub open spec fn segment_in<S: Fn(&OsmNode, &OsmNode) -> bool>(seg: S, a: OsmNode, b: OsmNode) -> bool {
    seg.ensures((&a, &b), true)
}

/// The answer of `node_in_bounds` for `a`.
pub open spec fn node_in<N: Fn(&OsmNode) -> bool>(f: N, a: OsmNode) -> bool {
    f.ensures((&a,), true)
}

/// Whether segment `k` of a way (from node `ids[k]` to node `ids[k + 1]`) has
/// both nodes in the map data and reaches into the bounds.
pub open spec fn window_kept<S: Fn(&OsmNode, &OsmNode) -> bool>(
    ids: Seq<u64>,
    k: int,
    by_id: Map<u64, OsmNode>,
    seg: S,
) -> bool {
    &&& 0 <= k < ids.len() - 1
    &&& by_id.contains_key(ids[k])
    &&& by_id.contains_key(ids[k + 1])
    &&& segment_in(seg, by_id[ids[k]], by_id[ids[k + 1]])
}

/// Whether some segment of the way is kept.
pub open spec fn way_kept<S: Fn(&OsmNode, &OsmNode) -> bool>(ids: Seq<u64>, by_id: Map<u64, OsmNode>, seg: S) -> bool {
    exists|k: int| #[trigger] window_kept(ids, k, by_id, seg)
}

/// Whether `id` is an end node of a kept segment of the way.
pub open spec fn kept_endpoint<S: Fn(&OsmNode, &OsmNode) -> bool>(
    ids: Seq<u64>,
    id: u64,
    by_id: Map<u64, OsmNode>,
    seg: S,
) -> bool {
    exists|k: int| #[trigger] window_kept(ids, k, by_id, seg) && (ids[k] == id || ids[k + 1] == id)
}

/// The tile nodes after the kept segments of a way added their end nodes.
pub open spec fn materialized_nodes<S: Fn(&OsmNode, &OsmNode) -> bool>(
    ids: Seq<u64>,
    by_id: Map<u64, OsmNode>,
    seg: S,
    nodes: Map<u64, OsmNode>,
) -> Map<u64, OsmNode> {
    Map::new(
        |id: u64| nodes.contains_key(id) || kept_endpoint(ids, id, by_id, seg),
        |id: u64|
            if kept_endpoint(ids, id, by_id, seg) {
                by_id[id]
            } else {
                nodes[id]
            },
    )
}

proof fn lemma_window_prefix<S: Fn(&OsmNode, &OsmNode) -> bool>(
    ids: Seq<u64>,
    j: int,
    k: int,
    by_id: Map<u64, OsmNode>,
    seg: S,
)
    requires
        0 <= k < j - 1,
        j <= ids.len(),
    ensures
        window_kept(ids.take(j), k, by_id, seg) == window_kept(ids, k, by_id, seg),
{
    assert(ids.take(j)[k] == ids[k]);
    assert(ids.take(j)[k + 1] == ids[k + 1]);
}

/// Adds the end nodes of the way's segments that reach into the bounds (as
/// `segment_in_bounds` decides; segments with a node missing from the map data
/// are passed over) and tells whether there was any.
pub fn materialize_locally_relevant_way<S: Fn(&OsmNode, &OsmNode) -> bool>(
    by_id: &HashMap<u64, OsmNode>,
    way: &OsmWay,
    segment_in_bounds: &S,
    tile_nodes: &mut HashMap<u64, OsmNode>,
) -> (kept: bool)
    requires
        pair_function(*segment_in_bounds),
        keyed_by_id(by_id@),
    ensures
        kept == way_kept(way.point_ids@, by_id@, *segment_in_bounds),
        final(tile_nodes)@ == materialized_nodes(way.point_ids@, by_id@, *segment_in_bounds, old(tile_nodes)@),
{
    let ghost ids = way.point_ids@;
    let ghost seg = *segment_in_bounds;
    let mut kept = false;
    let n = way.point_ids.len();
    if n < 2 {
        assert(tile_nodes@ =~= materialized_nodes(ids, by_id@, seg, old(tile_nodes)@));
        return false;
    }
    let mut k: usize = 0;
    assert(tile_nodes@ =~= materialized_nodes(ids.take(1), by_id@, seg, old(tile_nodes)@));
    while k < n - 1
        invariant
            n == ids.len(),
            n >= 2,
            ids == way.point_ids@,
            seg == *segment_in_bounds,
            pair_function(seg),
            keyed_by_id(by_id@),
            k <= n - 1,
            kept == way_kept(ids.take(k + 1), by_id@, seg),
            tile_nodes@ == materialized_nodes(ids.take(k + 1), by_id@, seg, old(tile_nodes)@),
        decreases n - 1 - k,
    {
        let from = by_id.get(&way.point_ids[k]);
        let to = by_id.get(&way.point_ids[k + 1]);
        let ghost before = tile_nodes@;
        let ghost kept_before = kept;
        let mut hit = false;
        match (from, to) {
            (Some(from_node), Some(to_node)) => {
                if segment_in_bounds(from_node, to_node) {
                    tile_nodes.insert(from_node.id, *from_node);
                    tile_nodes.insert(to_node.id, *to_node);
                    hit = true;
                }
            },
            _ => {},
        }
        proof {
            let p = ids.take(k + 1);
            let q = ids.take(k + 2);
            assert forall|j: int| 0 <= j < k implies #[trigger] window_kept(q, j, by_id@, seg) == window_kept(
                p,
                j,
                by_id@,
                seg,
            ) by {
                lemma_window_prefix(ids, k + 2, j, by_id@, seg);
                lemma_window_prefix(ids, k + 1, j, by_id@, seg);
            }
            assert(window_kept(q, k as int, by_id@, seg) == hit) by {
                assert(q[k as int] == ids[k as int]);
                assert(q[k + 1] == ids[k + 1]);
                if hit {
                    assert(by_id@.contains_key(ids[k as int]) && by_id@.contains_key(ids[k + 1]));
                } else if by_id@.contains_key(ids[k as int]) && by_id@.contains_key(ids[k + 1]) {
                    assert(!segment_in(seg, by_id@[ids[k as int]], by_id@[ids[k + 1]]));
                }
            }
            assert(!window_kept(p, k as int, by_id@, seg));
            assert forall|j: int| #[trigger] window_kept(q, j, by_id@, seg) ==> j <= k by {}
            assert forall|j: int| #[trigger] window_kept(p, j, by_id@, seg) ==> j < k by {}
            assert(way_kept(q, by_id@, seg) == (kept_before || hit)) by {
                if way_kept(q, by_id@, seg) && !hit {
                    let j = choose|j: int| #[trigger] window_kept(q, j, by_id@, seg);
                    assert(window_kept(p, j, by_id@, seg));
                }
                if kept_before {
                    let j = choose|j: int| #[trigger] window_kept(p, j, by_id@, seg);
                    assert(window_kept(q, j, by_id@, seg));
                }
                if hit {
                    assert(window_kept(q, k as int, by_id@, seg));
                }
            }
            let a = ids[k as int];
            let b = ids[k + 1];
            assert forall|id: u64| #[trigger] kept_endpoint(q, id, by_id@, seg) == (kept_endpoint(p, id, by_id@, seg) || (
            hit && (id == a || id == b))) by {
                if kept_endpoint(q, id, by_id@, seg) {
                    let j = choose|j: int| #[trigger] window_kept(q, j, by_id@, seg) && (q[j] == id || q[j + 1] == id);
                    if j < k {
                        assert(window_kept(p, j, by_id@, seg));
                        assert(p[j] == q[j] && p[j + 1] == q[j + 1]);
                    } else {
                        assert(q[j] == a && q[j + 1] == b);
                    }
                }
                if kept_endpoint(p, id, by_id@, seg) {
                    let j = choose|j: int| #[trigger] window_kept(p, j, by_id@, seg) && (p[j] == id || p[j + 1] == id);
                    assert(window_kept(q, j, by_id@, seg));
                    assert(p[j] == q[j] && p[j + 1] == q[j + 1]);
                }
                if hit && (id == a || id == b) {
                    assert(window_kept(q, k as int, by_id@, seg));
                    assert(q[k as int] == a && q[k + 1] == b);
                }
            }
            assert(tile_nodes@ =~= materialized_nodes(q, by_id@, seg, old(tile_nodes)@));
        }
        kept = kept || hit;
        k = k + 1;
    }
    assert(ids.take(n as int) =~= ids);
    kept
}

/// A way as the tile holds it: id, node ids and tags.
pub type WayView = (u64, Seq<u64>, Option<Map<Seq<char>, Seq<char>>>);

/// The view of a way.
pub open spec fn way_view(w: OsmWay) -> WayView {
    (
        w.id,
        w.point_ids@,
        match w.tags {
            Some(t) => Some(t@),
            None => None,
        },
    )
}

/// A copy of a way.
fn copy_way(w: &OsmWay) -> (r: OsmWay)
    ensures
        way_view(r) == way_view(*w),
        routable_highway(r) == routable_highway(*w),
{
    let mut ids: Vec<u64> = Vec::new();
    let mut i: usize = 0;
    while i < w.point_ids.len()
        invariant
            i <= w.point_ids@.len(),
            ids@ == w.point_ids@.take(i as int),
        decreases w.point_ids.len() - i,
    {
        ids.push(w.point_ids[i]);
        i = i + 1;
        assert(ids@ =~= w.point_ids@.take(i as int));
    }
    assert(w.point_ids@.take(w.point_ids@.len() as int) =~= w.point_ids@);
    let tags = match &w.tags {
        Some(t) => Some(t.clone()),
        None => None,
    };
    OsmWay { id: w.id, point_ids: ids, tags }
}

/// Whether the way has a kept segment that starts or ends at node `via`.
pub fn way_has_via_adjacent_segment_in_bounds<S: Fn(&OsmNode, &OsmNode) -> bool>(
    by_id: &HashMap<u64, OsmNode>,
    way: &OsmWay,
    via_node_id: u64,
    segment_in_bounds: &S,
) -> (res: bool)
    requires
        pair_function(*segment_in_bounds),
    ensures
        res == kept_endpoint(way.point_ids@, via_node_id, by_id@, *segment_in_bounds),
{
    let ghost ids = way.point_ids@;
    let ghost seg = *segment_in_bounds;
    let n = way.point_ids.len();
    if n < 2 {
        return false;
    }
    let mut k: usize = 0;
    while k < n - 1
        invariant
            n == ids.len(),
            n >= 2,
            ids == way.point_ids@,
            seg == *segment_in_bounds,
            pair_function(seg),
            k <= n - 1,
            forall|j: int| 0 <= j < k ==> !(#[trigger] window_kept(ids, j, by_id@, seg) && (ids[j] == via_node_id
                || ids[j + 1] == via_node_id)),
        decreases n - 1 - k,
    {
        let a = way.point_ids[k];
        let b = way.point_ids[k + 1];
        if a == via_node_id || b == via_node_id {
            match (by_id.get(&a), by_id.get(&b)) {
                (Some(from_node), Some(to_node)) => {
                    if segment_in_bounds(from_node, to_node) {
                        assert(window_kept(ids, k as int, by_id@, seg));
                        return true;
                    }
                },
                _ => {},
            }
        }
        k = k + 1;
    }
    false
}

/// Whether a restriction reaches into the bounds: its via node lies in the
/// bounds, or one of its ways has a kept segment at the via node.
pub open spec fn support_intersects<N: Fn(&OsmNode) -> bool, S: Fn(&OsmNode, &OsmNode) -> bool>(
    from: Seq<u64>,
    via: u64,
    to: Seq<u64>,
    by_id: Map<u64, OsmNode>,
    ways_by_id: Map<u64, OsmWay>,
    node_pred: N,
    seg: S,
) -> bool {
    ||| by_id.contains_key(via) && node_in(node_pred, by_id[via])
    ||| exists|i: int|
        0 <= i < (from + to).len() && ways_by_id.contains_key((from + to)[i]) && #[trigger] kept_endpoint(
            ways_by_id[(from + to)[i]].point_ids@,
            via,
            by_id,
            seg,
        )
}

/// Whether a restriction reaches into the bounds (see `support_intersects`).
pub fn restriction_support_intersects_bounds<N: Fn(&OsmNode) -> bool, S: Fn(&OsmNode, &OsmNode) -> bool>(
    by_id: &HashMap<u64, OsmNode>,
    ways_by_id: &HashMap<u64, OsmWay>,
    from_way_ids: &Vec<u64>,
    via_node_id: u64,
    to_way_ids: &Vec<u64>,
    node_in_bounds: &N,
    segment_in_bounds: &S,
) -> (res: bool)
    requires
        node_function(*node_in_bounds),
        pair_function(*segment_in_bounds),
    ensures
        res == support_intersects(
            from_way_ids@,
            via_node_id,
            to_way_ids@,
            by_id@,
            ways_by_id@,
            *node_in_bounds,
            *segment_in_bounds,
        ),
{
    let ghost all = from_way_ids@ + to_way_ids@;
    let ghost node_pred = *node_in_bounds;
    let ghost seg = *segment_in_bounds;
    match by_id.get(&via_node_id) {
        Some(via_node) => {
            if node_in_bounds(via_node) {
                return true;
            }
        },
        None => {},
    }
    let mut i: usize = 0;
    while i < from_way_ids.len()
        invariant
            all == from_way_ids@ + to_way_ids@,
            i <= from_way_ids@.len(),
            seg == *segment_in_bounds,
            pair_function(seg),
            forall|j: int| 0 <= j < i ==> !(ways_by_id@.contains_key(all[j]) && #[trigger] kept_endpoint(
                ways_by_id@[all[j]].point_ids@,
                via_node_id,
                by_id@,
                seg,
            )),
        decreases from_way_ids.len() - i,
    {
        let way_id = from_way_ids[i];
        assert(way_id == all[i as int]);
        match ways_by_id.get(&way_id) {
            Some(way) => {
                if way_has_via_adjacent_segment_in_bounds(by_id, way, via_node_id, segment_in_bounds) {
                    return true;
                }
            },
            None => {},
        }
        i = i + 1;
    }
    let mut t: usize = 0;
    while t < to_way_ids.len()
        invariant
            all == from_way_ids@ + to_way_ids@,
            t <= to_way_ids@.len(),
            seg == *segment_in_bounds,
            pair_function(seg),
            forall|j: int| 0 <= j < from_way_ids@.len() + t ==> !(ways_by_id@.contains_key(all[j]) && #[trigger] kept_endpoint(
                ways_by_id@[all[j]].point_ids@,
                via_node_id,
                by_id@,
                seg,
            )),
        decreases to_way_ids.len() - t,
    {
        let way_id = to_way_ids[t];
        assert(way_id == all[from_way_ids@.len() + t]);
        match ways_by_id.get(&way_id) {
            Some(way) => {
                if way_has_via_adjacent_segment_in_bounds(by_id, way, via_node_id, segment_in_bounds) {
                    return true;
                }
            },
            None => {},
        }
        t = t + 1;
    }
    false
}

/// What a tile holds while it is materialized: its nodes by id, its ways (as
/// views, in order) and the ids of its ways.
pub type TileModel = (Map<u64, OsmNode>, Seq<WayView>, Set<u64>);

/// The tile data being materialized.
#[derive(Debug)]
pub struct MaterializedTileData {
    pub nodes: HashMap<u64, OsmNode>,
    pub ways: Vec<OsmWay>,
    pub relations: Vec<OsmRelation>,
}

impl Default for MaterializedTileData {
    /// An empty tile.
    fn default() -> (d: Self)
        ensures
            d.nodes@ == Map::<u64, OsmNode>::empty(),
            d.ways@ == Seq::<OsmWay>::empty(),
            d.relations@ == Seq::<OsmRelation>::empty(),
    {
        MaterializedTileData { nodes: HashMap::new(), ways: Vec::new(), relations: Vec::new() }
    }
}

/// Why a materialized tile is refused.
#[derive(Clone, Copy, Debug, PartialEq, Eq)]
pub enum MaterializationError {
    /// A way of the tile has a segment that reaches into the bounds, and one
    /// of its end nodes is not in the tile.
    MissingLocallyRelevantSegmentEndpoints { way_id: u64, from_node_id: u64, to_node_id: u64 },
}

/// The model of a tile and the set of its way ids.
pub open spec fn model_of(tile: MaterializedTileData, way_ids: Set<u64>) -> TileModel {
    (tile.nodes@, tile.ways@.map_values(|w: OsmWay| way_view(w)), way_ids)
}

/// The tile after a way was considered: a routable way adds the end nodes of
/// its kept segments, and joins the tile's ways when it has any and no way
/// with its id is there yet.
pub open spec fn add_way<S: Fn(&OsmNode, &OsmNode) -> bool>(
    t: TileModel,
    w: OsmWay,
    by_id: Map<u64, OsmNode>,
    seg: S,
) -> TileModel {
    if !routable_highway(w) {
        t
    } else {
        let nodes = materialized_nodes(w.point_ids@, by_id, seg, t.0);
        if way_kept(w.point_ids@, by_id, seg) && !t.2.contains(w.id) {
            (nodes, t.1.push(way_view(w)), t.2.insert(w.id))
        } else {
            (nodes, t.1, t.2)
        }
    }
}

/// Whether every kept segment of every way of the tile has both end nodes in
/// the tile.
pub open spec fn segments_closed<S: Fn(&OsmNode, &OsmNode) -> bool>(t: TileModel, by_id: Map<u64, OsmNode>, seg: S) -> bool {
    forall|i: int, k: int|
        0 <= i < t.1.len() && #[trigger] window_kept(t.1[i].1, k, by_id, seg) ==> t.0.contains_key(t.1[i].1[k])
            && t.0.contains_key(t.1[i].1[k + 1])
}

proof fn lemma_add_way_closed<S: Fn(&OsmNode, &OsmNode) -> bool>(
    t: TileModel,
    w: OsmWay,
    by_id: Map<u64, OsmNode>,
    seg: S,
)
    requires
        segments_closed(t, by_id, seg),
    ensures
        segments_closed(add_way(t, w, by_id, seg), by_id, seg),
        t.0.dom().subset_of(add_way(t, w, by_id, seg).0.dom()),
{
    let r = add_way(t, w, by_id, seg);
    if routable_highway(w) {
        assert forall|i: int, k: int|
            0 <= i < r.1.len() && #[trigger] window_kept(r.1[i].1, k, by_id, seg) implies r.0.contains_key(r.1[i].1[k])
                && r.0.contains_key(r.1[i].1[k + 1]) by {
            if i < t.1.len() {
                assert(r.1[i] == t.1[i]);
            } else {
                assert(r.1[i] == way_view(w));
                assert(kept_endpoint(w.point_ids@, w.point_ids@[k], by_id, seg));
                assert(kept_endpoint(w.point_ids@, w.point_ids@[k + 1], by_id, seg));
            }
        }
    }
}

/// Whether some member of the relation is a node of the tile, a way of the
/// tile, or a relation.
fn relation_has_members_in_tile(
    relation: &OsmRelation,
    nodes: &HashMap<u64, OsmNode>,
    way_ids: &HashSet<u64>,
) -> (res: bool)
    ensures
        res == members_in_closure(relation.members@, nodes@.dom(), way_ids@),
{
    let mut i: usize = 0;
    while i < relation.members.len()
        invariant
            i <= relation.members@.len(),
            forall|j: int| 0 <= j < i ==> !match (#[trigger] relation.members@[j]).member_type {
                OsmRelationMemberType::Node => nodes@.dom().contains(relation.members@[j].member_ref),
                OsmRelationMemberType::Way => way_ids@.contains(relation.members@[j].member_ref),
                OsmRelationMemberType::Relation => true,
            },
        decreases relation.members@.len() - i,
    {
        let member = &relation.members[i];
        let inside = match member.member_type {
            OsmRelationMemberType::Node => nodes.contains_key(&member.member_ref),
            OsmRelationMemberType::Way => way_ids.contains(&member.member_ref),
            OsmRelationMemberType::Relation => true,
        };
        if inside {
            return true;
        }
        i = i + 1;
    }
    false
}

/// Considers a way for the tile (see `add_way`).
fn add_way_to_tile<S: Fn(&OsmNode, &OsmNode) -> bool>(
    by_id: &HashMap<u64, OsmNode>,
    way: OsmWay,
    segment_in_bounds: &S,
    tile: &mut MaterializedTileData,
    way_ids: &mut HashSet<u64>,
)
    requires
        pair_function(*segment_in_bounds),
        keyed_by_id(by_id@),
    ensures
        model_of(*final(tile), final(way_ids)@) == add_way(
            model_of(*old(tile), old(way_ids)@),
            way,
            by_id@,
            *segment_in_bounds,
        ),
        final(tile).relations == old(tile).relations,
{
    if !is_routable_highway(&way) {
        return;
    }
    let ghost ways_before = tile.ways@;
    if materialize_locally_relevant_way(by_id, &way, segment_in_bounds, &mut tile.nodes) {
        let ghost w = way;
        crate::generation::materialize::insert_way_once(&mut tile.ways, way_ids, way);
        proof {
            if !old(way_ids)@.contains(w.id) {
                assert(tile.ways@.map_values(|x: OsmWay| way_view(x)) =~= ways_before.map_values(|x: OsmWay| way_view(x)).push(
                    way_view(w),
                ));
            } else {
                assert(way_ids@ =~= old(way_ids)@);
            }
        }
    }
}

/// The tile after the ways with the given ids (those in the map data) were
/// considered, in order.
pub open spec fn add_support_ways<S: Fn(&OsmNode, &OsmNode) -> bool>(
    t: TileModel,
    ids: Seq<u64>,
    ways_by_id: Map<u64, OsmWay>,
    by_id: Map<u64, OsmNode>,
    seg: S,
) -> TileModel
    decreases ids.len(),
{
    if ids.len() == 0 {
        t
    } else {
        let t0 = add_support_ways(t, ids.drop_last(), ways_by_id, by_id, seg);
        if ways_by_id.contains_key(ids.last()) {
            add_way(t0, ways_by_id[ids.last()], by_id, seg)
        } else {
            t0
        }
    }
}

/// The tile after a relation was considered: a restriction with a single via
/// node whose members are already in the tile, or that reaches into the
/// bounds, brings its via node and its `from` and `to` ways.
pub open spec fn add_relation_support<N: Fn(&OsmNode) -> bool, S: Fn(&OsmNode, &OsmNode) -> bool>(
    t: TileModel,
    rel: OsmRelation,
    ways_by_id: Map<u64, OsmWay>,
    by_id: Map<u64, OsmNode>,
    node_pred: N,
    seg: S,
) -> TileModel {
    if !restriction_relation(rel) {
        t
    } else {
        match restriction_support(rel.members@) {
            None => t,
            Some((from, via, to)) => {
                if !members_in_closure(rel.members@, t.0.dom(), t.2) && !support_intersects(
                    from,
                    via,
                    to,
                    by_id,
                    ways_by_id,
                    node_pred,
                    seg,
                ) {
                    t
                } else {
                    let t1 = if by_id.contains_key(via) {
                        (t.0.insert(via, by_id[via]), t.1, t.2)
                    } else {
                        t
                    };
                    add_support_ways(t1, from + to, ways_by_id, by_id, seg)
                }
            },
        }
    }
}

/// The tile after the relations were considered, in order.
pub open spec fn add_relations_support<N: Fn(&OsmNode) -> bool, S: Fn(&OsmNode, &OsmNode) -> bool>(
    t: TileModel,
    rels: Seq<OsmRelation>,
    ways_by_id: Map<u64, OsmWay>,
    by_id: Map<u64, OsmNode>,
    node_pred: N,
    seg: S,
) -> TileModel
    decreases rels.len(),
{
    if rels.len() == 0 {
        t
    } else {
        add_relation_support(
            add_relations_support(t, rels.drop_last(), ways_by_id, by_id, node_pred, seg),
            rels.last(),
            ways_by_id,
            by_id,
            node_pred,
            seg,
        )
    }
}

proof fn lemma_support_ways_closed<S: Fn(&OsmNode, &OsmNode) -> bool>(
    t: TileModel,
    ids: Seq<u64>,
    ways_by_id: Map<u64, OsmWay>,
    by_id: Map<u64, OsmNode>,
    seg: S,
)
    requires
        segments_closed(t, by_id, seg),
    ensures
        segments_closed(add_support_ways(t, ids, ways_by_id, by_id, seg), by_id, seg),
    decreases ids.len(),
{
    if ids.len() > 0 {
        lemma_support_ways_closed(t, ids.drop_last(), ways_by_id, by_id, seg);
        let t0 = add_support_ways(t, ids.drop_last(), ways_by_id, by_id, seg);
        if ways_by_id.contains_key(ids.last()) {
            lemma_add_way_closed(t0, ways_by_id[ids.last()], by_id, seg);
        }
    }
}

proof fn lemma_relations_support_closed<N: Fn(&OsmNode) -> bool, S: Fn(&OsmNode, &OsmNode) -> bool>(
    t: TileModel,
    rels: Seq<OsmRelation>,
    ways_by_id: Map<u64, OsmWay>,
    by_id: Map<u64, OsmNode>,
    node_pred: N,
    seg: S,
)
    requires
        segments_closed(t, by_id, seg),
    ensures
        segments_closed(add_relations_support(t, rels, ways_by_id, by_id, node_pred, seg), by_id, seg),
    decreases rels.len(),
{
    if rels.len() > 0 {
        lemma_relations_support_closed(t, rels.drop_last(), ways_by_id, by_id, node_pred, seg);
        let t0 = add_relations_support(t, rels.drop_last(), ways_by_id, by_id, node_pred, seg);
        let rel = rels.last();
        if restriction_relation(rel) {
            if let Some((from, via, to)) = restriction_support(rel.members@) {
                let t1 = if by_id.contains_key(via) {
                    (t0.0.insert(via, by_id[via]), t0.1, t0.2)
                } else {
                    t0
                };
                assert(segments_closed(t1, by_id, seg));
                lemma_support_ways_closed(t1, from + to, ways_by_id, by_id, seg);
            }
        }
    }
}

proof fn lemma_support_ways_concat<S: Fn(&OsmNode, &OsmNode) -> bool>(
    t: TileModel,
    a: Seq<u64>,
    b: Seq<u64>,
    ways_by_id: Map<u64, OsmWay>,
    by_id: Map<u64, OsmNode>,
    seg: S,
)
    ensures
        add_support_ways(t, a + b, ways_by_id, by_id, seg) == add_support_ways(
            add_support_ways(t, a, ways_by_id, by_id, seg),
            b,
            ways_by_id,
            by_id,
            seg,
        ),
    decreases b.len(),
{
    if b.len() == 0 {
        assert(a + b =~= a);
    } else {
        lemma_support_ways_concat(t, a, b.drop_last(), ways_by_id, by_id, seg);
        assert((a + b).drop_last() =~= a + b.drop_last());
        assert((a + b).last() == b.last());
    }
}

/// Considers the ways with the given ids, in order (see `add_support_ways`).
fn add_support_ways_to_tile<S: Fn(&OsmNode, &OsmNode) -> bool>(
    by_id: &HashMap<u64, OsmNode>,
    ways_by_id: &HashMap<u64, OsmWay>,
    way_ids_to_add: &Vec<u64>,
    segment_in_bounds: &S,
    tile: &mut MaterializedTileData,
    way_ids: &mut HashSet<u64>,
)
    requires
        pair_function(*segment_in_bounds),
        keyed_by_id(by_id@),
    ensures
        model_of(*final(tile), final(way_ids)@) == add_support_ways(
            model_of(*old(tile), old(way_ids)@),
            way_ids_to_add@,
            ways_by_id@,
            by_id@,
            *segment_in_bounds,
        ),
        final(tile).relations == old(tile).relations,
{
    let ghost ids = way_ids_to_add@;
    let ghost seg = *segment_in_bounds;
    let ghost t0 = model_of(*tile, way_ids@);
    let mut i: usize = 0;
    assert(ids.take(0) =~= Seq::<u64>::empty());
    while i < way_ids_to_add.len()
        invariant
            ids == way_ids_to_add@,
            i <= ids.len(),
            pair_function(seg),
            seg == *segment_in_bounds,
            keyed_by_id(by_id@),
            t0 == model_of(*old(tile), old(way_ids)@),
            tile.relations == old(tile).relations,
            model_of(*tile, way_ids@) == add_support_ways(t0, ids.take(i as int), ways_by_id@, by_id@, seg),
        decreases ids.len() - i,
    {
        let way_id = way_ids_to_add[i];
        proof {
            assert(ids.take(i + 1).drop_last() =~= ids.take(i as int));
            assert(ids.take(i + 1).last() == ids[i as int]);
        }
        match ways_by_id.get(&way_id) {
            Some(way) => {
                let copy = copy_way(way);
                let ghost before = model_of(*tile, way_ids@);
                add_way_to_tile(by_id, copy, segment_in_bounds, tile, way_ids);
                assert(add_way(before, copy, by_id@, seg) == add_way(before, *way, by_id@, seg));
            },
            None => {},
        }
        i = i + 1;
    }
    assert(ids.take(ids.len() as int) =~= ids);
}

/// Considers one relation (see `add_relation_support`).
fn add_relation_support_to_tile<N: Fn(&OsmNode) -> bool, S: Fn(&OsmNode, &OsmNode) -> bool>(
    relation: &OsmRelation,
    by_id: &HashMap<u64, OsmNode>,
    ways_by_id: &HashMap<u64, OsmWay>,
    node_in_bounds: &N,
    segment_in_bounds: &S,
    tile: &mut MaterializedTileData,
    way_ids: &mut HashSet<u64>,
)
    requires
        node_function(*node_in_bounds),
        pair_function(*segment_in_bounds),
        keyed_by_id(by_id@),
    ensures
        model_of(*final(tile), final(way_ids)@) == add_relation_support(
            model_of(*old(tile), old(way_ids)@),
            *relation,
            ways_by_id@,
            by_id@,
            *node_in_bounds,
            *segment_in_bounds,
        ),
        final(tile).relations == old(tile).relations,
{
    if !is_restriction_relation(relation) {
        return;
    }
    let (from_way_ids, via_node_id, to_way_ids) = match parse_restriction_support(relation) {
        None => {
            return;
        },
        Some(support) => support,
    };
    let in_closure = relation_has_members_in_tile(relation, &tile.nodes, way_ids);
    if !in_closure && !restriction_support_intersects_bounds(
        by_id,
        ways_by_id,
        &from_way_ids,
        via_node_id,
        &to_way_ids,
        node_in_bounds,
        segment_in_bounds,
    ) {
        return;
    }
    match by_id.get(&via_node_id) {
        Some(via_node) => {
            tile.nodes.insert(via_node_id, *via_node);
        },
        None => {},
    }
    let ghost t1 = model_of(*tile, way_ids@);
    add_support_ways_to_tile(by_id, ways_by_id, &from_way_ids, segment_in_bounds, tile, way_ids);
    add_support_ways_to_tile(by_id, ways_by_id, &to_way_ids, segment_in_bounds, tile, way_ids);
    proof {
        lemma_support_ways_concat(t1, from_way_ids@, to_way_ids@, ways_by_id@, by_id@, *segment_in_bounds);
    }
}

/// Brings in, for every restriction relation among `relations_in_bounds`
/// (in order), what it needs (see `add_relation_support`).
pub fn expand_restriction_support<N: Fn(&OsmNode) -> bool, S: Fn(&OsmNode, &OsmNode) -> bool>(
    relations_in_bounds: &Vec<OsmRelation>,
    by_id: &HashMap<u64, OsmNode>,
    ways_by_id: &HashMap<u64, OsmWay>,
    node_in_bounds: &N,
    segment_in_bounds: &S,
    tile: &mut MaterializedTileData,
    way_ids: &mut HashSet<u64>,
)
    requires
        node_function(*node_in_bounds),
        pair_function(*segment_in_bounds),
        keyed_by_id(by_id@),
    ensures
        model_of(*final(tile), final(way_ids)@) == add_relations_support(
            model_of(*old(tile), old(way_ids)@),
            relations_in_bounds@,
            ways_by_id@,
            by_id@,
            *node_in_bounds,
            *segment_in_bounds,
        ),
        final(tile).relations == old(tile).relations,
{
    let ghost rels = relations_in_bounds@;
    let ghost node_pred = *node_in_bounds;
    let ghost seg = *segment_in_bounds;
    let ghost t0 = model_of(*tile, way_ids@);
    let mut r: usize = 0;
    assert(rels.take(0) =~= Seq::<OsmRelation>::empty());
    while r < relations_in_bounds.len()
        invariant
            rels == relations_in_bounds@,
            r <= rels.len(),
            node_function(node_pred),
            pair_function(seg),
            node_pred == *node_in_bounds,
            seg == *segment_in_bounds,
            keyed_by_id(by_id@),
            t0 == model_of(*old(tile), old(way_ids)@),
            tile.relations == old(tile).relations,
            model_of(*tile, way_ids@) == add_relations_support(t0, rels.take(r as int), ways_by_id@, by_id@, node_pred, seg),
        decreases rels.len() - r,
    {
        proof {
            assert(rels.take(r + 1).drop_last() =~= rels.take(r as int));
            assert(rels.take(r + 1).last() == rels[r as int]);
        }
        add_relation_support_to_tile(&relations_in_bounds[r], by_id, ways_by_id, node_in_bounds, segment_in_bounds, tile, way_ids);
        r = r + 1;
    }
    assert(rels.take(rels.len() as int) =~= rels);
}

/// Whether segment `k` of a way reaches into the bounds while one of its end
/// nodes is missing from the tile's nodes.
pub open spec fn violation_at<S: Fn(&OsmNode, &OsmNode) -> bool>(
    ids: Seq<u64>,
    k: int,
    by_id: Map<u64, OsmNode>,
    seg: S,
    nodes: Map<u64, OsmNode>,
) -> bool {
    window_kept(ids, k, by_id, seg) && (!nodes.contains_key(ids[k]) || !nodes.contains_key(ids[k + 1]))
}

/// Checks that every segment of the tile's ways that reaches into the bounds
/// has both end nodes in the tile; the first one, in way and segment order,
/// that has not is the error.
pub fn validate_materialized_tile<S: Fn(&OsmNode, &OsmNode) -> bool>(
    by_id: &HashMap<u64, OsmNode>,
    segment_in_bounds: &S,
    tile: &MaterializedTileData,
) -> (r: Result<(), MaterializationError>)
    requires
        pair_function(*segment_in_bounds),
        keyed_by_id(by_id@),
    ensures
        r is Ok <==> forall|i: int, k: int|
            0 <= i < tile.ways@.len() ==> !#[trigger] violation_at(
                tile.ways@[i].point_ids@,
                k,
                by_id@,
                *segment_in_bounds,
                tile.nodes@,
            ),
        r matches Err(MaterializationError::MissingLocallyRelevantSegmentEndpoints { way_id, from_node_id, to_node_id })
            ==> exists|i: int, k: int| {
            &&& 0 <= i < tile.ways@.len()
            &&& #[trigger] violation_at(tile.ways@[i].point_ids@, k, by_id@, *segment_in_bounds, tile.nodes@)
            &&& forall|i2: int, k2: int|
                0 <= i2 < i ==> !#[trigger] violation_at(
                    tile.ways@[i2].point_ids@,
                    k2,
                    by_id@,
                    *segment_in_bounds,
                    tile.nodes@,
                )
            &&& forall|k2: int|
                k2 < k ==> !#[trigger] violation_at(tile.ways@[i].point_ids@, k2, by_id@, *segment_in_bounds, tile.nodes@)
            &&& way_id == tile.ways@[i].id
            &&& from_node_id == tile.ways@[i].point_ids@[k]
            &&& to_node_id == tile.ways@[i].point_ids@[k + 1]
        },
{
    let ghost seg = *segment_in_bounds;
    let mut i: usize = 0;
    while i < tile.ways.len()
        invariant
            i <= tile.ways@.len(),
            pair_function(seg),
            seg == *segment_in_bounds,
            keyed_by_id(by_id@),
            forall|i2: int, k2: int|
                0 <= i2 < i ==> !#[trigger] violation_at(tile.ways@[i2].point_ids@, k2, by_id@, seg, tile.nodes@),
        decreases tile.ways.len() - i,
    {
        let way = &tile.ways[i];
        let ghost ids = way.point_ids@;
        let n = way.point_ids.len();
        if n >= 2 {
            let mut k: usize = 0;
            while k < n - 1
                invariant
                    n == ids.len(),
                    n >= 2,
                    ids == tile.ways@[i as int].point_ids@,
                    ids == way.point_ids@,
                    *way == tile.ways@[i as int],
                    i < tile.ways@.len(),
                    pair_function(seg),
                    seg == *segment_in_bounds,
                    keyed_by_id(by_id@),
                    k <= n - 1,
                    forall|i2: int, k2: int|
                        0 <= i2 < i ==> !#[trigger] violation_at(tile.ways@[i2].point_ids@, k2, by_id@, seg, tile.nodes@),
                    forall|k2: int| k2 < k ==> !#[trigger] violation_at(ids, k2, by_id@, seg, tile.nodes@),
                decreases n - 1 - k,
            {
                match (by_id.get(&way.point_ids[k]), by_id.get(&way.point_ids[k + 1])) {
                    (Some(from_node), Some(to_node)) => {
                        if segment_in_bounds(from_node, to_node) && (!tile.nodes.contains_key(&from_node.id)
                            || !tile.nodes.contains_key(&to_node.id)) {
                            assert(violation_at(ids, k as int, by_id@, seg, tile.nodes@));
                            return Err(
                                MaterializationError::MissingLocallyRelevantSegmentEndpoints {
                                    way_id: way.id,
                                    from_node_id: from_node.id,
                                    to_node_id: to_node.id,
                                },
                            );
                        }
                    },
                    _ => {},
                }
                k = k + 1;
            }
        }
        assert forall|k2: int| !#[trigger] violation_at(ids, k2, by_id@, seg, tile.nodes@) by {}
        i = i + 1;
    }
    Ok(())
}

proof fn lemma_add_ways_closed<S: Fn(&OsmNode, &OsmNode) -> bool>(
    t: TileModel,
    ways: Seq<OsmWay>,
    by_id: Map<u64, OsmNode>,
    seg: S,
)
    requires
        segments_closed(t, by_id, seg),
    ensures
        segments_closed(add_ways(t, ways, by_id, seg), by_id, seg),
    decreases ways.len(),
{
    if ways.len() > 0 {
        lemma_add_ways_closed(t, ways.drop_last(), by_id, seg);
        lemma_add_way_closed(add_ways(t, ways.drop_last(), by_id, seg), ways.last(), by_id, seg);
    }
}

/// The nodes of a list by their ids (a later node with an id replaces an
/// earlier one).
pub open spec fn nodes_by_their_ids(nodes: Seq<OsmNode>) -> Map<u64, OsmNode>
    decreases nodes.len(),
{
    if nodes.len() == 0 {
        Map::empty()
    } else {
        nodes_by_their_ids(nodes.drop_last()).insert(nodes.last().id, nodes.last())
    }
}

/// The tile after the ways were considered, in order.
pub open spec fn add_ways<S: Fn(&OsmNode, &OsmNode) -> bool>(
    t: TileModel,
    ways: Seq<OsmWay>,
    by_id: Map<u64, OsmNode>,
    seg: S,
) -> TileModel
    decreases ways.len(),
{
    if ways.len() == 0 {
        t
    } else {
        add_way(add_ways(t, ways.drop_last(), by_id, seg), ways.last(), by_id, seg)
    }
}

/// The relations, in order, that are restrictions with a member in the tile.
pub open spec fn relations_in_closure(rels: Seq<OsmRelation>, nodes: Set<u64>, ways: Set<u64>) -> Seq<OsmRelation>
    decreases rels.len(),
{
    if rels.len() == 0 {
        Seq::empty()
    } else {
        relations_in_closure(rels.drop_last(), nodes, ways) + if restriction_relation(rels.last())
            && members_in_closure(rels.last().members@, nodes, ways) {
            seq![rels.last()]
        } else {
            Seq::empty()
        }
    }
}

/// The map data around a tile: what the spatial index returns for the
/// buffered tile bounds (nodes, ways and relations, in index order), and the
/// nodes and ways of the whole data by id.
pub struct PbfQuery {
    pub nodes_in_bounds: Vec<OsmNode>,
    pub ways_in_bounds: Vec<OsmWay>,
    pub relations_in_bounds: Vec<OsmRelation>,
    pub nodes_by_id: HashMap<u64, OsmNode>,
    pub ways_by_id: HashMap<u64, OsmWay>,
}

/// The nodes and ways of the tile: the nodes in the bounds, then each
/// routable way in the bounds, then what the restrictions need.
pub open spec fn materialized_model<N: Fn(&OsmNode) -> bool, S: Fn(&OsmNode, &OsmNode) -> bool>(
    q: PbfQuery,
    node_pred: N,
    seg: S,
) -> TileModel {
    let t0 = (nodes_by_their_ids(q.nodes_in_bounds@), Seq::<WayView>::empty(), Set::<u64>::empty());
    let t1 = add_ways(t0, q.ways_in_bounds@, q.nodes_by_id@, seg);
    add_relations_support(t1, q.relations_in_bounds@, q.ways_by_id@, q.nodes_by_id@, node_pred, seg)
}

/// A materialized tile is closed: every segment of its ways that reaches into
/// the bounds has both end nodes in the tile (so its validation passes).
pub proof fn lemma_materialized_segments_closed<N: Fn(&OsmNode) -> bool, S: Fn(&OsmNode, &OsmNode) -> bool>(
    q: PbfQuery,
    node_pred: N,
    seg: S,
)
    ensures
        segments_closed(materialized_model(q, node_pred, seg), q.nodes_by_id@, seg),
{
    let t0 = (nodes_by_their_ids(q.nodes_in_bounds@), Seq::<WayView>::empty(), Set::<u64>::empty());
    lemma_add_ways_closed(t0, q.ways_in_bounds@, q.nodes_by_id@, seg);
    let t1 = add_ways(t0, q.ways_in_bounds@, q.nodes_by_id@, seg);
    lemma_relations_support_closed(t1, q.relations_in_bounds@, q.ways_by_id@, q.nodes_by_id@, node_pred, seg);
}

/// Materializes a tile: its nodes and ways as `materialized_model` gives
/// them, and, unless the tile is empty, the restriction relations in the
/// bounds with a member in the tile. The validation of the tile always
/// passes.
pub fn extract_materialized_tile<N: Fn(&OsmNode) -> bool, S: Fn(&OsmNode, &OsmNode) -> bool>(
    query: PbfQuery,
    node_in_bounds: N,
    segment_in_bounds: S,
) -> (r: Result<MaterializedTileData, MaterializationError>)
    requires
        node_function(node_in_bounds),
        pair_function(segment_in_bounds),
        keyed_by_id(query.nodes_by_id@),
    ensures
        r matches Ok(tile) && {
            let m = materialized_model(query, node_in_bounds, segment_in_bounds);
            &&& tile.nodes@ == m.0
            &&& tile.ways@.map_values(|w: OsmWay| way_view(w)) == m.1
            &&& tile.relations@ == if m.0.is_empty() && m.1.len() == 0 {
                Seq::<OsmRelation>::empty()
            } else {
                relations_in_closure(query.relations_in_bounds@, m.0.dom(), m.2)
            }
        },
{
    let ghost q = query;
    let PbfQuery { nodes_in_bounds, ways_in_bounds, relations_in_bounds, nodes_by_id, ways_by_id } = query;
    let ghost seg = segment_in_bounds;
    let mut tile = MaterializedTileData { nodes: HashMap::new(), ways: Vec::new(), relations: Vec::new() };
    let mut way_ids: HashSet<u64> = HashSet::new();
    let mut i: usize = 0;
    assert(nodes_in_bounds@.take(0) =~= Seq::<OsmNode>::empty());
    assert(tile.nodes@ =~= nodes_by_their_ids(nodes_in_bounds@.take(0)));
    while i < nodes_in_bounds.len()
        invariant
            i <= nodes_in_bounds@.len(),
            tile.nodes@ == nodes_by_their_ids(nodes_in_bounds@.take(i as int)),
            tile.ways@.len() == 0,
            tile.relations@.len() == 0,
            way_ids@ == Set::<u64>::empty(),
        decreases nodes_in_bounds.len() - i,
    {
        let node = nodes_in_bounds[i];
        tile.nodes.insert(node.id, node);
        proof {
            assert(nodes_in_bounds@.take(i + 1).drop_last() =~= nodes_in_bounds@.take(i as int));
            assert(nodes_in_bounds@.take(i + 1).last() == node);
        }
        i = i + 1;
    }
    assert(nodes_in_bounds@.take(nodes_in_bounds@.len() as int) =~= nodes_in_bounds@);
    let ghost t0 = model_of(tile, way_ids@);
    assert(t0 == (nodes_by_their_ids(q.nodes_in_bounds@), Seq::<WayView>::empty(), Set::<u64>::empty())) by {
        assert(tile.ways@.map_values(|w: OsmWay| way_view(w)) =~= Seq::<WayView>::empty());
    }
    let ghost orig_ways = ways_in_bounds@;
    let n_ways = ways_in_bounds.len();
    let mut rest = reversed_ways(ways_in_bounds);
    let mut w: usize = 0;
    assert(orig_ways.take(0) =~= Seq::<OsmWay>::empty());
    proof {
        assert(segments_closed(t0, nodes_by_id@, seg));
    }
    while w < n_ways
        invariant
            n_ways == orig_ways.len(),
            w <= n_ways,
            rest@.len() == n_ways - w,
            forall|k: int| 0 <= k < rest@.len() ==> #[trigger] rest@[k] == orig_ways[n_ways - 1 - k],
            pair_function(seg),
            seg == segment_in_bounds,
            keyed_by_id(nodes_by_id@),
            tile.relations@.len() == 0,
            model_of(tile, way_ids@) == add_ways(t0, orig_ways.take(w as int), nodes_by_id@, seg),
            segments_closed(model_of(tile, way_ids@), nodes_by_id@, seg),
        decreases n_ways - w,
    {
        let way = rest.pop().unwrap();
        assert(way == orig_ways[w as int]);
        let ghost before = model_of(tile, way_ids@);
        add_way_to_tile(&nodes_by_id, way, &segment_in_bounds, &mut tile, &mut way_ids);
        proof {
            lemma_add_way_closed(before, orig_ways[w as int], nodes_by_id@, seg);
            assert(orig_ways.take(w + 1).drop_last() =~= orig_ways.take(w as int));
            assert(orig_ways.take(w + 1).last() == orig_ways[w as int]);
        }
        w = w + 1;
    }
    assert(orig_ways.take(n_ways as int) =~= orig_ways);
    let ghost t1 = model_of(tile, way_ids@);
    expand_restriction_support(
        &relations_in_bounds,
        &nodes_by_id,
        &ways_by_id,
        &node_in_bounds,
        &segment_in_bounds,
        &mut tile,
        &mut way_ids,
    );
    let ghost m = model_of(tile, way_ids@);
    proof {
        lemma_relations_support_closed(t1, relations_in_bounds@, ways_by_id@, nodes_by_id@, node_in_bounds, seg);
        assert(m == materialized_model(q, node_in_bounds, segment_in_bounds));
    }
    match validate_materialized_tile(&nodes_by_id, &segment_in_bounds, &tile) {
        Ok(()) => {},
        Err(e) => {
            proof {
                let (i, k) = choose|i: int, k: int|
                    0 <= i < tile.ways@.len() && #[trigger] violation_at(
                        tile.ways@[i].point_ids@,
                        k,
                        nodes_by_id@,
                        seg,
                        tile.nodes@,
                    );
                assert(m.1[i] == way_view(tile.ways@[i]));
                assert(window_kept(m.1[i].1, k, nodes_by_id@, seg));
            }
            return Err(e);
        },
    }
    if tile.nodes.is_empty() && tile.ways.is_empty() {
        assert(m.1.len() == 0);
        return Ok(tile);
    }
    let ghost orig_rels = relations_in_bounds@;
    let n_rels = relations_in_bounds.len();
    let mut rels = reversed_relations(relations_in_bounds);
    let mut r: usize = 0;
    assert(orig_rels.take(0) =~= Seq::<OsmRelation>::empty());
    while r < n_rels
        invariant
            n_rels == orig_rels.len(),
            r <= n_rels,
            rels@.len() == n_rels - r,
            forall|k: int| 0 <= k < rels@.len() ==> #[trigger] rels@[k] == orig_rels[n_rels - 1 - k],
            model_of(tile, way_ids@) == m,
            tile.relations@ == relations_in_closure(orig_rels.take(r as int), m.0.dom(), m.2),
        decreases n_rels - r,
    {
        let relation = rels.pop().unwrap();
        assert(relation == orig_rels[r as int]);
        proof {
            assert(orig_rels.take(r + 1).drop_last() =~= orig_rels.take(r as int));
            assert(orig_rels.take(r + 1).last() == orig_rels[r as int]);
        }
        if is_restriction_relation(&relation) && relation_has_members_in_tile(&relation, &tile.nodes, &way_ids) {
            tile.relations.push(relation);
        }
        r = r + 1;
    }
    assert(orig_rels.take(n_rels as int) =~= orig_rels);
    Ok(tile)
}

/// The ways in reverse order.
fn reversed_ways(v: Vec<OsmWay>) -> (r: Vec<OsmWay>)
    ensures
        r@.len() == v@.len(),
        forall|q: int| 0 <= q < r@.len() ==> #[trigger] r@[q] == v@[v@.len() - 1 - q],
{
    let ghost orig = v@;
    let mut rest = v;
    let mut r: Vec<OsmWay> = Vec::new();
    while rest.len() > 0
        invariant
            rest@ == orig.take(rest@.len() as int),
            r@.len() + rest@.len() == orig.len(),
            forall|q: int| 0 <= q < r@.len() ==> #[trigger] r@[q] == orig[orig.len() - 1 - q],
        decreases rest.len(),
    {
        let ghost before = rest@;
        let x = rest.pop().unwrap();
        assert(before == rest@.push(x));
        assert(rest@ =~= orig.take(rest@.len() as int));
        r.push(x);
    }
    r
}

/// The relations in reverse order.
fn reversed_relations(v: Vec<OsmRelation>) -> (r: Vec<OsmRelation>)
    ensures
        r@.len() == v@.len(),
        forall|q: int| 0 <= q < r@.len() ==> #[trigger] r@[q] == v@[v@.len() - 1 - q],
{
    let ghost orig = v@;
    let mut rest = v;
    let mut r: Vec<OsmRelation> = Vec::new();
    while rest.len() > 0
        invariant
            rest@ == orig.take(rest@.len() as int),
            r@.len() + rest@.len() == orig.len(),
            forall|q: int| 0 <= q < r@.len() ==> #[trigger] r@[q] == orig[orig.len() - 1 - q],
        decreases rest.len(),
    {
        let ghost before = rest@;
        let x = rest.pop().unwrap();
        assert(before == rest@.push(x));
        assert(rest@ =~= orig.take(rest@.len() as int));
        r.push(x);
    }
    r
}

} // verus!
