//! What the map loader keeps of ways and relations, the order in which
//! nested relations are resolved, and the polygons of areas.
//!
//! A way is a sequence of points. Ways whose ends meet are chained, each
//! way taken forwards or backwards as its ends require; a chain that closes
//! on itself, with at least four points, is a ring. Whether two points meet
//! is decided by the caller's `coords_match` (a distance tolerance on
//! coordinates), so the point type is left open.
//!
//! The polygons of an area are taken from its closed ways and from its
//! relations: the closed member ways of an ordinary relation, and, for a
//! multipolygon, the rings that its outer and inner member ways join into,
//! each inner ring becoming a hole of the outer rings that contain it.
//! Whether a ring contains a point is geometry on floating-point
//! coordinates, so it is the caller's `contains`.
//!
//! A relation's bounding box is computed once those of its relation members
//! are; `resolve_relations` gives the rounds in which that happens.

use std::collections::{HashMap, HashSet};
use vstd::prelude::*;
use crate::osm::{OsmNode, OsmRelation, OsmRelationMember, OsmRelationMemberRole, OsmRelationMemberType, OsmTags, OsmWay, tag_is};

verus! {

broadcast use vstd::std_specs::hash::group_hash_axioms;

/// Whether the tags mark a military area: `landuse=military` or any
/// `military` tag.
pub fn has_military_tags(tags: &OsmTags) -> (res: bool)
    ensures
        res == (tag_is(tags@, "landuse"@, "military"@) || tags@.contains_key("military"@)),
{
    tags.has_value("landuse", "military") || tags.contains_key("military")
}

/// Whether the tags mark a residential area: `landuse=residential`.
pub open spec fn residential_tags(tags: Map<Seq<char>, Seq<char>>) -> bool {
    tag_is(tags, "landuse"@, "residential"@)
}

/// Whether the tags mark a military area (see `has_military_tags`).
pub open spec fn military_tags(tags: Map<Seq<char>, Seq<char>>) -> bool {
    tag_is(tags, "landuse"@, "military"@) || tags.contains_key("military"@)
}

/// Whether the loader keeps a way: it has a `highway` tag, it is residential
/// or military, it is a closed loop of at least four nodes, or it has at
/// least two nodes and no `highway` tag (it may be a piece of an area's
/// boundary).
pub open spec fn way_kept_on_load(tags: Map<Seq<char>, Seq<char>>, node_ids: Seq<u64>) -> bool {
    let has_highway = tags.contains_key("highway"@);
    let closed_loop = node_ids.len() >= 4 && node_ids[0] == node_ids.last();
    has_highway || residential_tags(tags) || military_tags(tags) || closed_loop || (!has_highway && node_ids.len() >= 2)
}

/// How the loader takes a way: `None` when it drops it, else whether the way
/// is residential and whether it is military.
pub fn way_load_class(tags: &OsmTags, node_ids: &Vec<u64>) -> (r: Option<(bool, bool)>)
    ensures
        r == if way_kept_on_load(tags@, node_ids@) {
            Some((residential_tags(tags@), military_tags(tags@)))
        } else {
            None
        },
{
    let has_highway = tags.contains_key("highway");
    let residential = tags.has_value("landuse", "residential");
    let military = has_military_tags(tags);
    let n = node_ids.len();
    let closed_loop = n >= 4 && node_ids[0] == node_ids[n - 1];
    let boundary_piece = !has_highway && n >= 2;
    if has_highway || residential || military || closed_loop || boundary_piece {
        Some((residential, military))
    } else {
        None
    }
}

/// How the loader takes a relation: `None` when it drops it (neither a
/// multipolygon nor a residential or military area), else whether it is
/// residential and whether it is military.
pub fn relation_load_class(tags: &OsmTags) -> (r: Option<(bool, bool)>)
    ensures
        r == if tag_is(tags@, "type"@, "multipolygon"@) || residential_tags(tags@) || military_tags(tags@) {
            Some((residential_tags(tags@), military_tags(tags@)))
        } else {
            None
        },
{
    let multipolygon = tags.has_value("type", "multipolygon");
    let residential = tags.has_value("landuse", "residential");
    let military = has_military_tags(tags);
    if multipolygon || residential || military {
        Some((residential, military))
    } else {
        None
    }
}

/// Whether the points form a ring (at least four points, first and last
/// meeting).
pub fn is_closed_ring<P, F: Fn(&P, &P) -> bool>(coords: &Vec<P>, coords_match: &F) -> (res: bool)
    requires
        match_function(*coords_match),
    ensures
        res == ring_closes(coords@, *coords_match),
{
    if coords.len() < 4 {
        return false;
    }
    coords_match(&coords[0], &coords[coords.len() - 1])
}

/// Appends `way[from..]` to `ring`, going forwards.
pub(crate) fn append_forward<P: Copy>(ring: &mut Vec<P>, way: &Vec<P>, from: usize)
    requires
        from <= way.len(),
    ensures
        final(ring)@ == old(ring)@ + way@.subrange(from as int, way@.len() as int),
{
    let mut j: usize = from;
    while j < way.len()
        invariant
            from <= j <= way.len(),
            ring@ == old(ring)@ + way@.subrange(from as int, j as int),
        decreases way.len() - j,
    {
        ring.push(way[j]);
        j = j + 1;
        assert(ring@ =~= old(ring)@ + way@.subrange(from as int, j as int));
    }
}

/// Appends `way[from..to]` to `ring` in reverse: `way[to - 1]` first,
/// `way[from]` last.
pub(crate) fn append_backward<P: Copy>(ring: &mut Vec<P>, way: &Vec<P>, from: usize, to: usize)
    requires
        from <= to <= way.len(),
    ensures
        final(ring)@ == old(ring)@ + way@.subrange(from as int, to as int).reverse(),
{
    let mut j: usize = to;
    while j > from
        invariant
            from <= j <= to,
            to <= way.len(),
            ring@ == old(ring)@ + way@.subrange(j as int, to as int).reverse(),
        decreases j,
    {
        j = j - 1;
        ring.push(way[j]);
        assert(way@.subrange(j as int, to as int).reverse() =~= way@.subrange(j + 1, to as int).reverse().push(way@[j as int]));
        assert(ring@ =~= old(ring)@ + way@.subrange(j as int, to as int).reverse());
    }
}

/// Whether `f` answers for every pair of points, and always the same.
pub open spec fn match_function<P, F: Fn(&P, &P) -> bool>(f: F) -> bool {
    &&& forall|a: &P, b: &P| #[trigger] f.requires((a, b))
    &&& forall|a: &P, b: &P, r1: bool, r2: bool|
        #[trigger] f.ensures((a, b), r1) && #[trigger] f.ensures((a, b), r2) ==> r1 == r2
}

/// Whether `coords_match` says that `a` and `b` meet.
pub open spec fn meets<P, F: Fn(&P, &P) -> bool>(f: F, a: P, b: P) -> bool {
    f.ensures((&a, &b), true)
}

/// The chain after way `w` (of at least two points) joined it, if it meets
/// the chain: appended when its start or (reversed) its end meets the
/// chain's end, without its first point; prepended when its end or
/// (reversed) its start meets the chain's start, without its last point;
/// tried in that order.
pub open spec fn joined<P, F: Fn(&P, &P) -> bool>(cur: Seq<P>, w: Seq<P>, f: F) -> Option<Seq<P>> {
    if meets(f, w[0], cur.last()) {
        Some(cur + w.skip(1))
    } else if meets(f, w.last(), cur.last()) {
        Some(cur + w.take(w.len() - 1).reverse())
    } else if meets(f, w.last(), cur[0]) {
        Some(w.take(w.len() - 1) + cur)
    } else if meets(f, w[0], cur[0]) {
        Some(w.skip(1).reverse() + cur)
    } else {
        None
    }
}

/// Growing a chain from the remaining ways: passes over the remaining ways
/// from position `i`, joining each that meets (and taking it out); a pass
/// that joined any way is followed by another from the start. `pass_len` is
/// the number of remaining ways when the pass began. Gives the chain and the
/// ways that are left.
pub open spec fn chain_pass<P, F: Fn(&P, &P) -> bool>(
    cur: Seq<P>,
    rem: Seq<Seq<P>>,
    i: int,
    pass_len: int,
    f: F,
) -> (Seq<P>, Seq<Seq<P>>)
    decreases pass_len, rem.len() - i,
    when 0 <= i && rem.len() <= pass_len
{
    if i >= rem.len() {
        if rem.len() < pass_len {
            chain_pass(cur, rem, 0, rem.len() as int, f)
        } else {
            (cur, rem)
        }
    } else if rem[i].len() < 2 {
        chain_pass(cur, rem, i + 1, pass_len, f)
    } else {
        match joined(cur, rem[i], f) {
            Some(c) => chain_pass(c, rem.remove(i), i, pass_len, f),
            None => chain_pass(cur, rem, i + 1, pass_len, f),
        }
    }
}

/// Growing a chain never adds ways: it leaves at most the ways it was given.
pub proof fn lemma_chain_pass_len<P, F: Fn(&P, &P) -> bool>(cur: Seq<P>, rem: Seq<Seq<P>>, i: int, pass_len: int, f: F)
    requires
        0 <= i,
        rem.len() <= pass_len,
    ensures
        chain_pass(cur, rem, i, pass_len, f).1.len() <= rem.len(),
    decreases pass_len, rem.len() - i,
{
    if i >= rem.len() {
        if rem.len() < pass_len {
            lemma_chain_pass_len(cur, rem, 0, rem.len() as int, f);
        }
    } else if rem[i].len() < 2 {
        lemma_chain_pass_len(cur, rem, i + 1, pass_len, f);
    } else {
        match joined(cur, rem[i], f) {
            Some(c) => lemma_chain_pass_len(c, rem.remove(i), i, pass_len, f),
            None => lemma_chain_pass_len(cur, rem, i + 1, pass_len, f),
        }
    }
}

/// Whether the chain is a ring: at least four points, first and last meeting.
pub open spec fn ring_closes<P, F: Fn(&P, &P) -> bool>(cur: Seq<P>, f: F) -> bool {
    cur.len() >= 4 && meets(f, cur[0], cur.last())
}

/// The rings that the ways join into: the first way (of at least two
/// points) starts a chain grown from the others (see `chain_pass`); the chain
/// is a ring when it closes; the ways left over are joined in turn.
pub open spec fn rings_of<P, F: Fn(&P, &P) -> bool>(rem: Seq<Seq<P>>, f: F) -> Seq<Seq<P>>
    decreases rem.len(),
{
    if rem.len() == 0 {
        Seq::empty()
    } else if rem[0].len() < 2 {
        rings_of(rem.drop_first(), f)
    } else {
        let rest = rem.drop_first();
        let grown = chain_pass(rem[0], rest, 0, rest.len() as int, f);
        proof {
            lemma_chain_pass_len(rem[0], rest, 0, rest.len() as int, f);
        }
        (if ring_closes(grown.0, f) {
            seq![grown.0]
        } else {
            Seq::empty()
        }) + rings_of(grown.1, f)
    }
}

/// Every ring that the ways join into closes.
pub proof fn lemma_rings_of_close<P, F: Fn(&P, &P) -> bool>(rem: Seq<Seq<P>>, f: F)
    ensures
        forall|r: int| 0 <= r < rings_of(rem, f).len() ==> ring_closes(#[trigger] rings_of(rem, f)[r], f),
    decreases rem.len(),
{
    if rem.len() == 0 {
    } else if rem[0].len() < 2 {
        lemma_rings_of_close(rem.drop_first(), f);
        assert(rings_of(rem, f) == rings_of(rem.drop_first(), f));
    } else {
        let rest = rem.drop_first();
        let grown = chain_pass(rem[0], rest, 0, rest.len() as int, f);
        lemma_chain_pass_len(rem[0], rest, 0, rest.len() as int, f);
        lemma_rings_of_close(grown.1, f);
        let head: Seq<Seq<P>> = if ring_closes(grown.0, f) { seq![grown.0] } else { Seq::empty() };
        let all = rings_of(rem, f);
        assert(all == head + rings_of(grown.1, f));
        assert forall|r: int| 0 <= r < all.len() implies ring_closes(#[trigger] all[r], f) by {
            if r >= head.len() {
                assert(all[r] == rings_of(grown.1, f)[r - head.len()]);
            } else {
                assert(all[r] == head[r]);
            }
        }
    }
}

/// The views of a list of point lists.
pub open spec fn views<P>(ws: Seq<Vec<P>>) -> Seq<Seq<P>> {
    ws.map_values(|w: Vec<P>| w@)
}

/// Joins `way` to the chain when it meets it (see `joined`).
fn join_way<P: Copy, F: Fn(&P, &P) -> bool>(cur: &mut Vec<P>, way: &Vec<P>, coords_match: &F) -> (hit: bool)
    requires
        match_function(*coords_match),
        old(cur)@.len() >= 2,
        way@.len() >= 2,
    ensures
        match joined(old(cur)@, way@, *coords_match) {
            Some(c) => hit && final(cur)@ == c,
            None => !hit && final(cur)@ == old(cur)@,
        },
{
    let ghost f = *coords_match;
    let way_len = way.len();
    let way_start = way[0];
    let way_end = way[way_len - 1];
    let ring_start = cur[0];
    let ring_end = cur[cur.len() - 1];
    let ghost c0 = cur@;
    if coords_match(&way_start, &ring_end) {
        append_forward(cur, way, 1);
        assert(way@.subrange(1, way_len as int) =~= way@.skip(1));
        return true;
    }
    if coords_match(&way_end, &ring_end) {
        append_backward(cur, way, 0, way_len - 1);
        assert(way@.subrange(0, way_len - 1) =~= way@.take(way_len - 1));
        return true;
    }
    if coords_match(&way_end, &ring_start) {
        let mut joined: Vec<P> = Vec::new();
        append_forward(&mut joined, way, 0);
        let ghost whole = joined@;
        joined.truncate(way_len - 1);
        assert(joined@ =~= way@.take(way_len - 1)) by {
            assert(whole =~= way@);
        }
        let ghost head = joined@;
        append_forward(&mut joined, cur, 0);
        assert(joined@ =~= way@.take(way_len - 1) + c0);
        *cur = joined;
        return true;
    }
    if coords_match(&way_start, &ring_start) {
        let mut joined: Vec<P> = Vec::new();
        append_backward(&mut joined, way, 1, way_len);
        assert(way@.subrange(1, way_len as int) =~= way@.skip(1));
        assert(joined@ =~= way@.skip(1).reverse());
        append_forward(&mut joined, cur, 0);
        assert(joined@ =~= way@.skip(1).reverse() + c0);
        *cur = joined;
        return true;
    }
    false
}

/// Grows a chain from the remaining ways (see `chain_pass`), taking the
/// joined ways out of `remaining`.
fn grow_chain<P: Copy, F: Fn(&P, &P) -> bool>(start: Vec<P>, remaining: &mut Vec<Vec<P>>, coords_match: &F) -> (chain: Vec<P>)
    requires
        match_function(*coords_match),
        start@.len() >= 2,
    ensures
        (chain@, views(final(remaining)@)) == chain_pass(start@, views(old(remaining)@), 0, old(remaining)@.len() as int, *coords_match),
{
    let ghost f = *coords_match;
    let ghost target = chain_pass(start@, views(remaining@), 0, remaining@.len() as int, f);
    let mut cur = start;
    let mut changed = true;
    while changed
        invariant
            match_function(f),
            f == *coords_match,
            cur@.len() >= 2,
            changed ==> chain_pass(cur@, views(remaining@), 0, remaining@.len() as int, f) == target,
            !changed ==> (cur@, views(remaining@)) == target,
        decreases remaining@.len() + if changed { 1int } else { 0int },
    {
        changed = false;
        let ghost pass_len = remaining@.len() as int;
        let mut i: usize = 0;
        while i < remaining.len()
            invariant
                match_function(f),
                f == *coords_match,
                cur@.len() >= 2,
                remaining@.len() <= pass_len,
                changed == (remaining@.len() < pass_len),
                chain_pass(cur@, views(remaining@), i as int, pass_len, f) == target,
            decreases remaining@.len() - i,
        {
            let ghost rem_before = views(remaining@);
            if remaining[i].len() < 2 {
                i = i + 1;
            } else {
                let hit = join_way(&mut cur, &remaining[i], coords_match);
                if hit {
                    remaining.remove(i);
                    assert(views(remaining@) =~= rem_before.remove(i as int));
                    changed = true;
                } else {
                    i = i + 1;
                }
            }
        }
    }
    cur
}

/// Chains the ways into rings, in the order the ways come (see `rings_of`):
/// the first remaining way starts a chain; a remaining way whose start or end
/// meets the chain's end is appended (its shared point dropped), one whose
/// end or start meets the chain's start is prepended (likewise), until no
/// remaining way meets; the chain is kept when it is a ring. Ways of fewer
/// than two points join nothing. Chains that do not close are dropped.
/// `coords_match` must answer the same for the same points.
pub fn connect_ways_into_rings<P: Copy, F: Fn(&P, &P) -> bool>(ways: Vec<Vec<P>>, coords_match: F) -> (rings: Vec<Vec<P>>)
    requires
        match_function(coords_match),
    ensures
        views(rings@) == rings_of(views(ways@), coords_match),
        forall|r: int| 0 <= r < rings@.len() ==> ring_closes(#[trigger] rings@[r]@, coords_match),
{
    let ghost f = coords_match;
    let ghost target = rings_of(views(ways@), f);
    let mut rings: Vec<Vec<P>> = Vec::new();
    let mut remaining = ways;
    assert(views(rings@) + rings_of(views(remaining@), f) =~= target);
    while remaining.len() > 0
        invariant
            match_function(f),
            f == coords_match,
            views(rings@) + rings_of(views(remaining@), f) == target,
        decreases remaining.len(),
    {
        let ghost rem0 = views(remaining@);
        let first = remaining.remove(0);
        assert(views(remaining@) =~= rem0.drop_first());
        if first.len() < 2 {
            continue;
        }
        let chain = grow_chain(first, &mut remaining, &coords_match);
        let ghost before = views(rings@);
        if is_closed_ring(&chain, &coords_match) {
            rings.push(chain);
            assert(views(rings@) =~= before.push(chain@));
        }
        proof {
            let grown = chain_pass(rem0[0], rem0.drop_first(), 0, rem0.drop_first().len() as int, f);
            lemma_chain_pass_len(rem0[0], rem0.drop_first(), 0, rem0.drop_first().len() as int, f);
            assert(grown == (chain@, views(remaining@)));
            if ring_closes(chain@, f) {
                assert(seq![chain@] + rings_of(views(remaining@), f) =~= seq![chain@].add(rings_of(views(remaining@), f)));
            }
            assert(views(rings@) + rings_of(views(remaining@), f) =~= target);
        }
    }
    proof {
        lemma_rings_of_close(views(ways@), f);
        assert(views(rings@) =~= target);
        assert forall|r: int| 0 <= r < rings@.len() implies ring_closes(#[trigger] rings@[r]@, f) by {
            assert(views(rings@)[r] == rings@[r]@);
        }
    }
    rings
}

/// A point of an area's outline: a node's longitude and latitude (as the bit
/// patterns of the degrees).
pub open spec fn node_point(n: OsmNode) -> (u64, u64) {
    (n.lon_bits, n.lat_bits)
}

/// The points of a way: for each of its node ids that names a node, the
/// node's point, in order.
pub open spec fn way_points(ids: Seq<u64>, nodes: Map<u64, OsmNode>) -> Seq<(u64, u64)>
    decreases ids.len(),
{
    if ids.len() == 0 {
        Seq::empty()
    } else {
        way_points(ids.drop_last(), nodes) + if nodes.contains_key(ids.last()) {
            seq![node_point(nodes[ids.last()])]
        } else {
            Seq::empty()
        }
    }
}

/// The points of a way (see `way_points`).
fn way_points_of(ids: &Vec<u64>, nodes: &HashMap<u64, OsmNode>) -> (pts: Vec<(u64, u64)>)
    ensures
        pts@ == way_points(ids@, nodes@),
{
    let mut pts: Vec<(u64, u64)> = Vec::new();
    let mut j: usize = 0;
    while j < ids.len()
        invariant
            j <= ids.len(),
            pts@ == way_points(ids@.take(j as int), nodes@),
        decreases ids.len() - j,
    {
        let ghost before = pts@;
        assert(ids@.take(j + 1).drop_last() =~= ids@.take(j as int));
        assert(ids@.take(j + 1).last() == ids@[j as int]);
        match nodes.get(&ids[j]) {
            Some(node) => {
                pts.push((node.lon_bits, node.lat_bits));
                assert(pts@ =~= before + seq![node_point(*node)]);
            },
            None => {
                assert(pts@ =~= before + Seq::<(u64, u64)>::empty());
            },
        }
        j = j + 1;
    }
    assert(ids@.take(ids@.len() as int) =~= ids@);
    pts
}

/// A polygon of an area: its outer ring and its holes, each a closed list of
/// points.
#[derive(Clone, Debug, PartialEq)]
pub struct AreaPolygon {
    pub exterior: Vec<(u64, u64)>,
    pub holes: Vec<Vec<(u64, u64)>>,
}

/// A polygon as its outer ring and its holes.
pub open spec fn polygon_view(p: AreaPolygon) -> (Seq<(u64, u64)>, Seq<Seq<(u64, u64)>>) {
    (p.exterior@, views(p.holes@))
}

/// The views of a list of polygons.
pub open spec fn polygon_views(ps: Seq<AreaPolygon>) -> Seq<(Seq<(u64, u64)>, Seq<Seq<(u64, u64)>>)> {
    ps.map_values(|p: AreaPolygon| polygon_view(p))
}

/// A copy of a point list.
fn copy_points(pts: &Vec<(u64, u64)>) -> (c: Vec<(u64, u64)>)
    ensures
        c@ == pts@,
{
    let mut c: Vec<(u64, u64)> = Vec::new();
    append_forward(&mut c, pts, 0);
    assert(pts@.subrange(0, pts@.len() as int) =~= pts@);
    c
}

/// Adds a polygon to the list.
fn push_polygon(out: &mut Vec<AreaPolygon>, p: AreaPolygon)
    ensures
        polygon_views(final(out)@) == polygon_views(old(out)@) + seq![polygon_view(p)],
{
    let ghost before = out@;
    out.push(p);
    assert(polygon_views(out@) =~= polygon_views(before) + seq![polygon_view(p)]);
}

/// The polygon of a closed way: the way's points, when the way is known, its
/// first and last node are the same, and at least four of its points are
/// known.
pub open spec fn closed_way_polygon(way_id: u64, ways: Map<u64, OsmWay>, nodes: Map<u64, OsmNode>) -> Seq<
    (Seq<(u64, u64)>, Seq<Seq<(u64, u64)>>),
> {
    if ways.contains_key(way_id) {
        let ids = ways[way_id].point_ids@;
        let pts = way_points(ids, nodes);
        if ids.len() > 0 && ids[0] == ids.last() && pts.len() >= 4 {
            seq![(pts, Seq::<Seq<(u64, u64)>>::empty())]
        } else {
            Seq::empty()
        }
    } else {
        Seq::empty()
    }
}

/// The polygons of the closed ways among `way_ids`, in order.
pub open spec fn closed_ways_polygons(way_ids: Seq<u64>, ways: Map<u64, OsmWay>, nodes: Map<u64, OsmNode>) -> Seq<
    (Seq<(u64, u64)>, Seq<Seq<(u64, u64)>>),
>
    decreases way_ids.len(),
{
    if way_ids.len() == 0 {
        Seq::empty()
    } else {
        closed_ways_polygons(way_ids.drop_last(), ways, nodes) + closed_way_polygon(way_ids.last(), ways, nodes)
    }
}

/// Adds the polygon of a closed way (see `closed_way_polygon`).
fn push_closed_way_polygon(
    out: &mut Vec<AreaPolygon>,
    way_id: u64,
    ways: &HashMap<u64, OsmWay>,
    nodes: &HashMap<u64, OsmNode>,
)
    ensures
        polygon_views(final(out)@) == polygon_views(old(out)@) + closed_way_polygon(way_id, ways@, nodes@),
{
    let ghost before = polygon_views(out@);
    match ways.get(&way_id) {
        Some(way) => {
            let n = way.point_ids.len();
            if n > 0 && way.point_ids[0] == way.point_ids[n - 1] {
                let pts = way_points_of(&way.point_ids, nodes);
                if pts.len() >= 4 {
                    let ghost pv = pts@;
                    push_polygon(out, AreaPolygon { exterior: pts, holes: Vec::new() });
                    assert(views(Seq::<Vec<(u64, u64)>>::empty()) =~= Seq::<Seq<(u64, u64)>>::empty());
                    return;
                }
            }
        },
        None => {},
    }
    assert(polygon_views(out@) =~= before + Seq::empty());
}

/// The polygon of a relation member that is a closed way: a known way of at
/// least four nodes whose first and last node are the same, with at least
/// four of its points known.
pub open spec fn member_closed_way(m: OsmRelationMember, ways: Map<u64, OsmWay>, nodes: Map<u64, OsmNode>) -> Seq<
    (Seq<(u64, u64)>, Seq<Seq<(u64, u64)>>),
> {
    if m.member_type == OsmRelationMemberType::Way && ways.contains_key(m.member_ref) {
        let ids = ways[m.member_ref].point_ids@;
        let pts = way_points(ids, nodes);
        if ids.len() >= 4 && ids[0] == ids.last() && pts.len() >= 4 {
            seq![(pts, Seq::<Seq<(u64, u64)>>::empty())]
        } else {
            Seq::empty()
        }
    } else {
        Seq::empty()
    }
}

/// The polygons of the members that are closed ways, in order.
pub open spec fn members_closed_ways(ms: Seq<OsmRelationMember>, ways: Map<u64, OsmWay>, nodes: Map<u64, OsmNode>) -> Seq<
    (Seq<(u64, u64)>, Seq<Seq<(u64, u64)>>),
>
    decreases ms.len(),
{
    if ms.len() == 0 {
        Seq::empty()
    } else {
        members_closed_ways(ms.drop_last(), ways, nodes) + member_closed_way(ms.last(), ways, nodes)
    }
}

/// Adds the polygons of the members that are closed ways.
fn push_member_closed_ways(
    out: &mut Vec<AreaPolygon>,
    members: &Vec<OsmRelationMember>,
    ways: &HashMap<u64, OsmWay>,
    nodes: &HashMap<u64, OsmNode>,
)
    ensures
        polygon_views(final(out)@) == polygon_views(old(out)@) + members_closed_ways(members@, ways@, nodes@),
{
    let ghost start = polygon_views(out@);
    let mut k: usize = 0;
    while k < members.len()
        invariant
            k <= members.len(),
            polygon_views(out@) == start + members_closed_ways(members@.take(k as int), ways@, nodes@),
        decreases members.len() - k,
    {
        let ghost before = polygon_views(out@);
        let ghost m = members@[k as int];
        assert(members@.take(k + 1).drop_last() =~= members@.take(k as int));
        assert(members@.take(k + 1).last() == m);
        let mut added = false;
        let is_way = match members[k].member_type {
            OsmRelationMemberType::Way => true,
            _ => false,
        };
        if is_way {
            match ways.get(&members[k].member_ref) {
                Some(way) => {
                    let n = way.point_ids.len();
                    if n >= 4 && way.point_ids[0] == way.point_ids[n - 1] {
                        let pts = way_points_of(&way.point_ids, nodes);
                        if pts.len() >= 4 {
                            push_polygon(out, AreaPolygon { exterior: pts, holes: Vec::new() });
                            assert(views(Seq::<Vec<(u64, u64)>>::empty()) =~= Seq::<Seq<(u64, u64)>>::empty());
                            added = true;
                        }
                    }
                },
                None => {},
            }
        }
        if !added {
            assert(member_closed_way(m, ways@, nodes@) =~= Seq::empty());
        }
        assert(polygon_views(out@) =~= start + members_closed_ways(members@.take(k + 1), ways@, nodes@));
        k = k + 1;
    }
    assert(members@.take(members@.len() as int) =~= members@);
}

/// Whether a member of a multipolygon is an outer one: role `outer`, no role,
/// or a role other than a named one.
pub open spec fn outer_role(role: OsmRelationMemberRole) -> bool {
    match role {
        OsmRelationMemberRole::Other(s) => s@ == "outer"@ || s@.len() == 0,
        _ => true,
    }
}

/// Whether a member of a multipolygon is an inner one: role `inner`.
pub open spec fn inner_role(role: OsmRelationMemberRole) -> bool {
    match role {
        OsmRelationMemberRole::Other(s) => s@ == "inner"@,
        _ => false,
    }
}

/// The line of a member that is a known way with at least two points known.
pub open spec fn member_line(m: OsmRelationMember, ways: Map<u64, OsmWay>, nodes: Map<u64, OsmNode>) -> Option<Seq<(u64, u64)>> {
    if m.member_type == OsmRelationMemberType::Way && ways.contains_key(m.member_ref) {
        let pts = way_points(ways[m.member_ref].point_ids@, nodes);
        if pts.len() >= 2 {
            Some(pts)
        } else {
            None
        }
    } else {
        None
    }
}

/// The lines of the outer members (`outer`) or of the inner ones, in order.
pub open spec fn role_lines(ms: Seq<OsmRelationMember>, ways: Map<u64, OsmWay>, nodes: Map<u64, OsmNode>, outer: bool) -> Seq<
    Seq<(u64, u64)>,
>
    decreases ms.len(),
{
    if ms.len() == 0 {
        Seq::empty()
    } else {
        let m = ms.last();
        role_lines(ms.drop_last(), ways, nodes, outer) + match member_line(m, ways, nodes) {
            Some(l) => if (outer && outer_role(m.role)) || (!outer && inner_role(m.role)) {
                seq![l]
            } else {
                Seq::empty()
            },
            None => Seq::empty(),
        }
    }
}

/// Whether the role is the outer one (`outer`) or the inner one asked for.
fn role_matches(role: &OsmRelationMemberRole, outer: bool) -> (r: bool)
    ensures
        r == ((outer && outer_role(*role)) || (!outer && inner_role(*role))),
{
    match role {
        OsmRelationMemberRole::Other(s) => {
            if outer {
                crate::text::str_eq(s.as_str(), "outer") || s.as_str().unicode_len() == 0
            } else {
                crate::text::str_eq(s.as_str(), "inner")
            }
        },
        _ => outer,
    }
}

/// The lines of the outer or of the inner members (see `role_lines`).
fn role_lines_of(
    members: &Vec<OsmRelationMember>,
    ways: &HashMap<u64, OsmWay>,
    nodes: &HashMap<u64, OsmNode>,
    outer: bool,
) -> (lines: Vec<Vec<(u64, u64)>>)
    ensures
        views(lines@) == role_lines(members@, ways@, nodes@, outer),
{
    let mut lines: Vec<Vec<(u64, u64)>> = Vec::new();
    let mut k: usize = 0;
    while k < members.len()
        invariant
            k <= members.len(),
            views(lines@) == role_lines(members@.take(k as int), ways@, nodes@, outer),
        decreases members.len() - k,
    {
        let ghost before = views(lines@);
        let ghost m = members@[k as int];
        assert(members@.take(k + 1).drop_last() =~= members@.take(k as int));
        assert(members@.take(k + 1).last() == m);
        let mut added = false;
        let is_way = match members[k].member_type {
            OsmRelationMemberType::Way => true,
            _ => false,
        };
        if is_way {
            match ways.get(&members[k].member_ref) {
                Some(way) => {
                    let pts = way_points_of(&way.point_ids, nodes);
                    if pts.len() >= 2 && role_matches(&members[k].role, outer) {
                        let ghost pv = pts@;
                        lines.push(pts);
                        assert(views(lines@) =~= before + seq![pv]);
                        added = true;
                    }
                },
                None => {},
            }
        }
        if !added {
            assert(views(lines@) =~= before + Seq::<Seq<(u64, u64)>>::empty());
        }
        k = k + 1;
    }
    assert(members@.take(members@.len() as int) =~= members@);
    lines
}

/// Whether `c` answers for every ring and point, and answers the same for
/// rings with the same points.
pub open spec fn ring_function<C: Fn(&Vec<(u64, u64)>, &(u64, u64)) -> bool>(c: C) -> bool {
    &&& forall|v: &Vec<(u64, u64)>, p: &(u64, u64)| #[trigger] c.requires((v, p))
    &&& forall|v1: &Vec<(u64, u64)>, v2: &Vec<(u64, u64)>, p: &(u64, u64), r1: bool, r2: bool|
        #[trigger] c.ensures((v1, p), r1) && #[trigger] c.ensures((v2, p), r2) && v1@ == v2@ ==> r1 == r2
}

/// Whether `c` says that the ring (as a polygon without holes) contains `p`.
pub open spec fn ring_contains<C: Fn(&Vec<(u64, u64)>, &(u64, u64)) -> bool>(c: C, ring: Seq<(u64, u64)>, p: (u64, u64)) -> bool {
    exists|v: Vec<(u64, u64)>| v@ == ring && #[trigger] c.ensures((&v, &p), true)
}

/// Asks `contains` whether the ring contains `p`.
fn ring_holds<C: Fn(&Vec<(u64, u64)>, &(u64, u64)) -> bool>(contains: &C, ring: &Vec<(u64, u64)>, p: &(u64, u64)) -> (r: bool)
    requires
        ring_function(*contains),
    ensures
        r == ring_contains(*contains, ring@, *p),
{
    let r = contains(ring, p);
    proof {
        if !r && ring_contains(*contains, ring@, *p) {
            let v = choose|v: Vec<(u64, u64)>| v@ == ring@ && #[trigger] contains.ensures((&v, p), true);
            assert(contains.ensures((&v, p), true));
        }
    }
    r
}

/// The inner rings (of at least four points) whose first point the outer ring
/// contains, in order.
pub open spec fn holes_of<C: Fn(&Vec<(u64, u64)>, &(u64, u64)) -> bool>(
    inner: Seq<Seq<(u64, u64)>>,
    outer: Seq<(u64, u64)>,
    c: C,
) -> Seq<Seq<(u64, u64)>>
    decreases inner.len(),
{
    if inner.len() == 0 {
        Seq::empty()
    } else {
        holes_of(inner.drop_last(), outer, c) + if inner.last().len() >= 4 && ring_contains(c, outer, inner.last()[0]) {
            seq![inner.last()]
        } else {
            Seq::empty()
        }
    }
}

/// The holes of an outer ring (see `holes_of`).
fn holes_of_ring<C: Fn(&Vec<(u64, u64)>, &(u64, u64)) -> bool>(
    inner: &Vec<Vec<(u64, u64)>>,
    outer: &Vec<(u64, u64)>,
    contains: &C,
) -> (holes: Vec<Vec<(u64, u64)>>)
    requires
        ring_function(*contains),
    ensures
        views(holes@) == holes_of(views(inner@), outer@, *contains),
{
    let ghost all = views(inner@);
    let mut holes: Vec<Vec<(u64, u64)>> = Vec::new();
    let mut k: usize = 0;
    while k < inner.len()
        invariant
            ring_function(*contains),
            k <= inner.len(),
            all == views(inner@),
            views(holes@) == holes_of(all.take(k as int), outer@, *contains),
        decreases inner.len() - k,
    {
        let ghost before = views(holes@);
        assert(all.take(k + 1).drop_last() =~= all.take(k as int));
        assert(all.take(k + 1).last() == inner@[k as int]@);
        let mut added = false;
        if inner[k].len() >= 4 {
            let first = inner[k][0];
            if ring_holds(contains, outer, &first) {
                let hole = copy_points(&inner[k]);
                holes.push(hole);
                assert(views(holes@) =~= before + seq![inner@[k as int]@]);
                added = true;
            }
        }
        if !added {
            assert(views(holes@) =~= before + Seq::<Seq<(u64, u64)>>::empty());
        }
        k = k + 1;
    }
    assert(all.take(all.len() as int) =~= all);
    holes
}

/// The polygons of the outer rings of at least four points, each with its
/// holes (see `holes_of`), in order.
pub open spec fn polygons_with_holes<C: Fn(&Vec<(u64, u64)>, &(u64, u64)) -> bool>(
    outer: Seq<Seq<(u64, u64)>>,
    inner: Seq<Seq<(u64, u64)>>,
    c: C,
) -> Seq<(Seq<(u64, u64)>, Seq<Seq<(u64, u64)>>)>
    decreases outer.len(),
{
    if outer.len() == 0 {
        Seq::empty()
    } else {
        polygons_with_holes(outer.drop_last(), inner, c) + if outer.last().len() >= 4 {
            seq![(outer.last(), holes_of(inner, outer.last(), c))]
        } else {
            Seq::empty()
        }
    }
}

/// Adds the polygons of the outer rings with their holes (see
/// `polygons_with_holes`).
fn push_polygons_with_holes<C: Fn(&Vec<(u64, u64)>, &(u64, u64)) -> bool>(
    out: &mut Vec<AreaPolygon>,
    outer: &Vec<Vec<(u64, u64)>>,
    inner: &Vec<Vec<(u64, u64)>>,
    contains: &C,
)
    requires
        ring_function(*contains),
    ensures
        polygon_views(final(out)@) == polygon_views(old(out)@) + polygons_with_holes(views(outer@), views(inner@), *contains),
{
    let ghost start = polygon_views(out@);
    let ghost all = views(outer@);
    let mut k: usize = 0;
    while k < outer.len()
        invariant
            ring_function(*contains),
            k <= outer.len(),
            all == views(outer@),
            polygon_views(out@) == start + polygons_with_holes(all.take(k as int), views(inner@), *contains),
        decreases outer.len() - k,
    {
        let ghost before = polygon_views(out@);
        assert(all.take(k + 1).drop_last() =~= all.take(k as int));
        assert(all.take(k + 1).last() == outer@[k as int]@);
        if outer[k].len() >= 4 {
            let holes = holes_of_ring(inner, &outer[k], contains);
            let exterior = copy_points(&outer[k]);
            push_polygon(out, AreaPolygon { exterior, holes });
        } else {
            assert(polygon_views(out@) =~= before + Seq::empty());
        }
        assert(polygon_views(out@) =~= start + polygons_with_holes(all.take(k + 1), views(inner@), *contains));
        k = k + 1;
    }
    assert(all.take(all.len() as int) =~= all);
}

/// The polygons of a multipolygon relation: the rings that its outer member
/// lines join into, each with the rings of its inner member lines that it
/// contains as holes.
pub open spec fn multipolygon_polygons<F: Fn(&(u64, u64), &(u64, u64)) -> bool, C: Fn(&Vec<(u64, u64)>, &(u64, u64)) -> bool>(
    rel: OsmRelation,
    ways: Map<u64, OsmWay>,
    nodes: Map<u64, OsmNode>,
    f: F,
    c: C,
) -> Seq<(Seq<(u64, u64)>, Seq<Seq<(u64, u64)>>)> {
    polygons_with_holes(
        rings_of(role_lines(rel.members@, ways, nodes, true), f),
        rings_of(role_lines(rel.members@, ways, nodes, false), f),
        c,
    )
}

/// Each polygon built from outer rings carries as holes exactly the inner
/// rings that `holes_of` picks for its own outer ring.
proof fn lemma_polygon_holes<C: Fn(&Vec<(u64, u64)>, &(u64, u64)) -> bool>(
    outer: Seq<Seq<(u64, u64)>>,
    inner: Seq<Seq<(u64, u64)>>,
    c: C,
)
    ensures
        forall|k: int| 0 <= k < polygons_with_holes(outer, inner, c).len() ==> (
        #[trigger] polygons_with_holes(outer, inner, c)[k]).1 == holes_of(
            inner,
            polygons_with_holes(outer, inner, c)[k].0,
            c,
        ),
    decreases outer.len(),
{
    if outer.len() > 0 {
        lemma_polygon_holes(outer.drop_last(), inner, c);
        let pre = polygons_with_holes(outer.drop_last(), inner, c);
        let all = polygons_with_holes(outer, inner, c);
        assert forall|k: int| 0 <= k < all.len() implies (#[trigger] all[k]).1 == holes_of(inner, all[k].0, c) by {
            if k < pre.len() {
                assert(all[k] == pre[k]);
            }
        }
    }
}

/// Two member lines joined end to start form one ring: the first line
/// followed by the second without its first point, which met the first's
/// end.
proof fn lemma_two_lines_ring<F: Fn(&(u64, u64), &(u64, u64)) -> bool>(
    a: Seq<(u64, u64)>,
    b: Seq<(u64, u64)>,
    f: F,
)
    requires
        a.len() >= 2,
        b.len() >= 2,
        meets(f, b[0], a.last()),
        ring_closes(a + b.skip(1), f),
    ensures
        rings_of(seq![a, b], f) == seq![a + b.skip(1)],
{
    let rem = seq![a, b];
    let rest = rem.drop_first();
    assert(rest =~= seq![b]);
    let ring = a + b.skip(1);
    assert(joined(a, b, f) == Some(ring));
    assert(rest.remove(0) =~= Seq::<Seq<(u64, u64)>>::empty());
    assert(chain_pass(ring, Seq::<Seq<(u64, u64)>>::empty(), 0, 0, f) == (ring, Seq::<Seq<(u64, u64)>>::empty()));
    assert(chain_pass(ring, Seq::<Seq<(u64, u64)>>::empty(), 0, 1, f) == (ring, Seq::<Seq<(u64, u64)>>::empty()));
    assert(chain_pass(a, rest, 0, 1, f) == (ring, Seq::<Seq<(u64, u64)>>::empty()));
    assert(rings_of(Seq::<Seq<(u64, u64)>>::empty(), f) =~= Seq::<Seq<(u64, u64)>>::empty());
    assert(rings_of(rem, f) =~= seq![ring]);
}

/// The holes of a multipolygon are the rings that its inner member lines join
/// into, joined as its outer lines are: a hole drawn as two inner lines, the
/// second starting where the first ends and closing a ring of at least four
/// points, is one ring, and it is a hole of every polygon whose outer ring
/// contains its first point (and of no other).
pub proof fn lemma_split_hole_joined<F: Fn(&(u64, u64), &(u64, u64)) -> bool, C: Fn(&Vec<(u64, u64)>, &(u64, u64)) -> bool>(
    rel: OsmRelation,
    ways: Map<u64, OsmWay>,
    nodes: Map<u64, OsmNode>,
    f: F,
    c: C,
    a: Seq<(u64, u64)>,
    b: Seq<(u64, u64)>,
)
    requires
        role_lines(rel.members@, ways, nodes, false) == seq![a, b],
        a.len() >= 2,
        b.len() >= 2,
        meets(f, b[0], a.last()),
        ring_closes(a + b.skip(1), f),
    ensures
        forall|k: int| 0 <= k < multipolygon_polygons(rel, ways, nodes, f, c).len() ==> (
        #[trigger] multipolygon_polygons(rel, ways, nodes, f, c)[k]).1 == if ring_contains(
            c,
            multipolygon_polygons(rel, ways, nodes, f, c)[k].0,
            a[0],
        ) {
            seq![a + b.skip(1)]
        } else {
            Seq::<Seq<(u64, u64)>>::empty()
        },
{
    let ring = a + b.skip(1);
    lemma_two_lines_ring(a, b, f);
    let outer = rings_of(role_lines(rel.members@, ways, nodes, true), f);
    let inner = rings_of(role_lines(rel.members@, ways, nodes, false), f);
    assert(inner == seq![ring]);
    lemma_polygon_holes(outer, inner, c);
    let ps = multipolygon_polygons(rel, ways, nodes, f, c);
    assert forall|k: int| 0 <= k < ps.len() implies (#[trigger] ps[k]).1 == if ring_contains(c, ps[k].0, a[0]) {
        seq![ring]
    } else {
        Seq::<Seq<(u64, u64)>>::empty()
    } by {
        assert(ring[0] == a[0]);
        assert(inner.drop_last() =~= Seq::<Seq<(u64, u64)>>::empty());
        assert(inner.last() == ring);
        assert(holes_of(Seq::<Seq<(u64, u64)>>::empty(), ps[k].0, c) =~= Seq::<Seq<(u64, u64)>>::empty());
        if ring_contains(c, ps[k].0, a[0]) {
            assert(holes_of(inner, ps[k].0, c) =~= seq![ring]);
        } else {
            assert(holes_of(inner, ps[k].0, c) =~= Seq::<Seq<(u64, u64)>>::empty());
        }
    }
}

/// The polygons of a relation: those of a multipolygon (see
/// `multipolygon_polygons`), or else those of its members that are closed
/// ways; none for an unknown relation.
pub open spec fn relation_polygons<F: Fn(&(u64, u64), &(u64, u64)) -> bool, C: Fn(&Vec<(u64, u64)>, &(u64, u64)) -> bool>(
    rid: u64,
    rels: Map<u64, OsmRelation>,
    ways: Map<u64, OsmWay>,
    nodes: Map<u64, OsmNode>,
    f: F,
    c: C,
) -> Seq<(Seq<(u64, u64)>, Seq<Seq<(u64, u64)>>)> {
    if rels.contains_key(rid) {
        if tag_is(rels[rid].tags@, "type"@, "multipolygon"@) {
            multipolygon_polygons(rels[rid], ways, nodes, f, c)
        } else {
            members_closed_ways(rels[rid].members@, ways, nodes)
        }
    } else {
        Seq::empty()
    }
}

/// The polygons of the relations, in order.
pub open spec fn relations_polygons<F: Fn(&(u64, u64), &(u64, u64)) -> bool, C: Fn(&Vec<(u64, u64)>, &(u64, u64)) -> bool>(
    rids: Seq<u64>,
    rels: Map<u64, OsmRelation>,
    ways: Map<u64, OsmWay>,
    nodes: Map<u64, OsmNode>,
    f: F,
    c: C,
) -> Seq<(Seq<(u64, u64)>, Seq<Seq<(u64, u64)>>)>
    decreases rids.len(),
{
    if rids.len() == 0 {
        Seq::empty()
    } else {
        relations_polygons(rids.drop_last(), rels, ways, nodes, f, c) + relation_polygons(rids.last(), rels, ways, nodes, f, c)
    }
}

/// Adds the polygons of a relation (see `relation_polygons`).
fn push_relation_polygons<F: Fn(&(u64, u64), &(u64, u64)) -> bool + Copy, C: Fn(&Vec<(u64, u64)>, &(u64, u64)) -> bool>(
    out: &mut Vec<AreaPolygon>,
    rid: u64,
    rels: &HashMap<u64, OsmRelation>,
    ways: &HashMap<u64, OsmWay>,
    nodes: &HashMap<u64, OsmNode>,
    coords_match: F,
    contains: &C,
)
    requires
        match_function(coords_match),
        ring_function(*contains),
    ensures
        polygon_views(final(out)@) == polygon_views(old(out)@) + relation_polygons(rid, rels@, ways@, nodes@, coords_match, *contains),
{
    match rels.get(&rid) {
        Some(rel) => {
            if rel.tags.has_value("type", "multipolygon") {
                let outer_lines = role_lines_of(&rel.members, ways, nodes, true);
                let inner_lines = role_lines_of(&rel.members, ways, nodes, false);
                let outer_rings = connect_ways_into_rings(outer_lines, coords_match);
                let inner_rings = connect_ways_into_rings(inner_lines, coords_match);
                push_polygons_with_holes(out, &outer_rings, &inner_rings, contains);
            } else {
                push_member_closed_ways(out, &rel.members, ways, nodes);
            }
        },
        None => {
            assert(polygon_views(out@) =~= polygon_views(out@) + Seq::empty());
        },
    }
}

/// The polygons of an area (see `extract_area_polygons`).
pub open spec fn area_polygons<F: Fn(&(u64, u64), &(u64, u64)) -> bool, C: Fn(&Vec<(u64, u64)>, &(u64, u64)) -> bool>(
    way_ids: Seq<u64>,
    relation_ids: Seq<u64>,
    ways: Map<u64, OsmWay>,
    rels: Map<u64, OsmRelation>,
    nodes: Map<u64, OsmNode>,
    f: F,
    c: C,
) -> Seq<(Seq<(u64, u64)>, Seq<Seq<(u64, u64)>>)> {
    closed_ways_polygons(way_ids, ways, nodes) + relations_polygons(relation_ids, rels, ways, nodes, f, c)
}

/// The polygons of an area made of the ways `way_ids` and the relations
/// `relation_ids`: first one for each closed way (see `closed_way_polygon`),
/// then those of each relation (see `relation_polygons`), in order. Ids that
/// name no known way or relation, and node ids that name no known node, are
/// passed over. Whether two points meet (for joining member ways into rings)
/// and whether a ring contains a point (for matching holes) are the caller's
/// `coords_match` and `contains`, which must answer the same for the same
/// points.
pub fn extract_area_polygons<F: Fn(&(u64, u64), &(u64, u64)) -> bool + Copy, C: Fn(&Vec<(u64, u64)>, &(u64, u64)) -> bool>(
    way_ids: &[u64],
    relation_ids: &[u64],
    ways_by_id: &HashMap<u64, OsmWay>,
    relations_by_id: &HashMap<u64, OsmRelation>,
    nodes_by_id: &HashMap<u64, OsmNode>,
    coords_match: F,
    contains: &C,
) -> (polygons: Vec<AreaPolygon>)
    requires
        match_function(coords_match),
        ring_function(*contains),
    ensures
        polygon_views(polygons@) == area_polygons(
            way_ids@,
            relation_ids@,
            ways_by_id@,
            relations_by_id@,
            nodes_by_id@,
            coords_match,
            *contains,
        ),
        rings_have_four_points(polygon_views(polygons@)),
{
    let mut polygons: Vec<AreaPolygon> = Vec::new();
    let mut k: usize = 0;
    while k < way_ids.len()
        invariant
            k <= way_ids@.len(),
            polygon_views(polygons@) == closed_ways_polygons(way_ids@.take(k as int), ways_by_id@, nodes_by_id@),
        decreases way_ids@.len() - k,
    {
        assert(way_ids@.take(k + 1).drop_last() =~= way_ids@.take(k as int));
        assert(way_ids@.take(k + 1).last() == way_ids@[k as int]);
        push_closed_way_polygon(&mut polygons, way_ids[k], ways_by_id, nodes_by_id);
        k = k + 1;
    }
    assert(way_ids@.take(way_ids@.len() as int) =~= way_ids@);
    let ghost from_ways = polygon_views(polygons@);
    let mut r: usize = 0;
    while r < relation_ids.len()
        invariant
            match_function(coords_match),
            ring_function(*contains),
            r <= relation_ids@.len(),
            polygon_views(polygons@) == from_ways + relations_polygons(
                relation_ids@.take(r as int),
                relations_by_id@,
                ways_by_id@,
                nodes_by_id@,
                coords_match,
                *contains,
            ),
        decreases relation_ids@.len() - r,
    {
        let ghost before = polygon_views(polygons@);
        assert(relation_ids@.take(r + 1).drop_last() =~= relation_ids@.take(r as int));
        assert(relation_ids@.take(r + 1).last() == relation_ids@[r as int]);
        push_relation_polygons(
            &mut polygons,
            relation_ids[r],
            relations_by_id,
            ways_by_id,
            nodes_by_id,
            coords_match,
            contains,
        );
        r = r + 1;
    }
    assert(relation_ids@.take(relation_ids@.len() as int) =~= relation_ids@);
    proof {
        lemma_area_polygons_have_four_points(
            way_ids@,
            relation_ids@,
            ways_by_id@,
            relations_by_id@,
            nodes_by_id@,
            coords_match,
            *contains,
        );
    }
    polygons
}

/// An area of ways alone: with no relations, the polygons are exactly those
/// of its closed ways, one for each closed way in order (see
/// `closed_way_polygon`).
pub proof fn lemma_area_of_ways_only<F: Fn(&(u64, u64), &(u64, u64)) -> bool, C: Fn(&Vec<(u64, u64)>, &(u64, u64)) -> bool>(
    way_ids: Seq<u64>,
    ways: Map<u64, OsmWay>,
    rels: Map<u64, OsmRelation>,
    nodes: Map<u64, OsmNode>,
    f: F,
    c: C,
)
    ensures
        area_polygons(way_ids, Seq::empty(), ways, rels, nodes, f, c) == closed_ways_polygons(way_ids, ways, nodes),
{
    assert(closed_ways_polygons(way_ids, ways, nodes) + relations_polygons(Seq::empty(), rels, ways, nodes, f, c)
        =~= closed_ways_polygons(way_ids, ways, nodes));
}

/// Whether every ring of the polygons, outer ring and holes, has at least
/// four points.
pub open spec fn rings_have_four_points(ps: Seq<(Seq<(u64, u64)>, Seq<Seq<(u64, u64)>>)>) -> bool {
    forall|k: int| 0 <= k < ps.len() ==> {
        &&& (#[trigger] ps[k]).0.len() >= 4
        &&& forall|h: int| 0 <= h < ps[k].1.len() ==> (#[trigger] ps[k].1[h]).len() >= 4
    }
}

proof fn lemma_concat_four_points(
    a: Seq<(Seq<(u64, u64)>, Seq<Seq<(u64, u64)>>)>,
    b: Seq<(Seq<(u64, u64)>, Seq<Seq<(u64, u64)>>)>,
)
    requires
        rings_have_four_points(a),
        rings_have_four_points(b),
    ensures
        rings_have_four_points(a + b),
{
    assert forall|k: int| 0 <= k < (a + b).len() implies {
        &&& (#[trigger] (a + b)[k]).0.len() >= 4
        &&& forall|h: int| 0 <= h < (a + b)[k].1.len() ==> (#[trigger] (a + b)[k].1[h]).len() >= 4
    } by {
        if k < a.len() {
            assert((a + b)[k] == a[k]);
        } else {
            assert((a + b)[k] == b[k - a.len()]);
        }
    }
}

proof fn lemma_holes_four_points<C: Fn(&Vec<(u64, u64)>, &(u64, u64)) -> bool>(
    inner: Seq<Seq<(u64, u64)>>,
    outer: Seq<(u64, u64)>,
    c: C,
)
    ensures
        forall|h: int| 0 <= h < holes_of(inner, outer, c).len() ==> (#[trigger] holes_of(inner, outer, c)[h]).len() >= 4,
    decreases inner.len(),
{
    if inner.len() > 0 {
        lemma_holes_four_points(inner.drop_last(), outer, c);
        let rest = holes_of(inner.drop_last(), outer, c);
        let all = holes_of(inner, outer, c);
        assert forall|h: int| 0 <= h < all.len() implies (#[trigger] all[h]).len() >= 4 by {
            if h < rest.len() {
                assert(all[h] == rest[h]);
            }
        }
    }
}

proof fn lemma_with_holes_four_points<C: Fn(&Vec<(u64, u64)>, &(u64, u64)) -> bool>(
    outer: Seq<Seq<(u64, u64)>>,
    inner: Seq<Seq<(u64, u64)>>,
    c: C,
)
    ensures
        rings_have_four_points(polygons_with_holes(outer, inner, c)),
    decreases outer.len(),
{
    if outer.len() > 0 {
        lemma_with_holes_four_points(outer.drop_last(), inner, c);
        lemma_holes_four_points(inner, outer.last(), c);
        let last: Seq<(Seq<(u64, u64)>, Seq<Seq<(u64, u64)>>)> = if outer.last().len() >= 4 {
            seq![(outer.last(), holes_of(inner, outer.last(), c))]
        } else {
            Seq::empty()
        };
        lemma_concat_four_points(polygons_with_holes(outer.drop_last(), inner, c), last);
    }
}

proof fn lemma_closed_ways_four_points(way_ids: Seq<u64>, ways: Map<u64, OsmWay>, nodes: Map<u64, OsmNode>)
    ensures
        rings_have_four_points(closed_ways_polygons(way_ids, ways, nodes)),
    decreases way_ids.len(),
{
    if way_ids.len() > 0 {
        lemma_closed_ways_four_points(way_ids.drop_last(), ways, nodes);
        lemma_concat_four_points(
            closed_ways_polygons(way_ids.drop_last(), ways, nodes),
            closed_way_polygon(way_ids.last(), ways, nodes),
        );
    }
}

proof fn lemma_members_four_points(ms: Seq<OsmRelationMember>, ways: Map<u64, OsmWay>, nodes: Map<u64, OsmNode>)
    ensures
        rings_have_four_points(members_closed_ways(ms, ways, nodes)),
    decreases ms.len(),
{
    if ms.len() > 0 {
        lemma_members_four_points(ms.drop_last(), ways, nodes);
        lemma_concat_four_points(members_closed_ways(ms.drop_last(), ways, nodes), member_closed_way(ms.last(), ways, nodes));
    }
}

proof fn lemma_relations_four_points<F: Fn(&(u64, u64), &(u64, u64)) -> bool, C: Fn(&Vec<(u64, u64)>, &(u64, u64)) -> bool>(
    rids: Seq<u64>,
    rels: Map<u64, OsmRelation>,
    ways: Map<u64, OsmWay>,
    nodes: Map<u64, OsmNode>,
    f: F,
    c: C,
)
    ensures
        rings_have_four_points(relations_polygons(rids, rels, ways, nodes, f, c)),
    decreases rids.len(),
{
    if rids.len() > 0 {
        lemma_relations_four_points(rids.drop_last(), rels, ways, nodes, f, c);
        let rid = rids.last();
        if rels.contains_key(rid) {
            lemma_members_four_points(rels[rid].members@, ways, nodes);
            lemma_with_holes_four_points(
                rings_of(role_lines(rels[rid].members@, ways, nodes, true), f),
                rings_of(role_lines(rels[rid].members@, ways, nodes, false), f),
                c,
            );
        }
        lemma_concat_four_points(
            relations_polygons(rids.drop_last(), rels, ways, nodes, f, c),
            relation_polygons(rid, rels, ways, nodes, f, c),
        );
    }
}

/// Every polygon of an area is a valid one: its outer ring and each of its
/// holes have at least four points (three and the closing one).
pub proof fn lemma_area_polygons_have_four_points<F: Fn(&(u64, u64), &(u64, u64)) -> bool, C: Fn(&Vec<(u64, u64)>, &(u64, u64)) -> bool>(
    way_ids: Seq<u64>,
    relation_ids: Seq<u64>,
    ways: Map<u64, OsmWay>,
    rels: Map<u64, OsmRelation>,
    nodes: Map<u64, OsmNode>,
    f: F,
    c: C,
)
    ensures
        rings_have_four_points(area_polygons(way_ids, relation_ids, ways, rels, nodes, f, c)),
{
    lemma_closed_ways_four_points(way_ids, ways, nodes);
    lemma_relations_four_points(relation_ids, rels, ways, nodes, f, c);
    lemma_concat_four_points(
        closed_ways_polygons(way_ids, ways, nodes),
        relations_polygons(relation_ids, rels, ways, nodes, f, c),
    );
}

/// Whether relation `i` is the last of the relations with its id (a later
/// one with the same id replaces it).
pub open spec fn last_with_id(rels: Seq<(OsmRelation, bool, bool)>, i: int) -> bool {
    forall|j: int| i < j < rels.len() ==> (#[trigger] rels[j]).0.id != rels[i].0.id
}

/// Whether every member of the relation that is a relation is among `done`.
pub open spec fn members_resolved(ms: Seq<OsmRelationMember>, done: Set<u64>) -> bool {
    forall|k: int| 0 <= k < ms.len() && (#[trigger] ms[k]).member_type == OsmRelationMemberType::Relation ==> done.contains(
        ms[k].member_ref,
    )
}

/// Whether relation `i` gets its bounding box in the round after the
/// relations `done` got theirs: it is the last with its id, it is not done
/// yet, and its relation members are done.
pub open spec fn resolves(rels: Seq<(OsmRelation, bool, bool)>, i: int, done: Set<u64>) -> bool {
    &&& last_with_id(rels, i)
    &&& !done.contains(rels[i].0.id)
    &&& members_resolved(rels[i].0.members@, done)
}

/// The positions, below `n`, of the relations that resolve after `done`.
pub open spec fn round_from(rels: Seq<(OsmRelation, bool, bool)>, done: Set<u64>, n: int) -> Seq<int>
    decreases n,
{
    if n <= 0 {
        Seq::empty()
    } else {
        round_from(rels, done, n - 1) + if resolves(rels, n - 1, done) {
            seq![n - 1]
        } else {
            Seq::empty()
        }
    }
}

/// The ids of the relations at the positions.
pub open spec fn ids_at(rels: Seq<(OsmRelation, bool, bool)>, pos: Seq<int>) -> Set<u64>
    decreases pos.len(),
{
    if pos.len() == 0 {
        Set::empty()
    } else {
        ids_at(rels, pos.drop_last()).insert(rels[pos.last()].0.id)
    }
}

/// The rounds of resolution, at most `left` more of them, after `done`: each
/// round holds the relations that resolve after the ones before it, and the
/// rounds stop at the first that would be empty.
pub open spec fn rounds_from(rels: Seq<(OsmRelation, bool, bool)>, done: Set<u64>, left: nat) -> Seq<Seq<int>>
    decreases left,
{
    if left == 0 {
        Seq::empty()
    } else {
        let r = round_from(rels, done, rels.len() as int);
        if r.len() == 0 {
            Seq::empty()
        } else {
            seq![r] + rounds_from(rels, done.union(ids_at(rels, r)), (left - 1) as nat)
        }
    }
}

/// The ids, round by round, of the relations whose flag (`residential`, else
/// military) is set.
pub open spec fn flagged_ids(rels: Seq<(OsmRelation, bool, bool)>, rounds: Seq<Seq<int>>, residential: bool) -> Seq<u64>
    decreases rounds.len(),
{
    if rounds.len() == 0 {
        Seq::empty()
    } else {
        flagged_ids(rels, rounds.drop_last(), residential) + flagged_in(rels, rounds.last(), residential)
    }
}

/// The ids, in order, of the relations at the positions whose flag is set.
pub open spec fn flagged_in(rels: Seq<(OsmRelation, bool, bool)>, pos: Seq<int>, residential: bool) -> Seq<u64>
    decreases pos.len(),
{
    if pos.len() == 0 {
        Seq::empty()
    } else {
        let x = rels[pos.last()];
        flagged_in(rels, pos.drop_last(), residential) + if (residential && x.1) || (!residential && x.2) {
            seq![x.0.id]
        } else {
            Seq::empty()
        }
    }
}

/// Positions as integers.
pub open spec fn as_ints(s: Seq<usize>) -> Seq<int> {
    s.map_values(|i: usize| i as int)
}

/// The order in which relations get their bounding boxes: in rounds (at most
/// ten), each of the relations whose relation members all got theirs in
/// earlier rounds. A relation replaced by a later one with the same id, or
/// with a relation member that never resolves, gets none.
pub struct RelationResolution {
    /// The positions of the relations resolved in each round, in order.
    pub rounds: Vec<Vec<usize>>,
    /// The ids of the residential relations, in the order they resolved.
    pub residential: Vec<u64>,
    /// The ids of the military relations, in the order they resolved.
    pub military: Vec<u64>,
}

/// Whether relation `i` resolves after the relations `done` (see `resolves`).
fn resolves_after(rels: &Vec<(OsmRelation, bool, bool)>, i: usize, done: &HashSet<u64>) -> (b: bool)
    requires
        i < rels@.len(),
    ensures
        b == resolves(rels@, i as int, done@),
{
    let id = rels[i].0.id;
    let n = rels.len();
    let mut j: usize = i + 1;
    while j < rels.len()
        invariant
            i < j <= rels@.len(),
            id == rels@[i as int].0.id,
            forall|q: int| i < q < j ==> (#[trigger] rels@[q]).0.id != id,
        decreases rels@.len() - j,
    {
        if rels[j].0.id == id {
            assert(rels@[j as int].0.id == id);
            return false;
        }
        j = j + 1;
    }
    if done.contains(&id) {
        return false;
    }
    let members = &rels[i].0.members;
    let mut k: usize = 0;
    while k < members.len()
        invariant
            k <= members@.len(),
            members@ == rels@[i as int].0.members@,
            forall|q: int| 0 <= q < k && (#[trigger] members@[q]).member_type == OsmRelationMemberType::Relation ==> done@.contains(
                members@[q].member_ref,
            ),
        decreases members@.len() - k,
    {
        let is_relation = match members[k].member_type {
            OsmRelationMemberType::Relation => true,
            _ => false,
        };
        if is_relation && !done.contains(&members[k].member_ref) {
            return false;
        }
        k = k + 1;
    }
    true
}

/// Works out in which order the relations get their bounding boxes (see
/// `RelationResolution`); each relation comes with whether it is residential
/// and whether it is military.
pub fn resolve_relations(rels: &Vec<(OsmRelation, bool, bool)>) -> (r: RelationResolution)
    ensures
        r.rounds@.map_values(|round: Vec<usize>| as_ints(round@)) == rounds_from(rels@, Set::empty(), 10),
        r.residential@ == flagged_ids(rels@, rounds_from(rels@, Set::empty(), 10), true),
        r.military@ == flagged_ids(rels@, rounds_from(rels@, Set::empty(), 10), false),
{
    let ghost target = rounds_from(rels@, Set::empty(), 10);
    let mut done: HashSet<u64> = HashSet::new();
    let mut rounds: Vec<Vec<usize>> = Vec::new();
    let mut residential: Vec<u64> = Vec::new();
    let mut military: Vec<u64> = Vec::new();
    let mut left: usize = 10;
    let mut finished = false;
    proof {
        assert(done@ =~= Set::<u64>::empty());
        assert(rounds@.map_values(|round: Vec<usize>| as_ints(round@)) =~= Seq::<Seq<int>>::empty());
    }
    while left > 0 && !finished
        invariant
            left <= 10,
            finished ==> rounds_from(rels@, done@, left as nat) =~= Seq::<Seq<int>>::empty(),
            finished ==> left > 0,
            rounds@.map_values(|round: Vec<usize>| as_ints(round@)) + rounds_from(rels@, done@, left as nat) == target,
            residential@ == flagged_ids(rels@, rounds@.map_values(|round: Vec<usize>| as_ints(round@)), true),
            military@ == flagged_ids(rels@, rounds@.map_values(|round: Vec<usize>| as_ints(round@)), false),
        decreases left + if finished { 0int } else { 1int },
    {
        let ghost done0 = done@;
        let mut round: Vec<usize> = Vec::new();
        let mut i: usize = 0;
        while i < rels.len()
            invariant
                i <= rels@.len(),
                done@ == done0,
                as_ints(round@) == round_from(rels@, done0, i as int),
                forall|q: int| 0 <= q < round@.len() ==> (#[trigger] round@[q]) < i,
            decreases rels@.len() - i,
        {
            let ghost before = round@;
            if resolves_after(rels, i, &done) {
                round.push(i);
                assert(as_ints(round@) =~= as_ints(before) + seq![i as int]);
            } else {
                assert(as_ints(round@) =~= as_ints(before) + Seq::<int>::empty());
            }
            i = i + 1;
        }
        let ghost r = as_ints(round@);
        if round.len() == 0 {
            finished = true;
        } else {
            let ghost views_before = rounds@.map_values(|round: Vec<usize>| as_ints(round@));
            let ghost res_before = residential@;
            let ghost mil_before = military@;
            let mut k: usize = 0;
            while k < round.len()
                invariant
                    k <= round@.len(),
                    r == as_ints(round@),
                    forall|q: int| 0 <= q < round@.len() ==> (#[trigger] round@[q]) < rels@.len(),
                    done@ == done0.union(ids_at(rels@, r.take(k as int))),
                    residential@ == res_before + flagged_in(rels@, r.take(k as int), true),
                    military@ == mil_before + flagged_in(rels@, r.take(k as int), false),
                decreases round@.len() - k,
            {
                let idx = round[k];
                assert(r.take(k + 1).drop_last() =~= r.take(k as int));
                assert(r.take(k + 1).last() == idx as int);
                let ghost d = done@;
                done.insert(rels[idx].0.id);
                assert(done@ =~= done0.union(ids_at(rels@, r.take(k + 1))));
                if rels[idx].1 {
                    residential.push(rels[idx].0.id);
                }
                if rels[idx].2 {
                    military.push(rels[idx].0.id);
                }
                assert(residential@ =~= res_before + flagged_in(rels@, r.take(k + 1), true));
                assert(military@ =~= mil_before + flagged_in(rels@, r.take(k + 1), false));
                k = k + 1;
            }
            assert(r.take(r.len() as int) =~= r);
            rounds.push(round);
            let ghost views_after = rounds@.map_values(|round: Vec<usize>| as_ints(round@));
            assert(views_after =~= views_before.push(r));
            assert(views_after.drop_last() =~= views_before);
            assert(views_before + rounds_from(rels@, done0, left as nat) =~= views_after + rounds_from(rels@, done@, (left - 1) as nat));
            left = left - 1;
        }
    }
    proof {
        if !finished {
            assert(rounds_from(rels@, done@, 0) =~= Seq::<Seq<int>>::empty());
        }
        assert(rounds@.map_values(|round: Vec<usize>| as_ints(round@)) =~= target);
    }
    RelationResolution { rounds, residential, military }
}

} // verus!
