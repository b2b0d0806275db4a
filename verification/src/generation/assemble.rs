//! Assembling the graph of one tile from its nodes, ways and relations: nodes
//! by increasing id, then the ways in order, then the relations in order.

use vstd::prelude::*;
use crate::generation::GenerationLine;
use crate::generation::graph::{
    GenerationGraph, point_of_node, role_refs, restriction_skip, rule_of_relation, rules_at, tag_set_for_way,
    way_direction, way_segments,
};
use crate::generation::restriction::{GenerationRestrictionSkipReason, GenerationRestrictionSkipStats, stats_count};
use crate::generation::tags::{GenerationTags, TagSetId, tables_extend};
use crate::osm::{OsmNode, OsmRelation, OsmWay};

verus! {

/// Whether a way adds lines: it has at least two nodes and has tags.
pub open spec fn way_adds_lines(way: OsmWay) -> bool {
    way.point_ids@.len() >= 2 && way.tags is Some
}

/// The lines that the ways add, in order, the way at position `k` with tag set
/// `ts[k]`.
pub open spec fn ways_lines(ways: Seq<OsmWay>, present: Map<u64, usize>, ts: Seq<TagSetId>) -> Seq<GenerationLine>
    decreases ways.len(),
{
    if ways.len() == 0 {
        Seq::empty()
    } else {
        let w = ways.last();
        ways_lines(ways.drop_last(), present, ts) + if way_adds_lines(w) {
            way_segments(w.point_ids@, present, way_direction(w.tags->0@), ts[ways.len() - 1])
        } else {
            Seq::empty()
        }
    }
}

/// The most lines that the ways can add: one per pair of consecutive nodes of
/// each way that adds lines.
pub open spec fn ways_line_bound(ways: Seq<OsmWay>) -> int
    decreases ways.len(),
{
    if ways.len() == 0 {
        0
    } else {
        ways_line_bound(ways.drop_last()) + if way_adds_lines(ways.last()) {
            ways.last().point_ids@.len() - 1
        } else {
            0
        }
    }
}

/// How many of the relations are skipped for `reason`, in a graph with the
/// given points, way lines and lines.
pub open spec fn skipped_count(
    rels: Seq<OsmRelation>,
    reason: GenerationRestrictionSkipReason,
    points: Map<u64, usize>,
    ways: Map<u64, Vec<usize>>,
    lines: Seq<GenerationLine>,
) -> int
    decreases rels.len(),
{
    if rels.len() == 0 {
        0
    } else {
        skipped_count(rels.drop_last(), reason, points, ways, lines) + if restriction_skip(
            rels.last(),
            points,
            ways,
            lines,
        ) == Some(reason) {
            1int
        } else {
            0int
        }
    }
}

/// The relations that become rules at via node `via`, in order.
pub open spec fn kept_at(
    rels: Seq<OsmRelation>,
    via: u64,
    points: Map<u64, usize>,
    ways: Map<u64, Vec<usize>>,
    lines: Seq<GenerationLine>,
) -> Seq<OsmRelation>
    decreases rels.len(),
{
    if rels.len() == 0 {
        Seq::empty()
    } else {
        let r = rels.last();
        kept_at(rels.drop_last(), via, points, ways, lines) + if restriction_skip(r, points, ways, lines) is None
            && role_refs(r.members@, 2)[0] == via {
            seq![r]
        } else {
            Seq::empty()
        }
    }
}

proof fn lemma_skipped_count_bound(
    rels: Seq<OsmRelation>,
    reason: GenerationRestrictionSkipReason,
    points: Map<u64, usize>,
    ways: Map<u64, Vec<usize>>,
    lines: Seq<GenerationLine>,
)
    ensures
        0 <= skipped_count(rels, reason, points, ways, lines) <= rels.len(),
    decreases rels.len(),
{
    if rels.len() > 0 {
        lemma_skipped_count_bound(rels.drop_last(), reason, points, ways, lines);
    }
}

proof fn lemma_segments_count(ids: Seq<u64>, present: Map<u64, usize>, d: crate::generation::LineDirection, t: TagSetId)
    ensures
        ids.len() >= 1 ==> way_segments(ids, present, d, t).len() <= ids.len() - 1,
        ids.len() < 2 ==> way_segments(ids, present, d, t).len() == 0,
    decreases ids.len(),
{
    if ids.len() >= 2 {
        lemma_segments_count(ids.drop_last(), present, d, t);
    }
}

proof fn lemma_ways_line_bound_nonneg(ways: Seq<OsmWay>)
    ensures
        ways_line_bound(ways) >= 0,
    decreases ways.len(),
{
    if ways.len() > 0 {
        lemma_ways_line_bound_nonneg(ways.drop_last());
    }
}

proof fn lemma_tag_set_kept(old: GenerationTags, new: GenerationTags, t: TagSetId, way_tags: Map<Seq<char>, Seq<char>>)
    requires
        tables_extend(old, new),
        tag_set_for_way(old, t, way_tags),
    ensures
        tag_set_for_way(new, t, way_tags),
{
    let n = old.tag_values@.len() as int;
    let m = old.tag_sets@.len() as int;
    assert(new.tag_sets@[t.tag_set_idx as int] == new.tag_sets@.subrange(0, m)[t.tag_set_idx as int]);
    assert forall|k: int| 0 <= k < n implies #[trigger] new.tag_values.deep_view()[k] == old.tag_values.deep_view()[k] by {
        assert(new.tag_values.deep_view()[k] == new.tag_values.deep_view().subrange(0, n)[k]);
    }
}

proof fn lemma_ways_lines_prefix(ways: Seq<OsmWay>, present: Map<u64, usize>, ts1: Seq<TagSetId>, ts2: Seq<TagSetId>)
    requires
        forall|k: int| 0 <= k < ways.len() ==> ts1[k] == ts2[k],
    ensures
        ways_lines(ways, present, ts1) == ways_lines(ways, present, ts2),
    decreases ways.len(),
{
    if ways.len() > 0 {
        lemma_ways_lines_prefix(ways.drop_last(), present, ts1, ts2);
        assert(ts1[ways.len() - 1] == ts2[ways.len() - 1]);
    }
}

/// Whether some entry of `perm` is `k`.
spec fn perm_covers(perm: Seq<int>, k: int) -> bool {
    exists|p: int| 0 <= p < perm.len() && perm[p] == k
}

/// The elements of `v` in reverse order.
fn reversed<T>(v: Vec<T>) -> (r: Vec<T>)
    ensures
        r@.len() == v@.len(),
        forall|q: int| 0 <= q < r@.len() ==> #[trigger] r@[q] == v@[v@.len() - 1 - q],
{
    let ghost orig = v@;
    let mut rest = v;
    let mut r: Vec<T> = Vec::new();
    while rest.len() > 0
        invariant
            rest@ == orig.take(rest@.len() as int),
            r@.len() + rest@.len() == orig.len(),
            forall|q: int| 0 <= q < r@.len() ==> #[trigger] r@[q] == orig[orig.len() - 1 - q],
        decreases rest.len(),
    {
        let ghost before = rest@;
        let x = rest.pop().unwrap();
        assert(before == rest@.push(x));
        assert(x == orig[rest@.len() as int]);
        assert(rest@ =~= orig.take(rest@.len() as int));
        r.push(x);
    }
    r
}

/// The nodes by increasing id; the ids are distinct.
fn sort_nodes_by_id(nodes: &Vec<OsmNode>) -> (sorted: Vec<OsmNode>)
    requires
        forall|a: int, b: int| 0 <= a < b < nodes@.len() ==> (#[trigger] nodes@[a]).id != (#[trigger] nodes@[b]).id,
    ensures
        sorted@.len() == nodes@.len(),
        forall|i: int, j: int| 0 <= i < j < sorted@.len() ==> (#[trigger] sorted@[i]).id < (#[trigger] sorted@[j]).id,
        forall|k: int| 0 <= k < nodes@.len() ==> sorted@.contains(#[trigger] nodes@[k]),
{
    let mut sorted: Vec<OsmNode> = Vec::new();
    let ghost mut perm: Seq<int> = Seq::empty();
    let mut i: usize = 0;
    while i < nodes.len()
        invariant
            i <= nodes@.len(),
            forall|a: int, b: int| 0 <= a < b < nodes@.len() ==> (#[trigger] nodes@[a]).id != (#[trigger] nodes@[b]).id,
            sorted@.len() == i,
            perm.len() == i,
            forall|p: int| 0 <= p < i ==> 0 <= #[trigger] perm[p] < i && sorted@[p] == nodes@[perm[p]],
            forall|k: int| 0 <= k < i ==> #[trigger] perm_covers(perm, k),
            forall|a: int, b: int| 0 <= a < b < sorted@.len() ==> (#[trigger] sorted@[a]).id < (#[trigger] sorted@[b]).id,
        decreases nodes.len() - i,
    {
        let x = nodes[i];
        assert forall|q: int| 0 <= q < sorted@.len() implies (#[trigger] sorted@[q]).id != x.id by {
            assert(sorted@[q] == nodes@[perm[q]]);
            assert(perm[q] < i);
        }
        let mut pos: usize = 0;
        while pos < sorted.len() && sorted[pos].id < x.id
            invariant
                pos <= sorted@.len(),
                forall|q: int| 0 <= q < pos ==> (#[trigger] sorted@[q]).id < x.id,
            decreases sorted.len() - pos,
        {
            pos = pos + 1;
        }
        let ghost before = sorted@;
        let ghost perm_before = perm;
        sorted.insert(pos, x);
        proof {
            perm = perm.insert(pos as int, i as int);
            assert(sorted@ == before.insert(pos as int, x));
            if pos < before.len() {
                assert(before[pos as int].id > x.id) by {
                    assert(before[pos as int].id != x.id);
                }
            }
            assert forall|a: int, b: int| 0 <= a < b < sorted@.len() implies (#[trigger] sorted@[a]).id < (
            #[trigger] sorted@[b]).id by {
                if b < pos {
                    assert(before[a].id < before[b].id);
                } else if a < pos && b == pos {
                } else if a < pos {
                    assert(before[a].id < before[b - 1].id);
                } else if a == pos {
                    if b - 1 > pos {
                        assert(before[pos as int].id < before[b - 1].id);
                    }
                } else {
                    assert(before[a - 1].id < before[b - 1].id);
                }
            }
            assert forall|p: int| 0 <= p < i + 1 implies 0 <= #[trigger] perm[p] < i + 1 && sorted@[p] == nodes@[perm[p]] by {
                if p < pos {
                    assert(perm[p] == perm_before[p]);
                } else if p > pos {
                    assert(perm[p] == perm_before[p - 1]);
                }
            }
            assert forall|k: int| 0 <= k < i + 1 implies #[trigger] perm_covers(perm, k) by {
                if k == i {
                    assert(perm[pos as int] == k);
                } else {
                    assert(perm_covers(perm_before, k));
                    let p0 = choose|p: int| 0 <= p < perm_before.len() && perm_before[p] == k;
                    if p0 < pos {
                        assert(perm[p0] == k);
                    } else {
                        assert(perm[p0 + 1] == k);
                    }
                }
            }
        }
        i = i + 1;
    }
    assert forall|k: int| 0 <= k < nodes@.len() implies sorted@.contains(#[trigger] nodes@[k]) by {
        assert(perm_covers(perm, k));
        let p = choose|p: int| 0 <= p < perm.len() && perm[p] == k;
        assert(sorted@[p] == nodes@[k]);
    }
    sorted
}

/// The graph of a tile: the nodes inserted by increasing id, then the ways in
/// order, then the relations in order (each as `insert_node`, `insert_way` and
/// `insert_relation` do). The node ids are distinct, as the keys of the node
/// table they come from.
#[verifier::rlimit(40)]
pub fn build_generation_graph(nodes: Vec<OsmNode>, ways: Vec<OsmWay>, relations: Vec<OsmRelation>) -> (graph:
    GenerationGraph)
    requires
        forall|a: int, b: int| 0 <= a < b < nodes@.len() ==> (#[trigger] nodes@[a]).id != (#[trigger] nodes@[b]).id,
        5 * ways@.len() + 5 < u32::MAX,
        ways_line_bound(ways@) <= u32::MAX + 1,
    ensures
        graph.wf(),
        graph.points@.len() == nodes@.len(),
        forall|i: int, j: int| 0 <= i < j < graph.points@.len() ==> (#[trigger] graph.points@[i]).id < (
        #[trigger] graph.points@[j]).id,
        forall|k: int| 0 <= k < nodes@.len() ==> graph.points@.contains(point_of_node(#[trigger] nodes@[k])),
        exists|ts: Seq<TagSetId>| {
            &&& ts.len() == ways@.len()
            &&& graph.lines@ == ways_lines(ways@, graph.points_map@, ts)
            &&& forall|k: int| 0 <= k < ways@.len() && way_adds_lines(#[trigger] ways@[k]) ==> tag_set_for_way(
                graph.tags,
                ts[k],
                ways@[k].tags->0@,
            )
        },
        forall|reason: GenerationRestrictionSkipReason| #[trigger] stats_count(graph.restriction_skip_stats, reason)
            == skipped_count(relations@, reason, graph.points_map@, graph.way_line_indices@, graph.lines@),
        forall|via: u64| {
            let kept = kept_at(relations@, via, graph.points_map@, graph.way_line_indices@, graph.lines@);
            let rules = #[trigger] rules_at(graph.restrictions_by_via@, via);
            &&& rules.len() == kept.len()
            &&& forall|k: int| 0 <= k < rules.len() ==> rule_of_relation(
                rules[k],
                kept[k],
                graph.way_line_indices@,
                graph.lines@,
            )
        },
{
    let sorted = sort_nodes_by_id(&nodes);
    let mut graph = GenerationGraph::new();
    let mut i: usize = 0;
    assert(sorted@.take(0).map_values(|n: OsmNode| point_of_node(n)) =~= Seq::<crate::generation::GenerationPoint>::empty());
    while i < sorted.len()
        invariant
            i <= sorted@.len(),
            graph.wf(),
            graph.points@ == sorted@.take(i as int).map_values(|n: OsmNode| point_of_node(n)),
            graph.lines@.len() == 0,
            graph.tags.tag_values@.len() == 0,
            graph.tags.tag_sets@.len() == 0,
            graph.way_line_indices@ == Map::<u64, Vec<usize>>::empty(),
            graph.restrictions_by_via@ == Map::<u64, Vec<crate::generation::restriction::GenerationRestrictionRule>>::empty(),
            graph.restriction_skip_stats == GenerationRestrictionSkipStats::default_spec(),
        decreases sorted.len() - i,
    {
        let node = sorted[i];
        graph.insert_node(node);
        assert(sorted@.take(i + 1) =~= sorted@.take(i as int).push(node));
        assert(graph.points@ =~= sorted@.take(i + 1).map_values(|n: OsmNode| point_of_node(n)));
        i = i + 1;
    }
    assert(sorted@.take(sorted@.len() as int) =~= sorted@);
    let ghost points_done = graph.points@;
    let ghost present = graph.points_map@;
    let ghost orig_ways = ways@;
    let ghost mut ts: Seq<TagSetId> = Seq::empty();
    let n_ways = ways.len();
    let mut rev_ways = reversed(ways);
    let mut w: usize = 0;
    assert(orig_ways.take(0) =~= Seq::<OsmWay>::empty());
    proof {
        lemma_ways_line_bound_nonneg(orig_ways);
    }
    while w < n_ways
        invariant
            n_ways == orig_ways.len(),
            w <= n_ways,
            rev_ways@.len() == n_ways - w,
            forall|q: int| 0 <= q < rev_ways@.len() ==> #[trigger] rev_ways@[q] == orig_ways[n_ways - 1 - q],
            5 * orig_ways.len() + 5 < u32::MAX,
            graph.wf(),
            graph.points@ == points_done,
            graph.points_map@ == present,
            graph.restrictions_by_via@ == Map::<u64, Vec<crate::generation::restriction::GenerationRestrictionRule>>::empty(),
            graph.restriction_skip_stats == GenerationRestrictionSkipStats::default_spec(),
            graph.tags.tag_values@.len() <= 5 * w,
            graph.tags.tag_sets@.len() <= w,
            ts.len() == w,
            graph.lines@ == ways_lines(orig_ways.take(w as int), present, ts),
            graph.lines@.len() <= ways_line_bound(orig_ways.take(w as int)),
            forall|k: int| 0 <= k < w && way_adds_lines(#[trigger] orig_ways[k]) ==> tag_set_for_way(
                graph.tags,
                ts[k],
                orig_ways[k].tags->0@,
            ),
        decreases n_ways - w,
    {
        let way = rev_ways.pop().unwrap();
        let ghost wv = orig_ways[w as int];
        assert(way == wv);
        let ghost tags_before = graph.tags;
        let ghost lines_before = graph.lines@;
        let ghost ts_before = ts;
        graph.insert_way(way);
        proof {
            if way_adds_lines(wv) {
                let t = choose|t: TagSetId|
                    tag_set_for_way(graph.tags, t, wv.tags->0@) && graph.lines@ == lines_before + way_segments(
                        wv.point_ids@,
                        present,
                        way_direction(wv.tags->0@),
                        t,
                    );
                ts = ts.push(t);
                lemma_segments_count(wv.point_ids@, present, way_direction(wv.tags->0@), t);
            } else {
                ts = ts.push(TagSetId { tile_id: crate::rmdf::TileId { col: 0, row: 0 }, tag_set_idx: 0 });
            }
            lemma_ways_lines_prefix(orig_ways.take(w as int), present, ts_before, ts);
            assert(orig_ways.take(w + 1).drop_last() =~= orig_ways.take(w as int));
            assert(orig_ways.take(w + 1).last() == wv);
            assert(graph.lines@ == ways_lines(orig_ways.take(w + 1), present, ts));
            assert forall|k: int| 0 <= k < w + 1 && way_adds_lines(#[trigger] orig_ways[k]) implies tag_set_for_way(
                graph.tags,
                ts[k],
                orig_ways[k].tags->0@,
            ) by {
                if k < w {
                    assert(ts[k] == ts_before[k]);
                    lemma_tag_set_kept(tags_before, graph.tags, ts[k], orig_ways[k].tags->0@);
                }
            }
        }
        w = w + 1;
    }
    assert(orig_ways.take(n_ways as int) =~= orig_ways);
    proof {
        lemma_ways_line_bound_nonneg(orig_ways);
    }
    let ghost wli = graph.way_line_indices@;
    let ghost lines_final = graph.lines@;
    let ghost tags_final = graph.tags;
    let ghost orig_rels = relations@;
    let n_rels = relations.len();
    let mut rev_rels = reversed(relations);
    let mut r: usize = 0;
    assert(orig_rels.take(0) =~= Seq::<OsmRelation>::empty());
    assert forall|via: u64| #[trigger] rules_at(graph.restrictions_by_via@, via).len() == kept_at(
        orig_rels.take(0),
        via,
        present,
        wli,
        lines_final,
    ).len() by {}
    while r < n_rels
        invariant
            n_rels == orig_rels.len(),
            r <= n_rels,
            rev_rels@.len() == n_rels - r,
            forall|q: int| 0 <= q < rev_rels@.len() ==> #[trigger] rev_rels@[q] == orig_rels[n_rels - 1 - q],
            graph.wf(),
            graph.points@ == points_done,
            graph.points_map@ == present,
            graph.lines@ == lines_final,
            graph.tags == tags_final,
            graph.way_line_indices@ == wli,
            lines_final.len() <= u32::MAX + 1,
            forall|reason: GenerationRestrictionSkipReason| #[trigger] stats_count(graph.restriction_skip_stats, reason)
                == skipped_count(orig_rels.take(r as int), reason, present, wli, lines_final),
            forall|via: u64| {
                let kept = kept_at(orig_rels.take(r as int), via, present, wli, lines_final);
                let rules = #[trigger] rules_at(graph.restrictions_by_via@, via);
                &&& rules.len() == kept.len()
                &&& forall|k: int| 0 <= k < rules.len() ==> rule_of_relation(rules[k], kept[k], wli, lines_final)
            },
        decreases n_rels - r,
    {
        let rel = rev_rels.pop().unwrap();
        let ghost rv = orig_rels[r as int];
        assert(rel == rv);
        let ghost stats_before = graph.restriction_skip_stats;
        let ghost map_before = graph.restrictions_by_via@;
        proof {
            assert forall|reason: GenerationRestrictionSkipReason| #[trigger] stats_count(stats_before, reason) < u64::MAX by {
                lemma_skipped_count_bound(orig_rels.take(r as int), reason, present, wli, lines_final);
            }
            assert(stats_count(stats_before, GenerationRestrictionSkipReason::ViaWay) < u64::MAX);
            assert(stats_count(stats_before, GenerationRestrictionSkipReason::Conditional) < u64::MAX);
            assert(stats_count(stats_before, GenerationRestrictionSkipReason::Except) < u64::MAX);
            assert(stats_count(stats_before, GenerationRestrictionSkipReason::RestrictionVariant) < u64::MAX);
            assert(stats_count(stats_before, GenerationRestrictionSkipReason::MalformedOrUnresolved) < u64::MAX);
        }
        graph.insert_relation(rel);
        proof {
            assert(orig_rels.take(r + 1).drop_last() =~= orig_rels.take(r as int));
            assert(orig_rels.take(r + 1).last() == rv);
            let skip = restriction_skip(rv, present, wli, lines_final);
            assert forall|reason: GenerationRestrictionSkipReason| #[trigger] stats_count(graph.restriction_skip_stats, reason)
                == skipped_count(orig_rels.take(r + 1), reason, present, wli, lines_final) by {
                assert(skipped_count(orig_rels.take(r + 1), reason, present, wli, lines_final) == skipped_count(
                    orig_rels.take(r as int),
                    reason,
                    present,
                    wli,
                    lines_final,
                ) + if skip == Some(reason) {
                    1int
                } else {
                    0int
                });
            }
            let via0 = role_refs(rv.members@, 2)[0];
            assert forall|via: u64| {
                let kept = kept_at(orig_rels.take(r + 1), via, present, wli, lines_final);
                let rules = #[trigger] rules_at(graph.restrictions_by_via@, via);
                &&& rules.len() == kept.len()
                &&& forall|k: int| 0 <= k < rules.len() ==> rule_of_relation(rules[k], kept[k], wli, lines_final)
            } by {
                let kept0 = kept_at(orig_rels.take(r as int), via, present, wli, lines_final);
                let kept = kept_at(orig_rels.take(r + 1), via, present, wli, lines_final);
                let rules0 = rules_at(map_before, via);
                let rules = rules_at(graph.restrictions_by_via@, via);
                assert(kept == kept0 + if skip is None && via0 == via {
                    seq![rv]
                } else {
                    Seq::empty()
                });
                if skip is None && via0 == via {
                    assert(rules.len() == rules0.len() + 1);
                    assert forall|k: int| 0 <= k < rules.len() implies rule_of_relation(rules[k], kept[k], wli, lines_final) by {
                        if k < rules0.len() {
                            assert(rules[k] == rules.take(rules0.len() as int)[k]);
                            assert(kept[k] == kept0[k]);
                        } else {
                            assert(kept[k] == rv);
                        }
                    }
                } else {
                    assert(rules == rules0) by {
                        if skip is None {
                            if graph.restrictions_by_via@.contains_key(via) {
                                assert(graph.restrictions_by_via@[via] == map_before[via]);
                            }
                        }
                    }
                    assert(kept =~= kept0);
                }
            }
        }
        r = r + 1;
    }
    assert(orig_rels.take(n_rels as int) =~= orig_rels);
    proof {
        assert forall|k: int| 0 <= k < nodes@.len() implies graph.points@.contains(point_of_node(#[trigger] nodes@[k])) by {
            assert(sorted@.contains(nodes@[k]));
            let p = choose|p: int| 0 <= p < sorted@.len() && sorted@[p] == nodes@[k];
            assert(graph.points@[p] == point_of_node(nodes@[k]));
        }
        assert(graph.lines@ == ways_lines(ways@, graph.points_map@, ts));
    }
    graph
}

} // verus!
