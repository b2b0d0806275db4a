//! The generation graph of one tile: points, the lines of the ways between them,
//! their tags, and the turn restrictions at via nodes.

use std::collections::HashMap;
use vstd::prelude::*;
use vstd::string::*;
use crate::generation::{GenerationLine, GenerationPoint, LineDirection};
use crate::generation::restriction::{
    GenerationRestrictionRule, GenerationRestrictionRuleType, GenerationRestrictionSkipReason,
    GenerationRestrictionSkipStats, RestrictionSkip, rule_fits, stats_can_count, stats_incremented,
};
use crate::generation::tags::{GenerationTags, TagSetId, value_resolves, tables_extend};
use crate::osm::{
    OsmNode, OsmRelation, OsmRelationMember, OsmRelationMemberRole, OsmRelationMemberType,
    OsmWay, tag_is, some_key_ends_with, some_key_starts_with,
};
use crate::sorted::{insert_sorted, strictly_sorted};
use crate::text::{decimal, debug_quoted, is_prefix, str_debug_text, str_eq, text_with_number};

verus! {

broadcast use vstd::std_specs::hash::group_hash_axioms;

/// The graph from which one tile is written.
pub struct GenerationGraph {
    pub points: Vec<GenerationPoint>,
    pub points_map: HashMap<u64, usize>,
    pub lines: Vec<GenerationLine>,
    pub tags: GenerationTags,
    pub way_line_indices: HashMap<u64, Vec<usize>>,
    pub restrictions_by_via: HashMap<u64, Vec<GenerationRestrictionRule>>,
    pub restriction_skip_stats: GenerationRestrictionSkipStats,
}

/// The point that a node becomes.
pub open spec fn point_of_node(node: OsmNode) -> GenerationPoint {
    GenerationPoint {
        id: node.id,
        lat_bits: node.lat_bits,
        lon_bits: node.lon_bits,
        residential_in_proximity: node.residential_in_proximity,
        nogo_area: node.nogo_area,
    }
}

/// The travel direction of a way with the given tags: `oneway` decides when present
/// (`yes`, `1` or `true` make it one-way); otherwise `junction=roundabout` makes it
/// a roundabout; otherwise both ways.
pub open spec fn way_direction(tags: Map<Seq<char>, Seq<char>>) -> LineDirection {
    if tags.contains_key("oneway"@) {
        let v = tags["oneway"@];
        if v == "yes"@ || v == "1"@ || v == "true"@ {
            LineDirection::OneWay
        } else {
            LineDirection::BothWays
        }
    } else if tag_is(tags, "junction"@, "roundabout"@) {
        LineDirection::Roundabout
    } else {
        LineDirection::BothWays
    }
}

/// The lines that a way contributes: one per pair of consecutive node ids whose
/// nodes are both in the graph, in order.
pub open spec fn way_segments(
    ids: Seq<u64>,
    present: Map<u64, usize>,
    direction: LineDirection,
    tags: TagSetId,
) -> Seq<GenerationLine>
    decreases ids.len(),
{
    if ids.len() < 2 {
        Seq::empty()
    } else {
        let a = ids[ids.len() - 2];
        let b = ids[ids.len() - 1];
        way_segments(ids.drop_last(), present, direction, tags) + if present.contains_key(a)
            && present.contains_key(b) {
            seq![GenerationLine { from_node_id: a, to_node_id: b, direction, tags }]
        } else {
            Seq::empty()
        }
    }
}

/// The node ids `start, start + 1, ..., end - 1`, as `usize` indices.
pub open spec fn index_range(start: int, end: int) -> Seq<usize>
    decreases end - start,
{
    if end <= start {
        Seq::empty()
    } else {
        index_range(start, end - 1).push((end - 1) as usize)
    }
}

/// The value of `key` in `tags`, if present.
pub open spec fn tag_lookup(tags: Map<Seq<char>, Seq<char>>, key: Seq<char>) -> Option<Seq<char>> {
    if tags.contains_key(key) {
        Some(tags[key])
    } else {
        None
    }
}

/// Whether `t` is the tag set of a way with tags `way_tags`, given the tag tables:
/// its five values are the way's `name`, `ref`, `highway`, `surface` and
/// `smoothness` tags, normalized.
pub open spec fn tag_set_for_way(tags: GenerationTags, t: TagSetId, way_tags: Map<Seq<char>, Seq<char>>) -> bool {
    &&& t.tile_id == crate::rmdf::placeholder_tile()
    &&& t.tag_set_idx < tags.tag_sets@.len()
    &&& ({
        let set = tags.tag_sets@[t.tag_set_idx as int];
        let values = tags.tag_values.deep_view();
        &&& value_resolves(tag_lookup(way_tags, "name"@), set.name, values)
        &&& value_resolves(tag_lookup(way_tags, "ref"@), set.hw_ref, values)
        &&& value_resolves(tag_lookup(way_tags, "highway"@), set.highway, values)
        &&& value_resolves(tag_lookup(way_tags, "surface"@), set.surface, values)
        &&& value_resolves(tag_lookup(way_tags, "smoothness"@), set.smoothness, values)
    })
}

/// The lines of a way only join nodes of the graph.
proof fn lemma_segments_present(ids: Seq<u64>, present: Map<u64, usize>, d: LineDirection, t: TagSetId)
    ensures
        forall|k: int|
            0 <= k < way_segments(ids, present, d, t).len() ==> present.contains_key(
                (#[trigger] way_segments(ids, present, d, t)[k]).from_node_id,
            ) && present.contains_key(way_segments(ids, present, d, t)[k].to_node_id),
    decreases ids.len(),
{
    if ids.len() >= 2 {
        lemma_segments_present(ids.drop_last(), present, d, t);
    }
}

/// The way's line list after its new lines were recorded.
pub open spec fn way_lines_after(
    old: Map<u64, Vec<usize>>,
    new: Map<u64, Vec<usize>>,
    way_id: u64,
    added: Seq<usize>,
) -> bool {
    if added.len() == 0 {
        new == old
    } else {
        &&& new.dom() == old.dom().insert(way_id)
        &&& forall|w: u64| #[trigger] new.contains_key(w) && w != way_id ==> new[w] == old[w]
        &&& new[way_id]@ == (if old.contains_key(way_id) {
            old[way_id]@
        } else {
            Seq::empty()
        }) + added
    }
}

impl GenerationGraph {
    /// The structural invariant that every operation keeps: the id index finds every
    /// point, every line joins two points of the graph, every recorded way line exists,
    /// and every rule sits at its via node and names existing lines.
    pub open spec fn wf(&self) -> bool {
        &&& forall|id: u64| #[trigger] self.points_map@.contains_key(id) ==> self.points_map@[id]
            < self.points@.len() && self.points@[self.points_map@[id] as int].id == id
        &&& forall|i: int|
            0 <= i < self.points@.len() ==> self.points_map@.contains_key(
                #[trigger] self.points@[i].id,
            )
        &&& forall|i: int|
            0 <= i < self.lines@.len() ==> self.points_map@.contains_key(
                (#[trigger] self.lines@[i]).from_node_id,
            ) && self.points_map@.contains_key(self.lines@[i].to_node_id)
        &&& forall|w: u64, k: int|
            self.way_line_indices@.contains_key(w) && 0 <= k
                < self.way_line_indices@[w]@.len() ==> #[trigger] self.way_line_indices@[w]@[k]
                < self.lines@.len()
        &&& forall|v: u64, k: int|
            self.restrictions_by_via@.contains_key(v) && 0 <= k
                < self.restrictions_by_via@[v]@.len() ==> #[trigger] rule_fits(
                self.restrictions_by_via@[v]@[k],
                v,
                self.lines@.len() as int,
            )
        &&& self.tags.wf()
    }

    /// An empty graph.
    pub fn new() -> (res: Self)
        ensures
            res.wf(),
            res.points@.len() == 0,
            res.lines@.len() == 0,
            res.points_map@ == Map::<u64, usize>::empty(),
            res.way_line_indices@ == Map::<u64, Vec<usize>>::empty(),
            res.restrictions_by_via@ == Map::<u64, Vec<GenerationRestrictionRule>>::empty(),
            res.restriction_skip_stats == GenerationRestrictionSkipStats::default_spec(),
            res.tags.tag_values@.len() == 0,
            res.tags.tag_sets@.len() == 0,
    {
        GenerationGraph {
            points: Vec::new(),
            points_map: HashMap::new(),
            lines: Vec::new(),
            tags: GenerationTags::new(),
            way_line_indices: HashMap::new(),
            restrictions_by_via: HashMap::new(),
            restriction_skip_stats: GenerationRestrictionSkipStats::zero(),
        }
    }

    /// The points, in insertion order.
    pub fn get_points(&self) -> (res: &[GenerationPoint])
        ensures
            res@ == self.points@,
    {
        self.points.as_slice()
    }

    /// The lines, in insertion order.
    pub fn get_lines(&self) -> (res: &[GenerationLine])
        ensures
            res@ == self.lines@,
    {
        self.lines.as_slice()
    }

    /// The tag tables.
    pub fn get_tags(&self) -> (res: &GenerationTags)
        ensures
            res == &self.tags,
    {
        &self.tags
    }

    /// The tag tables, for changing them.
    pub fn get_tags_mut(&mut self) -> (res: &mut GenerationTags)
        ensures
            *res == old(self).tags,
            final(self).tags == *final(res),
            final(self).points == old(self).points,
            final(self).lines == old(self).lines,
            final(self).points_map == old(self).points_map,
            final(self).way_line_indices == old(self).way_line_indices,
            final(self).restrictions_by_via == old(self).restrictions_by_via,
            final(self).restriction_skip_stats == old(self).restriction_skip_stats,
    {
        &mut self.tags
    }

    /// The turn restrictions, by via node id.
    pub fn get_restrictions_by_via(&self) -> (res: &HashMap<u64, Vec<GenerationRestrictionRule>>)
        ensures
            res == &self.restrictions_by_via,
    {
        &self.restrictions_by_via
    }

    /// The counts of skipped restriction relations.
    pub fn get_restriction_skip_stats(&self) -> (res: &GenerationRestrictionSkipStats)
        ensures
            res == &self.restriction_skip_stats,
    {
        &self.restriction_skip_stats
    }

    /// Adds a node as a point. A later node with the same id takes over the id in the
    /// index; the earlier point stays in the list.
    pub fn insert_node(&mut self, node: OsmNode)
        requires
            old(self).wf(),
        ensures
            final(self).wf(),
            final(self).points@ == old(self).points@.push(point_of_node(node)),
            final(self).points_map@ == old(self).points_map@.insert(node.id, old(self).points@.len() as usize),
            final(self).lines == old(self).lines,
            final(self).tags == old(self).tags,
            final(self).way_line_indices == old(self).way_line_indices,
            final(self).restrictions_by_via == old(self).restrictions_by_via,
            final(self).restriction_skip_stats == old(self).restriction_skip_stats,
    {
        let point = GenerationPoint {
            id: node.id,
            lat_bits: node.lat_bits,
            lon_bits: node.lon_bits,
            residential_in_proximity: node.residential_in_proximity,
            nogo_area: node.nogo_area,
        };
        let idx = self.points.len();
        self.points.push(point);
        self.points_map.insert(node.id, idx);
        proof {
            assert forall|id: u64| #[trigger] self.points_map@.contains_key(id) implies self.points_map@[id]
                < self.points@.len() && self.points@[self.points_map@[id] as int].id == id by {
                if id != node.id {
                    assert(old(self).points_map@.contains_key(id));
                }
            }
            assert forall|i: int| 0 <= i < self.points@.len() implies self.points_map@.contains_key(
                #[trigger] self.points@[i].id,
            ) by {
                if i < idx {
                    assert(old(self).points_map@.contains_key(old(self).points@[i].id));
                }
            }
        }
    }
}


impl GenerationGraph {
    /// Adds a way: with fewer than two nodes or without tags it is ignored; otherwise its
    /// tags are interned, and one line per pair of consecutive nodes that are both in
    /// the graph is appended, all with the way's direction and tag set. The new line
    /// indices are recorded under the way's id.
    #[verifier::rlimit(40)]
    pub fn insert_way(&mut self, way: OsmWay)
        requires
            old(self).wf(),
            old(self).tags.tag_values.len() + 5 < u32::MAX,
            old(self).tags.tag_sets.len() + 1 < u32::MAX,
        ensures
            final(self).wf(),
            final(self).points == old(self).points,
            final(self).points_map@ == old(self).points_map@,
            final(self).restrictions_by_via@ == old(self).restrictions_by_via@,
            final(self).restriction_skip_stats == old(self).restriction_skip_stats,
            tables_extend(old(self).tags, final(self).tags),
            final(self).tags.tag_values@.len() <= old(self).tags.tag_values@.len() + 5,
            final(self).tags.tag_sets@.len() <= old(self).tags.tag_sets@.len() + 1,
            way.point_ids.len() < 2 || way.tags is None ==> {
                &&& final(self).lines@ == old(self).lines@
                &&& final(self).tags == old(self).tags
                &&& final(self).way_line_indices@ == old(self).way_line_indices@
            },
            way.point_ids.len() >= 2 && way.tags is Some ==> exists|t: TagSetId| {
                &&& tag_set_for_way(final(self).tags, t, way.tags->0@)
                &&& final(self).lines@ == old(self).lines@ + way_segments(
                    way.point_ids@,
                    old(self).points_map@,
                    way_direction(way.tags->0@),
                    t,
                )
                &&& way_lines_after(
                    old(self).way_line_indices@,
                    final(self).way_line_indices@,
                    way.id,
                    index_range(old(self).lines@.len() as int, final(self).lines@.len() as int),
                )
            },
    {
        proof {
            crate::generation::tags::lemma_tables_extend_refl(self.tags);
        }
        if way.point_ids.len() < 2 {
            return;
        }
        let tags_map = match &way.tags {
            Some(t) => t,
            None => {
                return;
            },
        };
        let tag_set_id = self.tags.get_or_create(
            tags_map.get("name"),
            tags_map.get("ref"),
            tags_map.get("highway"),
            tags_map.get("surface"),
            tags_map.get("smoothness"),
        );
        let direction = match tags_map.get("oneway") {
            Some(oneway) => {
                if crate::text::str_eq(oneway.as_str(), "yes") || crate::text::str_eq(
                    oneway.as_str(),
                    "1",
                ) || crate::text::str_eq(oneway.as_str(), "true") {
                    LineDirection::OneWay
                } else {
                    LineDirection::BothWays
                }
            },
            None => {
                if tags_map.has_value("junction", "roundabout") {
                    LineDirection::Roundabout
                } else {
                    LineDirection::BothWays
                }
            },
        };
        assert(direction == way_direction(tags_map@));
        let ghost ids = way.point_ids@;
        let ghost present = self.points_map@;
        let ghost old_lines = self.lines@;
        let ghost old_len = self.lines@.len() as int;
        let mut emitted: Vec<usize> = Vec::new();
        let n = way.point_ids.len();
        let mut i: usize = 0;
        assert(ids.take(1).len() < 2);
        assert(index_range(old_len, old_len) =~= Seq::<usize>::empty());
        while i < n - 1
            invariant
                n == ids.len(),
                n >= 2,
                ids == way.point_ids@,
                i <= n - 1,
                present == self.points_map@,
                self.lines@ == old_lines + way_segments(ids.take(i + 1), present, direction, tag_set_id),
                emitted@ == index_range(old_len, self.lines@.len() as int),
                old_len == old_lines.len(),
                self.way_line_indices == old(self).way_line_indices,
                self.points == old(self).points,
                self.restrictions_by_via == old(self).restrictions_by_via,
                self.restriction_skip_stats == old(self).restriction_skip_stats,
                self.tags.wf(),
                tag_set_for_way(self.tags, tag_set_id, tags_map@),
                tables_extend(old(self).tags, self.tags),
                self.tags.tag_values@.len() <= old(self).tags.tag_values@.len() + 5,
                self.tags.tag_sets@.len() <= old(self).tags.tag_sets@.len() + 1,
            decreases n - 1 - i,
        {
            let from_id = way.point_ids[i];
            let to_id = way.point_ids[i + 1];
            proof {
                let p = ids.take(i + 2);
                assert(p.drop_last() =~= ids.take(i + 1));
                assert(p[p.len() - 2] == from_id);
                assert(p[p.len() - 1] == to_id);
            }
            if self.points_map.contains_key(&from_id) && self.points_map.contains_key(&to_id) {
                let line_idx = self.lines.len();
                self.lines.push(
                    GenerationLine {
                        from_node_id: from_id,
                        to_node_id: to_id,
                        direction,
                        tags: tag_set_id,
                    },
                );
                emitted.push(line_idx);
                proof {
                    assert(self.lines@ =~= old_lines + way_segments(ids.take(i + 2), present, direction, tag_set_id));
                }
            } else {
                proof {
                    assert(self.lines@ =~= old_lines + way_segments(ids.take(i + 2), present, direction, tag_set_id));
                }
            }
            i = i + 1;
        }
        assert(ids.take(n as int) =~= ids);
        let ghost old_way_lines = self.way_line_indices@;
        if emitted.len() > 0 {
            let mut list = match self.way_line_indices.remove(&way.id) {
                Some(l) => l,
                None => Vec::new(),
            };
            let ghost before = list@;
            let mut k: usize = 0;
            while k < emitted.len()
                invariant
                    k <= emitted.len(),
                    list@ == before + emitted@.take(k as int),
                decreases emitted.len() - k,
            {
                list.push(emitted[k]);
                k = k + 1;
                assert(list@ =~= before + emitted@.take(k as int));
            }
            assert(emitted@.take(emitted.len() as int) =~= emitted@);
            self.way_line_indices.insert(way.id, list);
            assert(self.way_line_indices@.dom() =~= old_way_lines.dom().insert(way.id));
        }
        proof {
            lemma_segments_present(ids, present, direction, tag_set_id);
            lemma_index_range(old_len, self.lines@.len() as int);
            let segs = way_segments(ids, present, direction, tag_set_id);
            assert forall|j: int| 0 <= j < self.lines@.len() implies self.points_map@.contains_key(
                (#[trigger] self.lines@[j]).from_node_id,
            ) && self.points_map@.contains_key(self.lines@[j].to_node_id) by {
                if j < old_len {
                    assert(self.lines@[j] == old(self).lines@[j]);
                } else {
                    assert(self.lines@[j] == segs[j - old_len]);
                }
            }
            assert forall|w: u64, k: int|
                self.way_line_indices@.contains_key(w) && 0 <= k < self.way_line_indices@[w]@.len()
                implies #[trigger] self.way_line_indices@[w]@[k] < self.lines@.len() by {
                if w != way.id || emitted@.len() == 0 {
                    assert(old(self).way_line_indices@.contains_key(w));
                    assert(old(self).way_line_indices@[w]@[k] < old_len);
                } else {
                    let prev = if old_way_lines.contains_key(way.id) {
                        old_way_lines[way.id]@
                    } else {
                        Seq::<usize>::empty()
                    };
                    if k < prev.len() {
                        assert(old(self).way_line_indices@[w]@[k] < old_len);
                    } else {
                        assert(emitted@[k - prev.len()] < self.lines@.len());
                    }
                }
            }
            assert forall|v: u64, k: int|
                self.restrictions_by_via@.contains_key(v) && 0 <= k < self.restrictions_by_via@[v]@.len()
                implies #[trigger] rule_fits(self.restrictions_by_via@[v]@[k], v, self.lines@.len() as int) by {
                assert(rule_fits(old(self).restrictions_by_via@[v]@[k], v, old_len));
            }
            assert(tag_set_for_way(self.tags, tag_set_id, tags_map@));
        }
    }
}

/// Whether a line starts or ends at node `via`.
pub open spec fn touches(line: GenerationLine, via: u64) -> bool {
    line.from_node_id == via || line.to_node_id == via
}

/// The line indices of `list` that name an existing line touching `via`.
pub open spec fn adjacent_in(list: Seq<usize>, lines: Seq<GenerationLine>, via: u64) -> Set<u32> {
    Set::new(
        |x: u32|
            list.contains(x as usize) && (x as int) < lines.len() && touches(lines[x as int], via),
    )
}

/// The lines of way `way_id` that touch `via`.
pub open spec fn way_adjacent(
    ways: Map<u64, Vec<usize>>,
    lines: Seq<GenerationLine>,
    way_id: u64,
    via: u64,
) -> Set<u32> {
    if ways.contains_key(way_id) {
        adjacent_in(ways[way_id]@, lines, via)
    } else {
        Set::empty()
    }
}

/// The lines of any of the ways `way_ids` that touch `via`.
pub open spec fn ways_adjacent(
    ways: Map<u64, Vec<usize>>,
    lines: Seq<GenerationLine>,
    way_ids: Seq<u64>,
    via: u64,
) -> Set<u32> {
    Set::new(
        |x: u32|
            exists|k: int| 0 <= k < way_ids.len() && way_adjacent(ways, lines, way_ids[k], via).contains(x),
    )
}

/// Whether a set has no element.
pub open spec fn set_is_empty(s: Set<u32>) -> bool {
    forall|x: u32| !s.contains(x)
}

/// What a restriction value asks for: the `no_*` values forbid a turn, the `only_*`
/// values allow only that turn; other values are not understood.
pub open spec fn restriction_rule_type(value: Seq<char>) -> Option<GenerationRestrictionRuleType> {
    if value == "no_left_turn"@ || value == "no_right_turn"@ || value == "no_straight_on"@ || value
        == "no_u_turn"@ || value == "no_entry"@ || value == "no_exit"@ {
        Some(GenerationRestrictionRuleType::NotAllowed)
    } else if value == "only_left_turn"@ || value == "only_right_turn"@ || value
        == "only_straight_on"@ || value == "only_u_turn"@ {
        Some(GenerationRestrictionRuleType::OnlyAllowed)
    } else {
        None
    }
}

/// The restriction values that a turn rule is made from, each with the rule
/// it asks for: the six `no_*` values forbid, the four `only_*` values allow
/// only.
pub open spec fn known_restriction_values() -> Seq<(Seq<char>, GenerationRestrictionRuleType)> {
    seq![
        ("no_left_turn"@, GenerationRestrictionRuleType::NotAllowed),
        ("no_right_turn"@, GenerationRestrictionRuleType::NotAllowed),
        ("no_straight_on"@, GenerationRestrictionRuleType::NotAllowed),
        ("no_u_turn"@, GenerationRestrictionRuleType::NotAllowed),
        ("no_entry"@, GenerationRestrictionRuleType::NotAllowed),
        ("no_exit"@, GenerationRestrictionRuleType::NotAllowed),
        ("only_left_turn"@, GenerationRestrictionRuleType::OnlyAllowed),
        ("only_right_turn"@, GenerationRestrictionRuleType::OnlyAllowed),
        ("only_straight_on"@, GenerationRestrictionRuleType::OnlyAllowed),
        ("only_u_turn"@, GenerationRestrictionRuleType::OnlyAllowed),
    ]
}

/// What a restriction value asks for: every value of the ten is understood
/// as its rule (an `only_*` value allows only that turn, a `no_*` value
/// forbids it), and no other value is understood. So a rule allows only when
/// its value starts with `only_`, and forbids when it starts with `no_`.
pub proof fn lemma_restriction_values()
    ensures
        forall|k: int| 0 <= k < 10 ==> restriction_rule_type(#[trigger] known_restriction_values()[k].0)
            == Some(known_restriction_values()[k].1),
        forall|v: Seq<char>| restriction_rule_type(v) is Some ==> exists|k: int| 0 <= k < 10
            && #[trigger] known_restriction_values()[k].0 == v,
        forall|v: Seq<char>| #[trigger] restriction_rule_type(v) == Some(GenerationRestrictionRuleType::OnlyAllowed)
            ==> is_prefix("only_"@, v),
        forall|v: Seq<char>| #[trigger] restriction_rule_type(v) == Some(GenerationRestrictionRuleType::NotAllowed)
            ==> is_prefix("no_"@, v),
        restriction_rule_type("only_straight_on"@) == Some(GenerationRestrictionRuleType::OnlyAllowed),
{
    let kv = known_restriction_values();
    reveal_strlit("no_left_turn");
    reveal_strlit("no_right_turn");
    reveal_strlit("no_straight_on");
    reveal_strlit("no_u_turn");
    reveal_strlit("no_entry");
    reveal_strlit("no_exit");
    reveal_strlit("only_left_turn");
    reveal_strlit("only_right_turn");
    reveal_strlit("only_straight_on");
    reveal_strlit("only_u_turn");
    reveal_strlit("only_");
    reveal_strlit("no_");
    let na = Some(GenerationRestrictionRuleType::NotAllowed);
    let oa = Some(GenerationRestrictionRuleType::OnlyAllowed);
    assert(restriction_rule_type("no_left_turn"@) == na);
    assert(restriction_rule_type("no_right_turn"@) == na);
    assert(restriction_rule_type("no_straight_on"@) == na);
    assert(restriction_rule_type("no_u_turn"@) == na);
    assert(restriction_rule_type("no_entry"@) == na);
    assert(restriction_rule_type("no_exit"@) == na);
    assert("no_left_turn"@[0] == 'n' && "no_right_turn"@[0] == 'n' && "no_straight_on"@[0] == 'n');
    assert("no_u_turn"@[0] == 'n' && "no_entry"@[0] == 'n' && "no_exit"@[0] == 'n');
    assert("only_left_turn"@[0] == 'o' && "only_right_turn"@[0] == 'o');
    assert("only_straight_on"@[0] == 'o' && "only_u_turn"@[0] == 'o');
    assert(restriction_rule_type("only_left_turn"@) == oa);
    assert(restriction_rule_type("only_right_turn"@) == oa);
    assert(restriction_rule_type("only_straight_on"@) == oa);
    assert(restriction_rule_type("only_u_turn"@) == oa);
    assert forall|k: int| 0 <= k < 10 implies restriction_rule_type(#[trigger] kv[k].0) == Some(kv[k].1) by {
        if k == 0 { assert(kv[k].0 == "no_left_turn"@); }
        else if k == 1 { assert(kv[k].0 == "no_right_turn"@); }
        else if k == 2 { assert(kv[k].0 == "no_straight_on"@); }
        else if k == 3 { assert(kv[k].0 == "no_u_turn"@); }
        else if k == 4 { assert(kv[k].0 == "no_entry"@); }
        else if k == 5 { assert(kv[k].0 == "no_exit"@); }
        else if k == 6 { assert(kv[k].0 == "only_left_turn"@); }
        else if k == 7 { assert(kv[k].0 == "only_right_turn"@); }
        else if k == 8 { assert(kv[k].0 == "only_straight_on"@); }
        else { assert(kv[k].0 == "only_u_turn"@); }
    }
    assert forall|v: Seq<char>| restriction_rule_type(v) is Some implies exists|k: int| 0 <= k < 10
        && #[trigger] kv[k].0 == v by {
        if v == "no_left_turn"@ { assert(kv[0].0 == v); }
        else if v == "no_right_turn"@ { assert(kv[1].0 == v); }
        else if v == "no_straight_on"@ { assert(kv[2].0 == v); }
        else if v == "no_u_turn"@ { assert(kv[3].0 == v); }
        else if v == "no_entry"@ { assert(kv[4].0 == v); }
        else if v == "no_exit"@ { assert(kv[5].0 == v); }
        else if v == "only_left_turn"@ { assert(kv[6].0 == v); }
        else if v == "only_right_turn"@ { assert(kv[7].0 == v); }
        else if v == "only_straight_on"@ { assert(kv[8].0 == v); }
        else { assert(kv[9].0 == v); }
    }
    assert forall|v: Seq<char>| #[trigger] restriction_rule_type(v) == Some(GenerationRestrictionRuleType::OnlyAllowed)
        implies is_prefix("only_"@, v) by {
        if v == "only_left_turn"@ { assert(v.subrange(0, 5) =~= "only_"@); }
        else if v == "only_right_turn"@ { assert(v.subrange(0, 5) =~= "only_"@); }
        else if v == "only_straight_on"@ { assert(v.subrange(0, 5) =~= "only_"@); }
        else { assert(v.subrange(0, 5) =~= "only_"@); }
    }
    assert forall|v: Seq<char>| #[trigger] restriction_rule_type(v) == Some(GenerationRestrictionRuleType::NotAllowed)
        implies is_prefix("no_"@, v) by {
        assert(v.subrange(0, 3) =~= "no_"@);
    }
}

/// Why a single member makes a restriction unusable: `from` and `to` members must be
/// ways, `via` members must be nodes (a via way is reported as such); members with
/// other roles are ignored.
pub open spec fn member_problem(m: OsmRelationMember) -> Option<GenerationRestrictionSkipReason> {
    match m.role {
        OsmRelationMemberRole::From | OsmRelationMemberRole::To => if m.member_type is Way {
            None
        } else {
            Some(GenerationRestrictionSkipReason::MalformedOrUnresolved)
        },
        OsmRelationMemberRole::Via => match m.member_type {
            OsmRelationMemberType::Node => None,
            OsmRelationMemberType::Way => Some(GenerationRestrictionSkipReason::ViaWay),
            OsmRelationMemberType::Relation => Some(
                GenerationRestrictionSkipReason::MalformedOrUnresolved,
            ),
        },
        OsmRelationMemberRole::Other(_) => None,
    }
}

/// The problem of the first member that has one.
pub open spec fn first_member_problem(ms: Seq<OsmRelationMember>) -> Option<GenerationRestrictionSkipReason>
    decreases ms.len(),
{
    if ms.len() == 0 {
        None
    } else {
        match first_member_problem(ms.drop_last()) {
            Some(r) => Some(r),
            None => member_problem(ms.last()),
        }
    }
}

/// Whether a member is a `from` way (`sel == 0`), a `to` way (`sel == 1`) or a
/// `via` node (`sel == 2`).
pub open spec fn member_selected(m: OsmRelationMember, sel: int) -> bool {
    if sel == 0 {
        m.role is From && m.member_type is Way
    } else if sel == 1 {
        m.role is To && m.member_type is Way
    } else {
        m.role is Via && m.member_type is Node
    }
}

/// The references of the selected members, in order.
pub open spec fn role_refs(ms: Seq<OsmRelationMember>, sel: int) -> Seq<u64>
    decreases ms.len(),
{
    if ms.len() == 0 {
        Seq::empty()
    } else {
        role_refs(ms.drop_last(), sel) + if member_selected(ms.last(), sel) {
            seq![ms.last().member_ref]
        } else {
            Seq::empty()
        }
    }
}

/// Why a restriction relation is skipped, checked in this order; `None` when it is
/// turned into a rule.
pub open spec fn restriction_skip(
    rel: OsmRelation,
    points: Map<u64, usize>,
    ways: Map<u64, Vec<usize>>,
    lines: Seq<GenerationLine>,
) -> Option<GenerationRestrictionSkipReason> {
    let t = rel.tags@;
    let ms = rel.members@;
    let from = role_refs(ms, 0);
    let to = role_refs(ms, 1);
    let via = role_refs(ms, 2);
    if !tag_is(t, "type"@, "restriction"@) {
        Some(GenerationRestrictionSkipReason::MalformedOrUnresolved)
    } else if some_key_ends_with(t, ":conditional"@) {
        Some(GenerationRestrictionSkipReason::Conditional)
    } else if t.contains_key("except"@) {
        Some(GenerationRestrictionSkipReason::Except)
    } else if some_key_starts_with(t, "restriction:"@) {
        Some(GenerationRestrictionSkipReason::RestrictionVariant)
    } else if !t.contains_key("restriction"@) || restriction_rule_type(t["restriction"@]) is None {
        Some(GenerationRestrictionSkipReason::MalformedOrUnresolved)
    } else if first_member_problem(ms) is Some {
        first_member_problem(ms)
    } else if from.len() == 0 || to.len() == 0 || via.len() != 1 || !points.contains_key(via[0]) {
        Some(GenerationRestrictionSkipReason::MalformedOrUnresolved)
    } else if set_is_empty(ways_adjacent(ways, lines, from, via[0])) {
        Some(GenerationRestrictionSkipReason::MalformedOrUnresolved)
    } else if exists|k: int| 0 <= k < to.len() && set_is_empty(way_adjacent(ways, lines, to[k], via[0])) {
        Some(GenerationRestrictionSkipReason::MalformedOrUnresolved)
    } else {
        None
    }
}

/// The first member that makes a restriction unusable (see `member_problem`).
pub open spec fn first_problem_member(ms: Seq<OsmRelationMember>) -> Option<OsmRelationMember>
    decreases ms.len(),
{
    if ms.len() == 0 {
        None
    } else {
        match first_problem_member(ms.drop_last()) {
            Some(m) => Some(m),
            None => if member_problem(ms.last()) is Some {
                Some(ms.last())
            } else {
                None
            },
        }
    }
}

/// The first member with a problem is the one whose problem is reported.
proof fn lemma_first_problem_member(ms: Seq<OsmRelationMember>)
    ensures
        first_member_problem(ms) == match first_problem_member(ms) {
            Some(m) => member_problem(m),
            None => None,
        },
        first_problem_member(ms) matches Some(m) ==> member_problem(m) is Some,
    decreases ms.len(),
{
    if ms.len() > 0 {
        lemma_first_problem_member(ms.drop_last());
    }
}

proof fn lemma_first_problem_member_prefix(ms: Seq<OsmRelationMember>, k: int)
    requires
        0 <= k <= ms.len(),
        first_problem_member(ms.take(k)) is Some,
    ensures
        first_problem_member(ms) == first_problem_member(ms.take(k)),
    decreases ms.len() - k,
{
    if k < ms.len() {
        assert(ms.take(k + 1).drop_last() =~= ms.take(k));
        lemma_first_problem_member_prefix(ms, k + 1);
    } else {
        assert(ms.take(k) =~= ms);
    }
}

/// How a member type is written in an explanation (its `Debug` form).
pub open spec fn member_type_text(t: OsmRelationMemberType) -> Seq<char> {
    match t {
        OsmRelationMemberType::Way => "Way"@,
        OsmRelationMemberType::Node => "Node"@,
        OsmRelationMemberType::Relation => "Relation"@,
    }
}

/// What is wrong with a member that makes a restriction unusable.
pub open spec fn member_explanation(m: OsmRelationMember) -> Seq<char> {
    match m.role {
        OsmRelationMemberRole::From => "from member "@ + decimal(m.member_ref as nat) + " must be a way, got "@
            + member_type_text(m.member_type),
        OsmRelationMemberRole::To => "to member "@ + decimal(m.member_ref as nat) + " must be a way, got "@
            + member_type_text(m.member_type),
        OsmRelationMemberRole::Via => if m.member_type is Way {
            "via-way restrictions are not supported"@
        } else {
            "via member "@ + decimal(m.member_ref as nat) + " must be a node, got "@ + member_type_text(
                m.member_type,
            )
        },
        OsmRelationMemberRole::Other(_) => Seq::empty(),
    }
}

/// The `Debug` form of an optional tag value: `None`, or `Some(..)` around
/// the quoted value.
pub open spec fn option_debug_text(v: Option<Seq<char>>) -> Seq<char> {
    match v {
        Some(s) => "Some("@ + str_debug_text(s) + ")"@,
        None => "None"@,
    }
}

/// The value of tag `key`, if the relation has it.
pub open spec fn tag_value(t: Map<Seq<char>, Seq<char>>, key: Seq<char>) -> Option<Seq<char>> {
    if t.contains_key(key) {
        Some(t[key])
    } else {
        None
    }
}

/// The explanation that goes with a skipped restriction relation (see
/// `restriction_skip`, whose order of checks it follows): what kind of
/// relation it is, or which tag or member is not supported, or what could not
/// be found in the tile. Empty for a relation that becomes a rule.
pub open spec fn skip_explanation(
    rel: OsmRelation,
    points: Map<u64, usize>,
    ways: Map<u64, Vec<usize>>,
    lines: Seq<GenerationLine>,
) -> Seq<char> {
    let t = rel.tags@;
    let ms = rel.members@;
    let from = role_refs(ms, 0);
    let to = role_refs(ms, 1);
    let via = role_refs(ms, 2);
    if !tag_is(t, "type"@, "restriction"@) {
        "unsupported relation type "@ + option_debug_text(tag_value(t, "type"@)) + "; expected type=restriction"@
    } else if some_key_ends_with(t, ":conditional"@) {
        "conditional restrictions are not supported"@
    } else if t.contains_key("except"@) {
        "except=* restrictions are not supported"@
    } else if some_key_starts_with(t, "restriction:"@) {
        "restriction:* variants are not supported"@
    } else if !t.contains_key("restriction"@) {
        "missing restriction=* tag"@
    } else if restriction_rule_type(t["restriction"@]) is None {
        "unsupported restriction value "@ + str_debug_text(t["restriction"@])
    } else if first_problem_member(ms) is Some {
        member_explanation(first_problem_member(ms)->0)
    } else if from.len() == 0 {
        "restriction relation has no from way members"@
    } else if to.len() == 0 {
        "restriction relation has no to way members"@
    } else if via.len() != 1 {
        "restriction relation must have exactly one via node, got "@ + decimal(via.len())
    } else if !points.contains_key(via[0]) {
        "via node "@ + decimal(via[0] as nat) + " is not present in this tile"@
    } else if set_is_empty(ways_adjacent(ways, lines, from, via[0])) {
        "no via-adjacent local from lines found for via node "@ + decimal(via[0] as nat)
    } else if exists|k: int| 0 <= k < to.len() && set_is_empty(way_adjacent(ways, lines, to[k], via[0])) {
        "at least one to way is missing via-adjacent local lines for via node "@ + decimal(via[0] as nat)
            + "; skipping in this tile so an adjacent tile can materialize it"@
    } else {
        Seq::empty()
    }
}

/// The text of a member type (see `member_type_text`).
fn member_type_name(t: OsmRelationMemberType) -> (r: &'static str)
    ensures
        r@ == member_type_text(t),
{
    proof {
        reveal_strlit("Way");
        reveal_strlit("Node");
        reveal_strlit("Relation");
    }
    match t {
        OsmRelationMemberType::Way => "Way",
        OsmRelationMemberType::Node => "Node",
        OsmRelationMemberType::Relation => "Relation",
    }
}

/// What is wrong with a member (see `member_explanation`).
fn member_explanation_text(m: &OsmRelationMember) -> (r: String)
    ensures
        r@ == member_explanation(*m),
{
    match m.role {
        OsmRelationMemberRole::From => {
            let mut r = text_with_number("from member ", m.member_ref, " must be a way, got ");
            r.append(member_type_name(m.member_type));
            r
        },
        OsmRelationMemberRole::To => {
            let mut r = text_with_number("to member ", m.member_ref, " must be a way, got ");
            r.append(member_type_name(m.member_type));
            r
        },
        OsmRelationMemberRole::Via => match m.member_type {
            OsmRelationMemberType::Way => String::from_str("via-way restrictions are not supported"),
            _ => {
                let mut r = text_with_number("via member ", m.member_ref, " must be a node, got ");
                r.append(member_type_name(m.member_type));
                r
            },
        },
        OsmRelationMemberRole::Other(_) => {
            proof {
                reveal_strlit("");
            }
            String::from_str("")
        },
    }
}

/// The `Debug` form of an optional tag value (see `option_debug_text`).
fn option_debug(v: Option<&String>) -> (r: String)
    ensures
        r@ == option_debug_text(match v {
            Some(s) => Some(s@),
            None => None,
        }),
{
    match v {
        Some(s) => {
            let mut r = String::from_str("Some(");
            let q = debug_quoted(s.as_str());
            r.append(q.as_str());
            r.append(")");
            r
        },
        None => String::from_str("None"),
    }
}

/// The rule that an accepted restriction relation becomes: at its single via node,
/// from the via-adjacent lines of its `from` ways to those of its `to` ways, each list
/// strictly increasing.
pub open spec fn rule_of_relation(
    rule: GenerationRestrictionRule,
    rel: OsmRelation,
    ways: Map<u64, Vec<usize>>,
    lines: Seq<GenerationLine>,
) -> bool {
    let ms = rel.members@;
    let via = role_refs(ms, 2)[0];
    &&& rule.relation_id == rel.id
    &&& rule.via_node_id == via
    &&& Some(rule.rule_type) == restriction_rule_type(rel.tags@["restriction"@])
    &&& strictly_sorted(rule.from_line_indices@)
    &&& rule.from_line_indices@.to_set() == ways_adjacent(ways, lines, role_refs(ms, 0), via)
    &&& strictly_sorted(rule.to_line_indices@)
    &&& rule.to_line_indices@.to_set() == ways_adjacent(ways, lines, role_refs(ms, 1), via)
}

/// The rules stored at `via` (none when the via node has no entry).
pub open spec fn rules_at(m: Map<u64, Vec<GenerationRestrictionRule>>, via: u64) -> Seq<GenerationRestrictionRule> {
    if m.contains_key(via) {
        m[via]@
    } else {
        Seq::empty()
    }
}

/// What a restriction value asks for (see `restriction_rule_type`).
pub fn map_restriction_value(value: &str) -> (res: Option<GenerationRestrictionRuleType>)
    ensures
        res == restriction_rule_type(value@),
{
    if str_eq(value, "no_left_turn") || str_eq(value, "no_right_turn") || str_eq(
        value,
        "no_straight_on",
    ) || str_eq(value, "no_u_turn") || str_eq(value, "no_entry") || str_eq(value, "no_exit") {
        Some(GenerationRestrictionRuleType::NotAllowed)
    } else if str_eq(value, "only_left_turn") || str_eq(value, "only_right_turn") || str_eq(
        value,
        "only_straight_on",
    ) || str_eq(value, "only_u_turn") {
        Some(GenerationRestrictionRuleType::OnlyAllowed)
    } else {
        None
    }
}

/// A problem found at the first member that has one stays the first problem of any
/// longer member list.
proof fn lemma_first_problem_prefix(ms: Seq<OsmRelationMember>, k: int)
    requires
        0 <= k <= ms.len(),
        first_member_problem(ms.take(k)) is Some,
    ensures
        first_member_problem(ms) == first_member_problem(ms.take(k)),
    decreases ms.len() - k,
{
    if k < ms.len() {
        assert(ms.take(k + 1).drop_last() =~= ms.take(k));
        lemma_first_problem_prefix(ms, k + 1);
    } else {
        assert(ms.take(k) =~= ms);
    }
}

/// The indices `start .. end` are all below `end`.
proof fn lemma_index_range(start: int, end: int)
    requires
        0 <= start <= end,
    ensures
        index_range(start, end).len() == end - start,
        forall|k: int|
            0 <= k < end - start ==> #[trigger] index_range(start, end)[k] == (start + k) as usize,
    decreases end - start,
{
    if start < end {
        lemma_index_range(start, end - 1);
    }
}


impl GenerationGraph {
    /// The via-adjacent lines of one way, strictly increasing.
    fn resolve_via_adjacent_line_indices_for_way(&self, way_id: u64, via_node_id: u64) -> (res: Vec<u32>)
        requires
            self.lines@.len() <= u32::MAX + 1,
        ensures
            strictly_sorted(res@),
            res@.to_set() == way_adjacent(self.way_line_indices@, self.lines@, way_id, via_node_id),
    {
        let mut line_indices: Vec<u32> = Vec::new();
        let list = match self.way_line_indices.get(&way_id) {
            Some(l) => l,
            None => {
                assert(line_indices@.to_set() =~= Set::<u32>::empty());
                return line_indices;
            },
        };
        let ghost lines = self.lines@;
        let mut k: usize = 0;
        assert(line_indices@.to_set() =~= adjacent_in(list@.take(0), lines, via_node_id));
        while k < list.len()
            invariant
                k <= list.len(),
                lines == self.lines@,
                lines.len() <= u32::MAX + 1,
                strictly_sorted(line_indices@),
                line_indices@.to_set() == adjacent_in(list@.take(k as int), lines, via_node_id),
            decreases list.len() - k,
        {
            let line_idx = list[k];
            let ghost before = line_indices@.to_set();
            if line_idx < self.lines.len() {
                let line = &self.lines[line_idx];
                if line.from_node_id == via_node_id || line.to_node_id == via_node_id {
                    insert_sorted(&mut line_indices, line_idx as u32);
                }
            }
            proof {
                let prev = list@.take(k as int);
                let next = list@.take(k + 1);
                assert(next =~= prev.push(line_idx));
                assert forall|x: u32| adjacent_in(next, lines, via_node_id).contains(x) == line_indices@.to_set().contains(x) by {
                    if next.contains(x as usize) && !prev.contains(x as usize) {
                        assert(x as usize == line_idx);
                    }
                    if prev.contains(x as usize) {
                        let j = choose|j: int| 0 <= j < prev.len() && prev[j] == x as usize;
                        assert(next[j] == x as usize);
                    }
                    if x as usize == line_idx {
                        assert(next[k as int] == line_idx);
                    }
                }
                assert(line_indices@.to_set() =~= adjacent_in(next, lines, via_node_id));
            }
            k = k + 1;
        }
        assert(list@.take(list.len() as int) =~= list@);
        line_indices
    }

    /// The via-adjacent lines of any of the given ways, strictly increasing.
    fn resolve_via_adjacent_line_indices(&self, way_ids: &Vec<u64>, via_node_id: u64) -> (res: Vec<u32>)
        requires
            self.lines@.len() <= u32::MAX + 1,
        ensures
            strictly_sorted(res@),
            res@.to_set() == ways_adjacent(self.way_line_indices@, self.lines@, way_ids@, via_node_id),
    {
        let mut line_indices: Vec<u32> = Vec::new();
        let mut k: usize = 0;
        assert(line_indices@.to_set() =~= ways_adjacent(self.way_line_indices@, self.lines@, way_ids@.take(0), via_node_id));
        while k < way_ids.len()
            invariant
                k <= way_ids.len(),
                self.lines@.len() <= u32::MAX + 1,
                strictly_sorted(line_indices@),
                line_indices@.to_set() == ways_adjacent(self.way_line_indices@, self.lines@, way_ids@.take(k as int), via_node_id),
            decreases way_ids.len() - k,
        {
            let found = self.resolve_via_adjacent_line_indices_for_way(way_ids[k], via_node_id);
            let ghost before = line_indices@.to_set();
            let mut j: usize = 0;
            while j < found.len()
                invariant
                    j <= found.len(),
                    strictly_sorted(line_indices@),
                    line_indices@.to_set() == before.union(found@.take(j as int).to_set()),
                decreases found.len() - j,
            {
                insert_sorted(&mut line_indices, found[j]);
                proof {
                    let a = found@.take(j + 1);
                    let b = found@.take(j as int);
                    let y = found[j as int];
                    assert(a =~= b.push(y));
                    assert(a.to_set() =~= b.to_set().insert(y)) by {
                        assert forall|x: u32| a.to_set().contains(x) == b.to_set().insert(y).contains(x) by {
                            if a.contains(x) {
                                let i = choose|i: int| 0 <= i < a.len() && a[i] == x;
                                if i < b.len() {
                                    assert(b[i] == x);
                                }
                            }
                            if b.contains(x) {
                                let i = choose|i: int| 0 <= i < b.len() && b[i] == x;
                                assert(a[i] == x);
                            }
                            if x == y {
                                assert(a[b.len() as int] == x);
                            }
                        }
                    }
                    assert(line_indices@.to_set() =~= before.union(a.to_set()));
                }
                j = j + 1;
            }
            proof {
                assert(found@.take(found.len() as int) =~= found@);
                let w = way_ids@;
                let ways = self.way_line_indices@;
                let lines = self.lines@;
                let wn = w.take(k + 1);
                let wp = w.take(k as int);
                assert forall|x: u32| ways_adjacent(ways, lines, wn, via_node_id).contains(x)
                    == line_indices@.to_set().contains(x) by {
                    if ways_adjacent(ways, lines, wn, via_node_id).contains(x) {
                        let i = choose|i: int| 0 <= i < wn.len() && way_adjacent(ways, lines, wn[i], via_node_id).contains(x);
                        if i < k {
                            assert(wp[i] == wn[i]);
                            assert(ways_adjacent(ways, lines, wp, via_node_id).contains(x));
                        } else {
                            assert(found@.to_set().contains(x));
                        }
                    }
                    if before.contains(x) {
                        let i = choose|i: int| 0 <= i < wp.len() && way_adjacent(ways, lines, wp[i], via_node_id).contains(x);
                        assert(wn[i] == wp[i]);
                    }
                    if found@.to_set().contains(x) {
                        assert(wn[k as int] == w[k as int]);
                    }
                }
                assert(line_indices@.to_set() =~= ways_adjacent(ways, lines, wn, via_node_id));
            }
            k = k + 1;
        }
        assert(way_ids@.take(way_ids.len() as int) =~= way_ids@);
        line_indices
    }

    /// The via-adjacent lines of all the given ways, strictly increasing; `None` when
    /// some way has no such line.
    fn resolve_required_to_line_indices(&self, way_ids: &Vec<u64>, via_node_id: u64) -> (res: Option<Vec<u32>>)
        requires
            self.lines@.len() <= u32::MAX + 1,
        ensures
            match res {
                None => exists|k: int| 0 <= k < way_ids@.len() && set_is_empty(
                    way_adjacent(self.way_line_indices@, self.lines@, way_ids@[k], via_node_id),
                ),
                Some(v) => (forall|k: int| 0 <= k < way_ids@.len() ==> !set_is_empty(
                    #[trigger] way_adjacent(self.way_line_indices@, self.lines@, way_ids@[k], via_node_id),
                )) && strictly_sorted(v@) && v@.to_set() == ways_adjacent(
                    self.way_line_indices@,
                    self.lines@,
                    way_ids@,
                    via_node_id,
                ),
            },
    {
        let mut k: usize = 0;
        while k < way_ids.len()
            invariant
                k <= way_ids.len(),
                self.lines@.len() <= u32::MAX + 1,
                forall|i: int| 0 <= i < k ==> !set_is_empty(
                    #[trigger] way_adjacent(self.way_line_indices@, self.lines@, way_ids@[i], via_node_id),
                ),
            decreases way_ids.len() - k,
        {
            let found = self.resolve_via_adjacent_line_indices_for_way(way_ids[k], via_node_id);
            if found.len() == 0 {
                assert(set_is_empty(way_adjacent(self.way_line_indices@, self.lines@, way_ids@[k as int], via_node_id))) by {
                    assert forall|x: u32| !way_adjacent(self.way_line_indices@, self.lines@, way_ids@[k as int], via_node_id).contains(x) by {
                        assert(!found@.to_set().contains(x));
                    }
                }
                return None;
            }
            assert(!set_is_empty(way_adjacent(self.way_line_indices@, self.lines@, way_ids@[k as int], via_node_id))) by {
                assert(found@.to_set().contains(found[0]));
            }
            k = k + 1;
        }
        Some(self.resolve_via_adjacent_line_indices(way_ids, via_node_id))
    }
}


impl GenerationGraph {
    /// Counts a skipped restriction relation under `reason`.
    fn count_skipped_relation(&mut self, reason: GenerationRestrictionSkipReason)
        requires
            stats_can_count(old(self).restriction_skip_stats),
        ensures
            stats_incremented(old(self).restriction_skip_stats, final(self).restriction_skip_stats, reason),
            final(self).points == old(self).points,
            final(self).points_map == old(self).points_map,
            final(self).lines == old(self).lines,
            final(self).tags == old(self).tags,
            final(self).way_line_indices == old(self).way_line_indices,
            final(self).restrictions_by_via == old(self).restrictions_by_via,
    {
        self.restriction_skip_stats.increment(reason);
    }

    /// Turns a turn-restriction relation into a rule at its via node, or counts it as
    /// skipped: see `restriction_skip` for when and why it is skipped and
    /// `rule_of_relation` for the rule it becomes. Nothing else changes. Gives
    /// back why the relation was skipped, with the explanation that names what
    /// was wrong (see `skip_explanation`), or `None` when it became a rule.
    #[verifier::rlimit(60)]
    #[verifier::loop_isolation(false)]
    pub fn insert_relation(&mut self, relation: OsmRelation) -> (skipped: Option<RestrictionSkip>)
        requires
            old(self).wf(),
            stats_can_count(old(self).restriction_skip_stats),
            old(self).lines@.len() <= u32::MAX + 1,
        ensures
            final(self).wf(),
            final(self).points == old(self).points,
            final(self).points_map == old(self).points_map,
            final(self).lines == old(self).lines,
            final(self).tags == old(self).tags,
            final(self).way_line_indices == old(self).way_line_indices,
            skipped is None <==> restriction_skip(relation, old(self).points_map@, old(self).way_line_indices@, old(self).lines@) is None,
            skipped matches Some(s) ==> Some(s.reason) == restriction_skip(
                relation,
                old(self).points_map@,
                old(self).way_line_indices@,
                old(self).lines@,
            ) && s.explanation@ == skip_explanation(
                relation,
                old(self).points_map@,
                old(self).way_line_indices@,
                old(self).lines@,
            ),
            ({
                let skip = restriction_skip(
                    relation,
                    old(self).points_map@,
                    old(self).way_line_indices@,
                    old(self).lines@,
                );
                match skip {
                    Some(reason) => {
                        &&& stats_incremented(old(self).restriction_skip_stats, final(self).restriction_skip_stats, reason)
                        &&& final(self).restrictions_by_via@ == old(self).restrictions_by_via@
                    },
                    None => {
                        let via = role_refs(relation.members@, 2)[0];
                        let before = rules_at(old(self).restrictions_by_via@, via);
                        let after = rules_at(final(self).restrictions_by_via@, via);
                        &&& final(self).restriction_skip_stats == old(self).restriction_skip_stats
                        &&& final(self).restrictions_by_via@.dom() == old(self).restrictions_by_via@.dom().insert(via)
                        &&& forall|v: u64| #[trigger] final(self).restrictions_by_via@.contains_key(v) && v != via
                            ==> final(self).restrictions_by_via@[v] == old(self).restrictions_by_via@[v]
                        &&& after.len() == before.len() + 1
                        &&& after.take(before.len() as int) == before
                        &&& rule_of_relation(after.last(), relation, old(self).way_line_indices@, old(self).lines@)
                    },
                }
            }),
    {
        let ghost points = self.points_map@;
        let ghost ways = self.way_line_indices@;
        let ghost lines = self.lines@;
        let tags = &relation.tags;
        if !tags.has_value("type", "restriction") {
            let mut explanation = String::from_str("unsupported relation type ");
            let value = option_debug(tags.get("type"));
            explanation.append(value.as_str());
            explanation.append("; expected type=restriction");
            self.count_skipped_relation(GenerationRestrictionSkipReason::MalformedOrUnresolved);
            return Some(RestrictionSkip { reason: GenerationRestrictionSkipReason::MalformedOrUnresolved, explanation });
        }
        if tags.any_key_ends_with(":conditional") {
            self.count_skipped_relation(GenerationRestrictionSkipReason::Conditional);
            return Some(RestrictionSkip {
                reason: GenerationRestrictionSkipReason::Conditional,
                explanation: String::from_str("conditional restrictions are not supported"),
            });
        }
        if tags.contains_key("except") {
            self.count_skipped_relation(GenerationRestrictionSkipReason::Except);
            return Some(RestrictionSkip {
                reason: GenerationRestrictionSkipReason::Except,
                explanation: String::from_str("except=* restrictions are not supported"),
            });
        }
        if tags.any_key_starts_with("restriction:") {
            self.count_skipped_relation(GenerationRestrictionSkipReason::RestrictionVariant);
            return Some(RestrictionSkip {
                reason: GenerationRestrictionSkipReason::RestrictionVariant,
                explanation: String::from_str("restriction:* variants are not supported"),
            });
        }
        let restriction_value = match tags.get("restriction") {
            Some(v) => v,
            None => {
                self.count_skipped_relation(GenerationRestrictionSkipReason::MalformedOrUnresolved);
                return Some(RestrictionSkip { reason: GenerationRestrictionSkipReason::MalformedOrUnresolved, explanation: String::from_str("missing restriction=* tag") });
            },
        };
        let rule_type = match map_restriction_value(restriction_value.as_str()) {
            Some(t) => t,
            None => {
                let mut explanation = String::from_str("unsupported restriction value ");
                let value = debug_quoted(restriction_value.as_str());
                explanation.append(value.as_str());
                self.count_skipped_relation(GenerationRestrictionSkipReason::MalformedOrUnresolved);
                return Some(RestrictionSkip { reason: GenerationRestrictionSkipReason::MalformedOrUnresolved, explanation });
            },
        };

        let ghost ms = relation.members@;
        let mut from_way_ids: Vec<u64> = Vec::new();
        let mut to_way_ids: Vec<u64> = Vec::new();
        let mut via_node_ids: Vec<u64> = Vec::new();
        let mut i: usize = 0;
        assert(ms.take(0) =~= Seq::<OsmRelationMember>::empty());
        while i < relation.members.len()
            invariant
                ms == relation.members@,
                i <= ms.len(),
                first_member_problem(ms.take(i as int)) is None,
                from_way_ids@ == role_refs(ms.take(i as int), 0),
                to_way_ids@ == role_refs(ms.take(i as int), 1),
                via_node_ids@ == role_refs(ms.take(i as int), 2),
                self.points_map@ == points,
                self.way_line_indices@ == ways,
                self.lines@ == lines,
                self.wf(),
                stats_can_count(self.restriction_skip_stats),
                self.restriction_skip_stats == old(self).restriction_skip_stats,
                self.points == old(self).points,
                self.points_map == old(self).points_map,
                self.lines == old(self).lines,
                self.tags == old(self).tags,
                self.way_line_indices == old(self).way_line_indices,
                self.restrictions_by_via == old(self).restrictions_by_via,
            decreases ms.len() - i,
        {
            let member = &relation.members[i];
            proof {
                assert(ms.take(i + 1).drop_last() =~= ms.take(i as int));
                assert(ms.take(i + 1).last() == ms[i as int]);
            }
            let problem: Option<GenerationRestrictionSkipReason> = match (&member.role, &member.member_type) {
                (OsmRelationMemberRole::From, OsmRelationMemberType::Way) => {
                    from_way_ids.push(member.member_ref);
                    None
                },
                (OsmRelationMemberRole::From, _) => Some(GenerationRestrictionSkipReason::MalformedOrUnresolved),
                (OsmRelationMemberRole::To, OsmRelationMemberType::Way) => {
                    to_way_ids.push(member.member_ref);
                    None
                },
                (OsmRelationMemberRole::To, _) => Some(GenerationRestrictionSkipReason::MalformedOrUnresolved),
                (OsmRelationMemberRole::Via, OsmRelationMemberType::Node) => {
                    via_node_ids.push(member.member_ref);
                    None
                },
                (OsmRelationMemberRole::Via, OsmRelationMemberType::Way) => Some(GenerationRestrictionSkipReason::ViaWay),
                (OsmRelationMemberRole::Via, _) => Some(GenerationRestrictionSkipReason::MalformedOrUnresolved),
                (OsmRelationMemberRole::Other(_), _) => None,
            };
            assert(problem == member_problem(ms[i as int]));
            if let Some(reason) = problem {
                proof {
                    lemma_first_problem_prefix(ms, i + 1);
                    lemma_first_problem_member(ms.take(i as int));
                    assert(ms.take(i + 1).drop_last() =~= ms.take(i as int));
                    assert(ms.take(i + 1).last() == ms[i as int]);
                    assert(first_problem_member(ms.take(i + 1)) == Some(ms[i as int]));
                    lemma_first_problem_member_prefix(ms, i + 1);
                }
                let explanation = member_explanation_text(member);
                self.count_skipped_relation(reason);
                return Some(RestrictionSkip { reason, explanation });
            }
            i = i + 1;
        }
        assert(ms.take(ms.len() as int) =~= ms);
        proof {
            lemma_first_problem_member(ms);
        }
        if from_way_ids.len() == 0 {
            self.count_skipped_relation(GenerationRestrictionSkipReason::MalformedOrUnresolved);
            return Some(RestrictionSkip {
                reason: GenerationRestrictionSkipReason::MalformedOrUnresolved,
                explanation: String::from_str("restriction relation has no from way members"),
            });
        }
        if to_way_ids.len() == 0 {
            self.count_skipped_relation(GenerationRestrictionSkipReason::MalformedOrUnresolved);
            return Some(RestrictionSkip {
                reason: GenerationRestrictionSkipReason::MalformedOrUnresolved,
                explanation: String::from_str("restriction relation has no to way members"),
            });
        }
        if via_node_ids.len() != 1 {
            let explanation = text_with_number(
                "restriction relation must have exactly one via node, got ",
                via_node_ids.len() as u64,
                "",
            );
            proof {
                reveal_strlit("");
                assert(explanation@ =~= "restriction relation must have exactly one via node, got "@ + decimal(via_node_ids@.len()));
            }
            self.count_skipped_relation(GenerationRestrictionSkipReason::MalformedOrUnresolved);
            return Some(RestrictionSkip { reason: GenerationRestrictionSkipReason::MalformedOrUnresolved, explanation });
        }
        let via_node_id = via_node_ids[0];
        if !self.points_map.contains_key(&via_node_id) {
            let explanation = text_with_number("via node ", via_node_id, " is not present in this tile");
            self.count_skipped_relation(GenerationRestrictionSkipReason::MalformedOrUnresolved);
            return Some(RestrictionSkip { reason: GenerationRestrictionSkipReason::MalformedOrUnresolved, explanation });
        }
        let from_line_indices = self.resolve_via_adjacent_line_indices(&from_way_ids, via_node_id);
        if from_line_indices.len() == 0 {
            assert(set_is_empty(ways_adjacent(ways, lines, from_way_ids@, via_node_id))) by {
                assert forall|x: u32| !ways_adjacent(ways, lines, from_way_ids@, via_node_id).contains(x) by {
                    assert(!from_line_indices@.to_set().contains(x));
                }
            }
            let explanation = text_with_number("no via-adjacent local from lines found for via node ", via_node_id, "");
            proof {
                reveal_strlit("");
                assert(explanation@ =~= "no via-adjacent local from lines found for via node "@ + decimal(via_node_id as nat));
            }
            self.count_skipped_relation(GenerationRestrictionSkipReason::MalformedOrUnresolved);
            return Some(RestrictionSkip { reason: GenerationRestrictionSkipReason::MalformedOrUnresolved, explanation });
        }
        assert(!set_is_empty(ways_adjacent(ways, lines, from_way_ids@, via_node_id))) by {
            assert(from_line_indices@.to_set().contains(from_line_indices[0]));
        }
        let to_line_indices = match self.resolve_required_to_line_indices(&to_way_ids, via_node_id) {
            Some(v) => v,
            None => {
                let explanation = text_with_number(
                    "at least one to way is missing via-adjacent local lines for via node ",
                    via_node_id,
                    "; skipping in this tile so an adjacent tile can materialize it",
                );
                self.count_skipped_relation(GenerationRestrictionSkipReason::MalformedOrUnresolved);
                return Some(RestrictionSkip { reason: GenerationRestrictionSkipReason::MalformedOrUnresolved, explanation });
            },
        };
        let rule = GenerationRestrictionRule {
            relation_id: relation.id,
            via_node_id,
            rule_type,
            from_line_indices,
            to_line_indices,
        };
        proof {
            assert forall|k: int| 0 <= k < rule.from_line_indices@.len() implies (#[trigger] rule.from_line_indices@[k]) < lines.len() by {
                assert(rule.from_line_indices@.to_set().contains(rule.from_line_indices@[k]));
            }
            assert forall|k: int| 0 <= k < rule.to_line_indices@.len() implies (#[trigger] rule.to_line_indices@[k]) < lines.len() by {
                assert(rule.to_line_indices@.to_set().contains(rule.to_line_indices@[k]));
            }
            assert(rule_fits(rule, via_node_id, lines.len() as int));
        }
        let mut list = match self.restrictions_by_via.remove(&via_node_id) {
            Some(l) => l,
            None => Vec::new(),
        };
        let ghost before = list@;
        list.push(rule);
        self.restrictions_by_via.insert(via_node_id, list);
        proof {
            let m = self.restrictions_by_via@;
            let om = old(self).restrictions_by_via@;
            assert(m.dom() =~= om.dom().insert(via_node_id));
            assert(rules_at(om, via_node_id) == before);
            assert(rules_at(m, via_node_id).take(before.len() as int) =~= before);
            assert forall|v: u64, k: int| m.contains_key(v) && 0 <= k < m[v]@.len()
                implies #[trigger] rule_fits(m[v]@[k], v, self.lines@.len() as int) by {
                if v != via_node_id {
                    assert(rule_fits(om[v]@[k], v, lines.len() as int));
                } else if k < before.len() {
                    assert(rule_fits(om[v]@[k], v, lines.len() as int));
                }
            }
        }
        None
    }
}

} // verus!
