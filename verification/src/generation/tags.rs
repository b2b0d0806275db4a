//! Deduplicated tag values and tag sets of the ways of one tile.

use vstd::prelude::*;
use vstd::string::*;
use crate::rmdf::{TileId, TAG_VALUE_NONE, placeholder_tile};
use crate::text::{str_eq, ends_with, remove_occurrences, is_suffix, remove_all};

verus! {

/// A tag value of a tile: an index into the tile's tag values, or
/// `TAG_VALUE_NONE` for a missing tag.
#[derive(Clone, Copy, Debug, PartialEq, Eq, Hash, Structural)]
pub struct TagValueId {
    pub tile_id: TileId,
    pub tag_value_idx: u32,
}

impl TagValueId {
    /// The value id of a missing tag.
    pub fn none(tile_id: TileId) -> (res: Self)
        ensures
            res.tile_id == tile_id,
            res.tag_value_idx == TAG_VALUE_NONE,
    {
        TagValueId { tile_id, tag_value_idx: TAG_VALUE_NONE }
    }

    /// The value id of tag value `tag_idx`.
    pub fn some(tile_id: TileId, tag_idx: u32) -> (res: Self)
        ensures
            res.tile_id == tile_id,
            res.tag_value_idx == tag_idx,
    {
        TagValueId { tile_id, tag_value_idx: tag_idx }
    }

    /// The value id of a stored index, where `TAG_VALUE_NONE` means a missing tag.
    pub fn from_idx(tile_id: TileId, tag_idx: u32) -> (res: Self)
        ensures
            res.tile_id == tile_id,
            res.tag_value_idx == tag_idx,
    {
        if tag_idx == TAG_VALUE_NONE {
            Self::none(tile_id)
        } else {
            Self::some(tile_id, tag_idx)
        }
    }
}

/// A tag set of a tile: an index into the tile's tag sets.
#[derive(Clone, Copy, Debug, PartialEq, Eq, Structural)]
pub struct TagSetId {
    pub tile_id: TileId,
    pub tag_set_idx: u32,
}

impl TagSetId {
    /// The tag set id of set `idx` of tile `tile_id`.
    pub fn new(tile_id: TileId, idx: u32) -> (res: Self)
        ensures
            res.tile_id == tile_id,
            res.tag_set_idx == idx,
    {
        TagSetId { tile_id, tag_set_idx: idx }
    }
}

/// The five tags that routing reads from a way.
#[derive(Clone, Copy, Debug, PartialEq, Eq, Hash, Structural)]
pub struct TagSet {
    pub name: TagValueId,
    pub hw_ref: TagValueId,
    pub highway: TagValueId,
    pub surface: TagValueId,
    pub smoothness: TagValueId,
}

/// How a tag value is stored: a value ending in `_link` loses every `_link`
/// (`primary_link` is stored as `primary`); other values are kept as they are.
pub open spec fn normalize_tag_value(v: Seq<char>) -> Seq<char> {
    if is_suffix("_link"@, v) {
        remove_all(v, "_link"@)
    } else {
        v
    }
}

/// The stored form of a tag value.
pub fn normalized_tag_value(v: &str) -> (res: String)
    ensures
        res@ == normalize_tag_value(v@),
{
    if ends_with(v, "_link") {
        remove_occurrences(v, "_link")
    } else {
        String::from_str(v)
    }
}

/// No two strings of `values` are equal.
pub open spec fn strings_unique(values: Seq<String>) -> bool {
    forall|i: int, j: int|
        0 <= i < values.len() && 0 <= j < values.len() && i != j ==> values[i]@ != values[j]@
}

/// No two tag sets of `sets` are equal.
pub open spec fn sets_unique(sets: Seq<TagSet>) -> bool {
    forall|i: int, j: int| 0 <= i < sets.len() && 0 <= j < sets.len() && i != j ==> sets[i] != sets[j]
}

/// Interning: `new` is `old`, with `v` appended when it was absent, and `idx` is the
/// position of `v` in `new`.
pub open spec fn interned(old: Seq<Seq<char>>, new: Seq<Seq<char>>, v: Seq<char>, idx: int) -> bool {
    &&& 0 <= idx < new.len()
    &&& new[idx] == v
    &&& if old.contains(v) {
        new == old
    } else {
        new == old.push(v)
    }
}

/// Interning is idempotent: interning a value again finds it at the index the
/// first interning gave and leaves the values as they were (the values being
/// distinct, as the tables keep them).
pub proof fn lemma_intern_twice(
    first: Seq<Seq<char>>,
    mid: Seq<Seq<char>>,
    last: Seq<Seq<char>>,
    v: Seq<char>,
    i: int,
    j: int,
)
    requires
        interned(first, mid, v, i),
        interned(mid, last, v, j),
        forall|a: int, b: int| 0 <= a < mid.len() && 0 <= b < mid.len() && a != b ==> mid[a] != mid[b],
    ensures
        last == mid,
        j == i,
{
    assert(mid.contains(v)) by {
        assert(mid[i] == v);
    }
}

/// The index of `v` in `values`, adding it at the end when it is not there yet.
pub fn intern_value(values: &mut Vec<String>, v: String) -> (idx: u32)
    requires
        strings_unique(old(values)@),
        old(values).len() < u32::MAX,
    ensures
        strings_unique(final(values)@),
        interned(old(values).deep_view(), final(values).deep_view(), v@, idx as int),
{
    let ghost old_view = values.deep_view();
    let mut i: usize = 0;
    while i < values.len()
        invariant
            values@ == old(values)@,
            old_view == values.deep_view(),
            strings_unique(values@),
            values.len() < u32::MAX,
            i <= values.len(),
            forall|j: int| 0 <= j < i ==> values[j]@ != v@,
        decreases values.len() - i,
    {
        if str_eq(values[i].as_str(), v.as_str()) {
            assert(old_view[i as int] == v@);
            return i as u32;
        }
        i = i + 1;
    }
    assert(!old_view.contains(v@)) by {
        if old_view.contains(v@) {
            let j = choose|j: int| 0 <= j < old_view.len() && old_view[j] == v@;
            assert(values[j]@ == v@);
        }
    }
    let idx = values.len() as u32;
    values.push(v);
    assert(values.deep_view() =~= old_view.push(v@));
    idx
}

/// The deduplicated tags of the ways of one tile.
#[derive(Debug)]
pub struct GenerationTags {
    pub tag_values: Vec<String>,
    pub tag_sets: Vec<TagSet>,
}

/// The value id that a tag input resolves to, given the tag values after interning.
pub open spec fn value_resolves(input: Option<Seq<char>>, id: TagValueId, values: Seq<Seq<char>>) -> bool {
    &&& id.tile_id == placeholder_tile()
    &&& match input {
        None => id.tag_value_idx == TAG_VALUE_NONE,
        Some(s) => id.tag_value_idx < values.len() && values[id.tag_value_idx as int]
            == normalize_tag_value(s),
    }
}

/// The view of an optional string argument.
pub open spec fn opt_view(v: Option<&String>) -> Option<Seq<char>> {
    match v {
        Some(s) => Some(s@),
        None => None,
    }
}

/// Whether `values` only grew from `old` by normalized forms of the given inputs.
pub open spec fn grown_by_inputs(old: Seq<Seq<char>>, new: Seq<Seq<char>>, inputs: Seq<Option<Seq<char>>>) -> bool {
    &&& old.len() <= new.len()
    &&& new.subrange(0, old.len() as int) == old
    &&& forall|k: int| old.len() <= k < new.len() ==> from_some_input(#[trigger] new[k], inputs)
}

/// Whether `v` is the normalized form of one of the present inputs.
pub open spec fn from_some_input(v: Seq<char>, inputs: Seq<Option<Seq<char>>>) -> bool {
    exists|j: int|
        0 <= j < inputs.len() && (#[trigger] inputs[j]) is Some && v == normalize_tag_value(
            inputs[j]->0,
        )
}

/// The tables of `new` start with those of `old`: values and sets were only appended.
pub open spec fn tables_extend(old: GenerationTags, new: GenerationTags) -> bool {
    &&& old.tag_values@.len() <= new.tag_values@.len()
    &&& new.tag_values.deep_view().subrange(0, old.tag_values@.len() as int) == old.tag_values.deep_view()
    &&& old.tag_sets@.len() <= new.tag_sets@.len()
    &&& new.tag_sets@.subrange(0, old.tag_sets@.len() as int) == old.tag_sets@
}

/// What `get_or_create` does to the tables `old` for the five optional
/// values `inputs` (name, ref, highway, surface, smoothness), giving `new`
/// and the id `res`: the tables stay well formed and only grow (by at most
/// five values, each the normalized form of an input, and by at most the one
/// tag set); the set at `res` resolves each input to its normalized value
/// (or to no value); it was appended only when it was not there yet.
pub open spec fn tag_set_created(
    old: GenerationTags,
    new: GenerationTags,
    res: TagSetId,
    inputs: Seq<Option<Seq<char>>>,
) -> bool {
    let set = new.tag_sets@[res.tag_set_idx as int];
    let values = new.tag_values.deep_view();
    &&& new.wf()
    &&& tables_extend(old, new)
    &&& new.tag_values@.len() <= old.tag_values@.len() + 5
    &&& res.tile_id == placeholder_tile()
    &&& res.tag_set_idx < new.tag_sets@.len()
    &&& value_resolves(inputs[0], set.name, values)
    &&& value_resolves(inputs[1], set.hw_ref, values)
    &&& value_resolves(inputs[2], set.highway, values)
    &&& value_resolves(inputs[3], set.surface, values)
    &&& value_resolves(inputs[4], set.smoothness, values)
    &&& grown_by_inputs(old.tag_values.deep_view(), values, inputs)
    &&& old.tag_sets@.contains(set) ==> new.tag_sets@ == old.tag_sets@
    &&& !old.tag_sets@.contains(set) ==> new.tag_sets@ == old.tag_sets@.push(set)
}

/// The value that the set resolves input `j` (of the five) to.
pub open spec fn set_field(set: TagSet, j: int) -> TagValueId {
    if j == 0 {
        set.name
    } else if j == 1 {
        set.hw_ref
    } else if j == 2 {
        set.highway
    } else if j == 3 {
        set.surface
    } else {
        set.smoothness
    }
}

proof fn lemma_resolved_field(old: GenerationTags, new: GenerationTags, res: TagSetId, inputs: Seq<Option<Seq<char>>>, j: int)
    requires
        tag_set_created(old, new, res, inputs),
        0 <= j < 5,
    ensures
        value_resolves(inputs[j], set_field(new.tag_sets@[res.tag_set_idx as int], j), new.tag_values.deep_view()),
{
}

proof fn lemma_same_resolution(values: Seq<String>, input: Option<Seq<char>>, a: TagValueId, b: TagValueId)
    requires
        strings_unique(values),
        value_resolves(input, a, values.map_values(|v: String| v@)),
        value_resolves(input, b, values.map_values(|v: String| v@)),
    ensures
        a == b,
{
    if let Some(x) = input {
        if a.tag_value_idx != b.tag_value_idx {
            assert(values[a.tag_value_idx as int]@ != values[b.tag_value_idx as int]@);
        }
    }
}

/// Asking twice for the same tags: a second `get_or_create` with the same
/// values, on the tables that the first one left, gives the same tag set id
/// and adds no tag value and no tag set.
pub proof fn lemma_get_or_create_twice(
    t0: GenerationTags,
    t1: GenerationTags,
    t2: GenerationTags,
    r1: TagSetId,
    r2: TagSetId,
    inputs: Seq<Option<Seq<char>>>,
)
    requires
        inputs.len() == 5,
        tag_set_created(t0, t1, r1, inputs),
        tag_set_created(t1, t2, r2, inputs),
    ensures
        r2 == r1,
        t2.tag_values.deep_view() == t1.tag_values.deep_view(),
        t2.tag_sets@ == t1.tag_sets@,
{
    let v1 = t1.tag_values.deep_view();
    let v2 = t2.tag_values.deep_view();
    let set1 = t1.tag_sets@[r1.tag_set_idx as int];
    // nothing new was appended: every appended value would repeat one that the
    // first call resolved an input to
    assert(v2.len() == v1.len()) by {
        if v2.len() > v1.len() {
            let k = v1.len() as int;
            assert(from_some_input(v2[k], inputs));
            let j = choose|j: int| 0 <= j < inputs.len() && (#[trigger] inputs[j]) is Some && v2[k] == normalize_tag_value(inputs[j]->0);
            lemma_resolved_field(t0, t1, r1, inputs, j);
            let idx = set_field(set1, j).tag_value_idx as int;
            assert(v1[idx] == v2[idx]);
            assert(t2.tag_values@[idx]@ == t2.tag_values@[k]@);
        }
    }
    assert(v2 =~= v1) by {
        assert(v2.subrange(0, v1.len() as int) == v1);
    }
    let set2 = t2.tag_sets@[r2.tag_set_idx as int];
    assert forall|j: int| 0 <= j < 5 implies set_field(set2, j) == set_field(set1, j) by {
        lemma_resolved_field(t0, t1, r1, inputs, j);
        lemma_resolved_field(t1, t2, r2, inputs, j);
        assert(t2.tag_values@.map_values(|v: String| v@) =~= v2);
        assert(t1.tag_values@.map_values(|v: String| v@) =~= v1);
        lemma_same_resolution(t2.tag_values@, inputs[j], set_field(set2, j), set_field(set1, j));
    }
    assert(set_field(set2, 0) == set_field(set1, 0));
    assert(set_field(set2, 1) == set_field(set1, 1));
    assert(set_field(set2, 2) == set_field(set1, 2));
    assert(set_field(set2, 3) == set_field(set1, 3));
    assert(set_field(set2, 4) == set_field(set1, 4));
    assert(set2 == set1);
    assert(t1.tag_sets@.contains(set1));
    assert(t2.tag_sets@ == t1.tag_sets@);
    if r2.tag_set_idx != r1.tag_set_idx {
        assert(t1.tag_sets@[r2.tag_set_idx as int] != t1.tag_sets@[r1.tag_set_idx as int]);
    }
}

/// Tables always extend themselves.
pub proof fn lemma_tables_extend_refl(t: GenerationTags)
    ensures
        tables_extend(t, t),
{
    assert(t.tag_values.deep_view().subrange(0, t.tag_values@.len() as int) =~= t.tag_values.deep_view());
    assert(t.tag_sets@.subrange(0, t.tag_sets@.len() as int) =~= t.tag_sets@);
}

impl GenerationTags {
    /// The well-formedness of the tag tables: no value and no set is stored twice.
    pub open spec fn wf(&self) -> bool {
        strings_unique(self.tag_values@) && sets_unique(self.tag_sets@)
    }

    /// Empty tables.
    pub fn new() -> (res: Self)
        ensures
            res.wf(),
            res.tag_values@.len() == 0,
            res.tag_sets@.len() == 0,
    {
        GenerationTags { tag_values: Vec::new(), tag_sets: Vec::new() }
    }

    /// The number of tag values and of tag sets.
    pub fn len(&self) -> (res: (usize, usize))
        ensures
            res.0 == self.tag_values.len(),
            res.1 == self.tag_sets.len(),
    {
        (self.tag_values.len(), self.tag_sets.len())
    }

    fn get_tag_value_id(&mut self, value: Option<&String>, tile_id: TileId) -> (res: TagValueId)
        requires
            old(self).wf(),
            old(self).tag_values.len() < u32::MAX - 1,
        ensures
            final(self).wf(),
            final(self).tag_sets == old(self).tag_sets,
            res.tile_id == tile_id,
            match value {
                None => res.tag_value_idx == TAG_VALUE_NONE && final(self).tag_values == old(self).tag_values,
                Some(s) => interned(
                    old(self).tag_values.deep_view(),
                    final(self).tag_values.deep_view(),
                    normalize_tag_value(s@),
                    res.tag_value_idx as int,
                ),
            },
    {
        match value {
            None => TagValueId::none(tile_id),
            Some(v) => {
                let normalized = normalized_tag_value(v.as_str());
                let idx = intern_value(&mut self.tag_values, normalized);
                TagValueId::some(tile_id, idx)
            },
        }
    }

    /// The tag set id of the five (optional) tag values, adding the normalized values
    /// and the tag set to the tables where they are new.
    #[verifier::loop_isolation(false)]
    #[verifier::rlimit(80)]
    pub fn get_or_create(
        &mut self,
        name: Option<&String>,
        hw_ref: Option<&String>,
        highway: Option<&String>,
        surface: Option<&String>,
        smoothness: Option<&String>,
    ) -> (res: TagSetId)
        requires
            old(self).wf(),
            old(self).tag_values.len() + 5 < u32::MAX,
            old(self).tag_sets.len() + 1 < u32::MAX,
        ensures
            tag_set_created(
                *old(self),
                *final(self),
                res,
                seq![opt_view(name), opt_view(hw_ref), opt_view(highway), opt_view(surface), opt_view(smoothness)],
            ),
    {
        let placeholder_tile = TileId { col: 0, row: 0 };
        let ghost v0 = self.tag_values.deep_view();
        let n = self.get_tag_value_id(name, placeholder_tile);
        let ghost v1 = self.tag_values.deep_view();
        let r = self.get_tag_value_id(hw_ref, placeholder_tile);
        let ghost v2 = self.tag_values.deep_view();
        let h = self.get_tag_value_id(highway, placeholder_tile);
        let ghost v3 = self.tag_values.deep_view();
        let su = self.get_tag_value_id(surface, placeholder_tile);
        let ghost v4 = self.tag_values.deep_view();
        let sm = self.get_tag_value_id(smoothness, placeholder_tile);
        let ghost v5 = self.tag_values.deep_view();
        let tag_set = TagSet { name: n, hw_ref: r, highway: h, surface: su, smoothness: sm };
        proof {
            let inputs = seq![opt_view(name), opt_view(hw_ref), opt_view(highway), opt_view(surface), opt_view(smoothness)];
            // every step only appends, so earlier indices keep their values
            assert(v0.len() <= v1.len() <= v2.len() <= v3.len() <= v4.len() <= v5.len());
            assert(forall|k: int| 0 <= k < v1.len() ==> v5[k] == v1[k]);
            assert(forall|k: int| 0 <= k < v2.len() ==> v5[k] == v2[k]);
            assert(forall|k: int| 0 <= k < v3.len() ==> v5[k] == v3[k]);
            assert(forall|k: int| 0 <= k < v4.len() ==> v5[k] == v4[k]);
            assert(v5.subrange(0, v0.len() as int) =~= v0);
            assert forall|k: int| v0.len() <= k < v5.len() implies from_some_input(
                #[trigger] v5[k],
                inputs,
            ) by {
                if k < v1.len() {
                    assert(inputs[0] is Some && v5[k] == normalize_tag_value(inputs[0]->0));
                } else if k < v2.len() {
                    assert(inputs[1] is Some && v5[k] == normalize_tag_value(inputs[1]->0));
                } else if k < v3.len() {
                    assert(inputs[2] is Some && v5[k] == normalize_tag_value(inputs[2]->0));
                } else if k < v4.len() {
                    assert(inputs[3] is Some && v5[k] == normalize_tag_value(inputs[3]->0));
                } else {
                    assert(inputs[4] is Some && v5[k] == normalize_tag_value(inputs[4]->0));
                }
            }
        }
        let mut i: usize = 0;
        while i < self.tag_sets.len()
            invariant
                i <= self.tag_sets.len(),
                forall|j: int| 0 <= j < i ==> self.tag_sets[j] != tag_set,
            decreases self.tag_sets.len() - i,
        {
            if self.tag_sets[i] == tag_set {
                assert(self.tag_sets@.subrange(0, self.tag_sets@.len() as int) =~= self.tag_sets@);
                return TagSetId::new(placeholder_tile, i as u32);
            }
            i = i + 1;
        }
        let new_idx = self.tag_sets.len() as u32;
        let ghost sets_before = self.tag_sets@;
        self.tag_sets.push(tag_set);
        assert(self.tag_sets@.subrange(0, sets_before.len() as int) =~= sets_before);
        TagSetId::new(placeholder_tile, new_idx)
    }
}

} // verus!
