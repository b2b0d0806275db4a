//! The deduplicated tag values and tag sets collected while tiles are
//! generated, referenced by `ElementTagValueRef` and `ElementTagSetRef`.

use vstd::prelude::*;
use vstd::string::*;
use crate::generation::tags::{
    from_some_input, grown_by_inputs, intern_value, interned, normalize_tag_value, normalized_tag_value,
    opt_view, strings_unique,
};
use crate::map_data::graph::{ElementTagSet, ElementTagSetRef, ElementTagValueRef};
use crate::rmdf::{TileId, TAG_VALUE_NONE, placeholder_tile};

verus! {

/// No two tag sets of `sets` are equal.
pub open spec fn element_sets_unique(sets: Seq<ElementTagSet>) -> bool {
    forall|i: int, j: int| 0 <= i < sets.len() && 0 <= j < sets.len() && i != j ==> sets[i] != sets[j]
}

/// The reference that a tag input resolves to, given the tag values after
/// interning: a missing tag to `TAG_VALUE_NONE`, a present one to the index of
/// its normalized form.
pub open spec fn ref_resolves(input: Option<Seq<char>>, r: ElementTagValueRef, values: Seq<Seq<char>>) -> bool {
    &&& r.tile_id == placeholder_tile()
    &&& match input {
        None => r.tag_value_idx == TAG_VALUE_NONE,
        Some(s) => r.tag_value_idx < values.len() && values[r.tag_value_idx as int] == normalize_tag_value(s),
    }
}

/// The tag tables of `new` start with those of `old`: values and sets were only appended.
pub open spec fn element_tables_extend(old: ElementTags, new: ElementTags) -> bool {
    &&& old.tag_values@.len() <= new.tag_values@.len()
    &&& new.tag_values.deep_view().subrange(0, old.tag_values@.len() as int) == old.tag_values.deep_view()
    &&& old.tag_sets@.len() <= new.tag_sets@.len()
    &&& new.tag_sets@.subrange(0, old.tag_sets@.len() as int) == old.tag_sets@
}

/// Tag values and tag sets, each stored once.
#[derive(Debug)]
pub struct ElementTags {
    pub tag_values: Vec<String>,
    pub tag_sets: Vec<ElementTagSet>,
}

impl ElementTags {
    /// No value and no set is stored twice.
    pub open spec fn wf(&self) -> bool {
        strings_unique(self.tag_values@) && element_sets_unique(self.tag_sets@)
    }

    /// Empty tables.
    pub fn new() -> (res: Self)
        ensures
            res.wf(),
            res.tag_values@.len() == 0,
            res.tag_sets@.len() == 0,
    {
        ElementTags { tag_values: Vec::new(), tag_sets: Vec::new() }
    }

    /// The number of tag values and of tag sets.
    pub fn len(&self) -> (res: (usize, usize))
        ensures
            res.0 == self.tag_values.len(),
            res.1 == self.tag_sets.len(),
    {
        (self.tag_values.len(), self.tag_sets.len())
    }

    fn get_tag_value_ref(&mut self, value: Option<&String>, tile_id: TileId) -> (res: ElementTagValueRef)
        requires
            old(self).wf(),
            old(self).tag_values.len() < u32::MAX - 1,
        ensures
            final(self).wf(),
            final(self).tag_sets == old(self).tag_sets,
            res.tile_id == tile_id,
            match value {
                None => res.tag_value_idx == TAG_VALUE_NONE && final(self).tag_values == old(self).tag_values,
                Some(s) => interned(
                    old(self).tag_values.deep_view(),
                    final(self).tag_values.deep_view(),
                    normalize_tag_value(s@),
                    res.tag_value_idx as int,
                ),
            },
    {
        match value {
            None => ElementTagValueRef::none(tile_id),
            Some(v) => {
                let normalized = normalized_tag_value(v.as_str());
                let idx = intern_value(&mut self.tag_values, normalized);
                ElementTagValueRef::some(tile_id, idx)
            },
        }
    }

    /// The tag set reference of the five (optional) tag values, adding the
    /// normalized values and the tag set to the tables where they are new.
    #[verifier::loop_isolation(false)]
    #[verifier::rlimit(80)]
    pub fn get_or_create(
        &mut self,
        name: Option<&String>,
        hw_ref: Option<&String>,
        highway: Option<&String>,
        surface: Option<&String>,
        smoothness: Option<&String>,
    ) -> (res: ElementTagSetRef)
        requires
            old(self).wf(),
            old(self).tag_values.len() + 5 < u32::MAX,
            old(self).tag_sets.len() + 1 < u32::MAX,
        ensures
            final(self).wf(),
            element_tables_extend(*old(self), *final(self)),
            res.tile_id == placeholder_tile(),
            res.tag_set_idx < final(self).tag_sets.len(),
            ({
                let set = final(self).tag_sets[res.tag_set_idx as int];
                let values = final(self).tag_values.deep_view();
                &&& ref_resolves(opt_view(name), set.name, values)
                &&& ref_resolves(opt_view(hw_ref), set.hw_ref, values)
                &&& ref_resolves(opt_view(highway), set.highway, values)
                &&& ref_resolves(opt_view(surface), set.surface, values)
                &&& ref_resolves(opt_view(smoothness), set.smoothness, values)
            }),
            grown_by_inputs(
                old(self).tag_values.deep_view(),
                final(self).tag_values.deep_view(),
                seq![opt_view(name), opt_view(hw_ref), opt_view(highway), opt_view(surface), opt_view(smoothness)],
            ),
            old(self).tag_sets@.contains(final(self).tag_sets[res.tag_set_idx as int])
                ==> final(self).tag_sets@ == old(self).tag_sets@,
            !old(self).tag_sets@.contains(final(self).tag_sets[res.tag_set_idx as int])
                ==> final(self).tag_sets@ == old(self).tag_sets@.push(final(self).tag_sets[res.tag_set_idx as int]),
    {
        let placeholder_tile = TileId { col: 0, row: 0 };
        let ghost v0 = self.tag_values.deep_view();
        let n = self.get_tag_value_ref(name, placeholder_tile);
        let ghost v1 = self.tag_values.deep_view();
        let r = self.get_tag_value_ref(hw_ref, placeholder_tile);
        let ghost v2 = self.tag_values.deep_view();
        let h = self.get_tag_value_ref(highway, placeholder_tile);
        let ghost v3 = self.tag_values.deep_view();
        let su = self.get_tag_value_ref(surface, placeholder_tile);
        let ghost v4 = self.tag_values.deep_view();
        let sm = self.get_tag_value_ref(smoothness, placeholder_tile);
        let ghost v5 = self.tag_values.deep_view();
        let tag_set = ElementTagSet { name: n, hw_ref: r, highway: h, surface: su, smoothness: sm };
        proof {
            let inputs = seq![opt_view(name), opt_view(hw_ref), opt_view(highway), opt_view(surface), opt_view(smoothness)];
            // every step only appends, so earlier indices keep their values
            assert(v0.len() <= v1.len() <= v2.len() <= v3.len() <= v4.len() <= v5.len());
            assert(forall|k: int| 0 <= k < v1.len() ==> v5[k] == v1[k]);
            assert(forall|k: int| 0 <= k < v2.len() ==> v5[k] == v2[k]);
            assert(forall|k: int| 0 <= k < v3.len() ==> v5[k] == v3[k]);
            assert(forall|k: int| 0 <= k < v4.len() ==> v5[k] == v4[k]);
            assert(v5.subrange(0, v0.len() as int) =~= v0);
            assert forall|k: int| v0.len() <= k < v5.len() implies from_some_input(
                #[trigger] v5[k],
                inputs,
            ) by {
                if k < v1.len() {
                    assert(inputs[0] is Some && v5[k] == normalize_tag_value(inputs[0]->0));
                } else if k < v2.len() {
                    assert(inputs[1] is Some && v5[k] == normalize_tag_value(inputs[1]->0));
                } else if k < v3.len() {
                    assert(inputs[2] is Some && v5[k] == normalize_tag_value(inputs[2]->0));
                } else if k < v4.len() {
                    assert(inputs[3] is Some && v5[k] == normalize_tag_value(inputs[3]->0));
                } else {
                    assert(inputs[4] is Some && v5[k] == normalize_tag_value(inputs[4]->0));
                }
            }
        }
        let mut i: usize = 0;
        while i < self.tag_sets.len()
            invariant
                i <= self.tag_sets.len(),
                forall|j: int| 0 <= j < i ==> self.tag_sets[j] != tag_set,
            decreases self.tag_sets.len() - i,
        {
            if self.tag_sets[i] == tag_set {
                assert(self.tag_sets@.subrange(0, self.tag_sets@.len() as int) =~= self.tag_sets@);
                return ElementTagSetRef::new(placeholder_tile, i as u32);
            }
            i = i + 1;
        }
        let new_idx = self.tag_sets.len() as u32;
        let ghost sets_before = self.tag_sets@;
        self.tag_sets.push(tag_set);
        assert(self.tag_sets@.subrange(0, sets_before.len() as int) =~= sets_before);
        ElementTagSetRef::new(placeholder_tile, new_idx)
    }
}

} // verus!
