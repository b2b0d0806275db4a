//! OpenStreetMap elements as the tile generator reads them: nodes, ways and
//! relations with their key/value tags.

use vstd::prelude::*;
use vstd::string::*;
use crate::text::{str_eq, starts_with, ends_with, is_prefix, is_suffix};

verus! {

/// The key/value tags of an OSM element. Keys are unique; inserting an existing
/// key replaces its value (as a map does).
#[derive(Debug, PartialEq, Eq)]
pub struct OsmTags {
    entries: Vec<(String, String)>,
}

/// The keys of a list of tag entries.
pub open spec fn entry_keys(entries: Seq<(String, String)>) -> Seq<Seq<char>> {
    entries.map_values(|e: (String, String)| e.0@)
}

/// No key occurs twice.
pub open spec fn keys_unique(entries: Seq<(String, String)>) -> bool {
    forall|i: int, j: int|
        0 <= i < entries.len() && 0 <= j < entries.len() && i != j ==> entries[i].0@
            != entries[j].0@
}

/// Whether `tags` maps `key` to `value`.
pub open spec fn tag_is(tags: Map<Seq<char>, Seq<char>>, key: Seq<char>, value: Seq<char>) -> bool {
    tags.contains_key(key) && tags[key] == value
}

/// Whether some key of `tags` ends with `suffix`.
pub open spec fn some_key_ends_with(tags: Map<Seq<char>, Seq<char>>, suffix: Seq<char>) -> bool {
    exists|k: Seq<char>| tags.contains_key(k) && is_suffix(suffix, k)
}

/// Whether some key of `tags` starts with `prefix`.
pub open spec fn some_key_starts_with(tags: Map<Seq<char>, Seq<char>>, prefix: Seq<char>) -> bool {
    exists|k: Seq<char>| tags.contains_key(k) && is_prefix(prefix, k)
}

/// The map that inserting `pairs` in order builds.
pub open spec fn pairs_map(pairs: Seq<(String, String)>) -> Map<Seq<char>, Seq<char>>
    decreases pairs.len(),
{
    if pairs.len() == 0 {
        Map::empty()
    } else {
        pairs_map(pairs.drop_last()).insert(pairs.last().0@, pairs.last().1@)
    }
}

impl View for OsmTags {
    type V = Map<Seq<char>, Seq<char>>;

    closed spec fn view(&self) -> Map<Seq<char>, Seq<char>> {
        Map::new(
            |k: Seq<char>| exists|i: int| 0 <= i < self.entries.len() && self.entries[i].0@ == k,
            |k: Seq<char>|
                self.entries[choose|i: int|
                    0 <= i < self.entries.len() && self.entries[i].0@ == k].1@,
        )
    }
}

impl Clone for OsmTags {
    fn clone(&self) -> (res: Self)
        ensures
            res@ == self@,
    {
        proof {
            use_type_invariant(self);
        }
        let mut entries: Vec<(String, String)> = Vec::new();
        let mut i: usize = 0;
        while i < self.entries.len()
            invariant
                i <= self.entries.len(),
                entries.len() == i,
                forall|j: int| 0 <= j < i ==> #[trigger] entries[j].0@ == self.entries[j].0@
                    && entries[j].1@ == self.entries[j].1@,
            decreases self.entries.len() - i,
        {
            let k = self.entries[i].0.clone();
            let v = self.entries[i].1.clone();
            entries.push((k, v));
            i = i + 1;
        }
        let res = OsmTags { entries };
        assert(res@ =~= self@) by {
            assert forall|k: Seq<char>| res@.contains_key(k) == self@.contains_key(k) by {
                if res@.contains_key(k) {
                    let j = choose|j: int| 0 <= j < res.entries.len() && res.entries[j].0@ == k;
                    assert(self.entries[j].0@ == k);
                }
                if self@.contains_key(k) {
                    let j = choose|j: int| 0 <= j < self.entries.len() && self.entries[j].0@ == k;
                    assert(res.entries[j].0@ == k);
                }
            }
            assert forall|k: Seq<char>| #[trigger] res@.contains_key(k) implies res@[k] == self@[k] by {
                let j = choose|j: int| 0 <= j < res.entries.len() && res.entries[j].0@ == k;
                res.lemma_view_at(j);
                self.lemma_view_at(j);
            }
        }
        res
    }
}

impl OsmTags {
    #[verifier::type_invariant]
    closed spec fn inv(self) -> bool {
        keys_unique(self.entries@)
    }

    proof fn lemma_view_at(&self, i: int)
        requires
            0 <= i < self.entries.len(),
            keys_unique(self.entries@),
        ensures
            self@.contains_key(self.entries[i].0@),
            self@[self.entries[i].0@] == self.entries[i].1@,
    {
        let k = self.entries[i].0@;
        assert(exists|j: int| 0 <= j < self.entries.len() && self.entries[j].0@ == k);
        let c = choose|j: int| 0 <= j < self.entries.len() && self.entries[j].0@ == k;
        assert(c == i);
    }

    /// No tags.
    pub fn new() -> (res: Self)
        ensures
            res@ == Map::<Seq<char>, Seq<char>>::empty(),
    {
        let res = OsmTags { entries: Vec::new() };
        assert(res@ =~= Map::<Seq<char>, Seq<char>>::empty());
        res
    }

    /// The tags of `pairs`, inserted in order (a later value of a key wins).
    pub fn from_pairs(pairs: Vec<(String, String)>) -> (res: Self)
        ensures
            res@ == pairs_map(pairs@),
    {
        let mut res = OsmTags::new();
        let mut rest = pairs;
        let ghost all = rest@;
        let n = rest.len();
        assert(all.take(0) =~= Seq::<(String, String)>::empty());
        assert(all.skip(0) =~= all);
        let mut i: usize = 0;
        while rest.len() > 0
            invariant
                all.len() == n,
                rest@ == all.skip(i as int),
                i <= all.len(),
                res@ == pairs_map(all.take(i as int)),
            decreases rest.len(),
        {
            let pair = rest.remove(0);
            proof {
                assert(pair == all[i as int]);
                assert(all.take(i + 1).drop_last() =~= all.take(i as int));
                assert(rest@ =~= all.skip(i + 1));
            }
            res.insert(pair.0, pair.1);
            i = i + 1;
        }
        assert(all.take(all.len() as int) =~= all);
        res
    }

    /// The number of distinct keys.
    pub fn len(&self) -> (res: usize)
        ensures
            res == self@.len(),
    {
        proof {
            use_type_invariant(self);
            self.lemma_len();
        }
        self.entries.len()
    }

    proof fn lemma_len(&self)
        requires
            keys_unique(self.entries@),
        ensures
            self@.dom().finite(),
            self@.len() == self.entries.len(),
    {
        let keys = entry_keys(self.entries@);
        assert(keys.no_duplicates()) by {
            assert forall|i: int, j: int|
                0 <= i < keys.len() && 0 <= j < keys.len() && i != j implies keys[i] != keys[j] by {
            }
        }
        assert(self@.dom() =~= keys.to_set()) by {
            assert forall|k: Seq<char>| self@.dom().contains(k) implies keys.to_set().contains(k) by {
                let i = choose|i: int| 0 <= i < self.entries.len() && self.entries[i].0@ == k;
                assert(keys[i] == k);
            }
            assert forall|k: Seq<char>| keys.to_set().contains(k) implies self@.dom().contains(k) by {
                let i = choose|i: int| 0 <= i < keys.len() && keys[i] == k;
                assert(self.entries[i].0@ == k);
            }
        }
        keys.unique_seq_to_set();
    }

    /// The position of `key` among the entries, if present.
    fn find(&self, key: &str) -> (res: Option<usize>)
        ensures
            match res {
                Some(i) => i < self.entries.len() && self.entries[i as int].0@ == key@,
                None => forall|i: int|
                    0 <= i < self.entries.len() ==> self.entries[i].0@ != key@,
            },
    {
        let mut i: usize = 0;
        while i < self.entries.len()
            invariant
                i <= self.entries.len(),
                forall|j: int| 0 <= j < i ==> self.entries[j].0@ != key@,
            decreases self.entries.len() - i,
        {
            if str_eq(self.entries[i].0.as_str(), key) {
                return Some(i);
            }
            i = i + 1;
        }
        None
    }

    /// The value of `key`, if present.
    pub fn get(&self, key: &str) -> (res: Option<&String>)
        ensures
            match res {
                Some(v) => self@.contains_key(key@) && self@[key@] == v@,
                None => !self@.contains_key(key@),
            },
    {
        proof {
            use_type_invariant(self);
        }
        match self.find(key) {
            Some(i) => {
                proof {
                    self.lemma_view_at(i as int);
                }
                Some(&self.entries[i].1)
            },
            None => None,
        }
    }

    /// Whether `key` is present.
    pub fn contains_key(&self, key: &str) -> (res: bool)
        ensures
            res == self@.contains_key(key@),
    {
        self.get(key).is_some()
    }

    /// Whether `key` is present with exactly `value`.
    pub fn has_value(&self, key: &str, value: &str) -> (res: bool)
        ensures
            res == tag_is(self@, key@, value@),
    {
        match self.get(key) {
            Some(v) => str_eq(v.as_str(), value),
            None => false,
        }
    }

    /// Sets `key` to `value`, replacing an earlier value of the same key.
    pub fn insert(&mut self, key: String, value: String)
        ensures
            final(self)@ == old(self)@.insert(key@, value@),
    {
        proof {
            use_type_invariant(&*self);
        }
        let ghost k = key@;
        let ghost v = value@;
        let ghost old_entries = self.entries@;
        let found = self.find(key.as_str());
        let mut entries: Vec<(String, String)> = Vec::new();
        std::mem::swap(&mut entries, &mut self.entries);
        match found {
            Some(i) => {
                entries.set(i, (key, value));
                assert(keys_unique(entries@));
                self.entries = entries;
                proof {
                    assert(keys_unique(self.entries@));
                    assert forall|kk: Seq<char>| self@.contains_key(kk) <==> old(self)@.insert(
                        k,
                        v,
                    ).contains_key(kk) by {
                        if kk != k {
                            if self@.contains_key(kk) {
                                let j = choose|j: int|
                                    0 <= j < self.entries.len() && self.entries[j].0@ == kk;
                                assert(old_entries[j].0@ == kk);
                            }
                            if old(self)@.contains_key(kk) {
                                let j = choose|j: int|
                                    0 <= j < old_entries.len() && old_entries[j].0@ == kk;
                                assert(self.entries[j].0@ == kk);
                            }
                        } else {
                            assert(self.entries[i as int].0@ == k);
                        }
                    }
                    assert forall|kk: Seq<char>| #[trigger]
                        self@.contains_key(kk) implies self@[kk] == old(self)@.insert(k, v)[kk] by {
                        let j = choose|j: int|
                            0 <= j < self.entries.len() && self.entries[j].0@ == kk;
                        self.lemma_view_at(j);
                        if kk != k {
                            assert(j != i);
                            assert(old_entries[j] == self.entries[j]);
                            old(self).lemma_view_at(j);
                        }
                    }
                    assert(self@ =~= old(self)@.insert(k, v));
                }
            },
            None => {
                entries.push((key, value));
                assert(keys_unique(entries@));
                self.entries = entries;
                proof {
                    let n = self.entries.len() - 1;
                    assert(keys_unique(self.entries@));
                    assert forall|kk: Seq<char>| self@.contains_key(kk) <==> old(self)@.insert(
                        k,
                        v,
                    ).contains_key(kk) by {
                        if self@.contains_key(kk) && kk != k {
                            let j = choose|j: int|
                                0 <= j < self.entries.len() && self.entries[j].0@ == kk;
                            assert(j < n);
                            assert(old_entries[j].0@ == kk);
                        }
                        if old(self)@.contains_key(kk) {
                            let j = choose|j: int|
                                0 <= j < old_entries.len() && old_entries[j].0@ == kk;
                            assert(self.entries[j].0@ == kk);
                        }
                        if kk == k {
                            assert(self.entries[n].0@ == k);
                        }
                    }
                    assert forall|kk: Seq<char>| #[trigger]
                        self@.contains_key(kk) implies self@[kk] == old(self)@.insert(k, v)[kk] by {
                        let j = choose|j: int|
                            0 <= j < self.entries.len() && self.entries[j].0@ == kk;
                        self.lemma_view_at(j);
                        if kk != k {
                            assert(j != n);
                            assert(old_entries[j] == self.entries[j]);
                            old(self).lemma_view_at(j);
                        }
                    }
                    assert(self@ =~= old(self)@.insert(k, v));
                }
            },
        }
    }

    /// Whether some key ends with `suffix`.
    pub fn any_key_ends_with(&self, suffix: &str) -> (res: bool)
        ensures
            res == some_key_ends_with(self@, suffix@),
    {
        proof {
            use_type_invariant(self);
        }
        let mut i: usize = 0;
        while i < self.entries.len()
            invariant
                keys_unique(self.entries@),
                i <= self.entries.len(),
                forall|j: int| 0 <= j < i ==> !is_suffix(suffix@, #[trigger] self.entries[j].0@),
            decreases self.entries.len() - i,
        {
            if ends_with(self.entries[i].0.as_str(), suffix) {
                proof {
                    self.lemma_view_at(i as int);
                }
                return true;
            }
            i = i + 1;
        }
        proof {
            assert forall|k: Seq<char>| self@.contains_key(k) implies !is_suffix(suffix@, k) by {
                let j = choose|j: int| 0 <= j < self.entries.len() && self.entries[j].0@ == k;
                assert(!is_suffix(suffix@, self.entries[j].0@));
            }
        }
        false
    }

    /// Whether some key starts with `prefix`.
    pub fn any_key_starts_with(&self, prefix: &str) -> (res: bool)
        ensures
            res == some_key_starts_with(self@, prefix@),
    {
        proof {
            use_type_invariant(self);
        }
        let mut i: usize = 0;
        while i < self.entries.len()
            invariant
                keys_unique(self.entries@),
                i <= self.entries.len(),
                forall|j: int| 0 <= j < i ==> !is_prefix(prefix@, #[trigger] self.entries[j].0@),
            decreases self.entries.len() - i,
        {
            if starts_with(self.entries[i].0.as_str(), prefix) {
                proof {
                    self.lemma_view_at(i as int);
                }
                return true;
            }
            i = i + 1;
        }
        proof {
            assert forall|k: Seq<char>| self@.contains_key(k) implies !is_prefix(prefix@, k) by {
                let j = choose|j: int| 0 <= j < self.entries.len() && self.entries[j].0@ == k;
                assert(!is_prefix(prefix@, self.entries[j].0@));
            }
        }
        false
    }
}


/// A map node. Coordinates are kept as the IEEE-754 bit patterns of the `f64`
/// degrees, so that they pass through the generator unchanged.
#[derive(Clone, Copy, Debug, PartialEq, Eq)]
pub struct OsmNode {
    pub id: u64,
    pub lat_bits: u64,
    pub lon_bits: u64,
    pub residential_in_proximity: bool,
    pub nogo_area: bool,
}

/// A way: an ordered list of node ids with optional tags.
#[derive(Clone, Debug, PartialEq, Eq)]
pub struct OsmWay {
    pub id: u64,
    pub point_ids: Vec<u64>,
    pub tags: Option<OsmTags>,
}

/// Whether a way's tags make it one-way: `oneway=yes` or `junction=roundabout`.
pub open spec fn way_is_one_way(tags: Option<OsmTags>) -> bool {
    match tags {
        Some(t) => tag_is(t@, "oneway"@, "yes"@) || tag_is(t@, "junction"@, "roundabout"@),
        None => false,
    }
}

/// Whether a way's tags make it a roundabout: `junction=roundabout`.
pub open spec fn way_is_roundabout(tags: Option<OsmTags>) -> bool {
    match tags {
        Some(t) => tag_is(t@, "junction"@, "roundabout"@),
        None => false,
    }
}

impl OsmWay {
    /// Whether traffic may only go one way: `oneway=yes` or `junction=roundabout`.
    pub fn is_one_way(&self) -> (res: bool)
        ensures
            res == way_is_one_way(self.tags),
    {
        match &self.tags {
            Some(tags) => tags.has_value("oneway", "yes") || tags.has_value(
                "junction",
                "roundabout",
            ),
            None => false,
        }
    }

    /// Whether the way is a roundabout: `junction=roundabout`.
    pub fn is_roundabout(&self) -> (res: bool)
        ensures
            res == way_is_roundabout(self.tags),
    {
        match &self.tags {
            Some(tags) => tags.has_value("junction", "roundabout"),
            None => false,
        }
    }
}

/// The kind of element a relation member refers to.
#[derive(Clone, Copy, Debug, PartialEq, Eq)]
pub enum OsmRelationMemberType {
    Way,
    Node,
    Relation,
}

/// The role of a relation member.
#[derive(Clone, Debug, PartialEq, Eq)]
pub enum OsmRelationMemberRole {
    From,
    To,
    Via,
    Other(String),
}

/// One member of a relation.
#[derive(Clone, Debug, PartialEq, Eq)]
pub struct OsmRelationMember {
    pub member_type: OsmRelationMemberType,
    pub role: OsmRelationMemberRole,
    pub member_ref: u64,
}

/// A relation: members with roles, and tags.
#[derive(Clone, Debug, PartialEq, Eq)]
pub struct OsmRelation {
    pub id: u64,
    pub members: Vec<OsmRelationMember>,
    pub tags: OsmTags,
}

} // verus!
