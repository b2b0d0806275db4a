//! Points indexed by the spatial hashes of their coordinates, and the search
//! for the points in the smallest hash block around a position.
//!
//! A hash interleaves the bits of latitude and longitude, so the hashes that
//! agree on all bits above bit `2 * level` form a square block of the grid.
//! The search widens the block around a position one level at a time and
//! returns the points of the first block that holds any.

use vstd::prelude::*;
use vstd::arithmetic::power2::pow2;

verus! {

/// A point: its id and the `f64` bit patterns of its coordinates.
#[derive(Clone, Copy, Debug, PartialEq, Eq)]
pub struct GpsCoordsHashMapPoint {
    pub id: i64,
    pub lat_bits: u64,
    pub lon_bits: u64,
}

/// The points, and the map from hash to point ordered by hash. The hashes of
/// all four offsets of a point go to this one map; a later point with the
/// same hash replaces the earlier one.
pub struct GpsCoordsHashMap {
    points: Vec<GpsCoordsHashMapPoint>,
    offset_none: Vec<(u64, GpsCoordsHashMapPoint)>,
}

/// The hash map's contents.
pub struct GpsCoordsHashMapView {
    /// Every inserted point, in order.
    pub points: Seq<GpsCoordsHashMapPoint>,
    /// The hash entries in increasing hash order.
    pub entries: Seq<(u64, GpsCoordsHashMapPoint)>,
}

/// Whether the hashes of the entries increase strictly.
pub open spec fn keys_increase(entries: Seq<(u64, GpsCoordsHashMapPoint)>) -> bool {
    forall|i: int, j: int| 0 <= i < j < entries.len() ==> (#[trigger] entries[i]).0 < (#[trigger] entries[j]).0
}

/// The entries as a map from hash to point.
pub open spec fn entries_map(entries: Seq<(u64, GpsCoordsHashMapPoint)>) -> Map<u64, GpsCoordsHashMapPoint> {
    Map::new(
        |k: u64| exists|i: int| 0 <= i < entries.len() && entries[i].0 == k,
        |k: u64| entries[choose|i: int| 0 <= i < entries.len() && entries[i].0 == k].1,
    )
}

impl View for GpsCoordsHashMap {
    type V = GpsCoordsHashMapView;

    closed spec fn view(&self) -> GpsCoordsHashMapView {
        GpsCoordsHashMapView { points: self.points@, entries: self.offset_none@ }
    }
}

/// Whether `key` lies in the block of level `level` around `hash`: the two
/// agree on every bit from bit `2 * level` up.
pub open spec fn in_block(key: u64, hash: u64, level: u64) -> bool {
    key >> (2 * level) as u64 == hash >> (2 * level) as u64
}

/// The points of the entries whose hash lies in the block, in hash order.
pub open spec fn block_points(entries: Seq<(u64, GpsCoordsHashMapPoint)>, hash: u64, level: u64) -> Seq<GpsCoordsHashMapPoint> {
    entries.filter_map(|e: (u64, GpsCoordsHashMapPoint)| if in_block(e.0, hash, level) {
        Some(e.1)
    } else {
        None
    })
}

/// The points of the entries whose hash is `hash` or above, in hash order:
/// the last block that the search looks at, after level 31. There the shift
/// of the search is by 64 bits, which wraps to a shift by none, so the block
/// runs from `hash` itself up to the largest hash.
pub open spec fn tail_points(entries: Seq<(u64, GpsCoordsHashMapPoint)>, hash: u64) -> Seq<GpsCoordsHashMapPoint> {
    entries.filter_map(|e: (u64, GpsCoordsHashMapPoint)| if e.0 >= hash {
        Some(e.1)
    } else {
        None
    })
}

/// Whether every entry holds one of the points.
pub open spec fn entries_from(entries: Seq<(u64, GpsCoordsHashMapPoint)>, points: Seq<GpsCoordsHashMapPoint>) -> bool {
    forall|i: int| 0 <= i < entries.len() ==> points.contains(#[trigger] entries[i].1)
}

/// Whether `level` is where the search around `hash` stops: the first level
/// (of 0 to 31) whose block holds any entry.
pub open spec fn search_level(entries: Seq<(u64, GpsCoordsHashMapPoint)>, hash: u64, level: u64) -> bool {
    &&& level <= 31
    &&& block_points(entries, hash, level).len() > 0
    &&& forall|l: u64| l < level ==> #[trigger] block_points(entries, hash, l).len() == 0
}

proof fn lemma_block_bounds(k: u64, h: u64, s: u64)
    requires
        s < 64,
    ensures
        ((h >> s << s) <= k && k <= ((h >> s << s) | (if s > 0 {
            0xffff_ffff_ffff_ffffu64 >> (64 - s) as u64
        } else {
            h
        }))) == (k >> s == h >> s),
{
    if s == 0 {
        assert(((h >> 0u64 << 0u64) <= k && k <= ((h >> 0u64 << 0u64) | h)) == (k >> 0u64 == h >> 0u64))
            by (bit_vector);
    } else {
        let t: u64 = (64 - s) as u64;
        assert(((h >> s << s) <= k && k <= ((h >> s << s) | (0xffff_ffff_ffff_ffffu64 >> t)))
            == (k >> s == h >> s)) by (bit_vector)
            requires
                0 < s < 64,
                t == 64 - s,
        ;
    }
}

proof fn lemma_shift_agrees_higher(a: u64, b: u64, s: u64, t: u64)
    requires
        s <= t < 64,
        a >> s == b >> s,
    ensures
        a >> t == b >> t,
{
    let d = (t - s) as nat;
    vstd::bits::lemma_u64_shr_is_div(a, s);
    vstd::bits::lemma_u64_shr_is_div(b, s);
    vstd::bits::lemma_u64_shr_is_div(a, t);
    vstd::bits::lemma_u64_shr_is_div(b, t);
    vstd::arithmetic::power2::lemma_pow2_adds(s as nat, d);
    vstd::arithmetic::power2::lemma_pow2_pos(s as nat);
    vstd::arithmetic::power2::lemma_pow2_pos(d);
    assert(s as nat + d == t as nat);
    vstd::arithmetic::div_mod::lemma_div_denominator(a as int, pow2(s as nat) as int, pow2(d) as int);
    vstd::arithmetic::div_mod::lemma_div_denominator(b as int, pow2(s as nat) as int, pow2(d) as int);
}

proof fn lemma_block_nonempty_wider(es: Seq<(u64, GpsCoordsHashMapPoint)>, h: u64, l: u64)
    requires
        l <= 31,
        block_points(es, h, l).len() > 0,
    ensures
        block_points(es, h, 31).len() > 0,
    decreases es.len(),
{
    if es.len() > 0 {
        let last = es.last();
        if in_block(last.0, h, l) {
            lemma_shift_agrees_higher(last.0, h, (2 * l) as u64, 62);
            assert(in_block(last.0, h, 31));
        } else {
            assert(block_points(es.drop_last(), h, l) == block_points(es, h, l));
            lemma_block_nonempty_wider(es.drop_last(), h, l);
        }
    }
}

proof fn lemma_block_level_zero(es: Seq<(u64, GpsCoordsHashMapPoint)>, h: u64)
    requires
        keys_increase(es),
    ensures
        entries_map(es).contains_key(h) ==> block_points(es, h, 0) == seq![entries_map(es)[h]],
        !entries_map(es).contains_key(h) ==> block_points(es, h, 0).len() == 0,
    decreases es.len(),
{
    assert forall|k: u64| #[trigger] in_block(k, h, 0) == (k == h) by {
        assert((k >> 0u64 == h >> 0u64) == (k == h)) by (bit_vector);
    }
    if es.len() > 0 {
        let init = es.drop_last();
        let last = es.last();
        assert(keys_increase(init));
        lemma_block_level_zero(init, h);
        assert(block_points(es, h, 0) == block_points(init, h, 0) + (if in_block(last.0, h, 0) {
            seq![last.1]
        } else {
            Seq::<GpsCoordsHashMapPoint>::empty()
        }));
        if last.0 == h {
            assert(!entries_map(init).contains_key(h)) by {
                if entries_map(init).contains_key(h) {
                    let i = choose|i: int| 0 <= i < init.len() && init[i].0 == h;
                    assert(es[i].0 < es[es.len() - 1].0);
                }
            }
            assert(entries_map(es).contains_key(h)) by {
                assert(es[es.len() - 1].0 == h);
            }
            let c = choose|i: int| 0 <= i < es.len() && es[i].0 == h;
            assert(c == es.len() - 1) by {
                if c < es.len() - 1 {
                    assert(es[c].0 < es[es.len() - 1].0);
                }
            }
            assert(block_points(es, h, 0) =~= seq![entries_map(es)[h]]);
        } else {
            assert(entries_map(es).contains_key(h) == entries_map(init).contains_key(h)) by {
                if entries_map(es).contains_key(h) {
                    let i = choose|i: int| 0 <= i < es.len() && es[i].0 == h;
                    assert(init[i].0 == h);
                }
                if entries_map(init).contains_key(h) {
                    let i = choose|i: int| 0 <= i < init.len() && init[i].0 == h;
                    assert(es[i].0 == h);
                }
            }
            if entries_map(es).contains_key(h) {
                let c = choose|i: int| 0 <= i < es.len() && es[i].0 == h;
                let d = choose|i: int| 0 <= i < init.len() && init[i].0 == h;
                assert(c == d) by {
                    assert(es[d].0 == h);
                    if c < d {
                        assert(es[c].0 < es[d].0);
                    } else if d < c {
                        assert(es[d].0 < es[c].0);
                    }
                }
                assert(entries_map(es)[h] == entries_map(init)[h]);
            }
            assert(block_points(es, h, 0) =~= block_points(init, h, 0));
        }
    }
}

/// A hash that the map holds is found at once: the search around it stops at
/// the first level and yields just the point stored under it.
pub proof fn lemma_point_found_at_own_hash(entries: Seq<(u64, GpsCoordsHashMapPoint)>, h: u64)
    requires
        keys_increase(entries),
        entries_map(entries).contains_key(h),
    ensures
        search_level(entries, h, 0),
        block_points(entries, h, 0) == seq![entries_map(entries)[h]],
{
    lemma_block_level_zero(entries, h);
}

proof fn lemma_entries_from_step(
    before: Seq<(u64, GpsCoordsHashMapPoint)>,
    after: Seq<(u64, GpsCoordsHashMapPoint)>,
    points: Seq<GpsCoordsHashMapPoint>,
    value: GpsCoordsHashMapPoint,
)
    requires
        entries_from(before, points),
        points.contains(value),
        forall|i: int| 0 <= i < after.len() ==> (#[trigger] after[i]).1 == value || before.contains(after[i]),
    ensures
        entries_from(after, points),
{
    assert forall|i: int| 0 <= i < after.len() implies points.contains(#[trigger] after[i].1) by {
        if after[i].1 != value {
            let j = choose|j: int| 0 <= j < before.len() && before[j] == after[i];
            assert(points.contains(before[j].1));
        }
    }
}

impl GpsCoordsHashMap {
    #[verifier::type_invariant]
    closed spec fn inv(self) -> bool {
        &&& keys_increase(self.offset_none@)
        &&& entries_from(self.offset_none@, self.points@)
    }

    /// An empty map.
    pub fn new() -> (res: Self)
        ensures
            res@.points.len() == 0,
            res@.entries.len() == 0,
    {
        GpsCoordsHashMap { points: Vec::new(), offset_none: Vec::new() }
    }

    /// Maps `key` to `point`, replacing an earlier point with that hash.
    fn upsert(entries: &mut Vec<(u64, GpsCoordsHashMapPoint)>, key: u64, point: GpsCoordsHashMapPoint)
        requires
            keys_increase(old(entries)@),
        ensures
            keys_increase(final(entries)@),
            entries_map(final(entries)@) == entries_map(old(entries)@).insert(key, point),
            forall|i: int| 0 <= i < final(entries)@.len() ==> (#[trigger] final(entries)@[i]).1 == point
                || old(entries)@.contains(final(entries)@[i]),
    {
        let mut pos: usize = 0;
        while pos < entries.len() && entries[pos].0 < key
            invariant
                pos <= entries.len(),
                entries@ == old(entries)@,
                keys_increase(entries@),
                forall|i: int| 0 <= i < pos ==> entries@[i].0 < key,
            decreases entries.len() - pos,
        {
            pos = pos + 1;
        }
        let ghost before = entries@;
        if pos < entries.len() && entries[pos].0 == key {
            entries.set(pos, (key, point));
            proof {
                assert forall|i: int| 0 <= i < entries@.len() implies (#[trigger] entries@[i]).1 == point
                    || before.contains(entries@[i]) by {
                    if i != pos {
                        assert(entries@[i] == before[i]);
                    }
                }
                assert forall|i: int, j: int| 0 <= i < j < entries@.len() implies (#[trigger] entries@[i]).0 < (#[trigger] entries@[j]).0 by {
                    assert(before[i].0 < before[j].0);
                }
                assert(entries_map(entries@) =~= entries_map(before).insert(key, point)) by {
                    assert forall|k: u64| #[trigger] entries_map(entries@).contains_key(k) implies entries_map(entries@)[k] == entries_map(before).insert(key, point)[k] by {
                        let c = choose|i: int| 0 <= i < entries@.len() && entries@[i].0 == k;
                        if k != key {
                            let d = choose|i: int| 0 <= i < before.len() && before[i].0 == k;
                            assert(c == d) by {
                                if c < d { assert(before[c].0 < before[d].0); } else if d < c { assert(before[d].0 < before[c].0); }
                            }
                        } else {
                            assert(c == pos) by {
                                if c < pos { assert(before[c].0 < before[pos as int].0); } else if pos < c { assert(before[pos as int].0 < before[c].0); }
                            }
                        }
                    }
                    assert forall|k: u64| #[trigger] entries_map(entries@).contains_key(k) <==> entries_map(before).insert(key, point).contains_key(k) by {
                        if k == key {
                            assert(entries@[pos as int].0 == k);
                        } else if entries_map(before).contains_key(k) {
                            let d = choose|i: int| 0 <= i < before.len() && before[i].0 == k;
                            assert(entries@[d].0 == k);
                        } else if entries_map(entries@).contains_key(k) {
                            let c = choose|i: int| 0 <= i < entries@.len() && entries@[i].0 == k;
                            assert(before[c].0 == k);
                        }
                    }
                }
            }
        } else {
            entries.insert(pos, (key, point));
            proof {
                assert(entries@ =~= before.subrange(0, pos as int).push((key, point)) + before.subrange(pos as int, before.len() as int));
                assert forall|i: int| 0 <= i < entries@.len() implies (#[trigger] entries@[i]).1 == point
                    || before.contains(entries@[i]) by {
                    if i < pos {
                        assert(entries@[i] == before[i]);
                    } else if i > pos {
                        assert(entries@[i] == before[i - 1]);
                    }
                }
                if pos < before.len() {
                    assert(key < before[pos as int].0);
                }
                assert forall|i: int, j: int| 0 <= i < j < entries@.len() implies (#[trigger] entries@[i]).0 < (#[trigger] entries@[j]).0 by {
                    if j < pos {
                        assert(before[i].0 < before[j].0);
                    } else if i < pos && j == pos {
                    } else if i < pos {
                        assert(before[i].0 < before[j - 1].0);
                    } else if i == pos {
                        if j - 1 > pos {
                            assert(before[pos as int].0 < before[j - 1].0);
                        }
                    } else {
                        assert(before[i - 1].0 < before[j - 1].0);
                    }
                }
                assert(entries_map(entries@) =~= entries_map(before).insert(key, point)) by {
                    assert forall|k: u64| #[trigger] entries_map(entries@).contains_key(k) <==> entries_map(before).insert(key, point).contains_key(k) by {
                        if k == key {
                            assert(entries@[pos as int].0 == k);
                        } else if entries_map(before).contains_key(k) {
                            let d = choose|i: int| 0 <= i < before.len() && before[i].0 == k;
                            if d < pos { assert(entries@[d].0 == k); } else { assert(entries@[d + 1].0 == k); }
                        } else if entries_map(entries@).contains_key(k) {
                            let c = choose|i: int| 0 <= i < entries@.len() && entries@[i].0 == k;
                            if c < pos { assert(before[c].0 == k); } else if c > pos { assert(before[c - 1].0 == k); }
                        }
                    }
                    assert forall|k: u64| #[trigger] entries_map(entries@).contains_key(k) implies entries_map(entries@)[k] == entries_map(before).insert(key, point)[k] by {
                        let c = choose|i: int| 0 <= i < entries@.len() && entries@[i].0 == k;
                        if k == key {
                            assert(c == pos) by {
                                if c < pos { assert(entries@[c].0 < key); } else if c > pos { assert(entries@[c].0 > key); }
                            }
                        } else {
                            let d = choose|i: int| 0 <= i < before.len() && before[i].0 == k;
                            if c < pos {
                                assert(before[c].0 == k);
                                assert(c == d) by {
                                    if c < d { assert(before[c].0 < before[d].0); } else if d < c { assert(before[d].0 < before[c].0); }
                                }
                            } else {
                                assert(c > pos);
                                assert(before[c - 1].0 == k);
                                assert(c - 1 == d) by {
                                    if c - 1 < d { assert(before[c - 1].0 < before[d].0); } else if d < c - 1 { assert(before[d].0 < before[c - 1].0); }
                                }
                            }
                        }
                    }
                }
            }
        }
    }

    /// Adds a point under the hashes of its coordinates for the four offsets
    /// (unshifted, latitude, longitude, both), in that order.
    pub fn insert(&mut self, value: GpsCoordsHashMapPoint, hashes: [u64; 4])
        ensures
            keys_increase(final(self)@.entries),
            final(self)@.points == old(self)@.points.push(value),
            entries_map(final(self)@.entries) == entries_map(old(self)@.entries).insert(hashes@[0], value).insert(
                hashes@[1],
                value,
            ).insert(hashes@[2], value).insert(hashes@[3], value),
    {
        proof {
            use_type_invariant(&*self);
        }
        let ghost pts = self.points@.push(value);
        let mut entries: Vec<(u64, GpsCoordsHashMapPoint)> = Vec::new();
        std::mem::swap(&mut entries, &mut self.offset_none);
        proof {
            assert forall|i: int| 0 <= i < entries@.len() implies pts.contains(#[trigger] entries@[i].1) by {
                let j = choose|j: int| 0 <= j < self.points@.len() && self.points@[j] == entries@[i].1;
                assert(pts[j] == entries@[i].1);
            }
            assert(pts[pts.len() - 1] == value);
        }
        let ghost e0 = entries@;
        Self::upsert(&mut entries, hashes[0], value);
        proof { lemma_entries_from_step(e0, entries@, pts, value); }
        let ghost e1 = entries@;
        Self::upsert(&mut entries, hashes[1], value);
        proof { lemma_entries_from_step(e1, entries@, pts, value); }
        let ghost e2 = entries@;
        Self::upsert(&mut entries, hashes[2], value);
        proof { lemma_entries_from_step(e2, entries@, pts, value); }
        let ghost e3 = entries@;
        Self::upsert(&mut entries, hashes[3], value);
        proof { lemma_entries_from_step(e3, entries@, pts, value); }
        let mut points: Vec<GpsCoordsHashMapPoint> = Vec::new();
        std::mem::swap(&mut points, &mut self.points);
        points.push(value);
        self.points = points;
        self.offset_none = entries;
    }

    /// The points of the entries whose hash is `search_hash` or above (see
    /// `tail_points`), or none when there are none.
    fn tail_candidates(entries: &Vec<(u64, GpsCoordsHashMapPoint)>, search_hash: u64) -> (r: Option<Vec<GpsCoordsHashMapPoint>>)
        ensures
            r is None <==> tail_points(entries@, search_hash).len() == 0,
            r matches Some(points) ==> points@ == tail_points(entries@, search_hash),
    {
        let ghost es = entries@;
        let mut points: Vec<GpsCoordsHashMapPoint> = Vec::new();
        let mut i: usize = 0;
        while i < entries.len()
            invariant
                i <= entries.len(),
                es == entries@,
                points@ == tail_points(es.take(i as int), search_hash),
            decreases entries.len() - i,
        {
            let (key, point) = entries[i];
            proof {
                assert(es.take(i + 1).drop_last() =~= es.take(i as int));
            }
            if key >= search_hash {
                points.push(point);
            }
            i = i + 1;
            assert(points@ =~= tail_points(es.take(i as int), search_hash));
        }
        assert(es.take(entries.len() as int) =~= es);
        if points.len() > 0 {
            Some(points)
        } else {
            None
        }
    }

    /// The candidates for the nearest point to `search_hash`: the points of
    /// the smallest block around it that holds any (see `search_level`), in
    /// hash order; when even the widest block, of level 31 (every hash whose
    /// two top bits are those of `search_hash`), is empty, the points whose
    /// hash is `search_hash` or above (see `tail_points`); none when those are
    /// none too. Every candidate is one of the inserted points.
    pub fn get_grid_candidates(&self, search_hash: u64) -> (r: Option<Vec<GpsCoordsHashMapPoint>>)
        ensures
            (r is None) == (block_points(self@.entries, search_hash, 31).len() == 0 && tail_points(
                self@.entries,
                search_hash,
            ).len() == 0),
            block_points(self@.entries, search_hash, 31).len() > 0 ==> (r matches Some(points) && exists|level: u64|
                search_level(self@.entries, search_hash, level) && points@ == block_points(
                    self@.entries,
                    search_hash,
                    level,
                )),
            block_points(self@.entries, search_hash, 31).len() == 0 ==> (r matches Some(points) ==> points@
                == tail_points(self@.entries, search_hash)),
            r matches Some(points) ==> forall|k: int| 0 <= k < points@.len() ==> self@.points.contains(
                #[trigger] points@[k],
            ),
    {
        proof {
            use_type_invariant(self);
        }
        let entries = &self.offset_none;
        let ghost es = entries@;
        let mut level: u64 = 0;
        loop
            invariant
                level <= 31,
                es == self@.entries,
                es == entries@,
                entries_from(es, self@.points),
                forall|l: u64| l < level ==> #[trigger] block_points(es, search_hash, l).len() == 0,
            decreases 31 - level,
        {
            let shift_width: u64 = 2 * level;
            let from = search_hash >> shift_width << shift_width;
            let to = from | if shift_width > 0 {
                0xffff_ffff_ffff_ffffu64 >> (64 - shift_width)
            } else {
                search_hash
            };
            let mut points: Vec<GpsCoordsHashMapPoint> = Vec::new();
            let mut i: usize = 0;
            while i < entries.len()
                invariant
                    i <= entries.len(),
                    es == entries@,
                    entries_from(es, self@.points),
                    shift_width == 2 * level,
                    level <= 31,
                    from == search_hash >> shift_width << shift_width,
                    to == from | if shift_width > 0 {
                        0xffff_ffff_ffff_ffffu64 >> (64 - shift_width)
                    } else {
                        search_hash
                    },
                    points@ == block_points(es.take(i as int), search_hash, level),
                    forall|k: int| 0 <= k < points@.len() ==> self@.points.contains(#[trigger] points@[k]),
                decreases entries.len() - i,
            {
                let (key, point) = entries[i];
                proof {
                    lemma_block_bounds(key, search_hash, shift_width);
                    assert(es.take(i + 1).drop_last() =~= es.take(i as int));
                    assert(self@.points.contains(es[i as int].1));
                }
                let ghost before = points@;
                if from <= key && key <= to {
                    points.push(point);
                    assert forall|k: int| 0 <= k < points@.len() implies self@.points.contains(#[trigger] points@[k]) by {
                        if k < before.len() {
                            assert(points@[k] == before[k]);
                        }
                    }
                }
                i = i + 1;
                assert(points@ =~= block_points(es.take(i as int), search_hash, level));
            }
            assert(es.take(entries.len() as int) =~= es);
            if points.len() > 0 {
                proof {
                    lemma_block_nonempty_wider(es, search_hash, level);
                }
                return Some(points);
            }
            if level == 31 {
                let r = Self::tail_candidates(entries, search_hash);
                proof {
                    lemma_tail_points_from(es, search_hash, self@.points);
                }
                return r;
            }
            level = level + 1;
        }
    }
}

/// The points of the last block are among the points the entries hold.
proof fn lemma_tail_points_from(es: Seq<(u64, GpsCoordsHashMapPoint)>, h: u64, points: Seq<GpsCoordsHashMapPoint>)
    requires
        entries_from(es, points),
    ensures
        forall|k: int| 0 <= k < tail_points(es, h).len() ==> points.contains(#[trigger] tail_points(es, h)[k]),
    decreases es.len(),
{
    if es.len() > 0 {
        let init = es.drop_last();
        assert forall|i: int| 0 <= i < init.len() implies points.contains(#[trigger] init[i].1) by {
            assert(init[i] == es[i]);
        }
        lemma_tail_points_from(init, h, points);
        let t = tail_points(es, h);
        let ti = tail_points(init, h);
        assert forall|k: int| 0 <= k < t.len() implies points.contains(#[trigger] t[k]) by {
            if k < ti.len() {
                assert(t[k] == ti[k]);
            } else {
                assert(t[k] == es.last().1);
                assert(points.contains(es[es.len() - 1].1));
            }
        }
    }
}

proof fn lemma_block_points_nonempty(es: Seq<(u64, GpsCoordsHashMapPoint)>, h: u64, l: u64, i: int)
    requires
        0 <= i < es.len(),
        in_block(es[i].0, h, l),
    ensures
        block_points(es, h, l).len() > 0,
    decreases es.len(),
{
    if i < es.len() - 1 {
        lemma_block_points_nonempty(es.drop_last(), h, l, i);
        assert(block_points(es, h, l).len() >= block_points(es.drop_last(), h, l).len());
    }
}

/// The search for candidates finds some whenever the map holds a hash that
/// shares the two top bits of the search hash or is at or above it (and so
/// `get_grid_candidates` gives `None` only for a map without such a hash).
pub proof fn lemma_search_finds_candidates(es: Seq<(u64, GpsCoordsHashMapPoint)>, h: u64, i: int)
    requires
        0 <= i < es.len(),
        in_block(es[i].0, h, 31) || es[i].0 >= h,
    ensures
        !(block_points(es, h, 31).len() == 0 && tail_points(es, h).len() == 0),
{
    if in_block(es[i].0, h, 31) {
        lemma_block_points_nonempty(es, h, 31, i);
    } else {
        lemma_tail_points_nonempty(es, h, i);
    }
}

/// A map that holds a hash at or above the search hash always has candidates:
/// if the widest block around the search hash is empty, that entry is among
/// the last block's points.
pub proof fn lemma_tail_points_nonempty(es: Seq<(u64, GpsCoordsHashMapPoint)>, h: u64, i: int)
    requires
        0 <= i < es.len(),
        es[i].0 >= h,
    ensures
        tail_points(es, h).len() > 0,
    decreases es.len(),
{
    if i < es.len() - 1 {
        lemma_tail_points_nonempty(es.drop_last(), h, i);
        assert(tail_points(es, h).len() >= tail_points(es.drop_last(), h).len());
    }
}

/// Whether candidate `k` is the nearest: no candidate is nearer, and none
/// before it is as near.
pub open spec fn first_nearest(candidates: Seq<(u32, GpsCoordsHashMapPoint)>, k: int) -> bool {
    &&& 0 <= k < candidates.len()
    &&& forall|j: int| 0 <= j < candidates.len() ==> candidates[k].0 <= (#[trigger] candidates[j]).0
    &&& forall|j: int| 0 <= j < k ==> candidates[k].0 < (#[trigger] candidates[j]).0
}

/// The nearest of the candidates (each with its distance, in whole
/// kilometres), the first of equally near ones; none when there are none.
pub fn nearest_candidate(candidates: &Vec<(u32, GpsCoordsHashMapPoint)>) -> (r: Option<GpsCoordsHashMapPoint>)
    ensures
        r is None <==> candidates@.len() == 0,
        r matches Some(p) ==> exists|k: int| first_nearest(candidates@, k) && #[trigger] candidates@[k].1 == p,
{
    if candidates.len() == 0 {
        return None;
    }
    let mut best: usize = 0;
    let mut i: usize = 1;
    while i < candidates.len()
        invariant
            1 <= i <= candidates@.len(),
            best < i,
            forall|j: int| 0 <= j < i ==> candidates@[best as int].0 <= (#[trigger] candidates@[j]).0,
            forall|j: int| 0 <= j < best ==> candidates@[best as int].0 < (#[trigger] candidates@[j]).0,
        decreases candidates@.len() - i,
    {
        if candidates[i].0 < candidates[best].0 {
            best = i;
        }
        i = i + 1;
    }
    assert(first_nearest(candidates@, best as int));
    Some(candidates[best].1)
}

} // verus!
