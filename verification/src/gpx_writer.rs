//! The order in which route statistics are described: road types by
//! decreasing length.

use vstd::prelude::*;
use vstd::multiset::Multiset;

verus! {

/// Length and share of one road type along a route, as the bit patterns of
/// the `f64` metres and percentage.
#[derive(Clone, Copy, Debug, PartialEq, Eq)]
pub struct RouteStatElement {
    pub len_m_bits: u64,
    pub percentage_bits: u64,
}

/// The position of an `f64` in the IEEE total order (`f64::total_cmp`), from
/// its bit pattern: a value with the sign bit clear keeps its bits; one with
/// the sign bit set is ordered below all of those, the more so the larger its
/// magnitude bits.
pub open spec fn total_key(bits: u64) -> int {
    if bits < 0x8000_0000_0000_0000u64 {
        bits as int
    } else {
        0x7FFF_FFFF_FFFF_FFFFint - bits
    }
}

/// The signed integer whose order is the total order of `f64` bit patterns.
pub fn total_order_key(bits: u64) -> (key: i64)
    ensures
        key as int == total_key(bits),
{
    let x: i64 = bits as i64;
    let key: i64 = x ^ ((((x >> 63u64) as u64) >> 1u64) as i64);
    assert(bits < 0x8000_0000_0000_0000u64 ==> key == bits) by (bit_vector)
        requires
            x == bits as i64,
            key == x ^ ((((x >> 63u64) as u64) >> 1u64) as i64),
    ;
    assert(bits >= 0x8000_0000_0000_0000u64 ==> key as int == 0x7FFF_FFFF_FFFF_FFFFint - bits) by (bit_vector)
        requires
            x == bits as i64,
            key == x ^ ((((x >> 63u64) as u64) >> 1u64) as i64),
    ;
    key
}

/// Whether the entries are ordered by decreasing length.
pub open spec fn longest_first(s: Seq<(String, RouteStatElement)>) -> bool {
    forall|i: int, j: int|
        0 <= i < j < s.len() ==> total_key((#[trigger] s[i]).1.len_m_bits) >= total_key(
            (#[trigger] s[j]).1.len_m_bits,
        )
}

/// The entries by decreasing length (in the total order of `f64`). The
/// entries come from a hash map, so entries of equal length have no order to
/// keep.
pub fn sort_by_longest(entries: Vec<(String, RouteStatElement)>) -> (sorted: Vec<(String, RouteStatElement)>)
    ensures
        sorted@.to_multiset() == entries@.to_multiset(),
        longest_first(sorted@),
{
    broadcast use vstd::multiset::group_multiset_axioms;
    broadcast use vstd::seq_lib::group_to_multiset_ensures;
    broadcast use vstd::multiset::lemma_multiset_empty_len;
    let mut rest = entries;
    let mut sorted: Vec<(String, RouteStatElement)> = Vec::new();
    assert(sorted@.to_multiset() =~= Multiset::empty());
    while rest.len() > 0
        invariant
            longest_first(sorted@),
            sorted@.to_multiset().add(rest@.to_multiset()) == entries@.to_multiset(),
        decreases rest.len(),
    {
        let ghost rest_before = rest@;
        let x = rest.pop().unwrap();
        assert(rest_before == rest@.push(x));
        let k = total_order_key(x.1.len_m_bits);
        let mut pos: usize = 0;
        while pos < sorted.len() && total_order_key(sorted[pos].1.len_m_bits) >= k
            invariant
                pos <= sorted.len(),
                k as int == total_key(x.1.len_m_bits),
                forall|q: int| 0 <= q < pos ==> total_key((#[trigger] sorted@[q]).1.len_m_bits) >= k,
            decreases sorted.len() - pos,
        {
            pos = pos + 1;
        }
        let ghost before = sorted@;
        sorted.insert(pos, x);
        proof {
            assert(sorted@ == before.insert(pos as int, x));
            if pos < before.len() {
                assert(total_key(before[pos as int].1.len_m_bits) < k);
            }
            assert forall|a: int, b: int| 0 <= a < b < sorted@.len() implies total_key(
                (#[trigger] sorted@[a]).1.len_m_bits,
            ) >= total_key((#[trigger] sorted@[b]).1.len_m_bits) by {
                if b < pos {
                    assert(total_key(before[a].1.len_m_bits) >= total_key(before[b].1.len_m_bits));
                } else if a < pos && b == pos {
                } else if a < pos {
                    assert(total_key(before[a].1.len_m_bits) >= total_key(before[b - 1].1.len_m_bits));
                } else if a == pos {
                    assert(total_key(before[pos as int].1.len_m_bits) >= total_key(before[b - 1].1.len_m_bits)
                        || b - 1 == pos);
                } else {
                    assert(total_key(before[a - 1].1.len_m_bits) >= total_key(before[b - 1].1.len_m_bits));
                }
            }
            vstd::seq_lib::to_multiset_build(rest@, x);
            vstd::seq_lib::to_multiset_insert(before, pos as int, x);
            assert(rest_before.to_multiset() == rest@.to_multiset().insert(x));
            assert(sorted@.to_multiset() == before.to_multiset().insert(x));
            assert(sorted@.to_multiset().add(rest@.to_multiset()) =~= before.to_multiset().add(
                rest_before.to_multiset(),
            ));
        }
    }
    assert(rest@.to_multiset() =~= Multiset::empty());
    sorted
}

} // verus!
