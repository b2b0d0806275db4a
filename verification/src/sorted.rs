//! Strictly increasing index lists, the form in which rule line indices are stored.

use vstd::prelude::*;

verus! {

/// Every element is smaller than all later ones.
pub open spec fn strictly_sorted(s: Seq<u32>) -> bool {
    forall|i: int, j: int| 0 <= i < j < s.len() ==> s[i] < s[j]
}

/// Adds `x` to a strictly increasing list, keeping it strictly increasing.
pub fn insert_sorted(v: &mut Vec<u32>, x: u32)
    requires
        strictly_sorted(old(v)@),
    ensures
        strictly_sorted(final(v)@),
        final(v)@.to_set() == old(v)@.to_set().insert(x),
{
    let mut pos: usize = 0;
    while pos < v.len() && v[pos] < x
        invariant
            pos <= v.len(),
            v@ == old(v)@,
            strictly_sorted(v@),
            forall|i: int| 0 <= i < pos ==> v@[i] < x,
        decreases v.len() - pos,
    {
        pos = pos + 1;
    }
    if pos < v.len() && v[pos] == x {
        assert(v@.to_set() =~= old(v)@.to_set().insert(x)) by {
            assert(v@.contains(x));
        }
        return;
    }
    let ghost before = v@;
    v.insert(pos, x);
    proof {
        assert(v@ =~= before.subrange(0, pos as int).push(x) + before.subrange(pos as int, before.len() as int));
        assert forall|i: int, j: int| 0 <= i < j < v@.len() implies v@[i] < v@[j] by {
            if j < pos {
            } else if i < pos && j == pos {
            } else if i < pos {
                assert(before[i] < before[j - 1]);
            } else if i == pos {
                assert(x < before[j - 1]) by {
                    assert(before[pos as int] > x);
                    if j - 1 > pos {
                        assert(before[pos as int] < before[j - 1]);
                    }
                }
            } else {
                assert(before[i - 1] < before[j - 1]);
            }
        }
        assert forall|y: u32| v@.to_set().contains(y) == before.to_set().insert(x).contains(y) by {
            if v@.contains(y) {
                let k = choose|k: int| 0 <= k < v@.len() && v@[k] == y;
                if k < pos {
                    assert(before[k] == y);
                } else if k > pos {
                    assert(before[k - 1] == y);
                }
            }
            if before.contains(y) {
                let k = choose|k: int| 0 <= k < before.len() && before[k] == y;
                if k < pos {
                    assert(v@[k] == y);
                } else {
                    assert(v@[k + 1] == y);
                }
            }
            if y == x {
                assert(v@[pos as int] == x);
            }
        }
        assert(v@.to_set() =~= before.to_set().insert(x));
    }
}

} // verus!
