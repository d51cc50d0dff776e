//! Small helpers shared by the shuffling and sorting code.

use vstd::prelude::*;
use vstd::seq_lib::group_to_multiset_ensures;
use vstd::multiset::group_multiset_axioms;

verus! {

/// Exchanges two elements of a vector; everything else, and the
/// collection of elements as a whole, stays as it was.
pub(crate) fn swap_elems<T: Copy>(v: &mut Vec<T>, i: usize, t: usize)
    requires
        i < old(v)@.len(),
        t < old(v)@.len(),
    ensures
        final(v)@.len() == old(v)@.len(),
        final(v)@.to_multiset() == old(v)@.to_multiset(),
        final(v)@ == old(v)@.update(i as int, old(v)@[t as int]).update(t as int, old(v)@[i as int]),
{
    proof {
        broadcast use group_to_multiset_ensures;
        broadcast use group_multiset_axioms;

    }
    let a = v[i];
    let b = v[t];
    v.set(i, b);
    v.set(t, a);
    proof {
        let s = old(v)@;
        if i == t {
            assert(v@ =~= s.update(i as int, s[t as int]).update(t as int, s[i as int]));
            assert(v@ =~= s);
        } else {
            assert(v@.to_multiset() =~= s.to_multiset());
        }
    }
}

} // verus!
