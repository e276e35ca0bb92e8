//! Result collection for the collecting strategies: each lane (or chunk)
//! accumulates its jobs' outputs in push order, and the per-lane sequences
//! are then concatenated in lane-index order — lane 0's results first, then
//! lane 1's, and so on. With more than one lane this is not the original
//! push order; `crate::lanes::lemma_lane_major_order` states exactly where
//! each job's output stands.

use vstd::prelude::*;

verus! {

/// Concatenates per-lane (or per-chunk) output sequences in lane-index
/// order.
pub fn concat_in_order<T>(parts: Vec<Vec<T>>) -> (r: Vec<T>)
    ensures
        r@ == parts@.map_values(|part: Vec<T>| part@).flatten(),
{
    let ghost orig = parts@.map_values(|part: Vec<T>| part@);
    let mut parts = parts;
    let mut r: Vec<T> = Vec::new();
    proof {
        assert(r@ + orig.flatten() =~= orig.flatten());
    }
    while parts.len() > 0
        invariant
            orig.flatten() == r@ + parts@.map_values(|part: Vec<T>| part@).flatten(),
        decreases parts@.len(),
    {
        let ghost views0 = parts@.map_values(|part: Vec<T>| part@);
        let ghost r0 = r@;
        let mut part = parts.remove(0);
        r.append(&mut part);
        proof {
            assert(parts@.map_values(|p: Vec<T>| p@) =~= views0.drop_first());
            assert(views0.flatten() == views0.first() + views0.drop_first().flatten());
            assert(r@ + views0.drop_first().flatten() =~= r0 + views0.flatten());
        }
    }
    proof {
        assert(parts@.map_values(|part: Vec<T>| part@).flatten() =~= Seq::<T>::empty());
        assert(r@ =~= orig.flatten());
    }
    r
}

} // verus!
