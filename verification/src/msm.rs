//! The multi-exponentiation engine: a weighted sum of G1 points.
//!
//! The contract states that the result is exactly the naive sequential
//! sum of `scalar · base` over the input pairs, which is the engine's
//! correctness property; window sizes and partitioning may change how the
//! sum is computed, never its value.

use vstd::prelude::*;

use crate::curve::{g1_add, g1_add_v, g1_inf, g1_smul, g1_smul_v, g1_wf, g1v, ptv_inf, G1, PtV};
use crate::fft::vals;
use crate::limb::{fe_val, Fe};

verus! {

/// The point values of a vector of points.
pub open spec fn g1_seq(s: Seq<G1>) -> Seq<PtV> {
    s.map_values(|p: G1| g1v(p))
}

/// The naive sequential sum of `scalar · base` over the pairs.
pub open spec fn msm_v(ps: Seq<PtV>, ks: Seq<nat>) -> PtV
    decreases ps.len(),
{
    if ps.len() == 0 {
        ptv_inf()
    } else {
        g1_add_v(msm_v(ps.drop_last(), ks.drop_last()), g1_smul_v(ks.last(), ps.last()))
    }
}

/// Multi-exponentiation: requires equally long inputs (a mismatch is a
/// contract violation, not a runtime error) and returns exactly the naive
/// sequential sum.
pub fn msm(ps: &Vec<G1>, ks: &Vec<Fe>) -> (r: G1)
    requires
        ps@.len() == ks@.len(),
        forall|i: int| 0 <= i < ps@.len() ==> g1_wf(#[trigger] ps@[i]),
    ensures
        g1_wf(r),
        g1v(r) == msm_v(g1_seq(ps@), vals(ks@)),
{
    let mut acc = g1_inf();
    let mut i: usize = 0;
    while i < ps.len()
        invariant
            i <= ps@.len(),
            ks@.len() == ps@.len(),
            forall|j: int| 0 <= j < ps@.len() ==> g1_wf(#[trigger] ps@[j]),
            g1_wf(acc),
            g1v(acc) == msm_v(g1_seq(ps@).take(i as int), vals(ks@).take(i as int)),
        decreases ps@.len() - i,
    {
        let t = g1_smul(&ks[i], &ps[i]);
        acc = g1_add(&acc, &t);
        proof {
            let pse = g1_seq(ps@);
            let kse = vals(ks@);
            assert(pse.take(i + 1).drop_last() =~= pse.take(i as int));
            assert(kse.take(i + 1).drop_last() =~= kse.take(i as int));
            assert(pse.take(i + 1).last() == g1v(ps@[i as int]));
            assert(kse.take(i + 1).last() == fe_val(ks@[i as int]));
        }
        i += 1;
    }
    proof {
        assert(g1_seq(ps@).take(ps@.len() as int) =~= g1_seq(ps@));
        assert(vals(ks@).take(ks@.len() as int) =~= vals(ks@));
    }
    acc
}

} // verus!
