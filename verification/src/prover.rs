//! The prover: orchestration of the loaders, the FFT engine and the
//! multi-exponentiation engine into Groth16-style proof construction.
//!
//! `FullProver::new` loads and validates a proving key; a prover therefore
//! exists only in the ready state, and a failed load leaves nothing to
//! call. `prove` loads a witness, forms the constraint evaluations, takes
//! the quotient coefficients through the inverse transform, and combines
//! the CRS sections and the caller's blinding scalars into the three
//! proof points. Every step is pinned to its mirror specification.

use vstd::prelude::*;

use crate::curve::{g1_add, g1_add_v, g1_neg, g1_smul, g1_smul_v, g1_wf, g1v, G1, PtV};
use crate::curve2::{g2_add, g2_add_v, g2_seq, g2_smul, g2_smul_v, g2v, msm2, msm2_v, Pt2V, G2};
use crate::fft::{all_reduced, fft_spec, ifft, ifft_spec, radd, rmul, rsub, vals};
use crate::field::{add_mod, modulus_ok, mul_mod, sub_mod};
use crate::key::{
    parse_witness, parse_zkey, pk_matches, pk_wf, witness_good, witness_vals, wt_body_ok,
    wt_curve, wt_header_ok, zk_body_ok, zk_curve, zk_domain_ok, zk_header_ok, zkey_good,
    ProverError, ProverInitError, ProvingKey,
};
use crate::limb::{fe_val, fe_zero, Fe};
use crate::msm::{g1_seq, msm, msm_v};
use crate::params::{fq_order, fr_order, r_modulus};

verus! {

/// A Groth16-style proof: A and C in G1, B in G2.
#[derive(Clone, Copy, PartialEq, Eq, Structural, Debug)]
pub struct Proof {
    pub a: G1,
    pub b: G2,
    pub c: G1,
}

/// A dot product in the scalar field, taken pairwise from the right.
pub open spec fn dot_v(row: Seq<nat>, w: Seq<nat>) -> nat
    decreases row.len(),
{
    if row.len() == 0 || w.len() == 0 {
        0
    } else {
        radd(dot_v(row.drop_last(), w.drop_last()), rmul(row.last(), w.last()))
    }
}

/// Row-major matrix times vector over the scalar field.
pub open spec fn matvec_v(mat: Seq<nat>, w: Seq<nat>, rows: int) -> Seq<nat> {
    Seq::new(
        rows as nat,
        |c: int| dot_v(mat.subrange(c * w.len() as int, c * w.len() as int + w.len() as int), w),
    )
}

/// The pointwise constraint defect A·B − C at each domain point.
pub open spec fn habc_v(za: Seq<nat>, zb: Seq<nat>, zc: Seq<nat>) -> Seq<nat> {
    Seq::new(za.len(), |i: int| rsub(rmul(za[i], zb[i]), zc[i]))
}

/// The quotient coefficients: the inverse transform of the defect vector.
pub open spec fn hcoeffs_v(pk: ProvingKey, wv: Seq<nat>) -> Seq<nat> {
    ifft_spec(
        habc_v(
            matvec_v(vals(pk.a_mat@), wv, pk.domain as int),
            matvec_v(vals(pk.b_mat@), wv, pk.domain as int),
            matvec_v(vals(pk.c_mat@), wv, pk.domain as int),
        ),
        fe_val(pk.omega_inv),
    )
}

/// The mirror image of a point value over the x axis.
pub open spec fn ptv_negy(p: PtV) -> PtV {
    PtV { x: p.x, y: ((fq_order() - p.y) % (fq_order() as int)) as nat, z: p.z }
}

/// The first proof point: alpha, the A-query weighted by the wires, and
/// the first blinding multiple of delta.
pub open spec fn proof_a_v(pk: ProvingKey, wv: Seq<nat>, rv: nat) -> PtV {
    g1_add_v(
        g1_add_v(g1v(pk.alpha1), msm_v(g1_seq(pk.a_query@), wv)),
        g1_smul_v(rv, g1v(pk.delta1)),
    )
}

/// The published second proof point, in G2: beta, the G2 B-query
/// weighted by the wires, and the second blinding multiple of delta.
pub open spec fn proof_b2_v(pk: ProvingKey, wv: Seq<nat>, sv: nat) -> Pt2V {
    g2_add_v(
        g2_add_v(g2v(pk.beta2), msm2_v(g2_seq(pk.b2_query@), wv)),
        g2_smul_v(sv, g2v(pk.delta2)),
    )
}

/// The G1 shadow of the second proof point, which the third point's
/// cross term consumes: beta, the G1 B-query weighted by the wires, and
/// the second blinding multiple of delta.
pub open spec fn proof_b_v(pk: ProvingKey, wv: Seq<nat>, sv: nat) -> PtV {
    g1_add_v(
        g1_add_v(g1v(pk.beta1), msm_v(g1_seq(pk.b_query@), wv)),
        g1_smul_v(sv, g1v(pk.delta1)),
    )
}

/// The third proof point: the C-query and quotient terms, the blinding
/// cross terms, less the product of the blindings on delta.
pub open spec fn proof_c_v(pk: ProvingKey, wv: Seq<nat>, rv: nat, sv: nat) -> PtV {
    g1_add_v(
        g1_add_v(
            g1_add_v(
                g1_add_v(
                    msm_v(g1_seq(pk.c_query@), wv),
                    msm_v(g1_seq(pk.h_query@), hcoeffs_v(pk, wv)),
                ),
                g1_smul_v(sv, proof_a_v(pk, wv, rv)),
            ),
            g1_smul_v(rv, proof_b_v(pk, wv, sv)),
        ),
        ptv_negy(g1_smul_v(rmul(rv, sv), g1v(pk.delta1))),
    )
}

/// Row-major matrix times vector.
#[verifier::rlimit(100)]
fn matvec(mat: &Vec<Fe>, w: &Vec<Fe>, rows: usize) -> (r: Vec<Fe>)
    requires
        mat@.len() == rows * w@.len(),
        w@.len() >= 1,
        forall|t: int| 0 <= t < mat@.len() ==> fe_val(#[trigger] mat@[t]) < fr_order(),
        forall|t: int| 0 <= t < w@.len() ==> fe_val(#[trigger] w@[t]) < fr_order(),
    ensures
        r@.len() == rows,
        vals(r@) == matvec_v(vals(mat@), vals(w@), rows as int),
        all_reduced(vals(r@)),
{
    let rm = r_modulus();
    let n = w.len();
    let ml = mat.len();
    let mut out: Vec<Fe> = Vec::new();
    let mut c: usize = 0;
    while c < rows
        invariant
            c <= rows,
            n == w@.len(),
            n >= 1,
            mat@.len() == rows * n,
            mat@.len() <= usize::MAX,
            modulus_ok(rm),
            fe_val(rm) == fr_order(),
            forall|t: int| 0 <= t < mat@.len() ==> fe_val(#[trigger] mat@[t]) < fr_order(),
            forall|t: int| 0 <= t < w@.len() ==> fe_val(#[trigger] w@[t]) < fr_order(),
            out@.len() == c,
            forall|t: int|
                0 <= t < c ==> #[trigger] fe_val(out@[t]) == dot_v(
                    vals(mat@).subrange(t * n, t * n + n),
                    vals(w@),
                ),
        decreases rows - c,
    {
        proof {
            vstd::arithmetic::mul::lemma_mul_inequality(c as int + 1, rows as int, n as int);
            assert((c + 1) * (n as int) == c * (n as int) + n) by (nonlinear_arith);
            vstd::arithmetic::mul::lemma_mul_is_commutative(rows as int, n as int);
            vstd::arithmetic::mul::lemma_mul_nonnegative(c as int, n as int);
        }
        let base: usize = c * n;
        let mut acc = fe_zero();
        let mut j: usize = 0;
        proof {
            vstd::arithmetic::div_mod::lemma_small_mod(0, fr_order());
        }
        while j < n
            invariant
                j <= n,
                n == w@.len(),
                base == c * n,
                base + n <= mat@.len(),
                mat@.len() <= usize::MAX,
                modulus_ok(rm),
                fe_val(rm) == fr_order(),
                forall|t: int| 0 <= t < mat@.len() ==> fe_val(#[trigger] mat@[t]) < fr_order(),
                forall|t: int| 0 <= t < w@.len() ==> fe_val(#[trigger] w@[t]) < fr_order(),
                fe_val(acc) < fr_order(),
                fe_val(acc) == dot_v(
                    vals(mat@).subrange(base as int, base + j),
                    vals(w@).take(j as int),
                ),
            decreases n - j,
        {
            let t = mul_mod(&mat[base + j], &w[j], &rm);
            let acc2 = add_mod(&acc, &t, &rm);
            proof {
                let ms = vals(mat@);
                let ws = vals(w@);
                assert(ms.subrange(base as int, base + j + 1).drop_last() =~= ms.subrange(
                    base as int,
                    base + j,
                ));
                assert(ws.take(j + 1).drop_last() =~= ws.take(j as int));
                assert(ms.subrange(base as int, base + j + 1).last() == fe_val(
                    mat@[base + j],
                ));
                assert(ws.take(j + 1).last() == fe_val(w@[j as int]));
            }
            acc = acc2;
            j += 1;
        }
        proof {
            assert(vals(w@).take(n as int) =~= vals(w@));
        }
        out.push(acc);
        c += 1;
    }
    proof {
        assert(vals(out@) =~= matvec_v(vals(mat@), vals(w@), rows as int));
    }
    out
}

/// The pointwise defect vector A·B − C over the domain.
fn habc(za: &Vec<Fe>, zb: &Vec<Fe>, zc: &Vec<Fe>) -> (r: Vec<Fe>)
    requires
        za@.len() == zb@.len(),
        za@.len() == zc@.len(),
        all_reduced(vals(za@)),
        all_reduced(vals(zb@)),
        all_reduced(vals(zc@)),
    ensures
        r@.len() == za@.len(),
        vals(r@) == habc_v(vals(za@), vals(zb@), vals(zc@)),
        all_reduced(vals(r@)),
{
    let rm = r_modulus();
    let n = za.len();
    let mut out: Vec<Fe> = Vec::new();
    let mut i: usize = 0;
    proof {
        assert(forall|t: int| 0 <= t < za@.len() ==> #[trigger] vals(za@)[t] == fe_val(za@[t]));
        assert(forall|t: int| 0 <= t < zb@.len() ==> #[trigger] vals(zb@)[t] == fe_val(zb@[t]));
        assert(forall|t: int| 0 <= t < zc@.len() ==> #[trigger] vals(zc@)[t] == fe_val(zc@[t]));
        assert(forall|t: int| 0 <= t < za@.len() ==> #[trigger] fe_val(za@[t]) == vals(za@)[t]);
        assert(forall|t: int| 0 <= t < zb@.len() ==> #[trigger] fe_val(zb@[t]) == vals(zb@)[t]);
        assert(forall|t: int| 0 <= t < zc@.len() ==> #[trigger] fe_val(zc@[t]) == vals(zc@)[t]);
    }
    while i < n
        invariant
            i <= n,
            n == za@.len(),
            n == zb@.len(),
            n == zc@.len(),
            modulus_ok(rm),
            fe_val(rm) == fr_order(),
            forall|t: int| 0 <= t < za@.len() ==> fe_val(#[trigger] za@[t]) < fr_order(),
            forall|t: int| 0 <= t < zb@.len() ==> fe_val(#[trigger] zb@[t]) < fr_order(),
            forall|t: int| 0 <= t < zc@.len() ==> fe_val(#[trigger] zc@[t]) < fr_order(),
            out@.len() == i,
            forall|t: int|
                0 <= t < i ==> #[trigger] fe_val(out@[t]) == rsub(
                    rmul(fe_val(za@[t]), fe_val(zb@[t])),
                    fe_val(zc@[t]),
                ),
        decreases n - i,
    {
        let p = mul_mod(&za[i], &zb[i], &rm);
        let s = sub_mod(&p, &zc[i], &rm);
        out.push(s);
        i += 1;
    }
    proof {
        assert(vals(out@) =~= habc_v(vals(za@), vals(zb@), vals(zc@)));
    }
    out
}

/// The quotient coefficients for a wire vector under a loaded key.
#[verifier::rlimit(100)]
fn hcoeffs(pk: &ProvingKey, w: &Vec<Fe>) -> (r: Vec<Fe>)
    requires
        pk_wf(*pk),
        w@.len() == pk.n_wires,
        forall|t: int| 0 <= t < w@.len() ==> fe_val(#[trigger] w@[t]) < fr_order(),
    ensures
        r@.len() == pk.domain,
        vals(r@) == hcoeffs_v(*pk, vals(w@)),
        all_reduced(vals(r@)),
{
    proof {
        assert(forall|t: int| 0 <= t < w@.len() ==> #[trigger] vals(w@)[t] == fe_val(w@[t]));
    }
    let za = matvec(&pk.a_mat, w, pk.domain);
    let zb = matvec(&pk.b_mat, w, pk.domain);
    let zc = matvec(&pk.c_mat, w, pk.domain);
    let defect = habc(&za, &zb, &zc);
    let h = ifft(&defect, &pk.omega_inv);
    h
}

/// A prover that holds a validated proving key. One can only be built by
/// a successful load, so a proof request never reaches an unready key.
pub struct FullProver {
    pub key: ProvingKey,
}

impl FullProver {
    /// Load and validate a proving key; the prover exists only on success.
    pub fn new(zkey: &Vec<u8>) -> (r: Result<FullProver, ProverInitError>)
        ensures
            r matches Ok(p) ==> zkey_good(zkey@) && pk_wf(p.key) && pk_matches(p.key, zkey@),
            !zk_header_ok(zkey@) ==> r == Result::<FullProver, ProverInitError>::Err(
                ProverInitError::ZKeyFileLoadError,
            ),
            zk_header_ok(zkey@) && zk_curve(zkey@) != 1 ==> r == Result::<
                FullProver,
                ProverInitError,
            >::Err(ProverInitError::UnsupportedZKeyCurve),
            zk_header_ok(zkey@) && zk_curve(zkey@) == 1 && !zk_domain_ok(zkey@) ==> r == Result::<
                FullProver,
                ProverInitError,
            >::Err(ProverInitError::UnsupportedDomainSize),
            zk_header_ok(zkey@) && zk_curve(zkey@) == 1 && zk_domain_ok(zkey@) && !zk_body_ok(
                zkey@,
            ) ==> r == Result::<FullProver, ProverInitError>::Err(
                ProverInitError::ZKeyFileLoadError,
            ),
            zkey_good(zkey@) ==> r is Ok,
    {
        match parse_zkey(zkey) {
            Ok(key) => Ok(FullProver { key }),
            Err(e) => Err(e),
        }
    }

    /// Produce a proof for a witness file under this key.
    ///
    /// The blinding scalars are sampled by the caller; for equal inputs
    /// the computation is deterministic, and the witness errors are
    /// exactly those of the loader.
    #[verifier::rlimit(100)]
    pub fn prove(&self, witness: &Vec<u8>, blind_r: &Fe, blind_s: &Fe) -> (r: Result<
        Proof,
        ProverError,
    >)
        requires
            pk_wf(self.key),
            fe_val(*blind_r) < fr_order(),
            fe_val(*blind_s) < fr_order(),
        ensures
            r matches Ok(p) ==> witness_good(witness@, self.key.n_wires as int) && g1v(p.a)
                == proof_a_v(
                self.key,
                witness_vals(witness@, self.key.n_wires as int),
                fe_val(*blind_r),
            ) && g2v(p.b) == proof_b2_v(
                self.key,
                witness_vals(witness@, self.key.n_wires as int),
                fe_val(*blind_s),
            ) && g1v(p.c) == proof_c_v(
                self.key,
                witness_vals(witness@, self.key.n_wires as int),
                fe_val(*blind_r),
                fe_val(*blind_s),
            ),
            !wt_header_ok(witness@) ==> r == Result::<Proof, ProverError>::Err(
                ProverError::InvalidInput,
            ),
            wt_header_ok(witness@) && wt_curve(witness@) != 1 ==> r == Result::<
                Proof,
                ProverError,
            >::Err(ProverError::WitnessGenerationInvalidCurve),
            wt_header_ok(witness@) && wt_curve(witness@) == 1 && !wt_body_ok(
                witness@,
                self.key.n_wires as int,
            ) ==> r == Result::<Proof, ProverError>::Err(ProverError::InvalidInput),
            witness_good(witness@, self.key.n_wires as int) ==> r is Ok,
    {
        let w = match parse_witness(witness, self.key.n_wires) {
            Ok(v) => v,
            Err(e) => {
                return Err(e);
            },
        };
        let ghost wv = witness_vals(witness@, self.key.n_wires as int);
        proof {
            assert(vals(w@) =~= wv);
            assert(forall|t: int| 0 <= t < w@.len() ==> #[trigger] fe_val(w@[t]) == vals(w@)[t]);
        }
        let h = hcoeffs(&self.key, &w);
        let rm = r_modulus();
        let a_sum = msm(&self.key.a_query, &w);
        let pa1 = g1_add(&self.key.alpha1, &a_sum);
        let rd = g1_smul(blind_r, &self.key.delta1);
        let pa = g1_add(&pa1, &rd);
        let b_sum = msm(&self.key.b_query, &w);
        let pb1 = g1_add(&self.key.beta1, &b_sum);
        let sd = g1_smul(blind_s, &self.key.delta1);
        let pb = g1_add(&pb1, &sd);
        let c_sum = msm(&self.key.c_query, &w);
        let h_sum = msm(&self.key.h_query, &h);
        let c1 = g1_add(&c_sum, &h_sum);
        let spa = g1_smul(blind_s, &pa);
        let c2 = g1_add(&c1, &spa);
        let rpb = g1_smul(blind_r, &pb);
        let c3 = g1_add(&c2, &rpb);
        let rs = mul_mod(blind_r, blind_s, &rm);
        let rsd = g1_smul(&rs, &self.key.delta1);
        let nrsd = g1_neg(&rsd);
        let pc = g1_add(&c3, &nrsd);
        let b2_sum = msm2(&self.key.b2_query, &w);
        let pb2a = g2_add(&self.key.beta2, &b2_sum);
        let sd2 = g2_smul(blind_s, &self.key.delta2);
        let pb2 = g2_add(&pb2a, &sd2);
        proof {
            assert(g1v(pa) == proof_a_v(self.key, wv, fe_val(*blind_r)));
            assert(g1v(pb) == proof_b_v(self.key, wv, fe_val(*blind_s)));
            assert(g2v(pb2) == proof_b2_v(self.key, wv, fe_val(*blind_s)));
            assert(vals(h@) == hcoeffs_v(self.key, wv));
            assert(g1v(pc) == proof_c_v(self.key, wv, fe_val(*blind_r), fe_val(*blind_s)));
        }
        Ok(Proof { a: pa, b: pb2, c: pc })
    }
}


/// The affine form of a proof point, for the canonical output encoding:
/// the coordinates scaled by the inverse of Z, or the zero pair for the
/// point at infinity. A failed inversion of a nonzero Z is the
/// internal-consistency fault `DivisionByZero`.
pub fn g1_to_affine(p: &G1) -> (r: Result<(Fe, Fe, bool), ProverError>)
    requires
        g1_wf(*p),
    ensures
        match r {
            Ok(a) => {
                &&& (a.2 <==> g1v(*p).z == 0)
                &&& (a.2 ==> fe_val(a.0) == 0 && fe_val(a.1) == 0)
                &&& (!a.2 ==> crate::curve::qmul(fe_val(a.0), g1v(*p).z) == g1v(*p).x
                    && crate::curve::qmul(fe_val(a.1), g1v(*p).z) == g1v(*p).y && fe_val(a.0)
                    < fq_order() && fe_val(a.1) < fq_order())
            },
            Err(e) => e == ProverError::DivisionByZero && g1v(*p).z != 0
                && !crate::field::fermat_inverts(g1v(*p).z, fq_order()),
        },
        r is Ok <==> (g1v(*p).z == 0 || crate::field::fermat_inverts(g1v(*p).z, fq_order())),
{
    if crate::limb::is_zero4(&p.z) {
        return Ok((fe_zero(), fe_zero(), true));
    }
    let q = crate::params::q_modulus();
    match crate::field::inv_mod(&p.z, &q) {
        Some(zi) => {
            let ax = mul_mod(&p.x, &zi, &q);
            let ay = mul_mod(&p.y, &zi, &q);
            proof {
                let qq = fq_order() as int;
                let xx = fe_val(p.x) as int;
                let yy = fe_val(p.y) as int;
                let zz = fe_val(p.z) as int;
                let ii = fe_val(zi) as int;
                vstd::arithmetic::div_mod::lemma_mul_mod_noop_left(xx * ii, zz, qq);
                vstd::arithmetic::div_mod::lemma_mul_mod_noop_left(yy * ii, zz, qq);
                assert(xx * ii * zz == xx * (zz * ii) && yy * ii * zz == yy * (zz * ii))
                    by (nonlinear_arith);
                vstd::arithmetic::div_mod::lemma_mul_mod_noop_right(xx, zz * ii, qq);
                vstd::arithmetic::div_mod::lemma_mul_mod_noop_right(yy, zz * ii, qq);
                vstd::arithmetic::div_mod::lemma_small_mod(fe_val(p.x), fq_order());
                vstd::arithmetic::div_mod::lemma_small_mod(fe_val(p.y), fq_order());
            }
            Ok((ax, ay, false))
        },
        None => Err(ProverError::DivisionByZero),
    }
}


/// Round trip under a loaded key: the domain generator and its stored
/// inverse, as validated by the loader, undo one another on every
/// power-of-two-length vector.
pub proof fn lemma_key_round_trip(pk: ProvingKey, s: Seq<nat>)
    requires
        pk_wf(pk),
        all_reduced(s),
        crate::fft::is_p2(s.len()),
    ensures
        ifft_spec(fft_spec(s, fe_val(pk.omega)), fe_val(pk.omega_inv)) == s,
{
    crate::fft::lemma_fft_round_trip(s, fe_val(pk.omega), fe_val(pk.omega_inv));
}

} // verus!
