//! G2 of alt_bn128: projective points over the quadratic extension of
//! the base field.
//!
//! The extension adjoins a square root of minus one; an element is a pair
//! of reduced base-field coordinates. The point formulas are the same
//! projective chord and tangent formulas as on G1, over the extension
//! arithmetic, and every operation is pinned to a mirror specification
//! the same way.

use vstd::prelude::*;

use crate::curve::{qadd, qmul, qsub};
use crate::field::{add_mod, mul_mod, sub_mod};
use crate::limb::{fe_one, fe_val, fe_zero, is_zero4, Fe};
use crate::params::{fq_order, q_modulus};

verus! {

/// An element of the quadratic extension: `c0 + c1·u` with `u² = −1`.
#[derive(Clone, Copy, PartialEq, Eq, Structural, Debug)]
pub struct Fe2 {
    pub c0: Fe,
    pub c1: Fe,
}

/// The mathematical value of an extension element.
pub struct Fe2V {
    pub a: nat,
    pub b: nat,
}

pub open spec fn fe2v(x: Fe2) -> Fe2V {
    Fe2V { a: fe_val(x.c0), b: fe_val(x.c1) }
}

pub open spec fn fe2_wf(x: Fe2) -> bool {
    fe_val(x.c0) < fq_order() && fe_val(x.c1) < fq_order()
}

pub open spec fn fe2v_zero() -> Fe2V {
    Fe2V { a: 0, b: 0 }
}

pub open spec fn fe2v_one() -> Fe2V {
    Fe2V { a: 1, b: 0 }
}

/// Componentwise extension addition.
#[verifier::opaque]
pub open spec fn q2add(x: Fe2V, y: Fe2V) -> Fe2V {
    Fe2V { a: qadd(x.a, y.a), b: qadd(x.b, y.b) }
}

/// Componentwise extension subtraction.
#[verifier::opaque]
pub open spec fn q2sub(x: Fe2V, y: Fe2V) -> Fe2V {
    Fe2V { a: qsub(x.a, y.a), b: qsub(x.b, y.b) }
}

/// Extension multiplication with `u² = −1`.
#[verifier::opaque]
pub open spec fn q2mul(x: Fe2V, y: Fe2V) -> Fe2V {
    Fe2V {
        a: qsub(qmul(x.a, y.a), qmul(x.b, y.b)),
        b: qadd(qmul(x.a, y.b), qmul(x.b, y.a)),
    }
}

pub fn fe2_zero() -> (r: Fe2)
    ensures
        fe2v(r) == fe2v_zero(),
        fe2_wf(r),
{
    Fe2 { c0: fe_zero(), c1: fe_zero() }
}

pub fn fe2_one() -> (r: Fe2)
    ensures
        fe2v(r) == fe2v_one(),
        fe2_wf(r),
{
    Fe2 { c0: fe_one(), c1: fe_zero() }
}

pub fn fe2_is_zero(x: &Fe2) -> (r: bool)
    ensures
        r == (fe2v(*x) == fe2v_zero()),
{
    is_zero4(&x.c0) && is_zero4(&x.c1)
}

/// Equality of extension elements decides equality of their values.
pub fn fe2_eq(x: &Fe2, y: &Fe2) -> (r: bool)
    ensures
        r == (fe2v(*x) == fe2v(*y)),
{
    crate::limb::eq4(&x.c0, &y.c0) && crate::limb::eq4(&x.c1, &y.c1)
}

pub fn fe2_add(x: &Fe2, y: &Fe2) -> (r: Fe2)
    requires
        fe2_wf(*x),
        fe2_wf(*y),
    ensures
        fe2_wf(r),
        fe2v(r) == q2add(fe2v(*x), fe2v(*y)),
{
    proof {
        reveal(crate::curve2::q2add);
    }
    let m = q_modulus();
    Fe2 { c0: add_mod(&x.c0, &y.c0, &m), c1: add_mod(&x.c1, &y.c1, &m) }
}

pub fn fe2_sub(x: &Fe2, y: &Fe2) -> (r: Fe2)
    requires
        fe2_wf(*x),
        fe2_wf(*y),
    ensures
        fe2_wf(r),
        fe2v(r) == q2sub(fe2v(*x), fe2v(*y)),
{
    proof {
        reveal(crate::curve2::q2sub);
    }
    let m = q_modulus();
    Fe2 { c0: sub_mod(&x.c0, &y.c0, &m), c1: sub_mod(&x.c1, &y.c1, &m) }
}

pub fn fe2_mul(x: &Fe2, y: &Fe2) -> (r: Fe2)
    requires
        fe2_wf(*x),
        fe2_wf(*y),
    ensures
        fe2_wf(r),
        fe2v(r) == q2mul(fe2v(*x), fe2v(*y)),
{
    proof {
        reveal(crate::curve2::q2mul);
    }
    let m = q_modulus();
    let t0 = mul_mod(&x.c0, &y.c0, &m);
    let t1 = mul_mod(&x.c1, &y.c1, &m);
    let a = sub_mod(&t0, &t1, &m);
    let u0 = mul_mod(&x.c0, &y.c1, &m);
    let u1 = mul_mod(&x.c1, &y.c0, &m);
    let b = add_mod(&u0, &u1, &m);
    Fe2 { c0: a, c1: b }
}

/// A G2 point in projective coordinates over the extension.
#[derive(Clone, Copy, PartialEq, Eq, Structural, Debug)]
pub struct G2 {
    pub x: Fe2,
    pub y: Fe2,
    pub z: Fe2,
}

/// The value of a G2 point.
pub struct Pt2V {
    pub x: Fe2V,
    pub y: Fe2V,
    pub z: Fe2V,
}

pub open spec fn g2v(p: G2) -> Pt2V {
    Pt2V { x: fe2v(p.x), y: fe2v(p.y), z: fe2v(p.z) }
}

pub open spec fn g2_wf(p: G2) -> bool {
    fe2_wf(p.x) && fe2_wf(p.y) && fe2_wf(p.z)
}

pub open spec fn pt2v_inf() -> Pt2V {
    Pt2V { x: fe2v_zero(), y: fe2v_one(), z: fe2v_zero() }
}

/// A small integer as an extension value.
pub open spec fn fe2v_small(v: nat) -> Fe2V {
    Fe2V { a: v, b: 0 }
}

/// Doubling of a G2 point value by the projective tangent formulas.
pub open spec fn g2_double_v(p: Pt2V) -> Pt2V {
    if p.z == fe2v_zero() || p.y == fe2v_zero() {
        pt2v_inf()
    } else {
        let w = q2mul(fe2v_small(3), q2mul(p.x, p.x));
        let s = q2mul(p.y, p.z);
        let b = q2mul(q2mul(p.x, p.y), s);
        let h = q2sub(q2mul(w, w), q2mul(fe2v_small(8), b));
        Pt2V {
            x: q2mul(fe2v_small(2), q2mul(h, s)),
            y: q2sub(
                q2mul(w, q2sub(q2mul(fe2v_small(4), b), h)),
                q2mul(fe2v_small(8), q2mul(q2mul(p.y, p.y), q2mul(s, s))),
            ),
            z: q2mul(fe2v_small(8), q2mul(s, q2mul(s, s))),
        }
    }
}

/// Addition of G2 point values by the projective chord formulas.
pub open spec fn g2_add_v(p: Pt2V, q: Pt2V) -> Pt2V {
    if p.z == fe2v_zero() {
        q
    } else if q.z == fe2v_zero() {
        p
    } else {
        let u1 = q2mul(q.y, p.z);
        let u2 = q2mul(p.y, q.z);
        let v1 = q2mul(q.x, p.z);
        let v2 = q2mul(p.x, q.z);
        if v1 == v2 {
            if u1 != u2 {
                pt2v_inf()
            } else {
                g2_double_v(p)
            }
        } else {
            let u = q2sub(u1, u2);
            let v = q2sub(v1, v2);
            let w = q2mul(p.z, q.z);
            let vv = q2mul(v, v);
            let vvv = q2mul(vv, v);
            let rr = q2mul(vv, v2);
            let a = q2sub(q2sub(q2mul(q2mul(u, u), w), vvv), q2mul(fe2v_small(2), rr));
            Pt2V {
                x: q2mul(v, a),
                y: q2sub(q2mul(u, q2sub(rr, a)), q2mul(vvv, u2)),
                z: q2mul(vvv, w),
            }
        }
    }
}

/// Scalar multiplication of a G2 point value by the binary
/// double-and-add recursion.
pub open spec fn g2_smul_v(k: nat, p: Pt2V) -> Pt2V
    decreases k,
{
    if k == 0 {
        pt2v_inf()
    } else {
        let h = g2_add_v(g2_smul_v(k / 2, p), g2_smul_v(k / 2, p));
        if k % 2 == 1 {
            g2_add_v(h, p)
        } else {
            h
        }
    }
}

/// The point at infinity.
pub fn g2_inf() -> (r: G2)
    ensures
        g2v(r) == pt2v_inf(),
        g2_wf(r),
{
    G2 { x: fe2_zero(), y: fe2_one(), z: fe2_zero() }
}

fn fe2_small(v: u64) -> (r: Fe2)
    requires
        v < 0x100,
    ensures
        fe2v(r) == fe2v_small(v as nat),
        fe2_wf(r),
{
    Fe2 { c0: Fe { l0: v, l1: 0, l2: 0, l3: 0 }, c1: fe_zero() }
}

/// Projective doubling on G2.
#[verifier::rlimit(100)]
pub fn g2_double(p: &G2) -> (r: G2)
    requires
        g2_wf(*p),
    ensures
        g2_wf(r),
        g2v(r) == g2_double_v(g2v(*p)),
{
    if fe2_is_zero(&p.z) || fe2_is_zero(&p.y) {
        return g2_inf();
    }
    let c2 = fe2_small(2);
    let c3 = fe2_small(3);
    let c4 = fe2_small(4);
    let c8 = fe2_small(8);
    let xx = fe2_mul(&p.x, &p.x);
    let w = fe2_mul(&c3, &xx);
    let s = fe2_mul(&p.y, &p.z);
    let xy = fe2_mul(&p.x, &p.y);
    let b = fe2_mul(&xy, &s);
    let ww = fe2_mul(&w, &w);
    let b8 = fe2_mul(&c8, &b);
    let h = fe2_sub(&ww, &b8);
    let hs = fe2_mul(&h, &s);
    let rx = fe2_mul(&c2, &hs);
    let b4 = fe2_mul(&c4, &b);
    let b4h = fe2_sub(&b4, &h);
    let t1 = fe2_mul(&w, &b4h);
    let yy = fe2_mul(&p.y, &p.y);
    let ss = fe2_mul(&s, &s);
    let yyss = fe2_mul(&yy, &ss);
    let t2 = fe2_mul(&c8, &yyss);
    let ry = fe2_sub(&t1, &t2);
    let sss = fe2_mul(&s, &ss);
    let rz = fe2_mul(&c8, &sss);
    G2 { x: rx, y: ry, z: rz }
}

/// Projective addition on G2, handling all special cases.
#[verifier::rlimit(100)]
pub fn g2_add(p: &G2, q: &G2) -> (r: G2)
    requires
        g2_wf(*p),
        g2_wf(*q),
    ensures
        g2_wf(r),
        g2v(r) == g2_add_v(g2v(*p), g2v(*q)),
{
    if fe2_is_zero(&p.z) {
        return *q;
    }
    if fe2_is_zero(&q.z) {
        return *p;
    }
    let u1 = fe2_mul(&q.y, &p.z);
    let u2 = fe2_mul(&p.y, &q.z);
    let v1 = fe2_mul(&q.x, &p.z);
    let v2 = fe2_mul(&p.x, &q.z);
    if fe2_eq(&v1, &v2) {
        if !fe2_eq(&u1, &u2) {
            return g2_inf();
        }
        return g2_double(p);
    }
    let c2 = fe2_small(2);
    let u = fe2_sub(&u1, &u2);
    let v = fe2_sub(&v1, &v2);
    let w = fe2_mul(&p.z, &q.z);
    let vv = fe2_mul(&v, &v);
    let vvv = fe2_mul(&vv, &v);
    let rr = fe2_mul(&vv, &v2);
    let uu = fe2_mul(&u, &u);
    let uuw = fe2_mul(&uu, &w);
    let t1 = fe2_sub(&uuw, &vvv);
    let rr2 = fe2_mul(&c2, &rr);
    let a = fe2_sub(&t1, &rr2);
    let rx = fe2_mul(&v, &a);
    let ra = fe2_sub(&rr, &a);
    let t2 = fe2_mul(&u, &ra);
    let t3 = fe2_mul(&vvv, &u2);
    let ry = fe2_sub(&t2, &t3);
    let rz = fe2_mul(&vvv, &w);
    G2 { x: rx, y: ry, z: rz }
}

/// Scalar multiplication on G2 by binary expansion of the scalar.
pub fn g2_smul(k: &Fe, p: &G2) -> (r: G2)
    requires
        g2_wf(*p),
    ensures
        g2_wf(r),
        g2v(r) == g2_smul_v(fe_val(*k), g2v(*p)),
{
    let mut acc = g2_inf();
    let mut w = *k;
    let ghost mut consumed: nat = 0;
    let mut i: usize = 0;
    proof {
        vstd::arithmetic::power2::lemma2_to64();
    }
    while i < 256
        invariant
            i <= 256,
            g2_wf(*p),
            g2_wf(acc),
            g2v(acc) == g2_smul_v(consumed, g2v(*p)),
            vstd::arithmetic::power2::pow2(i as nat) * fe_val(*k) == consumed
                * crate::field::p256() + fe_val(w),
        decreases 256 - i,
    {
        let (w2, top) = crate::limb::add4(&w, &w);
        let acc2 = g2_add(&acc, &acc);
        let accn = if top == 1 {
            g2_add(&acc2, p)
        } else {
            acc2
        };
        proof {
            vstd::arithmetic::power2::lemma2_to64();
            vstd::arithmetic::power2::lemma_pow2_adds(i as nat, 1);
            assert(vstd::arithmetic::power2::pow2((i + 1) as nat) * fe_val(*k) == 2 * (
            vstd::arithmetic::power2::pow2(i as nat) * fe_val(*k))) by (nonlinear_arith)
                requires
                    vstd::arithmetic::power2::pow2((i + 1) as nat)
                        == vstd::arithmetic::power2::pow2(i as nat) * 2,
            ;
            let cn = 2 * consumed + top as nat;
            if cn > 0 {
                assert(cn / 2 == consumed && cn % 2 == top as nat);
                assert(g2_smul_v(cn, g2v(*p)) == if cn % 2 == 1 {
                    g2_add_v(
                        g2_add_v(g2_smul_v(consumed, g2v(*p)), g2_smul_v(consumed, g2v(*p))),
                        g2v(*p),
                    )
                } else {
                    g2_add_v(g2_smul_v(consumed, g2v(*p)), g2_smul_v(consumed, g2v(*p)))
                });
            } else {
                assert(g2v(accn) == pt2v_inf());
            }
            consumed = cn;
        }
        acc = accn;
        w = w2;
        i += 1;
    }
    proof {
        crate::field::lemma_pow2_256();
        crate::field::lemma_fe_val_bound(w);
        assert(consumed == fe_val(*k)) by (nonlinear_arith)
            requires
                crate::field::p256() * fe_val(*k) == consumed * crate::field::p256() + fe_val(w),
                fe_val(w) < crate::field::p256(),
        ;
    }
    acc
}

/// The G2 point values of a vector of points.
pub open spec fn g2_seq(s: Seq<G2>) -> Seq<Pt2V> {
    s.map_values(|p: G2| g2v(p))
}

/// The naive sequential sum of `scalar · base` over G2 pairs.
pub open spec fn msm2_v(ps: Seq<Pt2V>, ks: Seq<nat>) -> Pt2V
    decreases ps.len(),
{
    if ps.len() == 0 {
        pt2v_inf()
    } else {
        g2_add_v(msm2_v(ps.drop_last(), ks.drop_last()), g2_smul_v(ks.last(), ps.last()))
    }
}

/// Multi-exponentiation on G2: exactly the naive sequential sum.
pub fn msm2(ps: &Vec<G2>, ks: &Vec<Fe>) -> (r: G2)
    requires
        ps@.len() == ks@.len(),
        forall|i: int| 0 <= i < ps@.len() ==> g2_wf(#[trigger] ps@[i]),
    ensures
        g2_wf(r),
        g2v(r) == msm2_v(g2_seq(ps@), crate::fft::vals(ks@)),
{
    let mut acc = g2_inf();
    let mut i: usize = 0;
    while i < ps.len()
        invariant
            i <= ps@.len(),
            ks@.len() == ps@.len(),
            forall|j: int| 0 <= j < ps@.len() ==> g2_wf(#[trigger] ps@[j]),
            g2_wf(acc),
            g2v(acc) == msm2_v(g2_seq(ps@).take(i as int), crate::fft::vals(ks@).take(i as int)),
        decreases ps@.len() - i,
    {
        let t = g2_smul(&ks[i], &ps[i]);
        acc = g2_add(&acc, &t);
        proof {
            let pse = g2_seq(ps@);
            let kse = crate::fft::vals(ks@);
            assert(pse.take(i + 1).drop_last() =~= pse.take(i as int));
            assert(kse.take(i + 1).drop_last() =~= kse.take(i as int));
            assert(pse.take(i + 1).last() == g2v(ps@[i as int]));
            assert(kse.take(i + 1).last() == fe_val(ks@[i as int]));
        }
        i += 1;
    }
    proof {
        assert(g2_seq(ps@).take(ps@.len() as int) =~= g2_seq(ps@));
        assert(crate::fft::vals(ks@).take(ks@.len() as int) =~= crate::fft::vals(ks@));
    }
    acc
}

} // verus!
