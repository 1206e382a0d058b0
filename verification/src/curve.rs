//! G1 of alt_bn128: projective points over the base field.
//!
//! A point is a projective triple (X : Y : Z) of reduced base-field
//! elements; Z = 0 marks the point at infinity. Addition, doubling and
//! scalar multiplication are specified by mirror functions over the
//! mathematical coordinate values, so every contract pins the exact
//! coordinates of the result.

use vstd::prelude::*;

use crate::field::{add_mod, mul_mod, neg_mod, sub_mod};
use crate::limb::{eq4, fe_one, fe_val, fe_zero, is_zero4, Fe};
use crate::params::{fq_order, q_modulus};

verus! {

/// The mathematical value of a projective point: its coordinates as
/// integers modulo the base-field order.
pub struct PtV {
    pub x: nat,
    pub y: nat,
    pub z: nat,
}

/// A G1 point in projective coordinates.
#[derive(Clone, Copy, PartialEq, Eq, Structural, Debug)]
pub struct G1 {
    pub x: Fe,
    pub y: Fe,
    pub z: Fe,
}

/// The value of a point.
pub open spec fn g1v(p: G1) -> PtV {
    PtV { x: fe_val(p.x), y: fe_val(p.y), z: fe_val(p.z) }
}

/// Coordinates are canonically reduced.
pub open spec fn g1_wf(p: G1) -> bool {
    fe_val(p.x) < fq_order() && fe_val(p.y) < fq_order() && fe_val(p.z) < fq_order()
}

/// The point at infinity.
pub open spec fn ptv_inf() -> PtV {
    PtV { x: 0, y: 1, z: 0 }
}

pub open spec fn ptv_wf(p: PtV) -> bool {
    p.x < fq_order() && p.y < fq_order() && p.z < fq_order()
}

/// Base-field addition of coordinate values.
pub open spec fn qadd(a: nat, b: nat) -> nat {
    ((a + b) % fq_order()) as nat
}

/// Base-field subtraction of coordinate values.
pub open spec fn qsub(a: nat, b: nat) -> nat {
    ((a + fq_order() - b) % (fq_order() as int)) as nat
}

/// Base-field multiplication of coordinate values.
pub open spec fn qmul(a: nat, b: nat) -> nat {
    ((a * b) % fq_order()) as nat
}

/// Doubling of a point value by the projective tangent formulas.
pub open spec fn g1_double_v(p: PtV) -> PtV {
    if p.z == 0 || p.y == 0 {
        ptv_inf()
    } else {
        let w = qmul(3, qmul(p.x, p.x));
        let s = qmul(p.y, p.z);
        let b = qmul(qmul(p.x, p.y), s);
        let h = qsub(qmul(w, w), qmul(8, b));
        PtV {
            x: qmul(2, qmul(h, s)),
            y: qsub(qmul(w, qsub(qmul(4, b), h)), qmul(8, qmul(qmul(p.y, p.y), qmul(s, s)))),
            z: qmul(8, qmul(s, qmul(s, s))),
        }
    }
}

/// Addition of point values by the projective chord formulas, with the
/// special cases for infinity, equal and opposite points spelled out.
pub open spec fn g1_add_v(p: PtV, q: PtV) -> PtV {
    if p.z == 0 {
        q
    } else if q.z == 0 {
        p
    } else {
        let u1 = qmul(q.y, p.z);
        let u2 = qmul(p.y, q.z);
        let v1 = qmul(q.x, p.z);
        let v2 = qmul(p.x, q.z);
        if v1 == v2 {
            if u1 != u2 {
                ptv_inf()
            } else {
                g1_double_v(p)
            }
        } else {
            let u = qsub(u1, u2);
            let v = qsub(v1, v2);
            let w = qmul(p.z, q.z);
            let vv = qmul(v, v);
            let vvv = qmul(vv, v);
            let rr = qmul(vv, v2);
            let a = qsub(qsub(qmul(qmul(u, u), w), vvv), qmul(2, rr));
            PtV {
                x: qmul(v, a),
                y: qsub(qmul(u, qsub(rr, a)), qmul(vvv, u2)),
                z: qmul(vvv, w),
            }
        }
    }
}

/// Scalar multiplication of a point value, defined by the binary
/// double-and-add recursion.
pub open spec fn g1_smul_v(k: nat, p: PtV) -> PtV
    decreases k,
{
    if k == 0 {
        ptv_inf()
    } else {
        let h = g1_add_v(g1_smul_v(k / 2, p), g1_smul_v(k / 2, p));
        if k % 2 == 1 {
            g1_add_v(h, p)
        } else {
            h
        }
    }
}

/// The point at infinity.
pub fn g1_inf() -> (r: G1)
    ensures
        g1v(r) == ptv_inf(),
        g1_wf(r),
{
    let z = fe_zero();
    let o = fe_one();
    G1 { x: z, y: o, z: fe_zero() }
}

/// Projective doubling.
pub fn g1_double(p: &G1) -> (r: G1)
    requires
        g1_wf(*p),
    ensures
        g1_wf(r),
        g1v(r) == g1_double_v(g1v(*p)),
{
    let m = q_modulus();
    if is_zero4(&p.z) || is_zero4(&p.y) {
        return g1_inf();
    }
    let c2 = Fe { l0: 2, l1: 0, l2: 0, l3: 0 };
    let c3 = Fe { l0: 3, l1: 0, l2: 0, l3: 0 };
    let c4 = Fe { l0: 4, l1: 0, l2: 0, l3: 0 };
    let c8 = Fe { l0: 8, l1: 0, l2: 0, l3: 0 };
    let xx = mul_mod(&p.x, &p.x, &m);
    let w = mul_mod(&c3, &xx, &m);
    let s = mul_mod(&p.y, &p.z, &m);
    let xy = mul_mod(&p.x, &p.y, &m);
    let b = mul_mod(&xy, &s, &m);
    let ww = mul_mod(&w, &w, &m);
    let b8 = mul_mod(&c8, &b, &m);
    let h = sub_mod(&ww, &b8, &m);
    let hs = mul_mod(&h, &s, &m);
    let rx = mul_mod(&c2, &hs, &m);
    let b4 = mul_mod(&c4, &b, &m);
    let b4h = sub_mod(&b4, &h, &m);
    let t1 = mul_mod(&w, &b4h, &m);
    let yy = mul_mod(&p.y, &p.y, &m);
    let ss = mul_mod(&s, &s, &m);
    let yyss = mul_mod(&yy, &ss, &m);
    let t2 = mul_mod(&c8, &yyss, &m);
    let ry = sub_mod(&t1, &t2, &m);
    let sss = mul_mod(&s, &ss, &m);
    let rz = mul_mod(&c8, &sss, &m);
    G1 { x: rx, y: ry, z: rz }
}

/// Projective addition, handling all special cases.
pub fn g1_add(p: &G1, q: &G1) -> (r: G1)
    requires
        g1_wf(*p),
        g1_wf(*q),
    ensures
        g1_wf(r),
        g1v(r) == g1_add_v(g1v(*p), g1v(*q)),
{
    let m = q_modulus();
    if is_zero4(&p.z) {
        return *q;
    }
    if is_zero4(&q.z) {
        return *p;
    }
    let u1 = mul_mod(&q.y, &p.z, &m);
    let u2 = mul_mod(&p.y, &q.z, &m);
    let v1 = mul_mod(&q.x, &p.z, &m);
    let v2 = mul_mod(&p.x, &q.z, &m);
    if eq4(&v1, &v2) {
        if !eq4(&u1, &u2) {
            return g1_inf();
        }
        return g1_double(p);
    }
    let c2 = Fe { l0: 2, l1: 0, l2: 0, l3: 0 };
    let u = sub_mod(&u1, &u2, &m);
    let v = sub_mod(&v1, &v2, &m);
    let w = mul_mod(&p.z, &q.z, &m);
    let vv = mul_mod(&v, &v, &m);
    let vvv = mul_mod(&vv, &v, &m);
    let rr = mul_mod(&vv, &v2, &m);
    let uu = mul_mod(&u, &u, &m);
    let uuw = mul_mod(&uu, &w, &m);
    let t1 = sub_mod(&uuw, &vvv, &m);
    let rr2 = mul_mod(&c2, &rr, &m);
    let a = sub_mod(&t1, &rr2, &m);
    let rx = mul_mod(&v, &a, &m);
    let ra = sub_mod(&rr, &a, &m);
    let t2 = mul_mod(&u, &ra, &m);
    let t3 = mul_mod(&vvv, &u2, &m);
    let ry = sub_mod(&t2, &t3, &m);
    let rz = mul_mod(&vvv, &w, &m);
    G1 { x: rx, y: ry, z: rz }
}

/// Negation: the mirror image over the x axis.
pub fn g1_neg(p: &G1) -> (r: G1)
    requires
        g1_wf(*p),
    ensures
        g1_wf(r),
        g1v(r) == (PtV {
            x: g1v(*p).x,
            y: ((fq_order() - g1v(*p).y) % (fq_order() as int)) as nat,
            z: g1v(*p).z,
        }),
{
    let m = q_modulus();
    let ny = neg_mod(&p.y, &m);
    G1 { x: p.x, y: ny, z: p.z }
}

/// Scalar multiplication by binary expansion of the scalar.
pub fn g1_smul(k: &Fe, p: &G1) -> (r: G1)
    requires
        g1_wf(*p),
    ensures
        g1_wf(r),
        g1v(r) == g1_smul_v(fe_val(*k), g1v(*p)),
{
    let mut acc = g1_inf();
    let mut w = *k;
    let ghost mut consumed: nat = 0;
    let mut i: usize = 0;
    proof {
        vstd::arithmetic::power2::lemma2_to64();
    }
    while i < 256
        invariant
            i <= 256,
            g1_wf(*p),
            g1_wf(acc),
            g1v(acc) == g1_smul_v(consumed, g1v(*p)),
            vstd::arithmetic::power2::pow2(i as nat) * fe_val(*k) == consumed
                * crate::field::p256() + fe_val(w),
        decreases 256 - i,
    {
        let (w2, top) = crate::limb::add4(&w, &w);
        let acc2 = g1_add(&acc, &acc);
        let accn = if top == 1 {
            g1_add(&acc2, p)
        } else {
            acc2
        };
        proof {
            vstd::arithmetic::power2::lemma2_to64();
            vstd::arithmetic::power2::lemma_pow2_adds(i as nat, 1);
            assert(vstd::arithmetic::power2::pow2((i + 1) as nat) * fe_val(*k) == 2 * (
            vstd::arithmetic::power2::pow2(i as nat) * fe_val(*k))) by (nonlinear_arith)
                requires
                    vstd::arithmetic::power2::pow2((i + 1) as nat)
                        == vstd::arithmetic::power2::pow2(i as nat) * 2,
            ;
            let cn = 2 * consumed + top as nat;
            if cn > 0 {
                assert(cn / 2 == consumed && cn % 2 == top as nat);
                assert(g1_smul_v(cn, g1v(*p)) == if cn % 2 == 1 {
                    g1_add_v(g1_add_v(g1_smul_v(consumed, g1v(*p)), g1_smul_v(consumed, g1v(*p))),
                        g1v(*p))
                } else {
                    g1_add_v(g1_smul_v(consumed, g1v(*p)), g1_smul_v(consumed, g1v(*p)))
                });
            } else {
                assert(g1v(accn) == ptv_inf());
            }
            consumed = cn;
        }
        acc = accn;
        w = w2;
        i += 1;
    }
    proof {
        crate::field::lemma_pow2_256();
        crate::field::lemma_fe_val_bound(w);
        assert(consumed == fe_val(*k)) by (nonlinear_arith)
            requires
                crate::field::p256() * fe_val(*k) == consumed * crate::field::p256() + fe_val(w),
                fe_val(w) < crate::field::p256(),
        ;
    }
    acc
}

} // verus!
