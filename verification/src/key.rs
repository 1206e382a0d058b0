//! The proving-key and witness loaders.
//!
//! Both files are little-endian binary. The key file starts with a fixed
//! header (magic, format version, curve identifier), then the constraint
//! matrices, then the CRS points; the witness file is a header followed by
//! one scalar per circuit wire. The contracts below say exactly which
//! inputs parse and which error every rejected input earns.

use vstd::prelude::*;

use crate::bytes::{le_val, read_fe, read_u32};
use crate::curve::{g1_wf, g1v, ptv_inf, qadd, qmul, G1, PtV};
use crate::curve2::{
    fe2_add, fe2_eq, fe2_mul, fe2_wf, fe2v, fe2v_one, g2_wf, g2v, pt2v_inf, q2add, q2mul, Fe2,
    Fe2V, G2, Pt2V,
};
use crate::field::{modulus_ok, mul_mod};
use crate::fft::{rmul, rpow};
use crate::limb::{eq4, fe_one, fe_val, lt4, Fe};
use crate::params::{fq_order, fr_order, q_modulus, r_modulus};
use vstd::arithmetic::power2::{lemma2_to64, lemma_pow2_adds, pow2};

verus! {

/// Initialization failures, as the key loader reports them.
#[derive(Debug, PartialEq, Eq, Structural, Clone, Copy)]
pub enum ProverInitError {
    /// The key file is truncated, malformed, or holds out-of-range values.
    ZKeyFileLoadError,
    /// The key file declares a curve other than alt_bn128.
    UnsupportedZKeyCurve,
    /// The declared evaluation domain has no usable power-of-two subgroup.
    UnsupportedDomainSize,
    /// A failure that matches no other variant.
    Unknown,
}

/// Proof-request failures, as witness loading and proving report them.
#[derive(Debug, PartialEq, Eq, Clone, Copy)]
pub enum ProverError {
    /// The witness is malformed or does not match the proving key.
    InvalidInput,
    /// The witness bytes could not have come from a working generator.
    WitnessGenerationBinaryProblem,
    /// The witness file declares a curve the key does not use.
    WitnessGenerationInvalidCurve,
    /// A field inversion of zero: an internal-consistency fault.
    DivisionByZero,
    /// A failure that matches no other variant.
    Unknown(&'static str),
}

/// A scalar vector entry of the key or witness body: 32 bytes at `off + 32*t`.
pub open spec fn fr_at(s: Seq<u8>, off: int, t: int) -> nat {
    le_val(s, off + 32 * t, 32)
}

/// All `count` scalars starting at `off` are below the scalar order.
pub open spec fn frs_ok(s: Seq<u8>, off: int, count: int) -> bool {
    forall|t: int| 0 <= t < count ==> fr_at(s, off, t) < fr_order()
}

/// The affine x and y stored for point `t` of the section at `off`.
pub open spec fn pt_x(s: Seq<u8>, off: int, t: int) -> nat {
    le_val(s, off + 64 * t, 32)
}

pub open spec fn pt_y(s: Seq<u8>, off: int, t: int) -> nat {
    le_val(s, off + 64 * t + 32, 32)
}

/// A stored point is the all-zero pair (infinity) or a reduced affine
/// point on the curve y^2 = x^3 + 3.
pub open spec fn pt_ok(s: Seq<u8>, off: int, t: int) -> bool {
    (pt_x(s, off, t) == 0 && pt_y(s, off, t) == 0) || (pt_x(s, off, t) < fq_order() && pt_y(
        s,
        off,
        t,
    ) < fq_order() && qmul(pt_y(s, off, t), pt_y(s, off, t)) == qadd(
        qmul(qmul(pt_x(s, off, t), pt_x(s, off, t)), pt_x(s, off, t)),
        3,
    ))
}

/// The projective value a stored point stands for.
pub open spec fn pt_v(s: Seq<u8>, off: int, t: int) -> PtV {
    if pt_x(s, off, t) == 0 && pt_y(s, off, t) == 0 {
        ptv_inf()
    } else {
        PtV { x: pt_x(s, off, t), y: pt_y(s, off, t), z: 1 }
    }
}

pub open spec fn pts_ok(s: Seq<u8>, off: int, count: int) -> bool {
    forall|t: int| 0 <= t < count ==> pt_ok(s, off, t)
}

/// The twist coefficient of G2: three divided by nine plus u.
pub open spec fn b2_v() -> Fe2V {
    Fe2V {
        a: 19485874751759354771024239261021720505790618469301721065564631296452457478373nat,
        b: 266929791119991161246907387137283842545076965332900288569378510910307636690nat,
    }
}

/// The four coordinates stored for G2 point `t` of the section at `off`.
pub open spec fn pt2_x(s: Seq<u8>, off: int, t: int) -> Fe2V {
    Fe2V { a: le_val(s, off + 128 * t, 32), b: le_val(s, off + 128 * t + 32, 32) }
}

pub open spec fn pt2_y(s: Seq<u8>, off: int, t: int) -> Fe2V {
    Fe2V { a: le_val(s, off + 128 * t + 64, 32), b: le_val(s, off + 128 * t + 96, 32) }
}

pub open spec fn fe2v_reduced(x: Fe2V) -> bool {
    x.a < fq_order() && x.b < fq_order()
}

/// A stored G2 point is the all-zero quadruple (infinity) or a reduced
/// affine point on the twist y^2 = x^3 + b2.
pub open spec fn pt2_ok(s: Seq<u8>, off: int, t: int) -> bool {
    let x = pt2_x(s, off, t);
    let y = pt2_y(s, off, t);
    (x == crate::curve2::fe2v_zero() && y == crate::curve2::fe2v_zero()) || (fe2v_reduced(x)
        && fe2v_reduced(y) && q2mul(y, y) == q2add(q2mul(q2mul(x, x), x), b2_v()))
}

/// The projective value a stored G2 point stands for.
pub open spec fn pt2_v(s: Seq<u8>, off: int, t: int) -> Pt2V {
    let x = pt2_x(s, off, t);
    let y = pt2_y(s, off, t);
    if x == crate::curve2::fe2v_zero() && y == crate::curve2::fe2v_zero() {
        pt2v_inf()
    } else {
        Pt2V { x, y, z: fe2v_one() }
    }
}

pub open spec fn pt2s_ok(s: Seq<u8>, off: int, count: int) -> bool {
    forall|t: int| 0 <= t < count ==> pt2_ok(s, off, t)
}

/// Read `count` scalars, refusing any at or above the modulus.
fn read_fr_vec(d: &Vec<u8>, off: usize, count: usize, m: &Fe) -> (r: Option<Vec<Fe>>)
    requires
        off + 32 * count <= d@.len(),
        fe_val(*m) == fr_order(),
    ensures
        r is Some <==> frs_ok(d@, off as int, count as int),
        r matches Some(v) ==> v@.len() == count && forall|t: int|
            0 <= t < count ==> fe_val(v@[t]) == fr_at(d@, off as int, t),
{
    let n = d.len();
    let mut out: Vec<Fe> = Vec::new();
    let mut i: usize = 0;
    while i < count
        invariant
            i <= count,
            off + 32 * count <= d@.len(),
            d@.len() == n,
            fe_val(*m) == fr_order(),
            out@.len() == i,
            forall|t: int| 0 <= t < i ==> fe_val(out@[t]) == fr_at(d@, off as int, t),
            forall|t: int| 0 <= t < i ==> fr_at(d@, off as int, t) < fr_order(),
        decreases count - i,
    {
        let e = read_fe(d, off + 32 * i);
        proof {
            assert(fr_at(d@, off as int, i as int) == fe_val(e));
        }
        if !lt4(&e, m) {
            return None;
        }
        out.push(e);
        i += 1;
    }
    Some(out)
}

/// Read one stored point: the zero pair is infinity; anything else must
/// be a reduced affine point on the curve.
#[verifier::rlimit(100)]
fn read_g1_point(d: &Vec<u8>, off: usize, i: usize) -> (r: Option<G1>)
    requires
        off + 64 * i + 64 <= d@.len(),
    ensures
        r is Some <==> pt_ok(d@, off as int, i as int),
        r matches Some(p) ==> g1v(p) == pt_v(d@, off as int, i as int) && g1_wf(p),
{
    let n = d.len();
    let q = q_modulus();
    let x = read_fe(d, off + 64 * i);
    let y = read_fe(d, off + 64 * i + 32);
    proof {
        assert(pt_x(d@, off as int, i as int) == fe_val(x));
        assert(pt_y(d@, off as int, i as int) == fe_val(y));
    }
    let zero = crate::limb::fe_zero();
    let one = fe_one();
    if eq4(&x, &zero) && eq4(&y, &zero) {
        return Some(G1 { x: zero, y: one, z: zero });
    }
    if !lt4(&x, &q) || !lt4(&y, &q) {
        return None;
    }
    let yy = mul_mod(&y, &y, &q);
    let xx = mul_mod(&x, &x, &q);
    let xxx = mul_mod(&xx, &x, &q);
    let three = Fe { l0: 3, l1: 0, l2: 0, l3: 0 };
    let rhs = crate::field::add_mod(&xxx, &three, &q);
    proof {
        assert(fe_val(yy) == qmul(pt_y(d@, off as int, i as int), pt_y(d@, off as int, i as int)));
        assert(fe_val(rhs) == qadd(
            qmul(
                qmul(pt_x(d@, off as int, i as int), pt_x(d@, off as int, i as int)),
                pt_x(d@, off as int, i as int),
            ),
            3,
        ));
    }
    if !eq4(&yy, &rhs) {
        return None;
    }
    Some(G1 { x, y, z: one })
}

/// Read `count` stored points, refusing any that is neither the zero pair
/// nor a reduced point on the curve.
fn read_g1_vec(d: &Vec<u8>, off: usize, count: usize) -> (r: Option<Vec<G1>>)
    requires
        off + 64 * count <= d@.len(),
    ensures
        r is Some <==> pts_ok(d@, off as int, count as int),
        r matches Some(v) ==> v@.len() == count && forall|t: int|
            0 <= t < count ==> g1v(#[trigger] v@[t]) == pt_v(d@, off as int, t) && g1_wf(v@[t]),
{
    let n = d.len();
    let mut out: Vec<G1> = Vec::new();
    let mut i: usize = 0;
    while i < count
        invariant
            i <= count,
            off + 64 * count <= d@.len(),
            d@.len() == n,
            out@.len() == i,
            forall|t: int|
                0 <= t < i ==> g1v(#[trigger] out@[t]) == pt_v(d@, off as int, t) && g1_wf(
                    out@[t],
                ),
            forall|t: int| 0 <= t < i ==> pt_ok(d@, off as int, t),
        decreases count - i,
    {
        let p = match read_g1_point(d, off, i) {
            Some(p) => p,
            None => {
                return None;
            },
        };
        out.push(p);
        i += 1;
    }
    Some(out)
}

/// Read an extension element: two stored coordinates.
fn fe2_read(d: &Vec<u8>, off: usize) -> (r: Fe2)
    requires
        off + 64 <= d@.len(),
    ensures
        fe2v(r) == (Fe2V { a: le_val(d@, off as int, 32), b: le_val(d@, off as int + 32, 32) }),
{
    let n = d.len();
    let c0 = read_fe(d, off);
    let c1 = read_fe(d, off + 32);
    Fe2 { c0, c1 }
}

/// Both coordinates of an extension element are reduced.
fn fe2_reduced(x: &Fe2, q: &Fe) -> (r: bool)
    requires
        fe_val(*q) == fq_order(),
    ensures
        r == fe2v_reduced(fe2v(*x)),
        r == fe2_wf(*x),
{
    lt4(&x.c0, q) && lt4(&x.c1, q)
}

/// The twist equation y^2 = x^3 + b2, decided on extension elements.
fn on_twist(x: &Fe2, y: &Fe2) -> (r: bool)
    requires
        fe2_wf(*x),
        fe2_wf(*y),
    ensures
        r == (q2mul(fe2v(*y), fe2v(*y)) == q2add(
            q2mul(q2mul(fe2v(*x), fe2v(*x)), fe2v(*x)),
            b2_v(),
        )),
{
    let b2 = Fe2 {
        c0: Fe {
            l0: 0x3267e6dc24a138e5,
            l1: 0xb5b4c5e559dbefa3,
            l2: 0x81be18991be06ac3,
            l3: 0x2b149d40ceb8aaae,
        },
        c1: Fe {
            l0: 0xe4a2bd0685c315d2,
            l1: 0xa74fa084e52d1852,
            l2: 0xcd2cafadeed8fdf4,
            l3: 0x9713b03af0fed4,
        },
    };
    proof {
        assert(fe2v(b2) == b2_v());
    }
    let yy = fe2_mul(y, y);
    let xx = fe2_mul(x, x);
    let xxx = fe2_mul(&xx, x);
    let rhs = fe2_add(&xxx, &b2);
    fe2_eq(&yy, &rhs)
}

/// Read one stored G2 point: the zero quadruple is infinity; anything
/// else must be a reduced affine point on the twist.
fn read_g2_point(d: &Vec<u8>, off: usize, i: usize) -> (r: Option<G2>)
    requires
        off + 128 * i + 128 <= d@.len(),
    ensures
        r is Some <==> pt2_ok(d@, off as int, i as int),
        r matches Some(p) ==> g2v(p) == pt2_v(d@, off as int, i as int) && g2_wf(p),
{
    let n = d.len();
    let q = q_modulus();
    let x = fe2_read(d, off + 128 * i);
    let y = fe2_read(d, off + 128 * i + 64);
    proof {
        assert(pt2_x(d@, off as int, i as int) == fe2v(x));
        assert(pt2_y(d@, off as int, i as int) == fe2v(y));
    }
    let z = crate::curve2::fe2_zero();
    if crate::curve2::fe2_eq(&x, &z) && crate::curve2::fe2_eq(&y, &z) {
        return Some(G2 { x: z, y: crate::curve2::fe2_one(), z });
    }
    if !fe2_reduced(&x, &q) || !fe2_reduced(&y, &q) {
        return None;
    }
    if !on_twist(&x, &y) {
        return None;
    }
    Some(G2 { x, y, z: crate::curve2::fe2_one() })
}

/// Read `count` stored G2 points.
fn read_g2_vec(d: &Vec<u8>, off: usize, count: usize) -> (r: Option<Vec<G2>>)
    requires
        off + 128 * count <= d@.len(),
    ensures
        r is Some <==> pt2s_ok(d@, off as int, count as int),
        r matches Some(v) ==> v@.len() == count && forall|t: int|
            0 <= t < count ==> g2v(#[trigger] v@[t]) == pt2_v(d@, off as int, t) && g2_wf(v@[t]),
{
    let n = d.len();
    let mut out: Vec<G2> = Vec::new();
    let mut i: usize = 0;
    while i < count
        invariant
            i <= count,
            off + 128 * count <= d@.len(),
            d@.len() == n,
            out@.len() == i,
            forall|t: int|
                0 <= t < i ==> g2v(#[trigger] out@[t]) == pt2_v(d@, off as int, t) && g2_wf(
                    out@[t],
                ),
            forall|t: int| 0 <= t < i ==> pt2_ok(d@, off as int, t),
        decreases count - i,
    {
        let p = match read_g2_point(d, off, i) {
            Some(p) => p,
            None => {
                return None;
            },
        };
        out.push(p);
        i += 1;
    }
    Some(out)
}

/// The key-file magic, "zkey" in little-endian bytes.
pub open spec fn zk_magic() -> nat {
    0x79656b7a as nat
}

/// The header is present and carries the supported magic and version.
pub open spec fn zk_header_ok(s: Seq<u8>) -> bool {
    s.len() >= 56 && le_val(s, 0, 4) == zk_magic() && le_val(s, 4, 4) == 1
}

pub open spec fn zk_curve(s: Seq<u8>) -> nat {
    le_val(s, 8, 4)
}

pub open spec fn zk_nwires(s: Seq<u8>) -> nat {
    le_val(s, 12, 4)
}

pub open spec fn zk_npub(s: Seq<u8>) -> nat {
    le_val(s, 16, 4)
}

pub open spec fn zk_k(s: Seq<u8>) -> nat {
    le_val(s, 20, 4)
}

pub open spec fn zk_omega(s: Seq<u8>) -> nat {
    le_val(s, 24, 32)
}

/// The declared domain is usable: within the scalar field's two-adic
/// reach, with a generator below the scalar order whose 2^k-th power is
/// one and which is primitive: no earlier power of two already gives one.
pub open spec fn zk_domain_ok(s: Seq<u8>) -> bool {
    &&& zk_k(s) <= 28
    &&& zk_omega(s) < fr_order()
    &&& rpow(zk_omega(s), pow2(zk_k(s))) == 1
    &&& (zk_k(s) >= 1 ==> rpow(zk_omega(s), pow2((zk_k(s) - 1) as nat)) != 1)
}

/// The body: wire and size bounds, the exact file length, reduced matrix
/// entries, and valid stored points in every section.
#[verifier::opaque]
pub open spec fn zk_body_ok(s: Seq<u8>) -> bool {
    let nw = zk_nwires(s) as int;
    let dom = pow2(zk_k(s)) as int;
    &&& 1 <= nw <= 65536
    &&& zk_npub(s) <= nw
    &&& s.len() == 56 + 96 * (dom * nw) + 64 * (3 * nw + dom + 3) + 128 * (nw + 2)
    &&& frs_ok(s, 56, dom * nw)
    &&& frs_ok(s, 56 + 32 * (dom * nw), dom * nw)
    &&& frs_ok(s, 56 + 64 * (dom * nw), dom * nw)
    &&& pts_ok(s, 56 + 96 * (dom * nw), nw)
    &&& pts_ok(s, 56 + 96 * (dom * nw) + 64 * nw, nw)
    &&& pts_ok(s, 56 + 96 * (dom * nw) + 128 * nw, nw)
    &&& pts_ok(s, 56 + 96 * (dom * nw) + 192 * nw, dom)
    &&& pts_ok(s, 56 + 96 * (dom * nw) + 192 * nw + 64 * dom, 3)
    &&& pt2s_ok(s, 56 + 96 * (dom * nw) + 192 * nw + 64 * dom + 192, nw)
    &&& pt2s_ok(s, 56 + 96 * (dom * nw) + 192 * nw + 64 * dom + 192 + 128 * nw, 2)
}

/// Everything the loader checks before it hands out a key.
pub open spec fn zkey_good(s: Seq<u8>) -> bool {
    zk_header_ok(s) && zk_curve(s) == 1 && zk_domain_ok(s) && zk_body_ok(s)
}

/// An in-memory proving key: domain data, constraint matrices in row-major
/// evaluation order, and the CRS point sections.
#[derive(Debug, PartialEq, Eq)]
pub struct ProvingKey {
    pub n_wires: usize,
    pub n_pub: usize,
    pub k: u32,
    pub domain: usize,
    pub omega: Fe,
    pub omega_inv: Fe,
    pub a_mat: Vec<Fe>,
    pub b_mat: Vec<Fe>,
    pub c_mat: Vec<Fe>,
    pub a_query: Vec<G1>,
    pub b_query: Vec<G1>,
    pub c_query: Vec<G1>,
    pub h_query: Vec<G1>,
    pub b2_query: Vec<G2>,
    pub alpha1: G1,
    pub beta1: G1,
    pub delta1: G1,
    pub beta2: G2,
    pub delta2: G2,
}

/// Internal consistency of a loaded key; established by the loader and
/// relied on by every proof computation.
pub open spec fn pk_wf(pk: ProvingKey) -> bool {
    &&& 1 <= pk.n_wires <= 65536
    &&& pk.domain == pow2(pk.k as nat)
    &&& pk.k <= 28
    &&& crate::fft::is_p2(pk.domain as nat)
    &&& fe_val(pk.omega) < fr_order()
    &&& fe_val(pk.omega_inv) < fr_order()
    &&& rmul(fe_val(pk.omega), fe_val(pk.omega_inv)) == 1
    &&& pk.a_mat@.len() == pk.domain * pk.n_wires
    &&& pk.b_mat@.len() == pk.domain * pk.n_wires
    &&& pk.c_mat@.len() == pk.domain * pk.n_wires
    &&& (forall|t: int| 0 <= t < pk.a_mat@.len() ==> fe_val(#[trigger] pk.a_mat@[t]) < fr_order())
    &&& (forall|t: int| 0 <= t < pk.b_mat@.len() ==> fe_val(#[trigger] pk.b_mat@[t]) < fr_order())
    &&& (forall|t: int| 0 <= t < pk.c_mat@.len() ==> fe_val(#[trigger] pk.c_mat@[t]) < fr_order())
    &&& pk.a_query@.len() == pk.n_wires
    &&& pk.b_query@.len() == pk.n_wires
    &&& pk.c_query@.len() == pk.n_wires
    &&& pk.h_query@.len() == pk.domain
    &&& (forall|t: int| 0 <= t < pk.a_query@.len() ==> g1_wf(#[trigger] pk.a_query@[t]))
    &&& (forall|t: int| 0 <= t < pk.b_query@.len() ==> g1_wf(#[trigger] pk.b_query@[t]))
    &&& (forall|t: int| 0 <= t < pk.c_query@.len() ==> g1_wf(#[trigger] pk.c_query@[t]))
    &&& (forall|t: int| 0 <= t < pk.h_query@.len() ==> g1_wf(#[trigger] pk.h_query@[t]))
    &&& pk.b2_query@.len() == pk.n_wires
    &&& (forall|t: int| 0 <= t < pk.b2_query@.len() ==> g2_wf(#[trigger] pk.b2_query@[t]))
    &&& g1_wf(pk.alpha1)
    &&& g1_wf(pk.beta1)
    &&& g1_wf(pk.delta1)
    &&& g2_wf(pk.beta2)
    &&& g2_wf(pk.delta2)
}

/// The loaded key carries exactly what the file declares.
#[verifier::opaque]
pub open spec fn pk_matches(pk: ProvingKey, s: Seq<u8>) -> bool {
    let nw = zk_nwires(s) as int;
    let dom = pow2(zk_k(s)) as int;
    &&& pk.n_wires == zk_nwires(s)
    &&& pk.n_pub == zk_npub(s)
    &&& pk.k == zk_k(s)
    &&& pk.domain == dom
    &&& fe_val(pk.omega) == zk_omega(s)
    &&& (forall|t: int|
        0 <= t < dom * nw ==> fe_val(#[trigger] pk.a_mat@[t]) == fr_at(s, 56, t))
    &&& (forall|t: int|
        0 <= t < dom * nw ==> fe_val(#[trigger] pk.b_mat@[t]) == fr_at(
            s,
            56 + 32 * (dom * nw),
            t,
        ))
    &&& (forall|t: int|
        0 <= t < dom * nw ==> fe_val(#[trigger] pk.c_mat@[t]) == fr_at(
            s,
            56 + 64 * (dom * nw),
            t,
        ))
    &&& (forall|t: int|
        0 <= t < nw ==> g1v(#[trigger] pk.a_query@[t]) == pt_v(s, 56 + 96 * (dom * nw), t))
    &&& (forall|t: int|
        0 <= t < nw ==> g1v(#[trigger] pk.b_query@[t]) == pt_v(
            s,
            56 + 96 * (dom * nw) + 64 * nw,
            t,
        ))
    &&& (forall|t: int|
        0 <= t < nw ==> g1v(#[trigger] pk.c_query@[t]) == pt_v(
            s,
            56 + 96 * (dom * nw) + 128 * nw,
            t,
        ))
    &&& (forall|t: int|
        0 <= t < dom ==> g1v(#[trigger] pk.h_query@[t]) == pt_v(
            s,
            56 + 96 * (dom * nw) + 192 * nw,
            t,
        ))
    &&& g1v(pk.alpha1) == pt_v(s, 56 + 96 * (dom * nw) + 192 * nw + 64 * dom, 0)
    &&& g1v(pk.beta1) == pt_v(s, 56 + 96 * (dom * nw) + 192 * nw + 64 * dom, 1)
    &&& g1v(pk.delta1) == pt_v(s, 56 + 96 * (dom * nw) + 192 * nw + 64 * dom, 2)
    &&& (forall|t: int|
        0 <= t < nw ==> g2v(#[trigger] pk.b2_query@[t]) == pt2_v(
            s,
            56 + 96 * (dom * nw) + 192 * nw + 64 * dom + 192,
            t,
        ))
    &&& g2v(pk.beta2) == pt2_v(s, 56 + 96 * (dom * nw) + 192 * nw + 64 * dom + 192 + 128 * nw, 0)
    &&& g2v(pk.delta2) == pt2_v(s, 56 + 96 * (dom * nw) + 192 * nw + 64 * dom + 192 + 128 * nw, 1)
}

/// Raising to the 2^k-th power by repeated squaring.
fn pow_pow2(a: &Fe, k: u32, m: &Fe) -> (r: Fe)
    requires
        modulus_ok(*m),
        fe_val(*m) == fr_order(),
        fe_val(*a) < fe_val(*m),
        k <= 28,
    ensures
        fe_val(r) == rpow(fe_val(*a), pow2(k as nat)),
        fe_val(r) < fr_order(),
{
    let mut t = *a;
    let mut j: u32 = 0;
    proof {
        lemma2_to64();
        vstd::arithmetic::power::lemma_pow1(fe_val(*a) as int);
        vstd::arithmetic::div_mod::lemma_small_mod(fe_val(*a), fr_order());
    }
    while j < k
        invariant
            j <= k,
            k <= 28,
            modulus_ok(*m),
            fe_val(*m) == fr_order(),
            fe_val(*a) < fr_order(),
            fe_val(t) < fr_order(),
            fe_val(t) == rpow(fe_val(*a), pow2(j as nat)),
        decreases k - j,
    {
        let t2 = mul_mod(&t, &t, m);
        proof {
            let aa = fe_val(*a) as int;
            let rr = fr_order() as int;
            let e = pow2(j as nat);
            vstd::arithmetic::div_mod::lemma_mul_mod_noop(
                vstd::arithmetic::power::pow(aa, e),
                vstd::arithmetic::power::pow(aa, e),
                rr,
            );
            vstd::arithmetic::power::lemma_pow_adds(aa, e, e);
            lemma_pow2_adds(j as nat, 1);
            lemma2_to64();
        }
        t = t2;
        j += 1;
    }
    t
}

/// The body predicate, in terms of the eight section checks at their
/// concrete offsets.
#[verifier::rlimit(100)]
proof fn lemma_body_ok_parts(s: Seq<u8>, nw: int, dom: int)
    requires
        zk_nwires(s) == nw,
        pow2(zk_k(s)) == dom,
        1 <= nw <= 65536,
        zk_npub(s) <= nw,
        s.len() == 56 + 96 * (dom * nw) + 64 * (3 * nw + dom + 3) + 128 * (nw + 2),
    ensures
        zk_body_ok(s) <==> (frs_ok(s, 56, dom * nw) && frs_ok(s, 56 + 32 * (dom * nw), dom * nw)
            && frs_ok(s, 56 + 64 * (dom * nw), dom * nw) && pts_ok(s, 56 + 96 * (dom * nw), nw)
            && pts_ok(s, 56 + 96 * (dom * nw) + 64 * nw, nw) && pts_ok(
            s,
            56 + 96 * (dom * nw) + 128 * nw,
            nw,
        ) && pts_ok(s, 56 + 96 * (dom * nw) + 192 * nw, dom) && pts_ok(
            s,
            56 + 96 * (dom * nw) + 192 * nw + 64 * dom,
            3,
        ) && pt2s_ok(s, 56 + 96 * (dom * nw) + 192 * nw + 64 * dom + 192, nw) && pt2s_ok(
            s,
            56 + 96 * (dom * nw) + 192 * nw + 64 * dom + 192 + 128 * nw,
            2,
        )),
{
    reveal(crate::key::zk_body_ok);
}

/// Read the five point sections: the three wire queries, the domain
/// query, and the alpha, beta, delta tail.
#[verifier::rlimit(100)]
fn read_points(d: &Vec<u8>, pbase: usize, nwires: usize, domain: usize) -> (r: Option<
    (Vec<G1>, Vec<G1>, Vec<G1>, Vec<G1>, Vec<G1>),
>)
    requires
        pbase + 64 * (3 * nwires + domain + 3) <= d@.len(),
    ensures
        r is Some <==> (pts_ok(d@, pbase as int, nwires as int) && pts_ok(
            d@,
            pbase + 64 * (nwires as int),
            nwires as int,
        ) && pts_ok(d@, pbase + 128 * (nwires as int), nwires as int) && pts_ok(
            d@,
            pbase + 192 * (nwires as int),
            domain as int,
        ) && pts_ok(d@, pbase + 192 * (nwires as int) + 64 * (domain as int), 3)),
        r matches Some(v) ==> {
            &&& v.0@.len() == nwires
            &&& v.1@.len() == nwires
            &&& v.2@.len() == nwires
            &&& v.3@.len() == domain
            &&& v.4@.len() == 3
            &&& (forall|t: int|
                0 <= t < nwires ==> g1v(#[trigger] v.0@[t]) == pt_v(d@, pbase as int, t) && g1_wf(
                    v.0@[t],
                ))
            &&& (forall|t: int|
                0 <= t < nwires ==> g1v(#[trigger] v.1@[t]) == pt_v(
                    d@,
                    pbase + 64 * (nwires as int),
                    t,
                ) && g1_wf(v.1@[t]))
            &&& (forall|t: int|
                0 <= t < nwires ==> g1v(#[trigger] v.2@[t]) == pt_v(
                    d@,
                    pbase + 128 * (nwires as int),
                    t,
                ) && g1_wf(v.2@[t]))
            &&& (forall|t: int|
                0 <= t < domain ==> g1v(#[trigger] v.3@[t]) == pt_v(
                    d@,
                    pbase + 192 * (nwires as int),
                    t,
                ) && g1_wf(v.3@[t]))
            &&& (forall|t: int|
                0 <= t < 3 ==> g1v(#[trigger] v.4@[t]) == pt_v(
                    d@,
                    pbase + 192 * (nwires as int) + 64 * (domain as int),
                    t,
                ) && g1_wf(v.4@[t]))
        },
{
    let n = d.len();
    let p1: usize = pbase + 64 * nwires;
    let p2: usize = p1 + 64 * nwires;
    let p3: usize = p2 + 64 * nwires;
    let p4: usize = p3 + 64 * domain;
    let a_query = match read_g1_vec(d, pbase, nwires) {
        Some(v) => v,
        None => {
            return None;
        },
    };
    let b_query = match read_g1_vec(d, p1, nwires) {
        Some(v) => v,
        None => {
            return None;
        },
    };
    let c_query = match read_g1_vec(d, p2, nwires) {
        Some(v) => v,
        None => {
            return None;
        },
    };
    let h_query = match read_g1_vec(d, p3, domain) {
        Some(v) => v,
        None => {
            return None;
        },
    };
    let tail = match read_g1_vec(d, p4, 3) {
        Some(v) => v,
        None => {
            return None;
        },
    };
    Some((a_query, b_query, c_query, h_query, tail))
}

/// The loaded fields match the file when each section matched.
#[verifier::rlimit(100)]
proof fn lemma_pk_matches_parts(pk: ProvingKey, s: Seq<u8>, nw: int, dom: int)
    requires
        zk_nwires(s) == nw,
        pow2(zk_k(s)) == dom,
        pk.n_wires == nw,
        pk.n_pub == zk_npub(s),
        pk.k == zk_k(s),
        pk.domain == dom,
        fe_val(pk.omega) == zk_omega(s),
        forall|t: int|
            0 <= t < dom * nw ==> fe_val(#[trigger] pk.a_mat@[t]) == fr_at(s, 56, t),
        forall|t: int|
            0 <= t < dom * nw ==> fe_val(#[trigger] pk.b_mat@[t]) == fr_at(
                s,
                56 + 32 * (dom * nw),
                t,
            ),
        forall|t: int|
            0 <= t < dom * nw ==> fe_val(#[trigger] pk.c_mat@[t]) == fr_at(
                s,
                56 + 64 * (dom * nw),
                t,
            ),
        forall|t: int|
            0 <= t < nw ==> g1v(#[trigger] pk.a_query@[t]) == pt_v(s, 56 + 96 * (dom * nw), t),
        forall|t: int|
            0 <= t < nw ==> g1v(#[trigger] pk.b_query@[t]) == pt_v(
                s,
                56 + 96 * (dom * nw) + 64 * nw,
                t,
            ),
        forall|t: int|
            0 <= t < nw ==> g1v(#[trigger] pk.c_query@[t]) == pt_v(
                s,
                56 + 96 * (dom * nw) + 128 * nw,
                t,
            ),
        forall|t: int|
            0 <= t < dom ==> g1v(#[trigger] pk.h_query@[t]) == pt_v(
                s,
                56 + 96 * (dom * nw) + 192 * nw,
                t,
            ),
        g1v(pk.alpha1) == pt_v(s, 56 + 96 * (dom * nw) + 192 * nw + 64 * dom, 0),
        g1v(pk.beta1) == pt_v(s, 56 + 96 * (dom * nw) + 192 * nw + 64 * dom, 1),
        g1v(pk.delta1) == pt_v(s, 56 + 96 * (dom * nw) + 192 * nw + 64 * dom, 2),
        forall|t: int|
            0 <= t < nw ==> g2v(#[trigger] pk.b2_query@[t]) == pt2_v(
                s,
                56 + 96 * (dom * nw) + 192 * nw + 64 * dom + 192,
                t,
            ),
        g2v(pk.beta2) == pt2_v(s, 56 + 96 * (dom * nw) + 192 * nw + 64 * dom + 192 + 128 * nw, 0),
        g2v(pk.delta2) == pt2_v(
            s,
            56 + 96 * (dom * nw) + 192 * nw + 64 * dom + 192 + 128 * nw,
            1,
        ),
    ensures
        pk_matches(pk, s),
{
    reveal(crate::key::pk_matches);
}

/// Read the matrices and point sections and assemble the key.
#[verifier::rlimit(100)]
fn assemble_key(
    d: &Vec<u8>,
    nwires: usize,
    npub: usize,
    k32: u32,
    domain: usize,
    omega: Fe,
    omega_inv: Fe,
) -> (r: Result<ProvingKey, ProverInitError>)
    requires
        d@.len() >= 56,
        zk_nwires(d@) == nwires,
        zk_npub(d@) == npub,
        zk_k(d@) == k32,
        1 <= nwires <= 65536,
        npub <= nwires,
        k32 <= 28,
        domain == pow2(k32 as nat),
        domain <= 268435456,
        fe_val(omega) == zk_omega(d@),
        fe_val(omega) < fr_order(),
        fe_val(omega_inv) < fr_order(),
        rmul(fe_val(omega), fe_val(omega_inv)) == 1,
        d@.len() == 56 + 96 * (domain * nwires) + 64 * (3 * nwires + domain + 3) + 128 * (nwires
            + 2),
    ensures
        r matches Ok(pk) ==> zk_body_ok(d@) && pk_wf(pk) && pk_matches(pk, d@),
        !zk_body_ok(d@) ==> r == Result::<ProvingKey, ProverInitError>::Err(
            ProverInitError::ZKeyFileLoadError,
        ),
        zk_body_ok(d@) ==> r is Ok,
{
    let n = d.len();
    let rm = r_modulus();
    let mat_elems: usize = domain * nwires;
    proof {
        lemma_body_ok_parts(d@, nwires as int, domain as int);
    }
    let m1: usize = 56 + 32 * mat_elems;
    let m2: usize = m1 + 32 * mat_elems;
    let a_mat = match read_fr_vec(d, 56, mat_elems, &rm) {
        Some(v) => v,
        None => {
            return Err(ProverInitError::ZKeyFileLoadError);
        },
    };
    let b_mat = match read_fr_vec(d, m1, mat_elems, &rm) {
        Some(v) => v,
        None => {
            return Err(ProverInitError::ZKeyFileLoadError);
        },
    };
    let c_mat = match read_fr_vec(d, m2, mat_elems, &rm) {
        Some(v) => v,
        None => {
            return Err(ProverInitError::ZKeyFileLoadError);
        },
    };
    let pbase: usize = 56 + 96 * mat_elems;
    let pts = match read_points(d, pbase, nwires, domain) {
        Some(v) => v,
        None => {
            return Err(ProverInitError::ZKeyFileLoadError);
        },
    };
    let p5: usize = pbase + 64 * (3 * nwires + domain + 3);
    let b2_query = match read_g2_vec(d, p5, nwires) {
        Some(v) => v,
        None => {
            return Err(ProverInitError::ZKeyFileLoadError);
        },
    };
    let tail2 = match read_g2_vec(d, p5 + 128 * nwires, 2) {
        Some(v) => v,
        None => {
            return Err(ProverInitError::ZKeyFileLoadError);
        },
    };
    let (a_query, b_query, c_query, h_query, tail) = pts;
    let alpha1 = tail[0];
    let beta1 = tail[1];
    let delta1 = tail[2];
    let beta2 = tail2[0];
    let delta2 = tail2[1];
    let pk = ProvingKey {
        n_wires: nwires,
        n_pub: npub,
        k: k32,
        domain,
        omega,
        omega_inv,
        a_mat,
        b_mat,
        c_mat,
        a_query,
        b_query,
        c_query,
        h_query,
        b2_query,
        alpha1,
        beta1,
        delta1,
        beta2,
        delta2,
    };
    proof {
        lemma_is_p2_pow2(k32 as nat);
        assert forall|t: int| 0 <= t < mat_elems implies fe_val(#[trigger] pk.a_mat@[t])
            < fr_order() by {
            assert(fe_val(pk.a_mat@[t]) == fr_at(d@, 56, t));
        }
        assert forall|t: int| 0 <= t < mat_elems implies fe_val(#[trigger] pk.b_mat@[t])
            < fr_order() by {
            assert(fe_val(pk.b_mat@[t]) == fr_at(d@, m1 as int, t));
        }
        assert forall|t: int| 0 <= t < mat_elems implies fe_val(#[trigger] pk.c_mat@[t])
            < fr_order() by {
            assert(fe_val(pk.c_mat@[t]) == fr_at(d@, m2 as int, t));
        }
        assert(pk_wf(pk));
        lemma_pk_matches_parts(pk, d@, nwires as int, domain as int);
    }
    Ok(pk)
}

/// Parse and validate a proving-key file.
///
/// A bad header or body is `ZKeyFileLoadError`; a foreign curve is
/// `UnsupportedZKeyCurve`; an oversized or generator-less domain is
/// `UnsupportedDomainSize`. On success the key matches the file.
#[verifier::rlimit(100)]
pub fn parse_zkey(d: &Vec<u8>) -> (r: Result<ProvingKey, ProverInitError>)
    ensures
        r matches Ok(pk) ==> zkey_good(d@) && pk_wf(pk) && pk_matches(pk, d@),
        !zk_header_ok(d@) ==> r == Result::<ProvingKey, ProverInitError>::Err(
            ProverInitError::ZKeyFileLoadError,
        ),
        zk_header_ok(d@) && zk_curve(d@) != 1 ==> r == Result::<ProvingKey, ProverInitError>::Err(
            ProverInitError::UnsupportedZKeyCurve,
        ),
        zk_header_ok(d@) && zk_curve(d@) == 1 && !zk_domain_ok(d@) ==> r == Result::<
            ProvingKey,
            ProverInitError,
        >::Err(ProverInitError::UnsupportedDomainSize),
        zk_header_ok(d@) && zk_curve(d@) == 1 && zk_domain_ok(d@) && !zk_body_ok(d@) ==> r
            == Result::<ProvingKey, ProverInitError>::Err(ProverInitError::ZKeyFileLoadError),
        zkey_good(d@) ==> r is Ok,
{
    let n = d.len();
    if n < 56 {
        return Err(ProverInitError::ZKeyFileLoadError);
    }
    let magic = read_u32(d, 0);
    let version = read_u32(d, 4);
    if magic != 0x79656b7a || version != 1 {
        return Err(ProverInitError::ZKeyFileLoadError);
    }
    let curve = read_u32(d, 8);
    if curve != 1 {
        return Err(ProverInitError::UnsupportedZKeyCurve);
    }
    let rm = r_modulus();
    let k32 = read_u32(d, 20);
    if k32 > 28 {
        return Err(ProverInitError::UnsupportedDomainSize);
    }
    let omega = read_fe(d, 24);
    if !lt4(&omega, &rm) {
        return Err(ProverInitError::UnsupportedDomainSize);
    }
    let one = fe_one();
    if k32 == 0 {
        let wp = pow_pow2(&omega, 0, &rm);
        if !eq4(&wp, &one) {
            return Err(ProverInitError::UnsupportedDomainSize);
        }
    } else {
        let whalf = pow_pow2(&omega, k32 - 1, &rm);
        let wsq = mul_mod(&whalf, &whalf, &rm);
        proof {
            let aa = fe_val(omega) as int;
            let rr = fr_order() as int;
            let e = pow2((k32 - 1) as nat);
            vstd::arithmetic::div_mod::lemma_mul_mod_noop(
                vstd::arithmetic::power::pow(aa, e),
                vstd::arithmetic::power::pow(aa, e),
                rr,
            );
            vstd::arithmetic::power::lemma_pow_adds(aa, e, e);
            lemma_pow2_adds((k32 - 1) as nat, 1);
            lemma2_to64();
            assert(fe_val(wsq) == rpow(fe_val(omega), pow2(k32 as nat)));
        }
        if !eq4(&wsq, &one) {
            return Err(ProverInitError::UnsupportedDomainSize);
        }
        if eq4(&whalf, &one) {
            return Err(ProverInitError::UnsupportedDomainSize);
        }
    }
    let nwires32 = read_u32(d, 12);
    let npub32 = read_u32(d, 16);
    if nwires32 < 1 || nwires32 > 65536 || npub32 > nwires32 {
        proof {
            reveal(crate::key::zk_body_ok);
        }
        return Err(ProverInitError::ZKeyFileLoadError);
    }
    let mut domain: usize = 1;
    let mut j: u32 = 0;
    proof {
        lemma2_to64();
    }
    while j < k32
        invariant
            j <= k32,
            k32 <= 28,
            domain == pow2(j as nat),
            domain <= 268435456,
        decreases k32 - j,
    {
        proof {
            lemma_pow2_adds(j as nat, 1);
            lemma2_to64();
            if (j as nat) + 1 < 28 {
                vstd::arithmetic::power2::lemma_pow2_strictly_increases((j + 1) as nat, 28);
            }
        }
        domain = domain * 2;
        j += 1;
    }
    let nwires = nwires32 as usize;
    let npub = npub32 as usize;
    proof {
        vstd::arithmetic::mul::lemma_mul_upper_bound(
            domain as int,
            268435456,
            nwires as int,
            65536,
        );
    }
    let matlen: u64 = (domain as u64) * (nwires as u64);
    let expected: u64 = 56 + 96 * matlen + 64 * (3 * (nwires as u64) + (domain as u64) + 3) + 128
        * ((nwires as u64) + 2);
    if (n as u64) != expected {
        proof {
            reveal(crate::key::zk_body_ok);
        }
        return Err(ProverInitError::ZKeyFileLoadError);
    }
    proof {
        vstd::arithmetic::power2::lemma_pow2_pos(k32 as nat);
    }
    let einv = Fe { l0: (domain as u64) - 1, l1: 0, l2: 0, l3: 0 };
    let omega_inv = crate::field::pow_mod(&omega, &einv, &rm);
    proof {
        let aa = fe_val(omega) as int;
        let rr = fr_order() as int;
        let e1 = (pow2(k32 as nat) - 1) as nat;
        vstd::arithmetic::power::lemma_pow1(aa);
        vstd::arithmetic::power::lemma_pow_adds(aa, 1, e1);
        vstd::arithmetic::div_mod::lemma_mul_mod_noop_right(
            aa,
            vstd::arithmetic::power::pow(aa, e1),
            rr,
        );
        assert(rmul(fe_val(omega), fe_val(omega_inv)) == 1);
    }
    assemble_key(d, nwires, npub, k32, domain, omega, omega_inv)
}

/// Every power of two is accepted by the transforms' length test.
pub proof fn lemma_is_p2_pow2(k: nat)
    ensures
        crate::fft::is_p2(pow2(k)),
    decreases k,
{
    if k == 0 {
        assert(pow2(0) == 1) by {
            lemma2_to64();
        }
    } else {
        vstd::arithmetic::power2::lemma_pow2_unfold(k);
        lemma_is_p2_pow2((k - 1) as nat);
        vstd::arithmetic::power2::lemma_pow2_pos((k - 1) as nat);
    }
}


/// The witness-file magic, "wtns" in little-endian bytes.
pub open spec fn wt_magic() -> nat {
    0x736e7477 as nat
}

/// The witness header is present with the supported magic and version.
pub open spec fn wt_header_ok(s: Seq<u8>) -> bool {
    s.len() >= 20 && le_val(s, 0, 4) == wt_magic() && le_val(s, 4, 4) == 1
}

pub open spec fn wt_curve(s: Seq<u8>) -> nat {
    le_val(s, 8, 4)
}

/// The declared width of a stored field element, in bytes.
pub open spec fn wt_msize(s: Seq<u8>) -> nat {
    le_val(s, 12, 4)
}

pub open spec fn wt_count(s: Seq<u8>) -> nat {
    le_val(s, 16, 4)
}

/// The body: the supported element width, exactly the expected number of
/// wires, and each element reduced.
pub open spec fn wt_body_ok(s: Seq<u8>, nw: int) -> bool {
    wt_msize(s) == 32 && wt_count(s) == nw && s.len() == 20 + 32 * nw && frs_ok(s, 20, nw)
}

/// Everything the witness loader checks.
pub open spec fn witness_good(s: Seq<u8>, nw: int) -> bool {
    wt_header_ok(s) && wt_curve(s) == 1 && wt_body_ok(s, nw)
}

/// The wire values a good witness file carries.
pub open spec fn witness_vals(s: Seq<u8>, nw: int) -> Seq<nat> {
    Seq::new(nw as nat, |t: int| fr_at(s, 20, t))
}

/// Parse a witness file against the key's expected wire count.
///
/// A malformed file, a wrong element count or an out-of-range element is
/// `InvalidInput`; a foreign curve is `WitnessGenerationInvalidCurve`.
/// Every well-formed witness parses.
pub fn parse_witness(d: &Vec<u8>, nwires: usize) -> (r: Result<Vec<Fe>, ProverError>)
    requires
        1 <= nwires <= 65536,
    ensures
        r matches Ok(v) ==> witness_good(d@, nwires as int) && v@.len() == nwires && forall|t: int|
            0 <= t < nwires ==> fe_val(#[trigger] v@[t]) == fr_at(d@, 20, t),
        !wt_header_ok(d@) ==> r == Result::<Vec<Fe>, ProverError>::Err(ProverError::InvalidInput),
        wt_header_ok(d@) && wt_curve(d@) != 1 ==> r == Result::<Vec<Fe>, ProverError>::Err(
            ProverError::WitnessGenerationInvalidCurve,
        ),
        wt_header_ok(d@) && wt_curve(d@) == 1 && !wt_body_ok(d@, nwires as int) ==> r == Result::<
            Vec<Fe>,
            ProverError,
        >::Err(ProverError::InvalidInput),
        witness_good(d@, nwires as int) ==> r is Ok,
{
    let n = d.len();
    if n < 20 {
        return Err(ProverError::InvalidInput);
    }
    let magic = read_u32(d, 0);
    let version = read_u32(d, 4);
    if magic != 0x736e7477 || version != 1 {
        return Err(ProverError::InvalidInput);
    }
    let curve = read_u32(d, 8);
    if curve != 1 {
        return Err(ProverError::WitnessGenerationInvalidCurve);
    }
    let msize = read_u32(d, 12);
    if msize != 32 {
        return Err(ProverError::InvalidInput);
    }
    let count = read_u32(d, 16);
    if count > 65536 || count as usize != nwires {
        return Err(ProverError::InvalidInput);
    }
    let expected: u64 = 20 + 32 * (nwires as u64);
    if (n as u64) != expected {
        return Err(ProverError::InvalidInput);
    }
    let rm = r_modulus();
    match read_fr_vec(d, 20, nwires, &rm) {
        Some(v) => Ok(v),
        None => Err(ProverError::InvalidInput),
    }
}

} // verus!
