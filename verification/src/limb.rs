//! Fixed-width 256-bit integers as four 64-bit limbs, little-endian.
//!
//! Field elements of both alt_bn128 fields (254-bit moduli) are carried in
//! this representation; `fe_val` is the mathematical value of a limb vector.

use vstd::prelude::*;

verus! {

/// A 256-bit unsigned integer: `l0` is the least significant limb.
#[derive(Clone, Copy, PartialEq, Eq, Structural, Debug)]
pub struct Fe {
    pub l0: u64,
    pub l1: u64,
    pub l2: u64,
    pub l3: u64,
}

/// The integer a limb vector stands for.
pub open spec fn fe_val(a: Fe) -> nat {
    a.l0 as nat + a.l1 as nat * 0x10000000000000000 + a.l2 as nat
        * 0x100000000000000000000000000000000nat + a.l3 as nat
        * 0x1000000000000000000000000000000000000000000000000nat
}

/// Add with carry on one limb.
fn addc(a: u64, b: u64, c: u64) -> (r: (u64, u64))
    requires
        c <= 1,
    ensures
        r.0 as nat + r.1 as nat * 0x10000000000000000 == a as nat + b as nat + c as nat,
        r.1 <= 1,
{
    let s: u128 = a as u128 + b as u128 + c as u128;
    proof {
        assert(s == (s >> 64) * 0x10000000000000000 + (s & 0xffffffffffffffff)) by (bit_vector);
        assert((s & 0xffffffffffffffff) < 0x10000000000000000) by (bit_vector);
    }
    let lo: u64 = (s & 0xffffffffffffffff) as u64;
    let hi: u64 = (s >> 64) as u64;
    (lo, hi)
}

/// Subtract with borrow on one limb.
fn subb(a: u64, b: u64, brw: u64) -> (r: (u64, u64))
    requires
        brw <= 1,
    ensures
        r.0 as nat + b as nat + brw as nat == a as nat + r.1 as nat * 0x10000000000000000,
        r.1 <= 1,
{
    let t: u128 = 0x10000000000000000u128 + a as u128 - b as u128 - brw as u128;
    proof {
        assert(t == (t >> 64) * 0x10000000000000000 + (t & 0xffffffffffffffff)) by (bit_vector);
        assert((t & 0xffffffffffffffff) < 0x10000000000000000) by (bit_vector);
    }
    let lo: u64 = (t & 0xffffffffffffffff) as u64;
    let hi: u64 = (t >> 64) as u64;
    let bout: u64 = 1 - hi;
    (lo, bout)
}

/// Full 256-bit addition; the second component is the carry out of bit 255.
pub fn add4(a: &Fe, b: &Fe) -> (r: (Fe, u64))
    ensures
        fe_val(r.0) + r.1 as nat * 0x10000000000000000000000000000000000000000000000000000000000000000nat
            == fe_val(*a) + fe_val(*b),
        r.1 <= 1,
{
    let (s0, c0) = addc(a.l0, b.l0, 0);
    let (s1, c1) = addc(a.l1, b.l1, c0);
    let (s2, c2) = addc(a.l2, b.l2, c1);
    let (s3, c3) = addc(a.l3, b.l3, c2);
    (Fe { l0: s0, l1: s1, l2: s2, l3: s3 }, c3)
}

/// Full 256-bit subtraction; the second component is the borrow out of bit 255.
pub fn sub4(a: &Fe, b: &Fe) -> (r: (Fe, u64))
    ensures
        fe_val(r.0) + fe_val(*b) == fe_val(*a) + r.1 as nat
            * 0x10000000000000000000000000000000000000000000000000000000000000000nat,
        r.1 <= 1,
{
    let (d0, b0) = subb(a.l0, b.l0, 0);
    let (d1, b1) = subb(a.l1, b.l1, b0);
    let (d2, b2) = subb(a.l2, b.l2, b1);
    let (d3, b3) = subb(a.l3, b.l3, b2);
    (Fe { l0: d0, l1: d1, l2: d2, l3: d3 }, b3)
}

/// Strict comparison of the values two limb vectors stand for.
pub fn lt4(a: &Fe, b: &Fe) -> (r: bool)
    ensures
        r == (fe_val(*a) < fe_val(*b)),
{
    let (_, brw) = sub4(a, b);
    brw == 1
}

/// The all-zero limb vector.
pub fn fe_zero() -> (r: Fe)
    ensures
        fe_val(r) == 0,
{
    Fe { l0: 0, l1: 0, l2: 0, l3: 0 }
}

/// The limb vector for one.
pub fn fe_one() -> (r: Fe)
    ensures
        fe_val(r) == 1,
{
    Fe { l0: 1, l1: 0, l2: 0, l3: 0 }
}

/// Tests whether the value is zero.
pub fn is_zero4(a: &Fe) -> (r: bool)
    ensures
        r == (fe_val(*a) == 0),
{
    a.l0 == 0 && a.l1 == 0 && a.l2 == 0 && a.l3 == 0
}

/// Equality of limb vectors decides equality of the values they stand for.
pub fn eq4(a: &Fe, b: &Fe) -> (r: bool)
    ensures
        r == (fe_val(*a) == fe_val(*b)),
{
    proof {
        lemma_fe_val_inj(*a, *b);
    }
    a.l0 == b.l0 && a.l1 == b.l1 && a.l2 == b.l2 && a.l3 == b.l3
}

/// The limb representation of a 256-bit value is unique.
pub proof fn lemma_fe_val_inj(a: Fe, b: Fe)
    ensures
        fe_val(a) == fe_val(b) ==> a == b,
{
    if fe_val(a) == fe_val(b) {
        lemma_fe_limbs_determined(a);
        lemma_fe_limbs_determined(b);
    }
}

/// Each limb is a digit of the value in base 2^64.
proof fn lemma_fe_limbs_determined(a: Fe)
    ensures
        a.l0 as nat == fe_val(a) % 0x10000000000000000,
        a.l1 as nat == (fe_val(a) / 0x10000000000000000) % 0x10000000000000000,
        a.l2 as nat == (fe_val(a) / 0x100000000000000000000000000000000nat) % 0x10000000000000000,
        a.l3 as nat == fe_val(a) / 0x1000000000000000000000000000000000000000000000000nat,
{
    let b: int = 0x10000000000000000;
    let v = fe_val(a) as int;
    let q1 = a.l1 as int + a.l2 as int * b + a.l3 as int * b * b;
    assert(v == q1 * b + a.l0) by (nonlinear_arith)
        requires
            v == a.l0 + a.l1 * b + a.l2 * (b * b) + a.l3 * (b * b * b),
            q1 == a.l1 + a.l2 * b + a.l3 * b * b,
    ;
    vstd::arithmetic::div_mod::lemma_fundamental_div_mod_converse(v, b, q1, a.l0 as int);
    let q2 = a.l2 as int + a.l3 as int * b;
    assert(q1 == q2 * b + a.l1) by (nonlinear_arith)
        requires
            q1 == a.l1 + a.l2 * b + a.l3 * b * b,
            q2 == a.l2 + a.l3 * b,
    ;
    vstd::arithmetic::div_mod::lemma_fundamental_div_mod_converse(q1, b, q2, a.l1 as int);
    vstd::arithmetic::div_mod::lemma_fundamental_div_mod_converse(q2, b, a.l3 as int, a.l2 as int);
    assert(v / (b * b) == q2) by {
        vstd::arithmetic::div_mod::lemma_div_denominator(v, b, b);
    }
    assert(v / (b * b * b) == a.l3 as int) by {
        vstd::arithmetic::div_mod::lemma_div_denominator(v, b, b);
        vstd::arithmetic::div_mod::lemma_div_denominator(v / b, b, b);
        assert(v / (b * (b * b)) == (v / b) / (b * b));
        vstd::arithmetic::div_mod::lemma_div_denominator(v / b, b, b);
    }
    assert(b * b == 0x100000000000000000000000000000000);
    assert(b * (b * b) == 0x1000000000000000000000000000000000000000000000000nat);
}

} // verus!
