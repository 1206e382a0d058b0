//! Modular arithmetic on 256-bit limb vectors.
//!
//! All operations are parameterized by the modulus, so one verified layer
//! serves both the base and the scalar field of alt_bn128. Every result is
//! canonically reduced: the contracts state the exact mathematical value.

use vstd::prelude::*;

use crate::limb::{add4, eq4, fe_one, fe_val, fe_zero, is_zero4, lt4, sub4, Fe};
use vstd::arithmetic::div_mod::{
    lemma_add_mod_noop, lemma_mod_multiples_vanish, lemma_mul_mod_noop, lemma_small_mod,
};
use vstd::arithmetic::power::{lemma_pow1, lemma_pow_adds, pow};
use vstd::arithmetic::power2::{lemma2_to64, lemma_pow2_adds, pow2};

verus! {

/// 2^255; both alt_bn128 moduli lie below it.
pub open spec fn p255() -> nat {
    0x8000000000000000000000000000000000000000000000000000000000000000nat
}

/// 2^256, one past the largest representable limb value.
pub open spec fn p256() -> nat {
    0x10000000000000000000000000000000000000000000000000000000000000000nat
}

/// A usable modulus: at least two and small enough that sums of two reduced
/// elements never overflow four limbs.
pub open spec fn modulus_ok(m: Fe) -> bool {
    2 <= fe_val(m) && fe_val(m) < p255()
}

/// Every four-limb value is below 2^256.
pub proof fn lemma_fe_val_bound(a: Fe)
    ensures
        fe_val(a) < p256(),
{
}

pub proof fn lemma_pow2_256()
    ensures
        pow2(256) == p256(),
{
    lemma2_to64();
    lemma_pow2_adds(64, 64);
    assert(pow2(128) == 0x100000000000000000000000000000000nat);
    lemma_pow2_adds(128, 128);
}

/// Modular addition of two reduced elements.
pub fn add_mod(a: &Fe, b: &Fe, m: &Fe) -> (r: Fe)
    requires
        modulus_ok(*m),
        fe_val(*a) < fe_val(*m),
        fe_val(*b) < fe_val(*m),
    ensures
        fe_val(r) == (fe_val(*a) + fe_val(*b)) % fe_val(*m),
        fe_val(r) < fe_val(*m),
{
    let (s, c) = add4(a, b);
    proof {
        lemma_fe_val_bound(s);
        assert(c == 0);
    }
    if !lt4(&s, m) {
        let (d, brw) = sub4(&s, m);
        proof {
            lemma_fe_val_bound(d);
            assert(brw == 0);
            lemma_mod_multiples_vanish(1, fe_val(d) as int, fe_val(*m) as int);
            lemma_small_mod(fe_val(d), fe_val(*m));
        }
        d
    } else {
        proof {
            lemma_small_mod(fe_val(s), fe_val(*m));
        }
        s
    }
}

/// Modular subtraction of two reduced elements.
pub fn sub_mod(a: &Fe, b: &Fe, m: &Fe) -> (r: Fe)
    requires
        modulus_ok(*m),
        fe_val(*a) < fe_val(*m),
        fe_val(*b) < fe_val(*m),
    ensures
        fe_val(r) == (fe_val(*a) + fe_val(*m) - fe_val(*b)) % (fe_val(*m) as int),
        fe_val(r) < fe_val(*m),
{
    if !lt4(a, b) {
        let (d, brw) = sub4(a, b);
        proof {
            lemma_fe_val_bound(d);
            assert(brw == 0);
            lemma_mod_multiples_vanish(1, fe_val(d) as int, fe_val(*m) as int);
            lemma_small_mod(fe_val(d), fe_val(*m));
        }
        d
    } else {
        let (s, c) = add4(a, m);
        proof {
            lemma_fe_val_bound(s);
            assert(c == 0);
        }
        let (d, brw) = sub4(&s, b);
        proof {
            lemma_fe_val_bound(d);
            assert(brw == 0);
            lemma_small_mod(fe_val(d), fe_val(*m));
        }
        d
    }
}

/// Modular negation of a reduced element.
pub fn neg_mod(a: &Fe, m: &Fe) -> (r: Fe)
    requires
        modulus_ok(*m),
        fe_val(*a) < fe_val(*m),
    ensures
        fe_val(r) == (fe_val(*m) - fe_val(*a)) % (fe_val(*m) as int),
        fe_val(r) < fe_val(*m),
{
    let z = fe_zero();
    sub_mod(&z, a, m)
}

/// Modular multiplication by binary expansion of the right operand; the
/// right operand need not be reduced.
pub fn mul_mod(a: &Fe, b: &Fe, m: &Fe) -> (r: Fe)
    requires
        modulus_ok(*m),
        fe_val(*a) < fe_val(*m),
    ensures
        fe_val(r) == (fe_val(*a) * fe_val(*b)) % fe_val(*m),
        fe_val(r) < fe_val(*m),
{
    let mut acc = fe_zero();
    let mut w = *b;
    let ghost mut consumed: nat = 0;
    let mut i: usize = 0;
    proof {
        lemma2_to64();
        lemma_small_mod(0, fe_val(*m));
    }
    while i < 256
        invariant
            i <= 256,
            modulus_ok(*m),
            fe_val(*a) < fe_val(*m),
            fe_val(acc) < fe_val(*m),
            fe_val(acc) == (fe_val(*a) * consumed) % fe_val(*m),
            pow2(i as nat) * fe_val(*b) == consumed * p256() + fe_val(w),
        decreases 256 - i,
    {
        let (w2, top) = add4(&w, &w);
        let acc2 = add_mod(&acc, &acc, m);
        let accn = if top == 1 {
            add_mod(&acc2, a, m)
        } else {
            acc2
        };
        proof {
            let aa = fe_val(*a) as int;
            let mm = fe_val(*m) as int;
            let c = consumed as int;
            lemma_add_mod_noop(aa * c, aa * c, mm);
            lemma_small_mod(fe_val(*a), fe_val(*m));
            lemma_add_mod_noop(2 * (aa * c), aa, mm);
            assert(aa * (2 * c) == 2 * (aa * c) && aa * (2 * c + 1) == 2 * (aa * c) + aa)
                by (nonlinear_arith);
            lemma2_to64();
            lemma_pow2_adds(i as nat, 1);
            assert(pow2((i + 1) as nat) * fe_val(*b) == 2 * (pow2(i as nat) * fe_val(*b)))
                by (nonlinear_arith)
                requires
                    pow2((i + 1) as nat) == pow2(i as nat) * 2,
            ;
            consumed = 2 * consumed + top as nat;
        }
        acc = accn;
        w = w2;
        i += 1;
    }
    proof {
        lemma_pow2_256();
        lemma_fe_val_bound(w);
        assert(consumed == fe_val(*b)) by (nonlinear_arith)
            requires
                p256() * fe_val(*b) == consumed * p256() + fe_val(w),
                fe_val(w) < p256(),
        ;
    }
    acc
}

/// Modular exponentiation by binary expansion of the exponent.
pub fn pow_mod(a: &Fe, e: &Fe, m: &Fe) -> (r: Fe)
    requires
        modulus_ok(*m),
        fe_val(*a) < fe_val(*m),
    ensures
        fe_val(r) == pow(fe_val(*a) as int, fe_val(*e)) % (fe_val(*m) as int),
        fe_val(r) < fe_val(*m),
{
    let mut acc = fe_one();
    let mut w = *e;
    let ghost mut consumed: nat = 0;
    let mut i: usize = 0;
    proof {
        lemma2_to64();
        lemma_small_mod(1, fe_val(*m));
        assert(pow(fe_val(*a) as int, 0) == 1) by {
            vstd::arithmetic::power::lemma_pow0(fe_val(*a) as int);
        }
    }
    while i < 256
        invariant
            i <= 256,
            modulus_ok(*m),
            fe_val(*a) < fe_val(*m),
            fe_val(acc) < fe_val(*m),
            fe_val(acc) == pow(fe_val(*a) as int, consumed) % (fe_val(*m) as int),
            pow2(i as nat) * fe_val(*e) == consumed * p256() + fe_val(w),
        decreases 256 - i,
    {
        let (w2, top) = add4(&w, &w);
        let acc2 = mul_mod(&acc, &acc, m);
        let accn = if top == 1 {
            mul_mod(&acc2, a, m)
        } else {
            acc2
        };
        proof {
            let aa = fe_val(*a) as int;
            let mm = fe_val(*m) as int;
            let p = pow(aa, consumed);
            lemma_mul_mod_noop(p, p, mm);
            lemma_pow_adds(aa, consumed, consumed);
            lemma_mul_mod_noop(pow(aa, consumed + consumed), aa, mm);
            lemma_small_mod(fe_val(*a), fe_val(*m));
            lemma_pow1(aa);
            lemma_pow_adds(aa, consumed + consumed, 1);
            lemma2_to64();
            lemma_pow2_adds(i as nat, 1);
            assert(pow2((i + 1) as nat) * fe_val(*e) == 2 * (pow2(i as nat) * fe_val(*e)))
                by (nonlinear_arith)
                requires
                    pow2((i + 1) as nat) == pow2(i as nat) * 2,
            ;
            consumed = 2 * consumed + top as nat;
        }
        acc = accn;
        w = w2;
        i += 1;
    }
    proof {
        lemma_pow2_256();
        lemma_fe_val_bound(w);
        assert(consumed == fe_val(*e)) by (nonlinear_arith)
            requires
                p256() * fe_val(*e) == consumed * p256() + fe_val(w),
                fe_val(w) < p256(),
        ;
    }
    acc
}

/// The Fermat inversion condition: the element is nonzero and, times its
/// own (m-2)-th power, gives one. For a prime modulus this holds of every
/// nonzero element of the field.
pub open spec fn fermat_inverts(a: nat, m: nat) -> bool {
    a != 0 && (a * (pow(a as int, (m - 2) as nat) % (m as int))) % (m as int) == 1
}

/// Modular inverse by the Fermat candidate, with the defining equation
/// checked before the candidate is returned: the result is `Some` exactly
/// when the Fermat condition holds, and a returned inverse is genuine.
pub fn inv_mod(a: &Fe, m: &Fe) -> (r: Option<Fe>)
    requires
        modulus_ok(*m),
        fe_val(*a) < fe_val(*m),
    ensures
        r is Some <==> fermat_inverts(fe_val(*a), fe_val(*m)),
        r matches Some(x) ==> fe_val(x) < fe_val(*m) && (fe_val(*a) * fe_val(x)) % fe_val(*m)
            == 1,
{
    if is_zero4(a) {
        return None;
    }
    let two = Fe { l0: 2, l1: 0, l2: 0, l3: 0 };
    let (e, brw) = sub4(m, &two);
    proof {
        lemma_fe_val_bound(e);
        assert(brw == 0);
    }
    let c = pow_mod(a, &e, m);
    let t = mul_mod(&c, a, m);
    let one = fe_one();
    proof {
        assert(fe_val(*a) * fe_val(c) == fe_val(c) * fe_val(*a)) by (nonlinear_arith);
    }
    if eq4(&t, &one) {
        Some(c)
    } else {
        None
    }
}

} // verus!
