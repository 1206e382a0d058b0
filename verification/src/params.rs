//! The alt_bn128 curve parameters: the base-field and scalar-field moduli
//! and a few small constants the prover needs.

use vstd::prelude::*;

use crate::field::{modulus_ok, p255};
use crate::limb::{fe_val, Fe};
use vstd::arithmetic::div_mod::{lemma_mod_multiples_vanish, lemma_small_mod};

verus! {

/// The order of the alt_bn128 scalar field.
pub open spec fn fr_order() -> nat {
    21888242871839275222246405745257275088548364400416034343698204186575808495617nat
}

/// The order of the alt_bn128 base field.
pub open spec fn fq_order() -> nat {
    21888242871839275222246405745257275088696311157297823662689037894645226208583nat
}

/// The scalar-field modulus as limbs.
pub fn r_modulus() -> (r: Fe)
    ensures
        fe_val(r) == fr_order(),
        modulus_ok(r),
{
    Fe {
        l0: 0x43e1f593f0000001,
        l1: 0x2833e84879b97091,
        l2: 0xb85045b68181585d,
        l3: 0x30644e72e131a029,
    }
}

/// The base-field modulus as limbs.
pub fn q_modulus() -> (r: Fe)
    ensures
        fe_val(r) == fq_order(),
        modulus_ok(r),
{
    Fe {
        l0: 0x3c208c16d87cfd47,
        l1: 0x97816a916871ca8d,
        l2: 0xb85045b68181585d,
        l3: 0x30644e72e131a029,
    }
}

/// The inverse of two in the scalar field.
pub open spec fn fr_inv2_v() -> nat {
    10944121435919637611123202872628637544274182200208017171849102093287904247809nat
}

/// Twice the inverse of two is one in the scalar field.
pub proof fn lemma_fr_inv2()
    ensures
        (2 * fr_inv2_v()) % fr_order() == 1,
        fr_inv2_v() < fr_order(),
{
    assert(2 * fr_inv2_v() == fr_order() + 1);
    lemma_mod_multiples_vanish(1, 1, fr_order() as int);
    lemma_small_mod(1, fr_order());
}

/// The inverse of two in the scalar field, used by the inverse transform.
pub fn fr_inv2() -> (r: Fe)
    ensures
        fe_val(r) == fr_inv2_v(),
        fe_val(r) < fr_order(),
        (2 * fe_val(r)) % fr_order() == 1,
{
    let r = Fe {
        l0: 0xa1f0fac9f8000001,
        l1: 0x9419f4243cdcb848,
        l2: 0xdc2822db40c0ac2e,
        l3: 0x183227397098d014,
    };
    proof {
        assert(2 * fe_val(r) == fr_order() + 1);
        lemma_mod_multiples_vanish(1, 1, fr_order() as int);
        lemma_small_mod(1, fr_order());
    }
    r
}

} // verus!
