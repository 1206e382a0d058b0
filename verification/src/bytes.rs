//! Little-endian readers for the binary key and witness formats.

use vstd::prelude::*;

use crate::limb::{fe_val, Fe};

verus! {

/// The value of `n` little-endian bytes starting at `off`.
pub open spec fn le_val(s: Seq<u8>, off: int, n: nat) -> nat
    decreases n,
{
    if n == 0 {
        0
    } else {
        s[off] as nat + 256 * le_val(s, off + 1, (n - 1) as nat)
    }
}

/// Splitting a little-endian run: low `a` bytes plus shifted high `b` bytes.
pub proof fn lemma_le_val_split(s: Seq<u8>, off: int, a: nat, b: nat)
    ensures
        le_val(s, off, a + b) == le_val(s, off, a) + vstd::arithmetic::power::pow(256, a) * le_val(
            s,
            off + a,
            b,
        ),
    decreases a,
{
    vstd::arithmetic::power::lemma_pow0(256);
    if a == 0 {
    } else {
        lemma_le_val_split(s, off + 1, (a - 1) as nat, b);
        vstd::arithmetic::power::lemma_pow1(256);
        vstd::arithmetic::power::lemma_pow_adds(256, 1, (a - 1) as nat);
        assert(le_val(s, off, a + b) == s[off] as nat + 256 * le_val(s, off + 1, (a + b - 1) as nat));
        let p1 = vstd::arithmetic::power::pow(256, (a - 1) as nat);
        let hi = le_val(s, off + a, b);
        assert(256 * (le_val(s, off + 1, (a - 1) as nat) + p1 * hi) == 256 * le_val(
            s,
            off + 1,
            (a - 1) as nat,
        ) + (256 * p1) * hi) by (nonlinear_arith);
    }
}

/// 256^8 is 2^64.
proof fn lemma_pow256_8()
    ensures
        vstd::arithmetic::power::pow(256, 8) == 0x10000000000000000,
{
    vstd::arithmetic::power::lemma_pow1(256);
    vstd::arithmetic::power::lemma_pow_adds(256, 1, 1);
    assert(vstd::arithmetic::power::pow(256, 2) == 0x10000);
    vstd::arithmetic::power::lemma_pow_adds(256, 2, 2);
    assert(vstd::arithmetic::power::pow(256, 4) == 0x100000000);
    vstd::arithmetic::power::lemma_pow_adds(256, 4, 4);
}

/// Read four little-endian bytes as an unsigned 32-bit integer.
pub fn read_u32(d: &Vec<u8>, off: usize) -> (r: u32)
    requires
        off + 4 <= d@.len(),
    ensures
        r as nat == le_val(d@, off as int, 4),
{
    let n = d.len();
    let b0 = d[off] as u32;
    let b1 = d[off + 1] as u32;
    let b2 = d[off + 2] as u32;
    let b3 = d[off + 3] as u32;
    proof {
        reveal_with_fuel(le_val, 5);
    }
    b0 + b1 * 0x100 + b2 * 0x10000 + b3 * 0x1000000
}

/// Read eight little-endian bytes as an unsigned 64-bit integer.
pub fn read_u64(d: &Vec<u8>, off: usize) -> (r: u64)
    requires
        off + 8 <= d@.len(),
    ensures
        r as nat == le_val(d@, off as int, 8),
{
    let n = d.len();
    let mut r: u64 = 0;
    let mut i: usize = 8;
    proof {
        vstd::arithmetic::power::lemma_pow0(256);
    }
    while i > 0
        invariant
            i <= 8,
            off + 8 <= d@.len(),
            off + 8 <= usize::MAX,
            r as nat == le_val(d@, off + i, (8 - i) as nat),
            (r as nat) < vstd::arithmetic::power::pow(256, (8 - i) as nat),
        decreases i,
    {
        proof {
            vstd::arithmetic::power::lemma_pow1(256);
            vstd::arithmetic::power::lemma_pow_adds(256, 1, (8 - i) as nat);
            vstd::arithmetic::mul::lemma_mul_inequality(
                r as int + 1,
                vstd::arithmetic::power::pow(256, (8 - i) as nat) as int,
                256,
            );
            lemma_pow256_8();
            vstd::arithmetic::power::lemma_pow_increases(256, (8 - i + 1) as nat, 8);
        }
        i = i - 1;
        r = r * 256 + d[off + i] as u64;
    }
    r
}

/// Read 32 little-endian bytes as a 256-bit limb vector.
pub fn read_fe(d: &Vec<u8>, off: usize) -> (r: Fe)
    requires
        off + 32 <= d@.len(),
    ensures
        fe_val(r) == le_val(d@, off as int, 32),
{
    let n = d.len();
    let l0 = read_u64(d, off);
    let l1 = read_u64(d, off + 8);
    let l2 = read_u64(d, off + 16);
    let l3 = read_u64(d, off + 24);
    proof {
        lemma_le_val_split(d@, off as int, 8, 24);
        lemma_le_val_split(d@, off as int + 8, 8, 16);
        lemma_le_val_split(d@, off as int + 16, 8, 8);
        lemma_pow256_8();
    }
    Fe { l0, l1, l2, l3 }
}

} // verus!
