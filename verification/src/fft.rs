//! The FFT engine over the scalar field.
//!
//! `fft` evaluates by the radix-2 butterfly recursion; `ifft` runs the
//! exact inverse network, unscrambling each butterfly stage with the
//! inverse twiddle and the inverse of two. The round-trip law — the
//! inverse transform undoes the forward transform on every power-of-two
//! length — is proved below as `lemma_fft_round_trip`.

use vstd::prelude::*;

use crate::field::{add_mod, modulus_ok, mul_mod, sub_mod};
use crate::limb::{fe_one, fe_val, Fe};
use crate::params::{fr_inv2, fr_inv2_v, fr_order, r_modulus};
use vstd::arithmetic::div_mod::{
    lemma_add_mod_noop, lemma_mod_add_multiples_vanish, lemma_mul_mod_noop,
    lemma_mul_mod_noop_general, lemma_small_mod, lemma_sub_mod_noop,
};
use vstd::arithmetic::power::{lemma_pow0, lemma_pow1, lemma_pow_adds, pow};

verus! {

/// The values a vector of field elements stands for.
pub open spec fn vals(s: Seq<Fe>) -> Seq<nat> {
    s.map_values(|x: Fe| fe_val(x))
}

/// Every entry is canonically reduced in the scalar field.
pub open spec fn all_reduced(s: Seq<nat>) -> bool {
    forall|i: int| 0 <= i < s.len() ==> s[i] < fr_order()
}

/// Scalar-field addition.
pub open spec fn radd(a: nat, b: nat) -> nat {
    ((a + b) % fr_order()) as nat
}

/// Scalar-field subtraction.
pub open spec fn rsub(a: nat, b: nat) -> nat {
    ((a + fr_order() - b) % (fr_order() as int)) as nat
}

/// Scalar-field multiplication.
pub open spec fn rmul(a: nat, b: nat) -> nat {
    ((a * b) % fr_order()) as nat
}

/// Scalar-field exponentiation.
pub open spec fn rpow(w: nat, e: nat) -> nat {
    (pow(w as int, e) % (fr_order() as int)) as nat
}

/// A power of two (or zero or one): the lengths the transforms accept.
pub open spec fn is_p2(n: nat) -> bool
    decreases n,
{
    n <= 1 || (n % 2 == 0 && is_p2(n / 2))
}

/// The entries at even positions.
pub open spec fn even_part(s: Seq<nat>) -> Seq<nat> {
    Seq::new(s.len() / 2, |i: int| s[2 * i])
}

/// The entries at odd positions.
pub open spec fn odd_part(s: Seq<nat>) -> Seq<nat> {
    Seq::new(s.len() / 2, |i: int| s[2 * i + 1])
}

/// Alternating merge of two sequences of equal length.
pub open spec fn interleave(e: Seq<nat>, o: Seq<nat>) -> Seq<nat> {
    Seq::new(e.len() + o.len(), |i: int| if i % 2 == 0 { e[i / 2] } else { o[i / 2] })
}

/// The forward transform: evaluate by halving into even and odd parts,
/// transforming each at the squared twiddle, and combining with
/// butterflies.
pub open spec fn fft_spec(s: Seq<nat>, w: nat) -> Seq<nat>
    decreases s.len(),
{
    if s.len() <= 1 {
        s
    } else {
        let h = (s.len() / 2) as int;
        let e = fft_spec(even_part(s), rmul(w, w));
        let o = fft_spec(odd_part(s), rmul(w, w));
        Seq::new(s.len(), |i: int| if i < h {
            radd(e[i], rmul(rpow(w, i as nat), o[i]))
        } else {
            rsub(e[i - h], rmul(rpow(w, (i - h) as nat), o[i - h]))
        })
    }
}

/// The inverse transform: undo the butterflies with the inverse twiddle
/// and the inverse of two, recurse, and interleave.
pub open spec fn ifft_spec(s: Seq<nat>, wi: nat) -> Seq<nat>
    decreases s.len(),
{
    if s.len() <= 1 {
        s
    } else {
        let h = (s.len() / 2) as int;
        let er = Seq::new((s.len() / 2) as nat, |i: int| rmul(fr_inv2_v(), radd(s[i], s[i + h])));
        let or = Seq::new(
            (s.len() / 2) as nat,
            |i: int| rmul(rmul(fr_inv2_v(), rpow(wi, i as nat)), rsub(s[i], s[i + h])),
        );
        interleave(ifft_spec(er, rmul(wi, wi)), ifft_spec(or, rmul(wi, wi)))
    }
}

/// The transform keeps the length and keeps every entry reduced.
pub proof fn lemma_fft_shape(s: Seq<nat>, w: nat)
    requires
        all_reduced(s),
    ensures
        fft_spec(s, w).len() == s.len(),
        all_reduced(fft_spec(s, w)),
    decreases s.len(),
{
    if s.len() > 1 {
        lemma_fft_shape(even_part(s), rmul(w, w));
        lemma_fft_shape(odd_part(s), rmul(w, w));
    }
}

/// So does the inverse transform, on even lengths.
pub proof fn lemma_ifft_shape(s: Seq<nat>, wi: nat)
    requires
        all_reduced(s),
        is_p2(s.len()),
    ensures
        ifft_spec(s, wi).len() == s.len(),
        all_reduced(ifft_spec(s, wi)),
    decreases s.len(),
{
    if s.len() > 1 {
        let h = (s.len() / 2) as int;
        let er = Seq::new((s.len() / 2) as nat, |i: int| rmul(fr_inv2_v(), radd(s[i], s[i + h])));
        let or = Seq::new(
            (s.len() / 2) as nat,
            |i: int| rmul(rmul(fr_inv2_v(), rpow(wi, i as nat)), rsub(s[i], s[i + h])),
        );
        lemma_ifft_shape(er, rmul(wi, wi));
        lemma_ifft_shape(or, rmul(wi, wi));
    }
}

/// Evaluate the transform of `v` at twiddle `w`.
#[verifier::rlimit(100)]
pub fn fft(v: &Vec<Fe>, w: &Fe) -> (r: Vec<Fe>)
    requires
        all_reduced(vals(v@)),
        fe_val(*w) < fr_order(),
        is_p2(v@.len()),
    ensures
        vals(r@) == fft_spec(vals(v@), fe_val(*w)),
        all_reduced(vals(r@)),
        r@.len() == v@.len(),
    decreases v.len(),
{
    let n = v.len();
    if n <= 1 {
        let mut out: Vec<Fe> = Vec::new();
        if n == 1 {
            out.push(v[0]);
        }
        proof {
            assert(vals(out@) =~= fft_spec(vals(v@), fe_val(*w)));
        }
        return out;
    }
    let m = r_modulus();
    let h = n / 2;
    proof {
        assert(v@.len() % 2 == 0);
        assert(is_p2(v@.len() / 2));
    }
    let mut ev: Vec<Fe> = Vec::new();
    let mut od: Vec<Fe> = Vec::new();
    let mut i: usize = 0;
    while i < h
        invariant
            i <= h,
            h == v@.len() / 2,
            v@.len() >= 2,
            ev@.len() == i,
            od@.len() == i,
            forall|j: int| 0 <= j < i ==> ev@[j] == v@[2 * j],
            forall|j: int| 0 <= j < i ==> od@[j] == v@[2 * j + 1],
        decreases h - i,
    {
        ev.push(v[2 * i]);
        od.push(v[2 * i + 1]);
        i += 1;
    }
    proof {
        assert(vals(ev@) =~= even_part(vals(v@)));
        assert(vals(od@) =~= odd_part(vals(v@)));
        assert(is_p2(vals(ev@).len()) && is_p2(vals(od@).len()));
    }
    let w2 = mul_mod(w, w, &m);
    let fe_half = fft(&ev, &w2);
    let fo_half = fft(&od, &w2);
    let ghost e = fft_spec(even_part(vals(v@)), rmul(fe_val(*w), fe_val(*w)));
    let ghost o = fft_spec(odd_part(vals(v@)), rmul(fe_val(*w), fe_val(*w)));
    proof {
        assert(forall|t: int| 0 <= t < h ==> #[trigger] fe_val(fe_half@[t]) == e[t]);
        assert(forall|t: int| 0 <= t < h ==> #[trigger] fe_val(fo_half@[t]) == o[t]);
    }
    let mut out: Vec<Fe> = Vec::new();
    let one = fe_one();
    let mut wj = one;
    let mut j: usize = 0;
    proof {
        lemma_pow0(fe_val(*w) as int);
        lemma_small_mod(1, fr_order());
    }
    while j < h
        invariant
            j <= h,
            modulus_ok(m),
            fe_val(m) == fr_order(),
            fe_val(*w) < fr_order(),
            fe_half@.len() == h,
            fo_half@.len() == h,
            e.len() == h,
            o.len() == h,
            all_reduced(e),
            all_reduced(o),
            forall|t: int| 0 <= t < h ==> #[trigger] fe_val(fe_half@[t]) == e[t],
            forall|t: int| 0 <= t < h ==> #[trigger] fe_val(fo_half@[t]) == o[t],
            out@.len() == j,
            fe_val(wj) == rpow(fe_val(*w), j as nat),
            fe_val(wj) < fr_order(),
            forall|t: int|
                0 <= t < j ==> #[trigger] fe_val(out@[t]) == radd(
                    e[t],
                    rmul(rpow(fe_val(*w), t as nat), o[t]),
                ),
        decreases h - j,
    {
        let t = mul_mod(&wj, &fo_half[j], &m);
        let s = add_mod(&fe_half[j], &t, &m);
        out.push(s);
        let wn = mul_mod(&wj, w, &m);
        proof {
            lemma_rpow_step(fe_val(*w), j as nat);
        }
        wj = wn;
        j += 1;
    }
    let mut wk = one;
    let mut k: usize = 0;
    proof {
        lemma_pow0(fe_val(*w) as int);
        lemma_small_mod(1, fr_order());
    }
    while k < h
        invariant
            k <= h,
            modulus_ok(m),
            fe_val(m) == fr_order(),
            fe_val(*w) < fr_order(),
            fe_half@.len() == h,
            fo_half@.len() == h,
            e.len() == h,
            o.len() == h,
            all_reduced(e),
            all_reduced(o),
            forall|t: int| 0 <= t < h ==> #[trigger] fe_val(fe_half@[t]) == e[t],
            forall|t: int| 0 <= t < h ==> #[trigger] fe_val(fo_half@[t]) == o[t],
            out@.len() == h + k,
            fe_val(wk) == rpow(fe_val(*w), k as nat),
            fe_val(wk) < fr_order(),
            forall|t: int|
                0 <= t < h ==> #[trigger] fe_val(out@[t]) == radd(
                    e[t],
                    rmul(rpow(fe_val(*w), t as nat), o[t]),
                ),
            forall|t: int|
                h <= t < h + k ==> #[trigger] fe_val(out@[t]) == rsub(
                    e[t - h],
                    rmul(rpow(fe_val(*w), (t - h) as nat), o[t - h]),
                ),
        decreases h - k,
    {
        let t = mul_mod(&wk, &fo_half[k], &m);
        let s = sub_mod(&fe_half[k], &t, &m);
        out.push(s);
        let wn = mul_mod(&wk, w, &m);
        proof {
            lemma_rpow_step(fe_val(*w), k as nat);
        }
        wk = wn;
        k += 1;
    }
    proof {
        assert(v@.len() % 2 == 0);
        assert(vals(out@) =~= fft_spec(vals(v@), fe_val(*w)));
    }
    out
}

/// One more power of the twiddle.
proof fn lemma_rpow_step(w: nat, j: nat)
    requires
        w < fr_order(),
    ensures
        rmul(rpow(w, j), w) == rpow(w, j + 1),
{
    let ww = w as int;
    let rr = fr_order() as int;
    lemma_pow1(ww);
    lemma_pow_adds(ww, j, 1);
    lemma_mul_mod_noop_general(pow(ww, j), ww, rr);
}

/// Gluing the halves back together yields exactly the inverse transform.
proof fn lemma_ifft_glue(
    s: Seq<nat>,
    wi: nat,
    erv: Seq<nat>,
    orv: Seq<nat>,
    eo: Seq<nat>,
    oo: Seq<nat>,
    outv: Seq<nat>,
)
    requires
        s.len() >= 2,
        s.len() % 2 == 0,
        all_reduced(s),
        is_p2(s.len()),
        erv.len() == s.len() / 2,
        orv.len() == s.len() / 2,
        forall|j: int|
            0 <= j < s.len() / 2 ==> erv[j] == rmul(fr_inv2_v(), radd(s[j], s[j + s.len() / 2])),
        forall|j: int|
            0 <= j < s.len() / 2 ==> orv[j] == rmul(
                rmul(fr_inv2_v(), rpow(wi, j as nat)),
                rsub(s[j], s[j + s.len() / 2]),
            ),
        eo == ifft_spec(erv, rmul(wi, wi)),
        oo == ifft_spec(orv, rmul(wi, wi)),
        outv.len() == s.len(),
        forall|j: int|
            0 <= j < s.len() / 2 ==> outv[2 * j] == eo[j] && outv[2 * j + 1] == oo[j],
    ensures
        outv == ifft_spec(s, wi),
{
    let h = (s.len() / 2) as int;
    let er0 = Seq::new((s.len() / 2) as nat, |i: int| rmul(fr_inv2_v(), radd(s[i], s[i + h])));
    let or0 = Seq::new(
        (s.len() / 2) as nat,
        |i: int| rmul(rmul(fr_inv2_v(), rpow(wi, i as nat)), rsub(s[i], s[i + h])),
    );
    assert(erv =~= er0);
    assert(orv =~= or0);
    assert(all_reduced(erv));
    assert(is_p2(erv.len()));
    lemma_ifft_shape(erv, rmul(wi, wi));
    lemma_ifft_shape(orv, rmul(wi, wi));
    assert(ifft_spec(s, wi) == interleave(eo, oo));
    assert(outv =~= interleave(eo, oo));
}

/// Undo one butterfly stage: the half-size vectors for the recursion.
fn ifft_split(v: &Vec<Fe>, wi: &Fe) -> (r: (Vec<Fe>, Vec<Fe>))
    requires
        forall|t: int| 0 <= t < v@.len() ==> #[trigger] fe_val(v@[t]) < fr_order(),
        fe_val(*wi) < fr_order(),
        v@.len() >= 2,
        v@.len() % 2 == 0,
    ensures
        r.0@.len() == v@.len() / 2,
        r.1@.len() == v@.len() / 2,
        forall|j: int|
            0 <= j < v@.len() / 2 ==> #[trigger] fe_val(r.0@[j]) == rmul(
                fr_inv2_v(),
                radd(fe_val(v@[j]), fe_val(v@[j + v@.len() / 2])),
            ),
        forall|j: int|
            0 <= j < v@.len() / 2 ==> #[trigger] fe_val(r.1@[j]) == rmul(
                rmul(fr_inv2_v(), rpow(fe_val(*wi), j as nat)),
                rsub(fe_val(v@[j]), fe_val(v@[j + v@.len() / 2])),
            ),
{
    let m = r_modulus();
    let h = v.len() / 2;
    let inv2 = fr_inv2();
    let mut er: Vec<Fe> = Vec::new();
    let mut orr: Vec<Fe> = Vec::new();
    let one = fe_one();
    let mut wj = one;
    let mut i: usize = 0;
    proof {
        lemma_pow0(fe_val(*wi) as int);
        lemma_small_mod(1, fr_order());
    }
    while i < h
        invariant
            i <= h,
            h == v@.len() / 2,
            2 * (h as int) == v@.len(),
            v@.len() == v.len(),
            modulus_ok(m),
            fe_val(m) == fr_order(),
            fe_val(*wi) < fr_order(),
            fe_val(inv2) == fr_inv2_v(),
            fe_val(inv2) < fr_order(),
            forall|t: int| 0 <= t < v@.len() ==> #[trigger] fe_val(v@[t]) < fr_order(),
            er@.len() == i,
            orr@.len() == i,
            fe_val(wj) == rpow(fe_val(*wi), i as nat),
            fe_val(wj) < fr_order(),
            forall|j: int|
                0 <= j < i ==> #[trigger] fe_val(er@[j]) == rmul(
                    fr_inv2_v(),
                    radd(fe_val(v@[j]), fe_val(v@[j + h as int])),
                ),
            forall|j: int|
                0 <= j < i ==> #[trigger] fe_val(orr@[j]) == rmul(
                    rmul(fr_inv2_v(), rpow(fe_val(*wi), j as nat)),
                    rsub(fe_val(v@[j]), fe_val(v@[j + h as int])),
                ),
        decreases h - i,
    {
        let a = add_mod(&v[i], &v[i + h], &m);
        let ei = mul_mod(&inv2, &a, &m);
        let b = sub_mod(&v[i], &v[i + h], &m);
        let c = mul_mod(&inv2, &wj, &m);
        let oi = mul_mod(&c, &b, &m);
        er.push(ei);
        orr.push(oi);
        let wn = mul_mod(&wj, wi, &m);
        proof {
            lemma_rpow_step(fe_val(*wi), i as nat);
        }
        wj = wn;
        i += 1;
    }
    (er, orr)
}

/// Alternate the entries of two equally long vectors.
fn interleave_vecs(a: &Vec<Fe>, b: &Vec<Fe>) -> (r: Vec<Fe>)
    requires
        a@.len() == b@.len(),
    ensures
        r@.len() == 2 * a@.len(),
        forall|j: int| 0 <= j < a@.len() ==> r@[2 * j] == a@[j] && r@[2 * j + 1] == b@[j],
{
    let mut out: Vec<Fe> = Vec::new();
    let mut k: usize = 0;
    let h = a.len();
    while k < h
        invariant
            k <= h,
            h == a@.len(),
            h == b@.len(),
            out@.len() == 2 * k,
            forall|j: int| 0 <= j < k ==> out@[2 * j] == a@[j] && out@[2 * j + 1] == b@[j],
        decreases h - k,
    {
        out.push(a[k]);
        out.push(b[k]);
        k += 1;
    }
    out
}

/// Interpolate: run the inverse network at the inverse twiddle.
#[verifier::rlimit(100)]
pub fn ifft(v: &Vec<Fe>, wi: &Fe) -> (r: Vec<Fe>)
    requires
        all_reduced(vals(v@)),
        fe_val(*wi) < fr_order(),
        is_p2(v@.len()),
    ensures
        vals(r@) == ifft_spec(vals(v@), fe_val(*wi)),
        all_reduced(vals(r@)),
        r@.len() == v@.len(),
    decreases v.len(),
{
    let n = v.len();
    if n <= 1 {
        let mut out: Vec<Fe> = Vec::new();
        if n == 1 {
            out.push(v[0]);
        }
        proof {
            assert(vals(out@) =~= ifft_spec(vals(v@), fe_val(*wi)));
        }
        return out;
    }
    proof {
        assert(v@.len() % 2 == 0);
        assert(is_p2(v@.len() / 2));
        assert(forall|t: int| 0 <= t < v@.len() ==> #[trigger] vals(v@)[t] == fe_val(v@[t]));
        assert(forall|t: int| 0 <= t < v@.len() ==> #[trigger] fe_val(v@[t]) == vals(v@)[t]);
    }
    let m = r_modulus();
    let (er, orr) = ifft_split(v, wi);
    proof {
        assert(forall|t: int| 0 <= t < er@.len() ==> #[trigger] vals(er@)[t] == fe_val(er@[t]));
        assert(forall|t: int| 0 <= t < orr@.len() ==> #[trigger] vals(orr@)[t] == fe_val(orr@[t]));
        assert(all_reduced(vals(er@)));
        assert(all_reduced(vals(orr@)));
        assert(is_p2(er@.len()) && is_p2(orr@.len()));
    }
    let wi2 = mul_mod(wi, wi, &m);
    let eo = ifft(&er, &wi2);
    let oo = ifft(&orr, &wi2);
    let out = interleave_vecs(&eo, &oo);
    proof {
        assert(forall|t: int| 0 <= t < eo@.len() ==> #[trigger] vals(eo@)[t] == fe_val(eo@[t]));
        assert(forall|t: int| 0 <= t < oo@.len() ==> #[trigger] vals(oo@)[t] == fe_val(oo@[t]));
        assert(forall|t: int| 0 <= t < out@.len() ==> #[trigger] vals(out@)[t] == fe_val(out@[t]));
        lemma_ifft_glue(
            vals(v@),
            fe_val(*wi),
            vals(er@),
            vals(orr@),
            vals(eo@),
            vals(oo@),
            vals(out@),
        );
        lemma_ifft_shape(vals(v@), fe_val(*wi));
    }
    out
}


/// One to any power is absorbed: the inverse twiddle powers cancel the
/// twiddle powers.
proof fn lemma_pow_inv(w: nat, wi: nat, e: nat)
    requires
        w < fr_order(),
        wi < fr_order(),
        rmul(w, wi) == 1,
    ensures
        rmul(rpow(w, e), rpow(wi, e)) == 1,
    decreases e,
{
    let rr = fr_order() as int;
    if e == 0 {
        lemma_pow0(w as int);
        lemma_pow0(wi as int);
        lemma_small_mod(1, fr_order());
    } else {
        lemma_pow_inv(w, wi, (e - 1) as nat);
        lemma_pow1(w as int);
        lemma_pow1(wi as int);
        lemma_pow_adds(w as int, (e - 1) as nat, 1);
        lemma_pow_adds(wi as int, (e - 1) as nat, 1);
        let pw = pow(w as int, (e - 1) as nat);
        let pwi = pow(wi as int, (e - 1) as nat);
        lemma_mul_mod_noop(pw, pwi, rr);
        lemma_mul_mod_noop(pow(w as int, e), pow(wi as int, e), rr);
        assert(pow(w as int, e) * pow(wi as int, e) == (pw * pwi) * (w * wi))
            by (nonlinear_arith)
            requires
                pow(w as int, e) == pw * w,
                pow(wi as int, e) == pwi * wi,
        ;
        lemma_mul_mod_noop(pw * pwi, (w * wi) as int, rr);
        lemma_small_mod(1, fr_order());
    }
}

/// Undoing the sum side of a butterfly: half the sum of the two outputs
/// is the even input.
proof fn lemma_butterfly_e(a: nat, b: nat)
    requires
        a < fr_order(),
        b < fr_order(),
    ensures
        rmul(fr_inv2_v(), radd(radd(a, b), rsub(a, b))) == a,
{
    let rr = fr_order() as int;
    let iv = fr_inv2_v() as int;
    crate::params::lemma_fr_inv2();
    lemma_add_mod_noop((a + b) as int, a + rr - b, rr);
    lemma_mod_add_multiples_vanish(2 * a as int, rr);
    let t = radd(radd(a, b), rsub(a, b));
    assert(t == (2 * a as int) % rr);
    lemma_mul_mod_noop_general(iv, 2 * a as int, rr);
    assert(iv * (2 * a) == (2 * iv) * a) by (nonlinear_arith);
    lemma_mul_mod_noop_general((2 * iv) as int, a as int, rr);
    lemma_small_mod(a, fr_order());
    lemma_small_mod(1, fr_order());
    assert((1 * a as int) % rr == a as int % rr);
}

/// Undoing the difference side of a butterfly: half the inverse-twiddled
/// difference of the two outputs is the odd input.
proof fn lemma_butterfly_o(a: nat, b: nat, wp: nat, wip: nat)
    requires
        a < fr_order(),
        b < fr_order(),
        wp < fr_order(),
        wip < fr_order(),
        rmul(wp, wip) == 1,
    ensures
        rmul(rmul(fr_inv2_v(), wip), rsub(radd(a, rmul(wp, b)), rsub(a, rmul(wp, b)))) == b,
{
    let rr = fr_order() as int;
    let iv = fr_inv2_v() as int;
    crate::params::lemma_fr_inv2();
    let x = rmul(wp, b);
    // The difference of the two butterfly outputs is twice the twiddled
    // odd input.
    lemma_sub_mod_noop((a + x) as int, a + rr - x, rr);
    lemma_mod_add_multiples_vanish((a + x) as int - (a + rr - x), rr);
    assert((a + x) - (a + rr - x) == 2 * x - rr);
    lemma_mod_add_multiples_vanish(2 * x as int - rr, rr);
    let u = radd(a, x) as int;
    let v = rsub(a, x) as int;
    assert((u - v) % rr == (2 * x as int) % rr);
    assert(rsub(radd(a, x), rsub(a, x)) == (u + rr - v) % rr);
    lemma_mod_add_multiples_vanish(u - v, rr);
    assert((u + rr - v) % rr == (u - v) % rr);
    // Now cancel the twiddle and the two.
    let t = rsub(radd(a, x), rsub(a, x));
    assert(t == (2 * x as int) % rr);
    lemma_mul_mod_noop_general((iv * wip) as int, 2 * x as int, rr);
    assert((iv * wip) * (2 * x) == (iv * wip * 2) * x) by (nonlinear_arith);
    lemma_mul_mod_noop_general((iv * wip * 2) as int, (wp * b) as int, rr);
    assert((iv * wip * 2) * (wp * b) == ((2 * iv) * (wp * wip)) * b) by (nonlinear_arith);
    lemma_mul_mod_noop_general(((2 * iv) * (wp * wip)) as int, 1, rr);
    lemma_mul_mod_noop((2 * iv) as int, (wp * wip) as int, rr);
    lemma_mul_mod_noop_general(((2 * iv) * (wp * wip)) as int, b as int, rr);
    lemma_small_mod(1, fr_order());
    lemma_small_mod(b, fr_order());
    assert(((2 * iv) * (wp * wip)) % rr == 1);
    assert((1 * b as int) % rr == b as int % rr);
}

/// The round-trip law: on any power-of-two length, the inverse transform
/// at the inverse twiddle undoes the forward transform.
pub proof fn lemma_fft_round_trip(s: Seq<nat>, w: nat, wi: nat)
    requires
        all_reduced(s),
        is_p2(s.len()),
        w < fr_order(),
        wi < fr_order(),
        rmul(w, wi) == 1,
    ensures
        ifft_spec(fft_spec(s, w), wi) == s,
    decreases s.len(),
{
    if s.len() <= 1 {
        return ;
    }
    let n = s.len() as int;
    let h = n / 2;
    let w2 = rmul(w, w);
    let wi2 = rmul(wi, wi);
    assert(all_reduced(even_part(s)));
    assert(all_reduced(odd_part(s)));
    let e = fft_spec(even_part(s), w2);
    let o = fft_spec(odd_part(s), w2);
    lemma_fft_shape(even_part(s), w2);
    lemma_fft_shape(odd_part(s), w2);
    let f = fft_spec(s, w);
    lemma_fft_shape(s, w);
    let er = Seq::new((f.len() / 2) as nat, |i: int| rmul(fr_inv2_v(), radd(f[i], f[i + h])));
    let or = Seq::new(
        (f.len() / 2) as nat,
        |i: int| rmul(rmul(fr_inv2_v(), rpow(wi, i as nat)), rsub(f[i], f[i + h])),
    );
    assert forall|i: int| 0 <= i < h implies er[i] == e[i] by {
        assert(f[i] == radd(e[i], rmul(rpow(w, i as nat), o[i])));
        assert(f[i + h] == rsub(e[i], rmul(rpow(w, i as nat), o[i])));
        lemma_butterfly_e(e[i], rmul(rpow(w, i as nat), o[i]));
    }
    assert forall|i: int| 0 <= i < h implies or[i] == o[i] by {
        assert(f[i] == radd(e[i], rmul(rpow(w, i as nat), o[i])));
        assert(f[i + h] == rsub(e[i], rmul(rpow(w, i as nat), o[i])));
        lemma_pow_inv(w, wi, i as nat);
        lemma_butterfly_o(e[i], o[i], rpow(w, i as nat), rpow(wi, i as nat));
    }
    assert(er =~= e);
    assert(or =~= o);
    // The squared twiddles still cancel.
    lemma_pow_inv(w, wi, 2);
    lemma_pow1(w as int);
    lemma_pow1(wi as int);
    lemma_pow_adds(w as int, 1, 1);
    lemma_pow_adds(wi as int, 1, 1);
    lemma_mul_mod_noop(w as int, w as int, fr_order() as int);
    lemma_mul_mod_noop(wi as int, wi as int, fr_order() as int);
    assert(rpow(w, 2) == w2);
    assert(rpow(wi, 2) == wi2);
    lemma_fft_round_trip(even_part(s), w2, wi2);
    lemma_fft_round_trip(odd_part(s), w2, wi2);
    assert(ifft_spec(f, wi) == interleave(even_part(s), odd_part(s)));
    assert(interleave(even_part(s), odd_part(s)) =~= s);
}

} // verus!
