use groth16_prover::curve::{g1_add, g1_smul, G1};
use groth16_prover::field::{add_mod, inv_mod, mul_mod, sub_mod};
use groth16_prover::fft::{fft, ifft};
use groth16_prover::key::{parse_zkey, ProverInitError};
use groth16_prover::limb::Fe;
use groth16_prover::msm::msm;
use groth16_prover::params::{fr_inv2, q_modulus, r_modulus};

fn fe(l0: u64, l1: u64, l2: u64, l3: u64) -> Fe {
    Fe { l0, l1, l2, l3 }
}

fn small(v: u64) -> Fe {
    fe(v, 0, 0, 0)
}

/// The generator of G1: (1, 2).
fn g1_gen() -> G1 {
    G1 { x: small(1), y: small(2), z: small(1) }
}

/// Normalize a projective point to its affine coordinates.
fn to_affine(p: &G1) -> (Fe, Fe) {
    let q = q_modulus();
    let zi = inv_mod(&p.z, &q).expect("point at infinity has no affine form");
    (mul_mod(&p.x, &zi, &q), mul_mod(&p.y, &zi, &q))
}

#[test]
fn dummy_prove_test() {
    assert_eq!(2 + 2, 4);
}

#[test]
fn field_add_sub_round_trip() {
    let m = r_modulus();
    let a = fe(0xdeadbeef, 7, 0, 0x123456789);
    let b = fe(42, 0, 0xffff, 1);
    let s = add_mod(&a, &b, &m);
    let back = sub_mod(&s, &b, &m);
    assert_eq!(back, a);
}

#[test]
fn field_mul_exact() {
    let m = r_modulus();
    let a = small(6);
    let b = small(7);
    assert_eq!(mul_mod(&a, &b, &m), small(42));
}

#[test]
fn field_inv_two_is_inverse_of_two() {
    let m = r_modulus();
    let two = small(2);
    let inv2 = fr_inv2();
    assert_eq!(mul_mod(&two, &inv2, &m), small(1));
    let computed = inv_mod(&two, &m).expect("two is invertible");
    assert_eq!(computed, inv2);
}

#[test]
fn field_inv_zero_is_none() {
    let m = r_modulus();
    assert!(inv_mod(&small(0), &m).is_none());
}

#[test]
fn fft_round_trip_len2() {
    // The twiddle of the two-point domain is -1, its own inverse.
    let w = fe(0x43e1f593f0000000, 0x2833e84879b97091, 0xb85045b68181585d, 0x30644e72e131a029);
    let v = vec![small(5), small(9)];
    let f = fft(&v, &w);
    let back = ifft(&f, &w);
    assert_eq!(back, v);
    assert_ne!(f, v);
}

#[test]
fn fft_round_trip_len4() {
    let w = fe(0x231204708f703636, 0x5cea24f6fd736bec, 0x48b6e193fd84104, 0x30644e72e131a029);
    let wi = fe(0x20cff123608fc9cb, 0xcb49c3517c4604a5, 0xb3c4d79d41a91758, 0x0);
    let v = vec![small(1), small(2), small(3), small(4)];
    let f = fft(&v, &w);
    let back = ifft(&f, &wi);
    assert_eq!(back, v);
}

#[test]
fn fft_round_trip_len16() {
    let w = fe(0xb11509c6e306460b, 0x996dfbe1174efb98, 0x1c6e4f4594dd508c, 0x21082ca216cbbf4e);
    let wi = fe(0xb85a71e6373428de, 0x74954d30aeb0337e, 0x2bfc85eb303402b7, 0x2e40daf409556c0);
    let mut v = Vec::new();
    for t in 0..16u64 {
        v.push(small(t * t + 1));
    }
    let f = fft(&v, &w);
    let back = ifft(&f, &wi);
    assert_eq!(back, v);
}

#[test]
fn fft_round_trip_len256() {
    let w = fe(0xc893619174a57a76, 0x617942546750f230, 0xf086204a9f36ffb0, 0x7b0c561a6148404);
    let wi = fe(0x692c553d0329f5d6, 0xa54cf8c68712848a, 0x64751ad938e2b5e6, 0x204bd3277422fad3);
    let mut v = Vec::new();
    for t in 0..256u64 {
        v.push(small(t.wrapping_mul(0x9e3779b9) % 1000003));
    }
    let f = fft(&v, &w);
    let back = ifft(&f, &wi);
    assert_eq!(back, v);
}

#[test]
fn smul_thirteen_times_generator() {
    let g = g1_gen();
    let p = g1_smul(&small(13), &g);
    let (x, y) = to_affine(&p);
    assert_eq!(x, fe(0x8b529e030f52f3f, 0xf8b8c3fdb41469e4, 0xf56093465679f17, 0x5e86f8cc8a7a4f1));
    assert_eq!(
        y,
        fe(0x6f020725d22bcd90, 0x2bc8738f715417dd, 0xbed8e913d3ccb42b, 0x2857bd14bbc09767)
    );
}

#[test]
fn msm_equals_naive_sum() {
    // 3 * G + 5 * (2 G) = 13 G, computed once by the engine and once
    // point by point.
    let g = g1_gen();
    let two_g = G1 {
        x: fe(0xd3c208c16d87cfd3, 0xd97816a916871ca8, 0x9b85045b68181585, 0x30644e72e131a02),
        y: fe(0xff3ebf7a5a18a2c4, 0x68a6a449e3538fc7, 0xe7845f96b2ae9c0a, 0x15ed738c0e0a7c92),
        z: small(1),
    };
    let bases = vec![g, two_g];
    let scalars = vec![small(3), small(5)];
    let r = msm(&bases, &scalars);
    let (x, y) = to_affine(&r);
    let naive = g1_add(&g1_smul(&small(3), &g), &g1_smul(&small(5), &two_g));
    let (nx, ny) = to_affine(&naive);
    assert_eq!(x, nx);
    assert_eq!(y, ny);
    assert_eq!(x, fe(0x8b529e030f52f3f, 0xf8b8c3fdb41469e4, 0xf56093465679f17, 0x5e86f8cc8a7a4f1));
    assert_eq!(
        y,
        fe(0x6f020725d22bcd90, 0x2bc8738f715417dd, 0xbed8e913d3ccb42b, 0x2857bd14bbc09767)
    );
}

#[test]
fn msm_of_nothing_is_infinity() {
    let r = msm(&Vec::new(), &Vec::new());
    assert_eq!(r.z, small(0));
}

#[test]
fn zkey_corrupted_magic_is_load_error() {
    // A file of the right general shape whose magic bytes are wrong.
    let d = vec![0u8; 56];
    assert_eq!(parse_zkey(&d), Err(ProverInitError::ZKeyFileLoadError));
}

#[test]
fn zkey_truncated_is_load_error() {
    let d = vec![0x7a, 0x6b, 0x65, 0x79, 1, 0, 0];
    assert_eq!(parse_zkey(&d), Err(ProverInitError::ZKeyFileLoadError));
}

#[test]
fn zkey_foreign_curve_is_unsupported_curve() {
    let mut d = vec![0u8; 56];
    d[0] = 0x7a;
    d[1] = 0x6b;
    d[2] = 0x65;
    d[3] = 0x79;
    d[4] = 1;
    d[8] = 2;
    assert_eq!(parse_zkey(&d), Err(ProverInitError::UnsupportedZKeyCurve));
}

#[test]
fn zkey_oversized_domain_is_unsupported() {
    let mut d = vec![0u8; 56];
    d[0] = 0x7a;
    d[1] = 0x6b;
    d[2] = 0x65;
    d[3] = 0x79;
    d[4] = 1;
    d[8] = 1;
    d[20] = 29;
    assert_eq!(parse_zkey(&d), Err(ProverInitError::UnsupportedDomainSize));
}

#[test]
fn zkey_non_primitive_generator_is_unsupported() {
    // omega = 1 satisfies omega^(2^k) = 1 for every k but generates a
    // one-point domain; the loader refuses it for k >= 1.
    let mut d = vec![0u8; 56];
    d[0] = 0x7a;
    d[1] = 0x6b;
    d[2] = 0x65;
    d[3] = 0x79;
    d[4] = 1;
    d[8] = 1;
    d[20] = 2;
    d[24] = 1;
    assert_eq!(parse_zkey(&d), Err(ProverInitError::UnsupportedDomainSize));
}

#[test]
fn zkey_zero_generator_is_unsupported_domain() {
    // Header fine, k = 0, omega = 0: zero to the first power is not one.
    let mut d = vec![0u8; 56];
    d[0] = 0x7a;
    d[1] = 0x6b;
    d[2] = 0x65;
    d[3] = 0x79;
    d[4] = 1;
    d[8] = 1;
    assert_eq!(parse_zkey(&d), Err(ProverInitError::UnsupportedDomainSize));
}
