use groth16_prover::key::ProverError;
use groth16_prover::limb::Fe;
use groth16_prover::prover::g1_to_affine;
use groth16_prover::{FullProver, ProverInitError};

fn push_u32(d: &mut Vec<u8>, v: u32) {
    for j in 0..4 {
        d.push(((v >> (8 * j)) & 0xff) as u8);
    }
}

fn push_limbs(d: &mut Vec<u8>, ls: [u64; 4]) {
    for l in ls {
        for j in 0..8 {
            d.push(((l >> (8 * j)) & 0xff) as u8);
        }
    }
}

fn push_small(d: &mut Vec<u8>, v: u64) {
    push_limbs(d, [v, 0, 0, 0]);
}

/// The generator (1, 2) as a stored affine point.
fn push_gen(d: &mut Vec<u8>) {
    push_small(d, 1);
    push_small(d, 2);
}

/// The zero pair: the point at infinity.
fn push_inf(d: &mut Vec<u8>) {
    push_small(d, 0);
    push_small(d, 0);
}

/// The standard G2 generator as a stored point.
fn push_g2_gen(d: &mut Vec<u8>) {
    push_limbs(d, [0x46debd5cd992f6ed, 0x674322d4f75edadd, 0x426a00665e5c4479, 0x1800deef121f1e76]);
    push_limbs(d, [0x97e485b7aef312c2, 0xf1aa493335a9e712, 0x7260bfb731fb5d25, 0x198e9393920d483a]);
    push_limbs(d, [0x4ce6cc0166fa7daa, 0xe3d1e7690c43d37b, 0x4aab71808dcb408f, 0x12c85ea5db8c6deb]);
    push_limbs(d, [0x55acdadcd122975b, 0xbc4b313370b38ef3, 0xec9e99ad690c3395, 0x90689d0585ff075]);
}

/// The zero quadruple: the G2 point at infinity.
fn push_g2_inf(d: &mut Vec<u8>) {
    for _ in 0..4 {
        push_small(d, 0);
    }
}

/// A well-formed proving-key file: four wires, a four-point domain.
fn toy_key() -> Vec<u8> {
    let mut d = Vec::new();
    d.extend_from_slice(b"zkey");
    push_u32(&mut d, 1); // version
    push_u32(&mut d, 1); // curve: alt_bn128
    push_u32(&mut d, 4); // wires
    push_u32(&mut d, 1); // public inputs
    push_u32(&mut d, 2); // log2 of the domain
    // The order-four root of unity of the scalar field.
    push_limbs(
        &mut d,
        [0x231204708f703636, 0x5cea24f6fd736bec, 0x48b6e193fd84104, 0x30644e72e131a029],
    );
    // Three 4 x 4 constraint matrices, row-major.
    for m in 0..3u64 {
        for c in 0..4u64 {
            for i in 0..4u64 {
                push_small(&mut d, (m * 7 + c * 3 + i) % 5);
            }
        }
    }
    // a, b, c queries: four points each.
    for _ in 0..3 {
        push_gen(&mut d);
        push_gen(&mut d);
        push_inf(&mut d);
        push_gen(&mut d);
    }
    // h query: four points.
    push_gen(&mut d);
    push_inf(&mut d);
    push_gen(&mut d);
    push_gen(&mut d);
    // alpha, beta, delta.
    push_gen(&mut d);
    push_gen(&mut d);
    push_gen(&mut d);
    // The G2 B-query: four points.
    push_g2_gen(&mut d);
    push_g2_inf(&mut d);
    push_g2_gen(&mut d);
    push_g2_gen(&mut d);
    // beta and delta in G2.
    push_g2_gen(&mut d);
    push_g2_gen(&mut d);
    d
}

/// A well-formed witness for the four-wire key.
fn toy_witness() -> Vec<u8> {
    let mut d = Vec::new();
    d.extend_from_slice(b"wtns");
    push_u32(&mut d, 1); // version
    push_u32(&mut d, 1); // curve
    push_u32(&mut d, 32); // element width in bytes
    push_u32(&mut d, 4); // wires
    push_small(&mut d, 1);
    push_small(&mut d, 3);
    push_small(&mut d, 4);
    push_small(&mut d, 12);
    d
}

fn small(v: u64) -> Fe {
    Fe { l0: v, l1: 0, l2: 0, l3: 0 }
}

#[test]
fn prover_loads_toy_key() {
    let key = toy_key();
    assert!(FullProver::new(&key).is_ok());
}

#[test]
fn prove_succeeds_on_toy_circuit() {
    let prover = FullProver::new(&toy_key()).expect("key loads");
    let witness = toy_witness();
    let proof = prover.prove(&witness, &small(7), &small(11));
    assert!(proof.is_ok());
}

#[test]
fn prove_is_deterministic_for_fixed_blinding() {
    let prover = FullProver::new(&toy_key()).expect("key loads");
    let witness = toy_witness();
    let p1 = prover.prove(&witness, &small(7), &small(11)).expect("proves");
    let p2 = prover.prove(&witness, &small(7), &small(11)).expect("proves");
    assert_eq!(p1, p2);
}

#[test]
fn prove_differs_under_other_blinding() {
    let prover = FullProver::new(&toy_key()).expect("key loads");
    let witness = toy_witness();
    let p1 = prover.prove(&witness, &small(7), &small(11)).expect("proves");
    let p2 = prover.prove(&witness, &small(8), &small(11)).expect("proves");
    assert_ne!(p1.a, p2.a);
}

#[test]
fn prove_still_succeeds_on_corrupted_wire_value() {
    // The prover does not check satisfiability: generation succeeds on a
    // witness whose wire values no longer satisfy the circuit, and the
    // proof comes out different.
    let prover = FullProver::new(&toy_key()).expect("key loads");
    let witness = toy_witness();
    let mut bad = witness.clone();
    bad[20] = bad[20].wrapping_add(1);
    let good_proof = prover.prove(&witness, &small(7), &small(11)).expect("proves");
    let bad_proof = prover.prove(&bad, &small(7), &small(11)).expect("still proves");
    assert_ne!(good_proof, bad_proof);
}

#[test]
fn new_fails_fast_on_corrupted_magic() {
    // With a corrupted magic header no prover value exists at all, so a
    // later proof request cannot even be phrased.
    let mut key = toy_key();
    key[0] = key[0].wrapping_add(1);
    let r = FullProver::new(&key);
    assert!(matches!(r, Err(ProverInitError::ZKeyFileLoadError)));
}

#[test]
fn new_rejects_out_of_range_matrix_entry() {
    // Overwrite the first matrix element with the scalar order itself.
    let mut key = toy_key();
    let r_limbs: [u64; 4] =
        [0x43e1f593f0000001, 0x2833e84879b97091, 0xb85045b68181585d, 0x30644e72e131a029];
    let mut bytes = Vec::new();
    push_limbs(&mut bytes, r_limbs);
    key[56..88].copy_from_slice(&bytes);
    assert!(matches!(FullProver::new(&key), Err(ProverInitError::ZKeyFileLoadError)));
}

#[test]
fn new_rejects_point_off_curve() {
    // A point section entry (3, 2) does not satisfy the curve equation.
    let key = toy_key();
    let pbase = 56 + 96 * 16;
    let mut bad = key.clone();
    bad[pbase] = 3;
    assert!(matches!(FullProver::new(&bad), Err(ProverInitError::ZKeyFileLoadError)));
}

#[test]
fn witness_count_mismatch_is_invalid_input() {
    let prover = FullProver::new(&toy_key()).expect("key loads");
    // Three wires instead of the four the key expects.
    let mut d = Vec::new();
    d.extend_from_slice(b"wtns");
    push_u32(&mut d, 1);
    push_u32(&mut d, 1);
    push_u32(&mut d, 32);
    push_u32(&mut d, 3);
    push_small(&mut d, 1);
    push_small(&mut d, 3);
    push_small(&mut d, 4);
    let r = prover.prove(&d, &small(7), &small(11));
    assert!(matches!(r, Err(ProverError::InvalidInput)));
}

#[test]
fn witness_foreign_curve_is_curve_mismatch() {
    let prover = FullProver::new(&toy_key()).expect("key loads");
    let mut d = toy_witness();
    d[8] = 2;
    let r = prover.prove(&d, &small(7), &small(11));
    assert!(matches!(r, Err(ProverError::WitnessGenerationInvalidCurve)));
}

#[test]
fn witness_oversized_element_is_invalid_input() {
    let prover = FullProver::new(&toy_key()).expect("key loads");
    let mut d = toy_witness();
    // Overwrite the first wire with the scalar order itself.
    let r_limbs: [u64; 4] =
        [0x43e1f593f0000001, 0x2833e84879b97091, 0xb85045b68181585d, 0x30644e72e131a029];
    let mut bytes = Vec::new();
    push_limbs(&mut bytes, r_limbs);
    d[20..52].copy_from_slice(&bytes);
    let r = prover.prove(&d, &small(7), &small(11));
    assert!(matches!(r, Err(ProverError::InvalidInput)));
}

#[test]
fn proof_points_normalize_to_affine() {
    let prover = FullProver::new(&toy_key()).expect("key loads");
    let witness = toy_witness();
    let proof = prover.prove(&witness, &small(7), &small(11)).expect("proves");
    let (_, _, a_inf) = g1_to_affine(&proof.a).expect("normalizes");
    assert!(!a_inf);
    // The point at infinity serializes as the zero pair.
    let inf = groth16_prover::curve::G1 { x: small(0), y: small(1), z: small(0) };
    let (x, y, is_inf) = g1_to_affine(&inf).expect("infinity normalizes");
    assert!(is_inf);
    assert_eq!(x, small(0));
    assert_eq!(y, small(0));
}
