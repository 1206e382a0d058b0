//! A Groth16-style SNARK prover over the alt_bn128 curve.
//!
//! The crate builds the proving pipeline from verified parts: fixed-width
//! modular arithmetic over the base and scalar fields, projective curve
//! operations, multi-exponentiation, FFT-based polynomial evaluation and
//! interpolation, binary loaders for proving keys and witnesses, and the
//! prover orchestration itself.

pub mod bytes;
pub mod curve;
pub mod curve2;
pub mod fft;
pub mod key;
pub mod field;
pub mod params;
pub mod limb;
pub mod msm;
pub mod prover;

pub use key::ProverError;
pub use key::ProverInitError;
pub use prover::FullProver;
pub use prover::Proof;

