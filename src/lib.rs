//! Groth16 proof verification over the BN254 curve, for keys and proofs in the
//! compact binary encoding of the gnark toolkit.
pub mod codec;
pub mod curve;
pub mod error;
pub mod field;
pub mod groth16;
pub mod vk;

pub use error::Groth16Error;
pub use field::{FieldElement, Fq2Element, G1Point, G2Point, Scalar};
pub use groth16::Groth16Proof;
pub use vk::{Groth16G1, Groth16G2, Groth16VKey};
