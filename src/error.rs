use vstd::prelude::*;

verus! {

/// Why decoding or verification failed.
#[derive(Clone, Copy, Debug, PartialEq, Eq, Structural)]
pub enum Groth16Error {
    /// A buffer has the wrong length for what it holds.
    WrongLength,
    /// The two flag bits of a compressed point are `00`.
    UndefinedFlag,
    /// A compressed point is malformed: a non-zero body under the infinity
    /// flag, or an x-coordinate with no point on the curve.
    InvalidPoint,
    /// A coordinate of an uncompressed point is not below the field's prime.
    NotFieldElement,
    /// The coordinates of an uncompressed point are not on the curve.
    NotOnCurve,
    /// The number of public inputs does not match the verification key.
    InputLengthMismatch,
    /// The inputs are well formed but the pairing check rejects the proof.
    VerificationFailed,
}

} // verus!
