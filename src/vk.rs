//! The verification key and its binary layout.
use crate::codec::{
    g1_compressed_decodes_to, g1_compressed_error, g2_compressed_spec,
    unchecked_compressed_x_to_g1_point, unchecked_compressed_x_to_g2_point,
};
use crate::curve::{g2_negate, g2_neg};
use crate::error::Groth16Error;
use crate::field::{copy_bytes, G1Point, G2Point, Scalar};
use vstd::prelude::*;

verus! {

/// The key's points of the first group: `alpha` and the input basis `k`.
pub struct Groth16G1 {
    pub alpha: G1Point,
    pub k: Vec<G1Point>,
}

/// The key's points of the second group; `beta` is held negated.
pub struct Groth16G2 {
    pub beta: G2Point,
    pub delta: G2Point,
    pub gamma: G2Point,
}

/// A Groth16 verification key.
pub struct Groth16VKey {
    pub g1: Groth16G1,
    pub g2: Groth16G2,
}

/// Offset of the count of `k` points.
pub const NUM_K_OFFSET: usize = 288;

/// Offset of the first `k` point.
pub const K_OFFSET: usize = 292;

/// The 4-byte big-endian count of `k` points.
pub open spec fn num_k_of(b: Seq<u8>) -> nat {
    b[288] as nat * 16777216 + b[289] as nat * 65536 + b[290] as nat * 256 + b[291] as nat
}

/// The bytes of the `i`-th compressed `k` point.
pub open spec fn k_chunk(b: Seq<u8>, i: int) -> Seq<u8> {
    b.subrange(292 + 32 * i, 292 + 32 * i + 32)
}

/// The first error among the first `n` points of `k`, if any.
pub open spec fn k_error(b: Seq<u8>, n: nat) -> Option<Groth16Error>
    decreases n,
{
    if n == 0 {
        None
    } else {
        match k_error(b, (n - 1) as nat) {
            Some(e) => Some(e),
            None => g1_compressed_error(k_chunk(b, n - 1)),
        }
    }
}

/// Whether the buffer is too short for its header or for the `k` points that
/// the header declares.
pub open spec fn vkey_too_short(b: Seq<u8>) -> bool {
    b.len() < 292 || b.len() < 292 + 32 * num_k_of(b)
}

/// The error that parsing a verification key meets first, if any.
pub open spec fn vkey_error(b: Seq<u8>) -> Option<Groth16Error> {
    if vkey_too_short(b) {
        Some(Groth16Error::WrongLength)
    } else if g1_compressed_error(b.subrange(0, 32)) is Some {
        g1_compressed_error(b.subrange(0, 32))
    } else if g2_compressed_spec(b.subrange(64, 128)) is Err {
        Some(g2_compressed_spec(b.subrange(64, 128))->Err_0)
    } else if g2_compressed_spec(b.subrange(128, 192)) is Err {
        Some(g2_compressed_spec(b.subrange(128, 192))->Err_0)
    } else if g2_compressed_spec(b.subrange(224, 288)) is Err {
        Some(g2_compressed_spec(b.subrange(224, 288))->Err_0)
    } else {
        k_error(b, num_k_of(b))
    }
}

impl Groth16VKey {
    /// Whether this key is what a well-formed buffer `b` decodes to, with
    /// `beta` negated.
    pub open spec fn decoded_from(&self, b: Seq<u8>) -> bool {
        &&& g1_compressed_decodes_to(b.subrange(0, 32), self.g1.alpha.model())
        &&& g2_compressed_spec(b.subrange(64, 128)) matches Ok(beta)
            && self.g2.beta.model() == g2_negate(beta)
        &&& g2_compressed_spec(b.subrange(128, 192)) == Ok::<_, Groth16Error>(self.g2.gamma.model())
        &&& g2_compressed_spec(b.subrange(224, 288)) == Ok::<_, Groth16Error>(self.g2.delta.model())
        &&& self.g1.k@.len() == num_k_of(b)
        &&& forall|i: int|
            0 <= i < self.g1.k@.len() ==> g1_compressed_decodes_to(
                #[trigger] k_chunk(b, i),
                self.g1.k@[i].model(),
            )
    }

    /// Parses a verification key: `alpha` at 0, `beta` at 64, `gamma` at 128,
    /// `delta` at 224, a big-endian count at 288 and that many compressed
    /// points of `k` from 292 on. `beta` is stored negated; the point at
    /// infinity is its own negation.
    pub fn from_bytes(buffer: &[u8]) -> (r: Result<Groth16VKey, Groth16Error>)
        ensures
            match vkey_error(buffer@) {
                Some(e) => r == Err::<Groth16VKey, Groth16Error>(e),
                None => r matches Ok(vk) && vk.decoded_from(buffer@),
            },
    {
        if buffer.len() < K_OFFSET {
            return Err(Groth16Error::WrongLength);
        }
        let num_k: u32 = buffer[NUM_K_OFFSET] as u32 * 16777216 + buffer[NUM_K_OFFSET + 1] as u32
            * 65536 + buffer[NUM_K_OFFSET + 2] as u32 * 256 + buffer[NUM_K_OFFSET + 3] as u32;
        if (buffer.len() as u64) < K_OFFSET as u64 + 32 * (num_k as u64) {
            return Err(Groth16Error::WrongLength);
        }
        let alpha_bytes = copy_bytes(buffer, 0, 32);
        let g1_alpha = match unchecked_compressed_x_to_g1_point(alpha_bytes.as_slice()) {
            Ok(p) => p,
            Err(e) => return Err(e),
        };
        let beta_bytes = copy_bytes(buffer, 64, 64);
        let g2_beta = match unchecked_compressed_x_to_g2_point(beta_bytes.as_slice()) {
            Ok(p) => p,
            Err(e) => return Err(e),
        };
        let gamma_bytes = copy_bytes(buffer, 128, 64);
        let g2_gamma = match unchecked_compressed_x_to_g2_point(gamma_bytes.as_slice()) {
            Ok(p) => p,
            Err(e) => return Err(e),
        };
        let delta_bytes = copy_bytes(buffer, 224, 64);
        let g2_delta = match unchecked_compressed_x_to_g2_point(delta_bytes.as_slice()) {
            Ok(p) => p,
            Err(e) => return Err(e),
        };
        let mut k: Vec<G1Point> = Vec::new();
        let mut offset: usize = K_OFFSET;
        let mut i: u32 = 0;
        while i < num_k
            invariant
                !vkey_too_short(buffer@),
                num_k == num_k_of(buffer@),
                buffer@.len() == buffer.len(),
                g1_compressed_error(buffer@.subrange(0, 32)) is None,
                g1_compressed_decodes_to(buffer@.subrange(0, 32), g1_alpha.model()),
                g2_compressed_spec(buffer@.subrange(64, 128)) == Ok::<_, Groth16Error>(g2_beta.model()),
                g2_compressed_spec(buffer@.subrange(128, 192)) == Ok::<_, Groth16Error>(g2_gamma.model()),
                g2_compressed_spec(buffer@.subrange(224, 288)) == Ok::<_, Groth16Error>(g2_delta.model()),
                i <= num_k,
                offset == 292 + 32 * i,
                k@.len() == i,
                k_error(buffer@, i as nat) is None,
                forall|j: int|
                    0 <= j < i ==> g1_compressed_decodes_to(
                        #[trigger] k_chunk(buffer@, j),
                        k@[j].model(),
                    ),
            decreases num_k - i,
        {
            assert(offset + 32 <= buffer.len()) by (nonlinear_arith)
                requires
                    offset == 292 + 32 * i,
                    i < num_k,
                    buffer.len() >= 292 + 32 * num_k,
            ;
            let chunk = copy_bytes(buffer, offset, 32);
            assert(chunk@ == k_chunk(buffer@, i as int));
            match unchecked_compressed_x_to_g1_point(chunk.as_slice()) {
                Ok(p) => k.push(p),
                Err(e) => {
                    assert(k_error(buffer@, (i + 1) as nat) == Some(e));
                    proof {
                        lemma_k_error_persists(buffer@, (i + 1) as nat, num_k as nat);
                    }
                    return Err(e);
                },
            }
            offset = offset + 32;
            i = i + 1;
        }
        let beta = if g2_beta.is_identity() {
            g2_beta
        } else {
            g2_neg(&g2_beta)
        };
        let vk = Groth16VKey {
            g1: Groth16G1 { alpha: g1_alpha, k },
            g2: Groth16G2 { beta, gamma: g2_gamma, delta: g2_delta },
        };
        Ok(vk)
    }
}

impl<'a> TryFrom<&'a [u8]> for Groth16VKey {
    type Error = Groth16Error;

    /// The same as `Groth16VKey::from_bytes`.
    fn try_from(buffer: &'a [u8]) -> (r: Result<Groth16VKey, Groth16Error>)
        ensures
            match vkey_error(buffer@) {
                Some(e) => r == Err::<Groth16VKey, Groth16Error>(e),
                None => r matches Ok(vk) && vk.decoded_from(buffer@),
            },
    {
        Groth16VKey::from_bytes(buffer)
    }
}

impl<'a> vstd::std_specs::convert::TryFromSpecImpl<&'a [u8]> for Groth16VKey {
    /// What parsing gives is stated by the `ensures` of `try_from`, not by a
    /// spec function: the first group's roots are described, not computed.
    open spec fn obeys_try_from_spec() -> bool {
        false
    }

    open spec fn try_from_spec(buffer: &'a [u8]) -> Result<Groth16VKey, Groth16Error> {
        Err(Groth16Error::WrongLength)
    }
}

proof fn lemma_k_error_persists(b: Seq<u8>, m: nat, n: nat)
    requires
        m <= n,
        k_error(b, m) is Some,
    ensures
        k_error(b, n) == k_error(b, m),
    decreases n - m,
{
    if m < n {
        lemma_k_error_persists(b, m, (n - 1) as nat);
    }
}

/// A key that declares no `k` points parses exactly when its four header
/// points decode, and then holds an empty `k`. As `verify` asks for one more
/// point in `k` than there are public inputs, no input list matches it.
pub proof fn lemma_key_without_points(b: Seq<u8>, vk: Groth16VKey, inputs: Seq<Scalar>)
    requires
        b.len() >= 292,
        num_k_of(b) == 0,
    ensures
        vkey_error(b) is None <==> {
            &&& g1_compressed_error(b.subrange(0, 32)) is None
            &&& g2_compressed_spec(b.subrange(64, 128)) is Ok
            &&& g2_compressed_spec(b.subrange(128, 192)) is Ok
            &&& g2_compressed_spec(b.subrange(224, 288)) is Ok
        },
        vk.decoded_from(b) ==> vk.g1.k@.len() == 0 && inputs.len() + 1 != vk.g1.k@.len(),
{
}

} // verus!
