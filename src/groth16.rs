//! The proof, its binary layout, and the Groth16 verification equation.
use crate::codec::{
    g1_uncompressed_spec, g2_uncompressed_spec, uncompressed_bytes_to_g1_point,
    uncompressed_bytes_to_g2_point,
};
use crate::curve::{
    g1_add, g1_mul, g1_neg, g1_negate, g1_scaled, g1_sum, pairing_check, pairing_product_is_one,
    pairs_model,
};
use crate::error::Groth16Error;
use crate::field::{
    copy_bytes, g2_identity_model, jacobian, G1Point, G1Projective, G2Point, Scalar,
};
use crate::vk::Groth16VKey;
use vstd::prelude::*;

verus! {

/// A Groth16 proof: `ar` and `krs` in the first group, `bs` in the second.
pub struct Groth16Proof {
    pub ar: G1Point,
    pub krs: G1Point,
    pub bs: G2Point,
}

/// The length of an encoded proof; bytes after it are ignored.
pub const PROOF_LEN: usize = 256;

/// The models of the points of `k`.
pub open spec fn points_model(k: Seq<G1Point>) -> Seq<(nat, nat)> {
    k.map_values(|p: G1Point| p.model())
}

/// The values of the scalars.
pub open spec fn scalars_model(s: Seq<Scalar>) -> Seq<nat> {
    s.map_values(|v: Scalar| v.value())
}

/// `k[0] + s[0] * k[1] + ... + s[n - 1] * k[n]`, summed from the left.
pub open spec fn prepared_spec(k: Seq<(nat, nat)>, s: Seq<nat>, n: nat) -> (nat, nat, nat)
    decreases n,
{
    if n == 0 {
        jacobian(k[0])
    } else {
        g1_sum(
            prepared_spec(k, s, (n - 1) as nat),
            g1_scaled(jacobian(k[n as int]), s[n - 1]),
        )
    }
}

/// The four pairs of the verification equation:
/// `(-ar, bs)`, `(prepared, gamma)`, `(krs, delta)`, `(alpha, beta)`, where the
/// key holds `beta` already negated.
pub open spec fn verification_pairs(
    proof: Groth16Proof,
    vk: Groth16VKey,
    prepared: (nat, nat, nat),
) -> Seq<((nat, nat, nat), ((nat, nat), (nat, nat)))> {
    seq![
        (jacobian(g1_negate(proof.ar.model())), proof.bs.model()),
        (prepared, vk.g2.gamma.model()),
        (jacobian(proof.krs.model()), vk.g2.delta.model()),
        (jacobian(vk.g1.alpha.model()), vk.g2.beta.model()),
    ]
}

/// Whether a pair contributes to the pairing product: a pair with a point at
/// infinity on either side contributes the identity and is left out.
pub open spec fn is_live(pair: ((nat, nat, nat), ((nat, nat), (nat, nat)))) -> bool {
    pair.0.2 != 0 && pair.1 != g2_identity_model()
}

/// The pairs of `s` that contribute to the pairing product, in order.
pub open spec fn live_pairs(s: Seq<((nat, nat, nat), ((nat, nat), (nat, nat)))>) -> Seq<
    ((nat, nat, nat), ((nat, nat), (nat, nat))),
>
    decreases s.len(),
{
    if s.len() == 0 {
        s
    } else if is_live(s.last()) {
        live_pairs(s.drop_last()).push(s.last())
    } else {
        live_pairs(s.drop_last())
    }
}

/// Appends the pair unless a point of it is at infinity.
fn push_live(live: &mut Vec<(G1Projective, G2Point)>, p: G1Projective, q: G2Point)
    ensures
        pairs_model(final(live)@) == if is_live((p.model(), q.model())) {
            pairs_model(old(live)@).push((p.model(), q.model()))
        } else {
            pairs_model(old(live)@)
        },
{
    if !p.is_identity() && !q.is_identity() {
        let ghost m = (p.model(), q.model());
        live.push((p, q));
        assert(pairs_model(live@) =~= pairs_model(old(live)@).push(m));
    }
}

/// Combines the key's input basis with the public inputs:
/// `k[0] + sum of public_inputs[i] * k[i + 1]`.
pub fn prepare_inputs(vk: &Groth16VKey, public_inputs: &[Scalar]) -> (r: Result<G1Projective, Groth16Error>)
    ensures
        public_inputs@.len() + 1 != vk.g1.k@.len() ==> r == Err::<G1Projective, Groth16Error>(
            Groth16Error::InputLengthMismatch,
        ),
        public_inputs@.len() + 1 == vk.g1.k@.len() ==> (r matches Ok(p) && p.model()
            == prepared_spec(
            points_model(vk.g1.k@),
            scalars_model(public_inputs@),
            public_inputs@.len(),
        )),
{
    let k = &vk.g1.k;
    if public_inputs.len() >= k.len() || public_inputs.len() + 1 != k.len() {
        return Err(Groth16Error::InputLengthMismatch);
    }
    let ghost km = points_model(k@);
    let ghost sm = scalars_model(public_inputs@);
    let mut acc = k[0].to_jacobian();
    let mut i: usize = 0;
    while i < public_inputs.len()
        invariant
            public_inputs@.len() + 1 == k@.len(),
            km == points_model(k@),
            sm == scalars_model(public_inputs@),
            i <= public_inputs@.len(),
            acc.model() == prepared_spec(km, sm, i as nat),
        decreases public_inputs.len() - i,
    {
        let term = g1_mul(&k[i + 1].to_jacobian(), &public_inputs[i]);
        acc = g1_add(&acc, &term);
        i = i + 1;
    }
    Ok(acc)
}

impl Groth16Proof {
    /// Parses a proof: uncompressed `ar` at 0, `bs` at 64 and `krs` at 192.
    pub fn from_bytes(buffer: &[u8]) -> (r: Result<Groth16Proof, Groth16Error>)
        ensures
            buffer@.len() < 256 ==> r == Err::<Groth16Proof, Groth16Error>(
                Groth16Error::WrongLength,
            ),
            buffer@.len() >= 256 ==> match (
                g1_uncompressed_spec(buffer@.subrange(0, 64)),
                g2_uncompressed_spec(buffer@.subrange(64, 192)),
                g1_uncompressed_spec(buffer@.subrange(192, 256)),
            ) {
                (Err(e), _, _) => r == Err::<Groth16Proof, Groth16Error>(e),
                (Ok(_), Err(e), _) => r == Err::<Groth16Proof, Groth16Error>(e),
                (Ok(_), Ok(_), Err(e)) => r == Err::<Groth16Proof, Groth16Error>(e),
                (Ok(a), Ok(b), Ok(c)) => r matches Ok(p) && p.ar.model() == a && p.bs.model() == b
                    && p.krs.model() == c,
            },
    {
        if buffer.len() < PROOF_LEN {
            return Err(Groth16Error::WrongLength);
        }
        let ar_bytes = copy_bytes(buffer, 0, 64);
        let ar = match uncompressed_bytes_to_g1_point(ar_bytes.as_slice()) {
            Ok(p) => p,
            Err(e) => return Err(e),
        };
        let bs_bytes = copy_bytes(buffer, 64, 128);
        let bs = match uncompressed_bytes_to_g2_point(bs_bytes.as_slice()) {
            Ok(p) => p,
            Err(e) => return Err(e),
        };
        let krs_bytes = copy_bytes(buffer, 192, 64);
        let krs = match uncompressed_bytes_to_g1_point(krs_bytes.as_slice()) {
            Ok(p) => p,
            Err(e) => return Err(e),
        };
        Ok(Groth16Proof { ar, bs, krs })
    }

    /// Checks the proof against a key and the public inputs: the pairing
    /// product of `verification_pairs` must be the target group's identity.
    pub fn verify(&self, vk: &Groth16VKey, public_inputs: &[Scalar]) -> (r: Result<(), Groth16Error>)
        ensures
            public_inputs@.len() + 1 != vk.g1.k@.len() ==> r == Err::<(), Groth16Error>(
                Groth16Error::InputLengthMismatch,
            ),
            public_inputs@.len() + 1 == vk.g1.k@.len() ==> {
                &&& r is Ok <==> pairing_product_is_one(
                    live_pairs(verification_pairs(
                        *self,
                        *vk,
                        prepared_spec(
                            points_model(vk.g1.k@),
                            scalars_model(public_inputs@),
                            public_inputs@.len(),
                        ),
                    )),
                )
                &&& r is Err ==> r == Err::<(), Groth16Error>(Groth16Error::VerificationFailed)
            },
    {
        let prepared = match prepare_inputs(vk, public_inputs) {
            Ok(p) => p,
            Err(e) => return Err(e),
        };
        let ghost s = verification_pairs(*self, *vk, prepared.model());
        let neg_ar = if self.ar.is_identity() {
            self.ar.to_jacobian()
        } else {
            g1_neg(&self.ar).to_jacobian()
        };
        assert(neg_ar.model() == s[0].0);
        let mut pairs: Vec<(G1Projective, G2Point)> = Vec::new();
        proof {
            assert(s.subrange(0, 0).len() == 0);
            assert(pairs_model(pairs@) =~= live_pairs(s.subrange(0, 0)));
        }
        push_live(&mut pairs, neg_ar, self.bs.copied());
        proof {
            assert(s.subrange(0, 1).drop_last() =~= s.subrange(0, 0));
            assert(s.subrange(0, 1).last() == s[0]);
            assert(pairs_model(pairs@) =~= live_pairs(s.subrange(0, 1)));
        }
        push_live(&mut pairs, prepared, vk.g2.gamma.copied());
        proof {
            assert(s.subrange(0, 2).drop_last() =~= s.subrange(0, 1));
            assert(s.subrange(0, 2).last() == s[1]);
            assert(pairs_model(pairs@) =~= live_pairs(s.subrange(0, 2)));
        }
        push_live(&mut pairs, self.krs.to_jacobian(), vk.g2.delta.copied());
        proof {
            assert(s.subrange(0, 3).drop_last() =~= s.subrange(0, 2));
            assert(s.subrange(0, 3).last() == s[2]);
            assert(pairs_model(pairs@) =~= live_pairs(s.subrange(0, 3)));
        }
        push_live(&mut pairs, vk.g1.alpha.to_jacobian(), vk.g2.beta.copied());
        proof {
            assert(s.subrange(0, 4).drop_last() =~= s.subrange(0, 3));
            assert(s.subrange(0, 4).last() == s[3]);
            assert(pairs_model(pairs@) =~= live_pairs(s.subrange(0, 4)));
            assert(s.subrange(0, 4) =~= s);
        }
        if pairing_check(&pairs) {
            Ok(())
        } else {
            Err(Groth16Error::VerificationFailed)
        }
    }
}

impl<'a> TryFrom<&'a [u8]> for Groth16Proof {
    type Error = Groth16Error;

    /// The same as `Groth16Proof::from_bytes`.
    fn try_from(buffer: &'a [u8]) -> (r: Result<Groth16Proof, Groth16Error>)
        ensures
            buffer@.len() < 256 ==> r == Err::<Groth16Proof, Groth16Error>(
                Groth16Error::WrongLength,
            ),
            buffer@.len() >= 256 ==> match (
                g1_uncompressed_spec(buffer@.subrange(0, 64)),
                g2_uncompressed_spec(buffer@.subrange(64, 192)),
                g1_uncompressed_spec(buffer@.subrange(192, 256)),
            ) {
                (Err(e), _, _) => r == Err::<Groth16Proof, Groth16Error>(e),
                (Ok(_), Err(e), _) => r == Err::<Groth16Proof, Groth16Error>(e),
                (Ok(_), Ok(_), Err(e)) => r == Err::<Groth16Proof, Groth16Error>(e),
                (Ok(a), Ok(b), Ok(c)) => r matches Ok(p) && p.ar.model() == a && p.bs.model() == b
                    && p.krs.model() == c,
            },
    {
        Groth16Proof::from_bytes(buffer)
    }
}

impl<'a> vstd::std_specs::convert::TryFromSpecImpl<&'a [u8]> for Groth16Proof {
    /// What parsing gives is stated by the `ensures` of `try_from`.
    open spec fn obeys_try_from_spec() -> bool {
        false
    }

    open spec fn try_from_spec(buffer: &'a [u8]) -> Result<Groth16Proof, Groth16Error> {
        Err(Groth16Error::WrongLength)
    }
}

} // verus!
