use groth16_bn::codec::{
    deserialize_with_flags, uncompressed_bytes_to_g1_point, uncompressed_bytes_to_g2_point,
    unchecked_compressed_x_to_g1_point, unchecked_compressed_x_to_g2_point, CompressedPointFlag,
};
use groth16_bn::groth16::prepare_inputs;
use groth16_bn::{
    FieldElement, Fq2Element, G1Point, G2Point, Groth16Error, Groth16Proof, Groth16VKey, Scalar,
};
use substrate_bn_succinct::{AffineG1, AffineG2, Fq, Fq2, Fr, Group, G2};

const P_HEX: &str = "30644e72e131a029b85045b68181585d97816a916871ca8d3c208c16d87cfd47";

fn hex32(s: &str) -> Vec<u8> {
    (0..32).map(|i| u8::from_str_radix(&s[2 * i..2 * i + 2], 16).unwrap()).collect()
}

fn fq_bytes(f: Fq) -> Vec<u8> {
    let mut b = vec![0u8; 32];
    f.to_big_endian(&mut b).unwrap();
    b
}

fn fr(n: u64) -> Fr {
    Fr::from_str(&n.to_string()).unwrap()
}

fn scalar(n: u64) -> Scalar {
    let mut b = vec![0u8; 32];
    b[24..].copy_from_slice(&n.to_be_bytes());
    Scalar::from_be_slice(&b).unwrap()
}

fn g1(n: u64) -> AffineG1 {
    AffineG1::one() * fr(n)
}

fn g2(n: u64) -> AffineG2 {
    AffineG2::from_jacobian(G2::one() * fr(n)).unwrap()
}

fn g1_uncompressed(p: AffineG1) -> Vec<u8> {
    let mut v = fq_bytes(p.x());
    v.extend(fq_bytes(p.y()));
    v
}

fn g2_uncompressed(p: AffineG2) -> Vec<u8> {
    let mut v = fq_bytes(p.x().imaginary());
    v.extend(fq_bytes(p.x().real()));
    v.extend(fq_bytes(p.y().imaginary()));
    v.extend(fq_bytes(p.y().real()));
    v
}

fn g1_compressed(p: AffineG1) -> Vec<u8> {
    let (small, _) = AffineG1::get_ys_from_x_unchecked(p.x()).unwrap();
    let mut v = fq_bytes(p.x());
    v[0] |= if p.y() == small { 0x80 } else { 0xc0 };
    v
}

fn g2_compressed(p: AffineG2) -> Vec<u8> {
    let (first, _) = AffineG2::get_ys_from_x_unchecked(p.x()).unwrap();
    let mut v = fq_bytes(p.x().imaginary());
    v[0] |= if p.y() == first { 0x80 } else { 0xc0 };
    v.extend(fq_bytes(p.x().real()));
    v
}

fn coords(p: &G1Point) -> (Vec<u8>, Vec<u8>) {
    (p.x.to_be_bytes(), p.y.to_be_bytes())
}

fn same_g1(p: &G1Point, q: AffineG1) -> bool {
    coords(p) == (fq_bytes(q.x()), fq_bytes(q.y()))
}

fn same_g2(p: &G2Point, q: AffineG2) -> bool {
    p.x.c0.to_be_bytes() == fq_bytes(q.x().real())
        && p.x.c1.to_be_bytes() == fq_bytes(q.x().imaginary())
        && p.y.c0.to_be_bytes() == fq_bytes(q.y().real())
        && p.y.c1.to_be_bytes() == fq_bytes(q.y().imaginary())
}

/// A key with alpha = g, beta = gamma = delta = h and the given k, as multiples
/// of the generators g and h.
fn vkey_bytes(k: &[u64]) -> Vec<u8> {
    let mut v = g1_compressed(g1(1));
    v.extend(vec![0u8; 32]);
    v.extend(g2_compressed(g2(1)));
    v.extend(g2_compressed(g2(1)));
    v.extend(vec![0u8; 32]);
    v.extend(g2_compressed(g2(1)));
    v.extend((k.len() as u32).to_be_bytes());
    for n in k {
        v.extend(g1_compressed(g1(*n)));
    }
    v
}

fn proof_bytes(a: u64, c: u64) -> Vec<u8> {
    let mut v = g1_uncompressed(g1(a));
    v.extend(g2_uncompressed(g2(1)));
    v.extend(g1_uncompressed(g1(c)));
    v
}

#[test]
fn valid_proof_with_one_input_verifies() {
    // -a + (k0 + s * k1) + c - 1 = -3 + 2 + 2 - 1 = 0
    let vk = Groth16VKey::from_bytes(&vkey_bytes(&[1, 1])).unwrap();
    let proof = Groth16Proof::from_bytes(&proof_bytes(3, 2)).unwrap();
    assert_eq!(proof.verify(&vk, &[scalar(1)]), Ok(()));
}

#[test]
fn valid_proof_without_inputs_verifies() {
    let vk = Groth16VKey::from_bytes(&vkey_bytes(&[1])).unwrap();
    let proof = Groth16Proof::from_bytes(&proof_bytes(2, 2)).unwrap();
    assert_eq!(proof.verify(&vk, &[]), Ok(()));
}

#[test]
fn trailing_proof_bytes_are_ignored() {
    let vk = Groth16VKey::from_bytes(&vkey_bytes(&[1])).unwrap();
    let mut bytes = proof_bytes(2, 2);
    bytes.extend(vec![0xffu8; 17]);
    let proof = Groth16Proof::from_bytes(&bytes).unwrap();
    assert_eq!(proof.verify(&vk, &[]), Ok(()));
}

#[test]
fn wrong_public_input_fails_verification() {
    let vk = Groth16VKey::from_bytes(&vkey_bytes(&[1, 1])).unwrap();
    let proof = Groth16Proof::from_bytes(&proof_bytes(3, 2)).unwrap();
    assert_eq!(proof.verify(&vk, &[scalar(2)]), Err(Groth16Error::VerificationFailed));
}

#[test]
fn invalid_proof_fails_verification() {
    let vk = Groth16VKey::from_bytes(&vkey_bytes(&[1])).unwrap();
    let proof = Groth16Proof::from_bytes(&proof_bytes(3, 2)).unwrap();
    assert_eq!(proof.verify(&vk, &[]), Err(Groth16Error::VerificationFailed));
}

#[test]
fn flipping_a_bit_of_ar_never_verifies() {
    let vk = Groth16VKey::from_bytes(&vkey_bytes(&[1, 1])).unwrap();
    let good = proof_bytes(3, 2);
    for bit in 0..512 {
        let mut bytes = good.clone();
        bytes[bit / 8] ^= 1 << (bit % 8);
        match Groth16Proof::from_bytes(&bytes) {
            Err(e) => assert!(e == Groth16Error::NotOnCurve || e == Groth16Error::NotFieldElement),
            Ok(proof) => {
                assert_eq!(proof.verify(&vk, &[scalar(1)]), Err(Groth16Error::VerificationFailed))
            }
        }
    }
}

#[test]
fn truncated_vkey_is_a_format_error() {
    let bytes = vkey_bytes(&[1, 1, 1]);
    for cut in [bytes.len() - 1, bytes.len() - 32, 300, 292, 100, 0] {
        assert!(matches!(Groth16VKey::from_bytes(&bytes[..cut]), Err(Groth16Error::WrongLength)));
    }
}

#[test]
fn vkey_without_k_points_rejects_every_input_list() {
    let vk = Groth16VKey::from_bytes(&vkey_bytes(&[])).unwrap();
    assert_eq!(vk.g1.k.len(), 0);
    let proof = Groth16Proof::from_bytes(&proof_bytes(2, 2)).unwrap();
    assert_eq!(proof.verify(&vk, &[]), Err(Groth16Error::InputLengthMismatch));
    assert_eq!(proof.verify(&vk, &[scalar(1)]), Err(Groth16Error::InputLengthMismatch));
}

#[test]
fn input_count_must_match_key() {
    let vk = Groth16VKey::from_bytes(&vkey_bytes(&[1, 1])).unwrap();
    let proof = Groth16Proof::from_bytes(&proof_bytes(3, 2)).unwrap();
    assert_eq!(proof.verify(&vk, &[]), Err(Groth16Error::InputLengthMismatch));
    assert_eq!(proof.verify(&vk, &[scalar(1), scalar(1)]), Err(Groth16Error::InputLengthMismatch));
    assert!(matches!(prepare_inputs(&vk, &[]), Err(Groth16Error::InputLengthMismatch)));
}

#[test]
fn prepared_inputs_are_the_linear_combination() {
    let vk = Groth16VKey::from_bytes(&vkey_bytes(&[1, 2])).unwrap();
    let p = prepare_inputs(&vk, &[scalar(3)]).unwrap();
    let z = Fq::from_slice(&p.z.to_be_bytes()).unwrap();
    let zinv = z.inverse().unwrap();
    let x = Fq::from_slice(&p.x.to_be_bytes()).unwrap() * zinv * zinv;
    let y = Fq::from_slice(&p.y.to_be_bytes()).unwrap() * zinv * zinv * zinv;
    assert_eq!(x, g1(7).x());
    assert_eq!(y, g1(7).y());
}

#[test]
fn vkey_stores_beta_negated() {
    let vk = Groth16VKey::from_bytes(&vkey_bytes(&[5])).unwrap();
    assert!(same_g1(&vk.g1.alpha, g1(1)));
    assert!(same_g2(&vk.g2.beta, -g2(1)));
    assert!(same_g2(&vk.g2.gamma, g2(1)));
    assert!(same_g2(&vk.g2.delta, g2(1)));
    assert!(same_g1(&vk.g1.k[0], g1(5)));
}

#[test]
fn vkey_with_bad_point_is_rejected() {
    let mut bytes = vkey_bytes(&[1, 1]);
    bytes[292 + 32] &= 0x3f;
    assert!(matches!(Groth16VKey::from_bytes(&bytes), Err(Groth16Error::UndefinedFlag)));
}

#[test]
fn short_proof_is_a_format_error() {
    let bytes = proof_bytes(2, 2);
    assert!(matches!(Groth16Proof::from_bytes(&bytes[..255]), Err(Groth16Error::WrongLength)));
    assert!(matches!(Groth16Proof::from_bytes(&[]), Err(Groth16Error::WrongLength)));
}

#[test]
fn g1_compressed_round_trip() {
    for n in [1u64, 2, 3, 7, 1000, 123456789] {
        let p = g1(n);
        let enc = g1_compressed(p);
        let q = unchecked_compressed_x_to_g1_point(&enc).unwrap();
        assert!(same_g1(&q, p));
        assert_eq!(g1_compressed(AffineG1::new_unchecked(p.x(), p.y())), enc);
        let neg = g1_compressed(-p);
        assert_ne!(neg, enc);
        assert!(same_g1(&unchecked_compressed_x_to_g1_point(&neg).unwrap(), -p));
    }
}

#[test]
fn g1_positive_flag_selects_smaller_root() {
    // x = 1 gives y^2 = 4: roots 2 and p - 2.
    let mut enc = vec![0u8; 32];
    enc[31] = 1;
    enc[0] = 0x80;
    let q = unchecked_compressed_x_to_g1_point(&enc).unwrap();
    assert_eq!(coords(&q), (fq_bytes(Fq::one()), fq_bytes(Fq::from_str("2").unwrap())));
    enc[0] = 0xc0;
    let q = unchecked_compressed_x_to_g1_point(&enc).unwrap();
    assert_eq!(q.y.to_be_bytes(), fq_bytes(-Fq::from_str("2").unwrap()));
}

#[test]
fn g1_compressed_x_is_reduced_modulo_the_prime() {
    // p + 1 reduces to 1.
    let mut enc = hex32(P_HEX);
    enc[31] += 1;
    enc[0] |= 0x80;
    let q = unchecked_compressed_x_to_g1_point(&enc).unwrap();
    assert_eq!(coords(&q), (fq_bytes(Fq::one()), fq_bytes(Fq::from_str("2").unwrap())));
    let (x, flag) = deserialize_with_flags(&enc).unwrap();
    assert_eq!(x.to_be_bytes(), fq_bytes(Fq::one()));
    assert_eq!(flag, CompressedPointFlag::Positive);
}

#[test]
fn g2_compressed_round_trip() {
    for n in [1u64, 2, 5, 99999] {
        let p = g2(n);
        let enc = g2_compressed(p);
        let q = unchecked_compressed_x_to_g2_point(&enc).unwrap();
        assert!(same_g2(&q, p));
        assert!(same_g2(&unchecked_compressed_x_to_g2_point(&g2_compressed(-p)).unwrap(), -p));
    }
}

#[test]
fn infinity_flag_with_zero_body_decodes_to_infinity() {
    let mut enc = vec![0u8; 32];
    enc[0] = 0x40;
    let q = unchecked_compressed_x_to_g1_point(&enc).unwrap();
    assert!(same_g1(&q, AffineG1::zero()));
    let (x, flag) = deserialize_with_flags(&enc).unwrap();
    assert_eq!(x.to_be_bytes(), vec![0u8; 32]);
    assert_eq!(flag, CompressedPointFlag::Infinity);
    let mut enc2 = vec![0u8; 64];
    enc2[0] = 0x40;
    enc2[40] = 9;
    let q2 = unchecked_compressed_x_to_g2_point(&enc2).unwrap();
    assert!(same_g2(&q2, AffineG2::zero()));
}

#[test]
fn infinity_flag_with_nonzero_body_is_invalid() {
    for i in 0..32 {
        let mut enc = vec![0u8; 32];
        enc[0] = 0x40;
        enc[i] |= 1;
        assert!(matches!(unchecked_compressed_x_to_g1_point(&enc), Err(Groth16Error::InvalidPoint)));
        let mut enc2 = vec![0u8; 64];
        enc2[..32].copy_from_slice(&enc);
        assert!(matches!(unchecked_compressed_x_to_g2_point(&enc2), Err(Groth16Error::InvalidPoint)));
    }
}

#[test]
fn undefined_flag_is_rejected() {
    let mut enc = g1_compressed(g1(3));
    enc[0] &= 0x3f;
    assert!(matches!(unchecked_compressed_x_to_g1_point(&enc), Err(Groth16Error::UndefinedFlag)));
    assert!(matches!(deserialize_with_flags(&vec![0u8; 32]), Err(Groth16Error::UndefinedFlag)));
    let mut enc2 = g2_compressed(g2(3));
    enc2[0] &= 0x3f;
    assert!(matches!(unchecked_compressed_x_to_g2_point(&enc2), Err(Groth16Error::UndefinedFlag)));
}

#[test]
fn compressed_x_without_root_is_invalid() {
    // Some small x have no point on the curve above them; each such x is rejected.
    let mut found = false;
    for n in 1u8..50 {
        let mut enc = vec![0u8; 32];
        enc[31] = n;
        enc[0] = 0x80;
        let x = Fq::from_str(&n.to_string()).unwrap();
        let has_root = AffineG1::get_ys_from_x_unchecked(x).is_some();
        let r = unchecked_compressed_x_to_g1_point(&enc);
        if has_root {
            assert!(r.is_ok());
        } else {
            found = true;
            assert!(matches!(r, Err(Groth16Error::InvalidPoint)));
        }
    }
    assert!(found);
}

#[test]
fn compressed_wrong_lengths() {
    assert!(matches!(unchecked_compressed_x_to_g1_point(&[0x80u8; 31]), Err(Groth16Error::WrongLength)));
    assert!(matches!(unchecked_compressed_x_to_g2_point(&[0x80u8; 32]), Err(Groth16Error::WrongLength)));
    assert!(matches!(deserialize_with_flags(&[0x80u8; 33]), Err(Groth16Error::WrongLength)));
}

#[test]
fn uncompressed_g1_checks_the_curve() {
    let p = g1(11);
    let q = uncompressed_bytes_to_g1_point(&g1_uncompressed(p)).unwrap();
    assert!(same_g1(&q, AffineG1::new(p.x(), p.y()).unwrap()));
    let bad = g1_uncompressed(AffineG1::new_unchecked(p.x(), p.y() + Fq::one()));
    assert!(matches!(uncompressed_bytes_to_g1_point(&bad), Err(Groth16Error::NotOnCurve)));
    let mut big = g1_uncompressed(p);
    big[32..].copy_from_slice(&hex32(P_HEX));
    assert!(matches!(uncompressed_bytes_to_g1_point(&big), Err(Groth16Error::NotFieldElement)));
    assert!(matches!(uncompressed_bytes_to_g1_point(&big[..63]), Err(Groth16Error::WrongLength)));
}

#[test]
fn uncompressed_g2_checks_the_curve() {
    let p = g2(13);
    let q = uncompressed_bytes_to_g2_point(&g2_uncompressed(p)).unwrap();
    assert!(same_g2(&q, AffineG2::new(p.x(), p.y()).unwrap()));
    let bad = AffineG2::new_unchecked(p.x(), p.y() + Fq2::one());
    assert!(matches!(
        uncompressed_bytes_to_g2_point(&g2_uncompressed(bad)),
        Err(Groth16Error::NotOnCurve)
    ));
    let mut big = g2_uncompressed(p);
    big[..32].copy_from_slice(&hex32(P_HEX));
    assert!(matches!(uncompressed_bytes_to_g2_point(&big), Err(Groth16Error::NotFieldElement)));
    assert!(matches!(uncompressed_bytes_to_g2_point(&big[..127]), Err(Groth16Error::WrongLength)));
}

#[test]
fn flag_byte_round_trip() {
    for f in [CompressedPointFlag::Positive, CompressedPointFlag::Negative, CompressedPointFlag::Infinity] {
        assert_eq!(CompressedPointFlag::from_byte(f.to_byte() | 0x15), Some(f));
    }
    assert_eq!(CompressedPointFlag::Positive.to_byte(), 0x80);
    assert_eq!(CompressedPointFlag::Negative.to_byte(), 0xc0);
    assert_eq!(CompressedPointFlag::Infinity.to_byte(), 0x40);
    assert_eq!(CompressedPointFlag::from_byte(0x3f), None);
}

#[test]
fn scalars_must_be_canonical() {
    let r_hex = "30644e72e131a029b85045b68181585d2833e84879b9709143e1f593f0000001";
    assert!(Scalar::from_be_slice(&hex32(r_hex)).is_none());
    let mut below = hex32(r_hex);
    below[31] = 0;
    assert!(Scalar::from_be_slice(&below).is_some());
    assert!(Scalar::from_be_slice(&[1u8; 31]).is_none());
}

#[test]
fn zero_public_input_is_accepted() {
    // prepared = k0 + 0 * k1 = g, so -a + 1 + c - 1 = 0 with a = c = 2.
    let vk = Groth16VKey::from_bytes(&vkey_bytes(&[1, 1])).unwrap();
    let proof = Groth16Proof::from_bytes(&proof_bytes(2, 2)).unwrap();
    assert_eq!(proof.verify(&vk, &[scalar(0)]), Ok(()));
}

#[test]
fn flipping_a_bit_of_krs_never_verifies() {
    let vk = Groth16VKey::from_bytes(&vkey_bytes(&[1])).unwrap();
    let good = proof_bytes(2, 2);
    for bit in ((192 * 8)..(256 * 8)).step_by(61) {
        let mut bytes = good.clone();
        bytes[bit / 8] ^= 1 << (bit % 8);
        if let Ok(proof) = Groth16Proof::from_bytes(&bytes) {
            assert_eq!(proof.verify(&vk, &[]), Err(Groth16Error::VerificationFailed));
        }
    }
}

fn g1_infinity_bytes() -> Vec<u8> {
    let mut v = vec![0u8; 32];
    v[0] = 0x40;
    v
}

fn g2_infinity_bytes() -> Vec<u8> {
    let mut v = vec![0u8; 64];
    v[0] = 0x40;
    v
}

fn vkey_bytes_with(alpha: Vec<u8>, beta: Vec<u8>, k: Vec<Vec<u8>>) -> Vec<u8> {
    let mut v = alpha;
    v.extend(vec![0u8; 32]);
    v.extend(beta);
    v.extend(g2_compressed(g2(1)));
    v.extend(vec![0u8; 32]);
    v.extend(g2_compressed(g2(1)));
    v.extend((k.len() as u32).to_be_bytes());
    for p in k {
        v.extend(p);
    }
    v
}

#[test]
fn key_with_infinite_alpha_and_beta_verifies_without_panic() {
    // The (alpha, beta) pair drops out: -a + 1 + c = -2 + 1 + 1 = 0.
    let bytes = vkey_bytes_with(g1_infinity_bytes(), g2_infinity_bytes(), vec![g1_compressed(g1(1))]);
    let vk = Groth16VKey::from_bytes(&bytes).unwrap();
    assert!(vk.g2.beta.is_identity());
    assert!(vk.g1.alpha.is_identity());
    let proof = Groth16Proof::from_bytes(&proof_bytes(2, 1)).unwrap();
    assert_eq!(proof.verify(&vk, &[]), Ok(()));
    let bad = Groth16Proof::from_bytes(&proof_bytes(2, 2)).unwrap();
    assert_eq!(bad.verify(&vk, &[]), Err(Groth16Error::VerificationFailed));
}

#[test]
fn infinite_k_point_is_the_identity_in_the_sum() {
    // prepared = O + 1 * g = g, so -a + 1 + c - 1 = 0 with a = c = 2.
    let bytes = vkey_bytes_with(
        g1_compressed(g1(1)),
        g2_compressed(g2(1)),
        vec![g1_infinity_bytes(), g1_compressed(g1(1))],
    );
    let vk = Groth16VKey::from_bytes(&bytes).unwrap();
    let proof = Groth16Proof::from_bytes(&proof_bytes(2, 2)).unwrap();
    assert_eq!(proof.verify(&vk, &[scalar(1)]), Ok(()));
    let p = prepare_inputs(&vk, &[scalar(1)]).unwrap();
    let z = Fq::from_slice(&p.z.to_be_bytes()).unwrap();
    let zinv = z.inverse().unwrap();
    assert_eq!(Fq::from_slice(&p.x.to_be_bytes()).unwrap() * zinv * zinv, g1(1).x());
}

#[test]
fn degenerate_public_points_do_not_panic() {
    let mut vk = Groth16VKey::from_bytes(&vkey_bytes(&[1])).unwrap();
    vk.g2.delta = G2Point {
        x: Fq2Element { c0: FieldElement::zero(), c1: FieldElement::zero() },
        y: Fq2Element { c0: FieldElement::zero(), c1: FieldElement::zero() },
    };
    let mut proof = Groth16Proof::from_bytes(&proof_bytes(2, 2)).unwrap();
    proof.krs = G1Point { x: FieldElement::zero(), y: FieldElement::zero() };
    assert_eq!(proof.verify(&vk, &[]), Err(Groth16Error::VerificationFailed));
}

#[test]
fn try_from_matches_from_bytes() {
    let vk = Groth16VKey::try_from(&vkey_bytes(&[1])[..]).unwrap();
    let proof = Groth16Proof::try_from(&proof_bytes(2, 2)[..]).unwrap();
    assert_eq!(proof.verify(&vk, &[]), Ok(()));
    assert!(matches!(Groth16VKey::try_from(&[0u8; 10][..]), Err(Groth16Error::WrongLength)));
    assert!(matches!(Groth16Proof::try_from(&[0u8; 10][..]), Err(Groth16Error::WrongLength)));
}
