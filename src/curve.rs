//! The curve arithmetic this library needs, each operation a call into the
//! curve library with its contract stated over the plain models of `field`.
use crate::field::{
    be_value, fq_is_square, fq_modulus, fq_neg, g1_identity_model, g1_on_curve, g1_rhs,
    g2_identity_model, FieldElement, Fq2Element, G1Point, G1Projective, G2Point, Scalar,
};
use substrate_bn_succinct::{miller_loop_batch, AffineG1, AffineG2, Fq, Fq2, Fr, Gt, G1, G2};
use vstd::prelude::*;

verus! {

/// What `AffineG2::new` decides of a pair of coordinates: on the twisted curve
/// and in the prime-order subgroup.
pub uninterp spec fn g2_accepts(x: (nat, nat), y: (nat, nat)) -> bool;

/// The two square roots that `AffineG2::get_ys_from_x_unchecked` finds for `x`.
pub uninterp spec fn g2_roots(x: (nat, nat)) -> Option<((nat, nat), (nat, nat))>;

/// Sum of two points in Jacobian coordinates, as the curve library computes it.
pub uninterp spec fn g1_sum(a: (nat, nat, nat), b: (nat, nat, nat)) -> (nat, nat, nat);

/// A point in Jacobian coordinates multiplied by a scalar.
pub uninterp spec fn g1_scaled(p: (nat, nat, nat), s: nat) -> (nat, nat, nat);

/// Whether the Miller loop over the pairs, followed by the final
/// exponentiation, gives the identity of the target group; false where either
/// step fails.
pub uninterp spec fn pairing_product_is_one(
    pairs: Seq<((nat, nat, nat), ((nat, nat), (nat, nat)))>,
) -> bool;

/// Negation in the extension field, component by component.
pub open spec fn fq2_neg(v: (nat, nat)) -> (nat, nat) {
    (fq_neg(v.0), fq_neg(v.1))
}

/// Multiplication in the extension field, where `u^2 = -1`.
pub open spec fn fq2_mul(a: (nat, nat), b: (nat, nat)) -> (nat, nat) {
    let p = fq_modulus() as int;
    (((a.0 * b.0 - a.1 * b.1) as int % p) as nat, ((a.0 * b.1 + a.1 * b.0) % fq_modulus()) as nat)
}

/// The coefficient `b' = 3 / (9 + u)` of the second group's twisted curve.
pub open spec fn twist_b() -> (nat, nat) {
    (
        0x2b149d40ceb8aaae81be18991be06ac3 * 0x1_0000_0000_0000_0000 * 0x1_0000_0000_0000_0000
            + 0xb5b4c5e559dbefa33267e6dc24a138e5,
        0x009713b03af0fed4cd2cafadeed8fdf4 * 0x1_0000_0000_0000_0000 * 0x1_0000_0000_0000_0000
            + 0xa74fa084e52d1852e4a2bd0685c315d2,
    )
}

/// Whether `(x, y)` satisfies `y^2 = x^3 + b'` in the extension field.
pub open spec fn g2_on_twist(x: (nat, nat), y: (nat, nat)) -> bool {
    let x3 = fq2_mul(fq2_mul(x, x), x);
    fq2_mul(y, y) == (
        ((x3.0 + twist_b().0) % fq_modulus()) as nat,
        ((x3.1 + twist_b().1) % fq_modulus()) as nat,
    )
}

/// Negation in the first group, on affine models; the point at infinity is its
/// own negation.
pub open spec fn g1_negate(p: (nat, nat)) -> (nat, nat) {
    if p == g1_identity_model() {
        p
    } else {
        (p.0, fq_neg(p.1))
    }
}

/// Negation in the second group, on affine models.
pub open spec fn g2_negate(p: ((nat, nat), (nat, nat))) -> ((nat, nat), (nat, nat)) {
    if p == g2_identity_model() {
        p
    } else {
        (p.0, fq2_neg(p.1))
    }
}

/// The model of a list of pairing arguments.
pub open spec fn pairs_model(pairs: Seq<(G1Projective, G2Point)>) -> Seq<
    ((nat, nat, nat), ((nat, nat), (nat, nat))),
> {
    pairs.map_values(|p: (G1Projective, G2Point)| (p.0.model(), p.1.model()))
}

/// Relies on `Fq::from_be_bytes_mod_order`: the value of the bytes reduced
/// modulo the field's prime; read back with `Fq::to_big_endian`.
#[verifier::external_body]
pub(crate) fn fq_reduce(b: &[u8]) -> (r: FieldElement)
    requires
        b@.len() == 32,
    ensures
        r.value() == be_value(b@) % fq_modulus(),
{
    let mut be = vec![0u8; 32];
    Fq::from_be_bytes_mod_order(b).unwrap().to_big_endian(&mut be).unwrap();
    FieldElement { be }
}

/// Relies on `Ord for Fq`, which orders canonical residues as integers.
#[verifier::external_body]
pub(crate) fn fq_greater(a: &FieldElement, b: &FieldElement) -> (r: bool)
    ensures
        r == (a.value() > b.value()),
{
    let f = |e: &FieldElement| Fq::from_slice(&e.be).unwrap();
    f(a).cmp(&f(b)) == core::cmp::Ordering::Greater
}

/// Relies on `AffineG1::new`: it accepts exactly the coordinates that satisfy
/// the curve equation (the first group has no subgroup check).
#[verifier::external_body]
pub(crate) fn g1_accepts(x: &FieldElement, y: &FieldElement) -> (r: bool)
    ensures
        r == g1_on_curve(x.value(), y.value()),
{
    let f = |e: &FieldElement| Fq::from_slice(&e.be).unwrap();
    AffineG1::new(f(x), f(y)).is_ok()
}

/// Relies on `AffineG2::new`, the checked construction of the second group:
/// it accepts only coordinates on the twisted curve, and of those only the
/// ones in the prime-order subgroup.
#[verifier::external_body]
pub(crate) fn g2_check(x: &Fq2Element, y: &Fq2Element) -> (r: bool)
    ensures
        r == g2_accepts(x.model(), y.model()),
        r ==> g2_on_twist(x.model(), y.model()),
{
    let f = |e: &FieldElement| Fq::from_slice(&e.be).unwrap();
    let t = |e: &Fq2Element| Fq2::new(f(&e.c0), f(&e.c1));
    AffineG2::new(t(x), t(y)).is_ok()
}

/// Relies on `AffineG1::get_ys_from_x_unchecked`: `None` where `x^3 + 3` has no
/// square root, else its two roots `y` and `-y`, the smaller first.
#[verifier::external_body]
pub(crate) fn g1_ys(x: &FieldElement) -> (r: Option<(FieldElement, FieldElement)>)
    ensures
        r is Some <==> fq_is_square(g1_rhs(x.value())),
        r matches Some((a, b)) ==> {
            &&& g1_on_curve(x.value(), a.value())
            &&& b.value() == fq_neg(a.value())
            &&& a.value() <= b.value()
        },
{
    let f = |e: &FieldElement| Fq::from_slice(&e.be).unwrap();
    let b = |q: Fq| {
        let mut be = vec![0u8; 32];
        q.to_big_endian(&mut be).unwrap();
        FieldElement { be }
    };
    AffineG1::get_ys_from_x_unchecked(f(x)).map(|(y, n)| (b(y), b(n)))
}

/// Relies on `AffineG2::get_ys_from_x_unchecked`: the pair of roots it finds,
/// both on the twisted curve at x, the second the negation of the first.
#[verifier::external_body]
pub(crate) fn g2_ys(x: &Fq2Element) -> (r: Option<(Fq2Element, Fq2Element)>)
    ensures
        r is Some <==> g2_roots(x.model()) is Some,
        r matches Some((a, b)) ==> {
            &&& (a.model(), b.model()) == g2_roots(x.model())->Some_0
            &&& b.model() == fq2_neg(a.model())
            &&& g2_on_twist(x.model(), a.model())
            &&& g2_on_twist(x.model(), b.model())
        },
{
    let f = |e: &FieldElement| Fq::from_slice(&e.be).unwrap();
    let b = |q: Fq| {
        let mut be = vec![0u8; 32];
        q.to_big_endian(&mut be).unwrap();
        FieldElement { be }
    };
    let t = |q: Fq2| Fq2Element { c0: b(q.real()), c1: b(q.imaginary()) };
    AffineG2::get_ys_from_x_unchecked(Fq2::new(f(&x.c0), f(&x.c1))).map(|(y, n)| (t(y), t(n)))
}

/// Relies on `Neg for AffineG1`, which negates the y-coordinate.
#[verifier::external_body]
pub(crate) fn g1_neg(p: &G1Point) -> (r: G1Point)
    ensures
        r.model() == (p.model().0, fq_neg(p.model().1)),
{
    let f = |e: &FieldElement| Fq::from_slice(&e.be).unwrap();
    let b = |q: Fq| {
        let mut be = vec![0u8; 32];
        q.to_big_endian(&mut be).unwrap();
        FieldElement { be }
    };
    let n = -AffineG1::new_unchecked(f(&p.x), f(&p.y));
    G1Point { x: b(n.x()), y: b(n.y()) }
}

/// Relies on `Neg for AffineG2`, which negates both components of the
/// y-coordinate.
#[verifier::external_body]
pub(crate) fn g2_neg(p: &G2Point) -> (r: G2Point)
    ensures
        r.model() == (p.model().0, fq2_neg(p.model().1)),
{
    let f = |e: &FieldElement| Fq::from_slice(&e.be).unwrap();
    let b = |q: Fq| {
        let mut be = vec![0u8; 32];
        q.to_big_endian(&mut be).unwrap();
        FieldElement { be }
    };
    let t = |e: &Fq2Element| Fq2::new(f(&e.c0), f(&e.c1));
    let u = |q: Fq2| Fq2Element { c0: b(q.real()), c1: b(q.imaginary()) };
    let n = -AffineG2::new_unchecked(t(&p.x), t(&p.y));
    G2Point { x: u(n.x()), y: u(n.y()) }
}

/// Relies on `Add for G1`, point addition in Jacobian coordinates.
#[verifier::external_body]
pub(crate) fn g1_add(a: &G1Projective, c: &G1Projective) -> (r: G1Projective)
    ensures
        r.model() == g1_sum(a.model(), c.model()),
{
    let f = |e: &FieldElement| Fq::from_slice(&e.be).unwrap();
    let b = |q: Fq| {
        let mut be = vec![0u8; 32];
        q.to_big_endian(&mut be).unwrap();
        FieldElement { be }
    };
    let j = |p: &G1Projective| G1::new(f(&p.x), f(&p.y), f(&p.z));
    let s = j(a) + j(c);
    G1Projective { x: b(s.x()), y: b(s.y()), z: b(s.z()) }
}

/// Relies on `Mul<Fr> for G1`, scalar multiplication in Jacobian coordinates.
#[verifier::external_body]
pub(crate) fn g1_mul(p: &G1Projective, s: &Scalar) -> (r: G1Projective)
    ensures
        r.model() == g1_scaled(p.model(), s.value()),
{
    let f = |e: &FieldElement| Fq::from_slice(&e.be).unwrap();
    let b = |q: Fq| {
        let mut be = vec![0u8; 32];
        q.to_big_endian(&mut be).unwrap();
        FieldElement { be }
    };
    let m = G1::new(f(&p.x), f(&p.y), f(&p.z)) * Fr::from_slice(&s.be).unwrap();
    G1Projective { x: b(m.x()), y: b(m.y()), z: b(m.z()) }
}

/// Relies on `miller_loop_batch`, `Gt::final_exponentiation` and `Gt::one`:
/// whether the Miller loop over the pairs succeeds and its final
/// exponentiation exists and is the target group's identity. Each affine
/// second-group point enters through `From<AffineG2> for G2`.
#[verifier::external_body]
pub(crate) fn pairing_check(pairs: &Vec<(G1Projective, G2Point)>) -> (r: bool)
    ensures
        r == pairing_product_is_one(pairs_model(pairs@)),
{
    let f = |e: &FieldElement| Fq::from_slice(&e.be).unwrap();
    let t = |e: &Fq2Element| Fq2::new(f(&e.c0), f(&e.c1));
    let v: Vec<(G2, G1)> = pairs
        .iter()
        .map(|(p, q)| {
            (G2::from(AffineG2::new_unchecked(t(&q.x), t(&q.y))), G1::new(f(&p.x), f(&p.y), f(&p.z)))
        })
        .collect();
    match miller_loop_batch(&v) {
        Ok(m) => m.final_exponentiation() == Some(Gt::one()),
        Err(_) => false,
    }
}

} // verus!
