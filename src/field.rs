use substrate_bn_succinct::arith::U256;
use substrate_bn_succinct::{Fq, Fr};
use vstd::prelude::*;

verus! {

/// The prime of the curve's base field.
pub open spec fn fq_modulus() -> nat {
    0x30644e72e131a029b85045b68181585d * 0x1_0000_0000_0000_0000 * 0x1_0000_0000_0000_0000
        + 0x97816a916871ca8d3c208c16d87cfd47
}

/// The prime order of the curve's groups, the modulus of the scalars.
pub open spec fn fr_modulus() -> nat {
    0x30644e72e131a029b85045b68181585d * 0x1_0000_0000_0000_0000 * 0x1_0000_0000_0000_0000
        + 0x2833e84879b9709143e1f593f0000001
}

/// The number that a sequence of bytes spells out in big-endian order.
pub open spec fn be_value(s: Seq<u8>) -> nat
    decreases s.len(),
{
    if s.len() == 0 {
        0
    } else {
        be_value(s.drop_last()) * 256 + s.last() as nat
    }
}

/// Negation in the base field, on canonical residues.
pub open spec fn fq_neg(v: nat) -> nat {
    ((fq_modulus() - v) % (fq_modulus() as int)) as nat
}

/// The right-hand side of the first group's curve equation, `x^3 + 3`.
pub open spec fn g1_rhs(x: nat) -> nat {
    ((x * x * x + 3) % fq_modulus()) as nat
}

/// Whether `(x, y)` satisfies `y^2 = x^3 + 3` in the base field.
pub open spec fn g1_on_curve(x: nat, y: nat) -> bool {
    (y * y) % fq_modulus() == g1_rhs(x)
}

/// Whether some residue squares to `v` in the base field.
pub open spec fn fq_is_square(v: nat) -> bool {
    exists|s: nat| s < fq_modulus() && #[trigger] ((s * s) % fq_modulus()) == v
}

/// A base-field element, held as its canonical 32-byte big-endian encoding.
pub struct FieldElement {
    pub(crate) be: Vec<u8>,
}

impl FieldElement {
    #[verifier::type_invariant]
    pub closed spec fn canonical(&self) -> bool {
        &&& self.be@.len() == 32
        &&& be_value(self.be@) < fq_modulus()
    }

    /// The residue this element stands for.
    pub closed spec fn value(&self) -> nat {
        be_value(self.be@)
    }

    /// Reads a canonical 32-byte big-endian residue; `None` where the value is
    /// not below the field's prime.
    pub fn from_be_slice(b: &[u8]) -> (r: Option<FieldElement>)
        requires
            b@.len() == 32,
        ensures
            r is Some <==> be_value(b@) < fq_modulus(),
            r is Some ==> r->Some_0.value() == be_value(b@),
    {
        if fq_fits(b) {
            let be = copy_bytes(b, 0, 32);
            assert(be@ =~= b@);
            Some(FieldElement { be })
        } else {
            None
        }
    }

    /// The zero of the base field.
    pub fn zero() -> (r: FieldElement)
        ensures
            r.value() == 0,
    {
        let be: Vec<u8> = vec![0u8; 32];
        proof {
            lemma_zero_bytes(be@);
            assert(fq_modulus() > 0);
        }
        FieldElement { be }
    }

    /// The one of the base field.
    pub fn one() -> (r: FieldElement)
        ensures
            r.value() == 1,
    {
        let mut be: Vec<u8> = vec![0u8; 32];
        be.set(31, 1);
        proof {
            lemma_zero_bytes(be@.drop_last());
            assert(fq_modulus() > 1);
        }
        FieldElement { be }
    }

    /// Whether two elements are the same residue.
    pub fn same_as(&self, other: &FieldElement) -> (r: bool)
        ensures
            r == (self.value() == other.value()),
    {
        proof {
            use_type_invariant(self);
            use_type_invariant(other);
        }
        let mut i: usize = 0;
        while i < 32
            invariant
                self.be@.len() == 32,
                other.be@.len() == 32,
                i <= 32,
                forall|j: int| 0 <= j < i ==> self.be@[j] == other.be@[j],
            decreases 32 - i,
        {
            if self.be[i] != other.be[i] {
                proof {
                    if be_value(self.be@) == be_value(other.be@) {
                        lemma_be_value_injective(self.be@, other.be@);
                    }
                }
                return false;
            }
            i = i + 1;
        }
        assert(self.be@ =~= other.be@);
        true
    }

    /// A copy of this element.
    pub fn copied(&self) -> (r: FieldElement)
        ensures
            r.value() == self.value(),
    {
        proof {
            use_type_invariant(self);
        }
        FieldElement { be: self.be.clone() }
    }

    /// The 32-byte big-endian encoding of this element.
    pub fn to_be_bytes(&self) -> (r: Vec<u8>)
        ensures
            r@.len() == 32,
            be_value(r@) == self.value(),
    {
        proof {
            use_type_invariant(self);
        }
        self.be.clone()
    }
}

/// An element of the quadratic extension field, `c0 + c1 * u`.
pub struct Fq2Element {
    pub c0: FieldElement,
    pub c1: FieldElement,
}

impl Fq2Element {
    pub open spec fn model(&self) -> (nat, nat) {
        (self.c0.value(), self.c1.value())
    }

    /// A copy of this element.
    pub fn copied(&self) -> (r: Fq2Element)
        ensures
            r.model() == self.model(),
    {
        Fq2Element { c0: self.c0.copied(), c1: self.c1.copied() }
    }
}

/// An affine point of the first group, in the curve library's representation:
/// the point at infinity is held as `(0, 1)`, which is not on the curve.
pub struct G1Point {
    pub x: FieldElement,
    pub y: FieldElement,
}

/// The first group's point at infinity in affine form.
pub open spec fn g1_identity_model() -> (nat, nat) {
    (0nat, 1nat)
}

/// The second group's point at infinity in affine form: `x = 0`, `y = 1`.
pub open spec fn g2_identity_model() -> ((nat, nat), (nat, nat)) {
    ((0nat, 0nat), (1nat, 0nat))
}

/// The Jacobian form of an affine point of the first group: `z = 1` for a
/// finite point, `(0, 1, 0)` for the point at infinity.
pub open spec fn jacobian(p: (nat, nat)) -> (nat, nat, nat) {
    if p == g1_identity_model() {
        (0nat, 1nat, 0nat)
    } else {
        (p.0, p.1, 1nat)
    }
}

impl G1Point {
    pub open spec fn model(&self) -> (nat, nat) {
        (self.x.value(), self.y.value())
    }

    /// The point at infinity.
    pub fn identity() -> (r: G1Point)
        ensures
            r.model() == g1_identity_model(),
    {
        G1Point { x: FieldElement::zero(), y: FieldElement::one() }
    }

    /// Whether this is the point at infinity.
    pub fn is_identity(&self) -> (r: bool)
        ensures
            r == (self.model() == g1_identity_model()),
    {
        self.x.same_as(&FieldElement::zero()) && self.y.same_as(&FieldElement::one())
    }

    /// This point in Jacobian coordinates; the point at infinity gets `z = 0`,
    /// which is how the curve arithmetic recognises it.
    pub fn to_jacobian(&self) -> (r: G1Projective)
        ensures
            r.model() == jacobian(self.model()),
    {
        if self.is_identity() {
            G1Projective { x: FieldElement::zero(), y: FieldElement::one(), z: FieldElement::zero() }
        } else {
            G1Projective { x: self.x.copied(), y: self.y.copied(), z: FieldElement::one() }
        }
    }
}

/// An affine point of the second group, over the extension field; the point at
/// infinity is held as `(0, 1)`.
pub struct G2Point {
    pub x: Fq2Element,
    pub y: Fq2Element,
}

impl G2Point {
    pub open spec fn model(&self) -> ((nat, nat), (nat, nat)) {
        (self.x.model(), self.y.model())
    }

    /// The point at infinity.
    pub fn identity() -> (r: G2Point)
        ensures
            r.model() == g2_identity_model(),
    {
        G2Point {
            x: Fq2Element { c0: FieldElement::zero(), c1: FieldElement::zero() },
            y: Fq2Element { c0: FieldElement::one(), c1: FieldElement::zero() },
        }
    }

    /// Whether this is the point at infinity.
    pub fn is_identity(&self) -> (r: bool)
        ensures
            r == (self.model() == g2_identity_model()),
    {
        let zero = FieldElement::zero();
        self.x.c0.same_as(&zero) && self.x.c1.same_as(&zero) && self.y.c0.same_as(
            &FieldElement::one(),
        ) && self.y.c1.same_as(&zero)
    }

    /// A copy of this point.
    pub fn copied(&self) -> (r: G2Point)
        ensures
            r.model() == self.model(),
    {
        G2Point { x: self.x.copied(), y: self.y.copied() }
    }
}

/// A point of the first group in Jacobian coordinates `(x, y, z)`.
pub struct G1Projective {
    pub x: FieldElement,
    pub y: FieldElement,
    pub z: FieldElement,
}

impl G1Projective {
    pub open spec fn model(&self) -> (nat, nat, nat) {
        (self.x.value(), self.y.value(), self.z.value())
    }

    /// Whether this is the point at infinity, `z = 0`.
    pub fn is_identity(&self) -> (r: bool)
        ensures
            r == (self.model().2 == 0),
    {
        self.z.same_as(&FieldElement::zero())
    }
}

/// A scalar of the groups' order, such as a public input of a proof.
pub struct Scalar {
    pub(crate) be: Vec<u8>,
}

impl Scalar {
    #[verifier::type_invariant]
    pub closed spec fn canonical(&self) -> bool {
        &&& self.be@.len() == 32
        &&& be_value(self.be@) < fr_modulus()
    }

    pub closed spec fn value(&self) -> nat {
        be_value(self.be@)
    }

    /// Reads a canonical 32-byte big-endian scalar; `None` where the length is
    /// not 32 or the value is not below the group order.
    pub fn from_be_slice(b: &[u8]) -> (r: Option<Scalar>)
        ensures
            r is Some <==> (b@.len() == 32 && be_value(b@) < fr_modulus()),
            r is Some ==> r->Some_0.value() == be_value(b@),
    {
        if b.len() != 32 {
            return None;
        }
        if fr_fits(b) {
            let be = copy_bytes(b, 0, 32);
            assert(be@ =~= b@);
            Some(Scalar { be })
        } else {
            None
        }
    }
}

proof fn lemma_zero_bytes(s: Seq<u8>)
    requires
        forall|i: int| 0 <= i < s.len() ==> s[i] == 0,
    ensures
        be_value(s) == 0,
    decreases s.len(),
{
    if s.len() > 0 {
        lemma_zero_bytes(s.drop_last());
    }
}

/// Two byte sequences of one length with the same big-endian value are equal.
pub proof fn lemma_be_value_injective(s: Seq<u8>, t: Seq<u8>)
    requires
        s.len() == t.len(),
        be_value(s) == be_value(t),
    ensures
        s == t,
    decreases s.len(),
{
    if s.len() > 0 {
        let a = be_value(s.drop_last()) as int;
        let c = be_value(t.drop_last()) as int;
        let x = s.last() as int;
        let y = t.last() as int;
        assert(x == y && a == c) by (nonlinear_arith)
            requires
                a * 256 + x == c * 256 + y,
                0 <= x < 256,
                0 <= y < 256,
                a >= 0,
                c >= 0,
        ;
        lemma_be_value_injective(s.drop_last(), t.drop_last());
        assert(s =~= s.drop_last().push(s.last()));
        assert(t =~= t.drop_last().push(t.last()));
    }
}

/// Negation is an involution on canonical residues and keeps squares.
pub proof fn lemma_fq_neg(a: nat)
    requires
        a < fq_modulus(),
    ensures
        fq_neg(a) < fq_modulus(),
        fq_neg(fq_neg(a)) == a,
        (fq_neg(a) * fq_neg(a)) % fq_modulus() == (a * a) % fq_modulus(),
{
    let m = fq_modulus() as int;
    assert(m > 2);
    if a == 0 {
        vstd::arithmetic::div_mod::lemma_mod_self_0(m);
        assert(fq_neg(a) == 0);
    } else {
        vstd::arithmetic::div_mod::lemma_small_mod((m - a) as nat, m as nat);
        vstd::arithmetic::div_mod::lemma_small_mod(a, m as nat);
        assert(fq_neg(a) == m - a);
        assert((m - a) * (m - a) == m * (m - 2 * a) + a * a) by (nonlinear_arith);
        vstd::arithmetic::div_mod::lemma_mod_multiples_vanish(m - 2 * a, (a * a) as int, m);
    }
}

/// Copies `len` bytes of `b` from `start` on.
pub fn copy_bytes(b: &[u8], start: usize, len: usize) -> (r: Vec<u8>)
    requires
        start + len <= b@.len(),
    ensures
        r@ == b@.subrange(start as int, start + len),
{
    let mut r: Vec<u8> = Vec::with_capacity(len);
    let mut i: usize = 0;
    while i < len
        invariant
            start + len <= b.len(),
            i <= len,
            r@ == b@.subrange(start as int, start + i),
        decreases len - i,
    {
        r.push(b[start + i]);
        i = i + 1;
        assert(r@ =~= b@.subrange(start as int, start + i));
    }
    r
}

/// Relies on `Fq::from_slice`: it accepts a 32-byte big-endian value exactly
/// when the value is below the field's prime.
#[verifier::external_body]
fn fq_fits(b: &[u8]) -> (r: bool)
    requires
        b@.len() == 32,
    ensures
        r == (be_value(b@) < fq_modulus()),
{
    Fq::from_slice(b).is_ok()
}

/// Relies on `Fr::new`: it accepts a value exactly when it is below the group
/// order (`U256::from_slice` reads the 32 bytes big-endian).
#[verifier::external_body]
fn fr_fits(b: &[u8]) -> (r: bool)
    requires
        b@.len() == 32,
    ensures
        r == (be_value(b@) < fr_modulus()),
{
    Fr::new(U256::from_slice(b).unwrap()).is_some()
}

} // verus!
