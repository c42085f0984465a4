//! Decoding of the compressed and uncompressed point encodings.
use crate::curve::{
    fq_greater, fq_reduce, g1_accepts, g1_ys, g2_accepts, g2_check,
    g2_on_twist, g2_roots, g2_ys,
};
use crate::error::Groth16Error;
use crate::field::{
    be_value, copy_bytes, fq_is_square, fq_modulus, fq_neg, g1_on_curve, g1_rhs,
    lemma_be_value_injective, lemma_fq_neg, FieldElement,
    Fq2Element, G1Point, G2Point, g2_identity_model,
};
use vstd::prelude::*;

verus! {

/// The two top bits of the first byte of a compressed point.
#[derive(Clone, Copy, Debug, PartialEq, Eq, Structural)]
pub enum CompressedPointFlag {
    /// `10`
    Positive,
    /// `11`
    Negative,
    /// `01`
    Infinity,
}

/// The flag that the top two bits of `b0` encode, if any.
pub open spec fn flag_of(b0: u8) -> Option<CompressedPointFlag> {
    let t = b0 / 64;
    if t == 2 {
        Some(CompressedPointFlag::Positive)
    } else if t == 3 {
        Some(CompressedPointFlag::Negative)
    } else if t == 1 {
        Some(CompressedPointFlag::Infinity)
    } else {
        None
    }
}

/// The bytes with the two flag bits cleared.
pub open spec fn masked(b: Seq<u8>) -> Seq<u8> {
    b.update(0, (b[0] % 64) as u8)
}

/// Whether every bit but the two flag bits is zero.
pub open spec fn body_is_zero(b: Seq<u8>) -> bool {
    &&& b[0] % 64 == 0
    &&& forall|i: int| 1 <= i < b.len() ==> b[i] == 0
}

/// What a 32-byte flagged field element decodes to: the x value and the flag.
pub open spec fn flagged_spec(b: Seq<u8>) -> Result<(nat, CompressedPointFlag), Groth16Error> {
    if b.len() != 32 {
        Err(Groth16Error::WrongLength)
    } else {
        match flag_of(b[0]) {
            None => Err(Groth16Error::UndefinedFlag),
            Some(CompressedPointFlag::Infinity) => if body_is_zero(b) {
                Ok((0nat, CompressedPointFlag::Infinity))
            } else {
                Err(Groth16Error::InvalidPoint)
            },
            Some(f) => Ok((be_value(masked(b)) % fq_modulus(), f)),
        }
    }
}

/// The error, if any, of decoding a compressed point of the first group.
pub open spec fn g1_compressed_error(b: Seq<u8>) -> Option<Groth16Error> {
    match flagged_spec(b) {
        Err(e) => Some(e),
        Ok((x, f)) => if f != CompressedPointFlag::Infinity && !fq_is_square(g1_rhs(x)) {
            Some(Groth16Error::InvalidPoint)
        } else {
            None
        },
    }
}

/// Whether `p` is the point that `b` decodes to as a compressed point of the
/// first group: under the infinity flag the point at infinity; else the point
/// on the curve at x whose y is the smaller of the two roots for the positive
/// flag and the larger for the negative one.
pub open spec fn g1_compressed_decodes_to(b: Seq<u8>, p: (nat, nat)) -> bool {
    match flagged_spec(b) {
        Err(_) => false,
        Ok((x, f)) => match f {
            CompressedPointFlag::Infinity => p == (0nat, 1nat),
            CompressedPointFlag::Positive => p.0 == x && g1_on_curve(x, p.1) && p.1 < fq_modulus()
                && p.1 <= fq_neg(p.1),
            CompressedPointFlag::Negative => p.0 == x && g1_on_curve(x, p.1) && p.1 < fq_modulus()
                && fq_neg(p.1) <= p.1,
        },
    }
}

/// What a compressed point of the second group decodes to.
pub open spec fn g2_compressed_spec(b: Seq<u8>) -> Result<((nat, nat), (nat, nat)), Groth16Error> {
    if b.len() != 64 {
        Err(Groth16Error::WrongLength)
    } else {
        match flagged_spec(b.subrange(0, 32)) {
            Err(e) => Err(e),
            Ok((x1, f)) => {
                let x = (be_value(b.subrange(32, 64)) % fq_modulus(), x1);
                if f == CompressedPointFlag::Infinity {
                    Ok(((0nat, 0nat), (1nat, 0nat)))
                } else {
                    match g2_roots(x) {
                        None => Err(Groth16Error::InvalidPoint),
                        Some((y, n)) => if f == CompressedPointFlag::Positive {
                            Ok((x, y))
                        } else {
                            Ok((x, n))
                        },
                    }
                }
            },
        }
    }
}

/// What an uncompressed point of the first group, `x || y`, decodes to.
pub open spec fn g1_uncompressed_spec(b: Seq<u8>) -> Result<(nat, nat), Groth16Error> {
    if b.len() != 64 {
        Err(Groth16Error::WrongLength)
    } else {
        let x = be_value(b.subrange(0, 32));
        let y = be_value(b.subrange(32, 64));
        if x >= fq_modulus() || y >= fq_modulus() {
            Err(Groth16Error::NotFieldElement)
        } else if !g1_on_curve(x, y) {
            Err(Groth16Error::NotOnCurve)
        } else {
            Ok((x, y))
        }
    }
}

/// What an uncompressed point of the second group,
/// `x.c1 || x.c0 || y.c1 || y.c0`, decodes to.
pub open spec fn g2_uncompressed_spec(b: Seq<u8>) -> Result<((nat, nat), (nat, nat)), Groth16Error> {
    if b.len() != 128 {
        Err(Groth16Error::WrongLength)
    } else {
        let x1 = be_value(b.subrange(0, 32));
        let x0 = be_value(b.subrange(32, 64));
        let y1 = be_value(b.subrange(64, 96));
        let y0 = be_value(b.subrange(96, 128));
        if x1 >= fq_modulus() || x0 >= fq_modulus() || y1 >= fq_modulus() || y0 >= fq_modulus() {
            Err(Groth16Error::NotFieldElement)
        } else if !g2_accepts((x0, x1), (y0, y1)) {
            Err(Groth16Error::NotOnCurve)
        } else {
            Ok(((x0, x1), (y0, y1)))
        }
    }
}

impl CompressedPointFlag {
    /// The flag held in the top two bits of `b0`; `None` for `00`.
    pub fn from_byte(b0: u8) -> (r: Option<CompressedPointFlag>)
        ensures
            r == flag_of(b0),
    {
        let t = b0 / 64;
        if t == 2 {
            Some(CompressedPointFlag::Positive)
        } else if t == 3 {
            Some(CompressedPointFlag::Negative)
        } else if t == 1 {
            Some(CompressedPointFlag::Infinity)
        } else {
            None
        }
    }

    /// The flag in place in the top two bits of a byte, the rest zero.
    pub fn to_byte(self) -> (r: u8)
        ensures
            r % 64 == 0,
            flag_of(r) == Some(self),
    {
        match self {
            CompressedPointFlag::Positive => 128,
            CompressedPointFlag::Negative => 192,
            CompressedPointFlag::Infinity => 64,
        }
    }
}

/// Splits a 32-byte flagged encoding into its field value and its flag.
pub fn deserialize_with_flags(buf: &[u8]) -> (r: Result<(FieldElement, CompressedPointFlag), Groth16Error>)
    ensures
        match flagged_spec(buf@) {
            Ok((x, f)) => r matches Ok((e, g)) && e.value() == x && g == f,
            Err(e) => r == Err::<(FieldElement, CompressedPointFlag), Groth16Error>(e),
        },
{
    if buf.len() != 32 {
        return Err(Groth16Error::WrongLength);
    }
    match CompressedPointFlag::from_byte(buf[0]) {
        None => Err(Groth16Error::UndefinedFlag),
        Some(CompressedPointFlag::Infinity) => {
            if buf[0] % 64 != 0 {
                return Err(Groth16Error::InvalidPoint);
            }
            let mut i: usize = 1;
            while i < 32
                invariant
                    buf@.len() == 32,
                    flag_of(buf@[0]) == Some(CompressedPointFlag::Infinity),
                    buf@[0] % 64 == 0,
                    1 <= i <= 32,
                    forall|j: int| 1 <= j < i ==> buf@[j] == 0,
                decreases 32 - i,
            {
                if buf[i] != 0 {
                    assert(buf@[i as int] != 0);
                    return Err(Groth16Error::InvalidPoint);
                }
                i = i + 1;
            }
            Ok((FieldElement::zero(), CompressedPointFlag::Infinity))
        },
        Some(f) => {
            let mut x_bytes = copy_bytes(buf, 0, 32);
            x_bytes[0] = buf[0] % 64;
            assert(x_bytes@ =~= masked(buf@));
            Ok((fq_reduce(x_bytes.as_slice()), f))
        },
    }
}

/// Decodes a 32-byte compressed point of the first group. The y-coordinate
/// comes from the two roots of the curve equation at x and is chosen by
/// comparing them, so the point is on the curve without a further check.
pub fn unchecked_compressed_x_to_g1_point(buf: &[u8]) -> (r: Result<G1Point, Groth16Error>)
    ensures
        match g1_compressed_error(buf@) {
            Some(e) => r == Err::<G1Point, Groth16Error>(e),
            None => r matches Ok(p) && g1_compressed_decodes_to(buf@, p.model()),
        },
{
    let (x, flag) = match deserialize_with_flags(buf) {
        Ok(v) => v,
        Err(e) => return Err(e),
    };
    if flag == CompressedPointFlag::Infinity {
        return Ok(G1Point::identity());
    }
    match g1_ys(&x) {
        None => Err(Groth16Error::InvalidPoint),
        Some((y, neg_y)) => {
            proof {
                use_type_invariant(&y);
                lemma_fq_neg(y.value());
            }
            let final_y = if fq_greater(&y, &neg_y) {
                if flag == CompressedPointFlag::Positive {
                    neg_y
                } else {
                    y
                }
            } else if flag == CompressedPointFlag::Negative {
                neg_y
            } else {
                y
            };
            Ok(G1Point { x, y: final_y })
        },
    }
}

/// Decodes a 64-byte uncompressed point of the first group, `x || y`, and
/// checks it against the curve equation.
pub fn uncompressed_bytes_to_g1_point(buf: &[u8]) -> (r: Result<G1Point, Groth16Error>)
    ensures
        match g1_uncompressed_spec(buf@) {
            Ok(m) => r matches Ok(p) && p.model() == m,
            Err(e) => r == Err::<G1Point, Groth16Error>(e),
        },
{
    if buf.len() != 64 {
        return Err(Groth16Error::WrongLength);
    }
    let x_bytes = copy_bytes(buf, 0, 32);
    let y_bytes = copy_bytes(buf, 32, 32);
    let x = match FieldElement::from_be_slice(x_bytes.as_slice()) {
        Some(v) => v,
        None => return Err(Groth16Error::NotFieldElement),
    };
    let y = match FieldElement::from_be_slice(y_bytes.as_slice()) {
        Some(v) => v,
        None => return Err(Groth16Error::NotFieldElement),
    };
    if g1_accepts(&x, &y) {
        Ok(G1Point { x, y })
    } else {
        Err(Groth16Error::NotOnCurve)
    }
}

/// Decodes a 64-byte compressed point of the second group: the flagged x.c1
/// followed by x.c0. The root is chosen by the flag alone.
pub fn unchecked_compressed_x_to_g2_point(buf: &[u8]) -> (r: Result<G2Point, Groth16Error>)
    ensures
        match g2_compressed_spec(buf@) {
            Ok(m) => r matches Ok(p) && p.model() == m,
            Err(e) => r == Err::<G2Point, Groth16Error>(e),
        },
        r matches Ok(p) ==> p.model() == g2_identity_model() || g2_on_twist(
            p.model().0,
            p.model().1,
        ),
{
    if buf.len() != 64 {
        return Err(Groth16Error::WrongLength);
    }
    let hi = copy_bytes(buf, 0, 32);
    let lo = copy_bytes(buf, 32, 32);
    let (x1, flag) = match deserialize_with_flags(hi.as_slice()) {
        Ok(v) => v,
        Err(e) => return Err(e),
    };
    let x0 = fq_reduce(lo.as_slice());
    let x = Fq2Element { c0: x0, c1: x1 };
    if flag == CompressedPointFlag::Infinity {
        return Ok(G2Point::identity());
    }
    match g2_ys(&x) {
        None => Err(Groth16Error::InvalidPoint),
        Some((y, neg_y)) => match flag {
            CompressedPointFlag::Positive => Ok(G2Point { x, y }),
            CompressedPointFlag::Negative => Ok(G2Point { x, y: neg_y }),
            CompressedPointFlag::Infinity => Err(Groth16Error::InvalidPoint),
        },
    }
}

/// Decodes a 128-byte uncompressed point of the second group,
/// `x.c1 || x.c0 || y.c1 || y.c0`, and checks it with the curve library.
pub fn uncompressed_bytes_to_g2_point(buf: &[u8]) -> (r: Result<G2Point, Groth16Error>)
    ensures
        match g2_uncompressed_spec(buf@) {
            Ok(m) => r matches Ok(p) && p.model() == m,
            Err(e) => r == Err::<G2Point, Groth16Error>(e),
        },
        r matches Ok(p) ==> g2_on_twist(p.model().0, p.model().1),
        ({
            let x = (be_value(buf@.subrange(32, 64)), be_value(buf@.subrange(0, 32)));
            let y = (be_value(buf@.subrange(96, 128)), be_value(buf@.subrange(64, 96)));
            buf@.len() == 128 && x.0 < fq_modulus() && x.1 < fq_modulus() && y.0 < fq_modulus()
                && y.1 < fq_modulus() && !g2_on_twist(x, y) ==> r == Err::<G2Point, Groth16Error>(
                Groth16Error::NotOnCurve,
            )
        }),
{
    if buf.len() != 128 {
        return Err(Groth16Error::WrongLength);
    }
    let x1_bytes = copy_bytes(buf, 0, 32);
    let x0_bytes = copy_bytes(buf, 32, 32);
    let y1_bytes = copy_bytes(buf, 64, 32);
    let y0_bytes = copy_bytes(buf, 96, 32);
    let x1 = FieldElement::from_be_slice(x1_bytes.as_slice());
    let x0 = FieldElement::from_be_slice(x0_bytes.as_slice());
    let y1 = FieldElement::from_be_slice(y1_bytes.as_slice());
    let y0 = FieldElement::from_be_slice(y0_bytes.as_slice());
    match (x1, x0, y1, y0) {
        (Some(x1), Some(x0), Some(y1), Some(y0)) => {
            let x = Fq2Element { c0: x0, c1: x1 };
            let y = Fq2Element { c0: y0, c1: y1 };
            if g2_check(&x, &y) {
                Ok(G2Point { x, y })
            } else {
                Err(Groth16Error::NotOnCurve)
            }
        },
        _ => Err(Groth16Error::NotFieldElement),
    }
}

/// Whether `b` is the 32-byte compressed encoding of the finite point `p` of
/// the first group: x in the low 254 bits, flag positive where y is the
/// smaller of `y` and `-y`, negative otherwise.
pub open spec fn g1_encodes(b: Seq<u8>, p: (nat, nat)) -> bool {
    &&& b.len() == 32
    &&& be_value(masked(b)) == p.0
    &&& flag_of(b[0]) == Some(
        if p.1 <= fq_neg(p.1) {
            CompressedPointFlag::Positive
        } else {
            CompressedPointFlag::Negative
        },
    )
}

/// Whether `b` is the 64-byte compressed encoding of the finite point `p` of
/// the second group: flagged x.c1, then x.c0; flag positive where y is the
/// first root that the curve library finds for x, negative otherwise.
pub open spec fn g2_encodes(b: Seq<u8>, p: ((nat, nat), (nat, nat))) -> bool {
    &&& b.len() == 64
    &&& be_value(masked(b.subrange(0, 32))) == p.0.1
    &&& be_value(b.subrange(32, 64)) == p.0.0
    &&& flag_of(b[0]) == Some(
        if g2_roots(p.0) matches Some((a, _)) && a == p.1 {
            CompressedPointFlag::Positive
        } else {
            CompressedPointFlag::Negative
        },
    )
}

proof fn lemma_flagged_bytes_unique(b: Seq<u8>, c: Seq<u8>)
    requires
        b.len() == c.len(),
        b.len() > 0,
        be_value(masked(b)) == be_value(masked(c)),
        b[0] / 64 == c[0] / 64,
    ensures
        b == c,
{
    lemma_be_value_injective(masked(b), masked(c));
    assert(masked(b)[0] == masked(c)[0]);
    assert(b[0] == c[0]);
    assert forall|i: int| 0 <= i < b.len() implies b[i] == c[i] by {
        if i > 0 {
            assert(masked(b)[i] == masked(c)[i]);
        }
    }
    assert(b =~= c);
}

/// Compressing a finite point of the first group and decoding the bytes
/// succeeds, and compressing the decoded point gives the same bytes back.
/// (`x^3 + 3` is never zero on this curve, which has no point of order two.)
pub proof fn lemma_g1_compressed_round_trip(b: Seq<u8>, p: (nat, nat))
    requires
        p.0 < fq_modulus(),
        p.1 < fq_modulus(),
        g1_on_curve(p.0, p.1),
        g1_rhs(p.0) != 0,
        g1_encodes(b, p),
    ensures
        g1_compressed_error(b) is None,
        forall|q: (nat, nat)| #[trigger]
            g1_compressed_decodes_to(b, q) ==> q.0 == p.0 && forall|c: Seq<u8>|
                g1_encodes(c, q) <==> c == b,
{
    vstd::arithmetic::div_mod::lemma_small_mod(p.0, fq_modulus());
    assert(fq_is_square(g1_rhs(p.0))) by {
        assert(p.1 < fq_modulus() && ((p.1 * p.1) % fq_modulus()) == g1_rhs(p.0));
    }
    assert forall|q: (nat, nat)| #[trigger]
        g1_compressed_decodes_to(b, q) implies q.0 == p.0 && forall|c: Seq<u8>|
            g1_encodes(c, q) <==> c == b by {
        if flag_of(b[0]) == Some(CompressedPointFlag::Negative) {
            if q.1 == 0 {
                assert(q.1 * q.1 == 0) by (nonlinear_arith)
                    requires
                        q.1 == 0,
                ;
                vstd::arithmetic::div_mod::lemma_small_mod(0, fq_modulus());
            }
            if q.1 <= fq_neg(q.1) {
                vstd::arithmetic::div_mod::lemma_small_mod(
                    (fq_modulus() - q.1) as nat,
                    fq_modulus(),
                );
                assert(false);
            }
        }
        assert(g1_encodes(b, q));
        assert forall|c: Seq<u8>| g1_encodes(c, q) implies c == b by {
            lemma_flagged_bytes_unique(c, b);
        }
    }
}

/// Compressing a finite point of the second group and decoding the bytes
/// gives the point back, and no other bytes encode it.
pub proof fn lemma_g2_compressed_round_trip(b: Seq<u8>, p: ((nat, nat), (nat, nat)))
    requires
        p.0.0 < fq_modulus(),
        p.0.1 < fq_modulus(),
        g2_roots(p.0) matches Some((a, n)) && (p.1 == a || p.1 == n),
        g2_encodes(b, p),
    ensures
        g2_compressed_spec(b) == Ok::<_, Groth16Error>(p),
        forall|c: Seq<u8>| g2_encodes(c, p) <==> c == b,
{
    vstd::arithmetic::div_mod::lemma_small_mod(p.0.0, fq_modulus());
    vstd::arithmetic::div_mod::lemma_small_mod(p.0.1, fq_modulus());
    let h = b.subrange(0, 32);
    assert(h[0] == b[0]);
    assert(flagged_spec(h) == Ok::<_, Groth16Error>((p.0.1, flag_of(b[0])->Some_0)));
    let x = (be_value(b.subrange(32, 64)) % fq_modulus(), p.0.1);
    assert(x == p.0);
    assert forall|c: Seq<u8>| g2_encodes(c, p) implies c == b by {
        lemma_flagged_bytes_unique(c.subrange(0, 32), b.subrange(0, 32));
        lemma_be_value_injective(c.subrange(32, 64), b.subrange(32, 64));
        assert(c =~= c.subrange(0, 32) + c.subrange(32, 64));
        assert(b =~= b.subrange(0, 32) + b.subrange(32, 64));
    }
}

/// Under the infinity flag a compressed point decodes to the point at infinity
/// when every other bit is zero, and is an invalid point otherwise.
pub proof fn lemma_infinity_flag(b: Seq<u8>, w: Seq<u8>)
    requires
        b.len() == 32,
        b[0] / 64 == 1,
        w.len() == 64,
        w[0] / 64 == 1,
    ensures
        body_is_zero(b) ==> g1_compressed_error(b) is None && forall|q: (nat, nat)|
            g1_compressed_decodes_to(b, q) <==> q == (0nat, 1nat),
        !body_is_zero(b) ==> g1_compressed_error(b) == Some(Groth16Error::InvalidPoint),
        body_is_zero(w.subrange(0, 32)) ==> g2_compressed_spec(w) == Ok::<_, Groth16Error>(
            ((0nat, 0nat), (1nat, 0nat)),
        ),
        !body_is_zero(w.subrange(0, 32)) ==> g2_compressed_spec(w) == Err::<
            ((nat, nat), (nat, nat)),
            _,
        >(Groth16Error::InvalidPoint),
{
}

/// A compressed point whose flag bits are `00` is rejected.
pub proof fn lemma_undefined_flag(b: Seq<u8>)
    requires
        b.len() == 32 || b.len() == 64,
        b[0] / 64 == 0,
    ensures
        b.len() == 32 ==> g1_compressed_error(b) == Some(Groth16Error::UndefinedFlag),
        b.len() == 64 ==> g2_compressed_spec(b) == Err::<((nat, nat), (nat, nat)), _>(
            Groth16Error::UndefinedFlag,
        ),
{
}

/// An uncompressed point with canonical coordinates decodes to exactly those
/// coordinates when the checked construction accepts them, and is not on the
/// curve otherwise.
pub proof fn lemma_uncompressed_is_checked(b: Seq<u8>, w: Seq<u8>)
    requires
        b.len() == 64,
        be_value(b.subrange(0, 32)) < fq_modulus(),
        be_value(b.subrange(32, 64)) < fq_modulus(),
        w.len() == 128,
        be_value(w.subrange(0, 32)) < fq_modulus(),
        be_value(w.subrange(32, 64)) < fq_modulus(),
        be_value(w.subrange(64, 96)) < fq_modulus(),
        be_value(w.subrange(96, 128)) < fq_modulus(),
    ensures
        g1_uncompressed_spec(b) == if g1_on_curve(
            be_value(b.subrange(0, 32)),
            be_value(b.subrange(32, 64)),
        ) {
            Ok::<_, Groth16Error>((be_value(b.subrange(0, 32)), be_value(b.subrange(32, 64))))
        } else {
            Err(Groth16Error::NotOnCurve)
        },
        ({
            let x = (be_value(w.subrange(32, 64)), be_value(w.subrange(0, 32)));
            let y = (be_value(w.subrange(96, 128)), be_value(w.subrange(64, 96)));
            g2_uncompressed_spec(w) == if g2_accepts(x, y) {
                Ok::<_, Groth16Error>((x, y))
            } else {
                Err(Groth16Error::NotOnCurve)
            }
        }),
{
}

} // verus!
