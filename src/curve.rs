//! Points of G1 and G2, held as their canonical compressed encodings, and the
//! pairing check between them.
//!
//! Both groups are cyclic of prime order `group_order()`, so each point is a
//! multiple `x·g` of the fixed generator `g` for exactly one `x` in
//! `[0, group_order())`: its discrete logarithm, which the contracts speak of.
use crate::scalar::{group_order, Scalar};
use bls12_381::{G1Affine, G1Projective, G2Affine};
use vstd::prelude::*;

verus! {

/// The compressed encoding (48 bytes) of `x` times the generator of G1.
pub uninterp spec fn g1_of(x: int) -> Seq<u8>;

/// The compressed encoding (96 bytes) of `x` times the generator of G2.
pub uninterp spec fn g2_of(x: int) -> Seq<u8>;

/// The G1 point (as its encoding) that a candidate compressed encoding of a curve
/// point yields once its cofactor is cleared, or `None` where the candidate names no
/// point of the curve.
pub uninterp spec fn g1_cleared_of(candidate: Seq<u8>) -> Option<Seq<u8>>;

/// `b` encodes `x·g1`, and no other multiple of the generator.
pub open spec fn encodes_g1(b: Seq<u8>, x: int) -> bool {
    &&& 0 <= x < group_order()
    &&& b == g1_of(x)
    &&& forall|e: int| 0 <= e < group_order() && #[trigger] g1_of(e) == b ==> e == x
}

/// `b` encodes `x·g2`, and no other multiple of the generator.
pub open spec fn encodes_g2(b: Seq<u8>, x: int) -> bool {
    &&& 0 <= x < group_order()
    &&& b == g2_of(x)
    &&& forall|e: int| 0 <= e < group_order() && #[trigger] g2_of(e) == b ==> e == x
}

/// `b` is the canonical encoding of an element of G1.
pub open spec fn is_g1(b: Seq<u8>) -> bool {
    exists|x: int| encodes_g1(b, x)
}

/// `b` is the canonical encoding of an element of G2.
pub open spec fn is_g2(b: Seq<u8>) -> bool {
    exists|x: int| encodes_g2(b, x)
}

/// The discrete logarithm of the G1 point that `b` encodes.
pub open spec fn g1_log(b: Seq<u8>) -> int {
    choose|x: int| encodes_g1(b, x)
}

/// The discrete logarithm of the G2 point that `b` encodes.
pub open spec fn g2_log(b: Seq<u8>) -> int {
    choose|x: int| encodes_g2(b, x)
}

/// The logarithm of an encoding of `x·g1` is `x`.
pub proof fn lemma_g1_log(b: Seq<u8>, x: int)
    requires
        encodes_g1(b, x),
    ensures
        g1_log(b) == x,
{
    let y = g1_log(b);
    assert(encodes_g1(b, y));
    assert(g1_of(y) == b);
}

/// The logarithm of an encoding of `x·g2` is `x`.
pub proof fn lemma_g2_log(b: Seq<u8>, x: int)
    requires
        encodes_g2(b, x),
    ensures
        g2_log(b) == x,
{
    let y = g2_log(b);
    assert(encodes_g2(b, y));
    assert(g2_of(y) == b);
}

/// An element of G1.
#[derive(Clone, Copy, Debug)]
pub struct G1Point {
    pub(crate) bytes: [u8; 48],
}

/// An element of G2.
#[derive(Clone, Copy, Debug)]
pub struct G2Point {
    pub(crate) bytes: [u8; 96],
}

impl View for G1Point {
    type V = Seq<u8>;

    closed spec fn view(&self) -> Seq<u8> {
        self.bytes@
    }
}

impl View for G2Point {
    type V = Seq<u8>;

    closed spec fn view(&self) -> Seq<u8> {
        self.bytes@
    }
}

/// Relies on `G1Affine::generator`.
#[verifier::external_body]
fn g1_generator() -> (r: G1Point)
    ensures
        r@ == g1_of(1),
        encodes_g1(r@, 1),
{
    G1Point { bytes: G1Affine::generator().to_compressed() }
}

/// Relies on `G2Affine::generator`.
#[verifier::external_body]
fn g2_generator() -> (r: G2Point)
    ensures
        r@ == g2_of(1),
        encodes_g2(r@, 1),
{
    G2Point { bytes: G2Affine::generator().to_compressed() }
}

/// Relies on bls12_381's `Mul<Scalar>` on G1: scalar multiplication in a group of
/// prime order `group_order()`.
#[verifier::external_body]
fn g1_mul(p: &G1Point, k: &Scalar) -> (r: G1Point)
    ensures
        encodes_g1(r@, (g1_log(p@) * k@) % group_order()),
{
    let a = G1Affine::from_compressed(&p.bytes).unwrap();
    let s = bls12_381::Scalar::from_bytes(&k.bytes).unwrap();
    G1Point { bytes: G1Affine::from(a * s).to_compressed() }
}

/// Relies on bls12_381's `Add` on G1.
#[verifier::external_body]
fn g1_add(p: &G1Point, q: &G1Point) -> (r: G1Point)
    ensures
        encodes_g1(r@, (g1_log(p@) + g1_log(q@)) % group_order()),
{
    let a = G1Projective::from(G1Affine::from_compressed(&p.bytes).unwrap());
    let b = G1Affine::from_compressed(&q.bytes).unwrap();
    G1Point { bytes: G1Affine::from(a + b).to_compressed() }
}

/// Relies on bls12_381's `Sub` on G1.
#[verifier::external_body]
fn g1_sub(p: &G1Point, q: &G1Point) -> (r: G1Point)
    ensures
        encodes_g1(r@, (g1_log(p@) - g1_log(q@)) % group_order()),
{
    let a = G1Projective::from(G1Affine::from_compressed(&p.bytes).unwrap());
    let b = G1Affine::from_compressed(&q.bytes).unwrap();
    G1Point { bytes: G1Affine::from(a - b).to_compressed() }
}

/// Relies on `G1Affine::is_identity`.
#[verifier::external_body]
fn g1_is_identity(p: &G1Point) -> (r: bool)
    ensures
        r == (g1_log(p@) == 0),
{
    bool::from(G1Affine::from_compressed(&p.bytes).unwrap().is_identity())
}

/// Relies on `G1Affine::from_compressed`: it accepts exactly the canonical
/// encodings of the elements of G1.
#[verifier::external_body]
fn g1_decode(b: &[u8; 48]) -> (r: Option<G1Point>)
    ensures
        r is Some <==> is_g1(b@),
        r is Some ==> r->0@ == b@,
{
    match Option::<G1Affine>::from(G1Affine::from_compressed(b)) {
        Some(_) => Some(G1Point { bytes: *b }),
        None => None,
    }
}

/// Relies on `G1Affine::from_compressed_unchecked`, which reads a point of the curve,
/// in or out of G1, and on `G1Projective::clear_cofactor`, which maps it into G1.
#[verifier::external_body]
fn g1_clear_candidate(c: &[u8; 48]) -> (r: Option<G1Point>)
    ensures
        match r {
            Some(p) => g1_cleared_of(c@) == Some(p@) && is_g1(p@),
            None => g1_cleared_of(c@) is None,
        },
{
    match Option::<G1Affine>::from(G1Affine::from_compressed_unchecked(c)) {
        Some(p) => {
            let g = G1Projective::from(p).clear_cofactor();
            Some(G1Point { bytes: G1Affine::from(g).to_compressed() })
        },
        None => None,
    }
}

/// Relies on bls12_381's `Mul<Scalar>` on G2: scalar multiplication in a group of
/// prime order `group_order()`.
#[verifier::external_body]
fn g2_mul(p: &G2Point, k: &Scalar) -> (r: G2Point)
    ensures
        encodes_g2(r@, (g2_log(p@) * k@) % group_order()),
{
    let a = G2Affine::from_compressed(&p.bytes).unwrap();
    let s = bls12_381::Scalar::from_bytes(&k.bytes).unwrap();
    G2Point { bytes: G2Affine::from(a * s).to_compressed() }
}

/// Relies on bls12_381's `Sub` on G2.
#[verifier::external_body]
fn g2_sub(p: &G2Point, q: &G2Point) -> (r: G2Point)
    ensures
        encodes_g2(r@, (g2_log(p@) - g2_log(q@)) % group_order()),
{
    let a = bls12_381::G2Projective::from(G2Affine::from_compressed(&p.bytes).unwrap());
    let b = G2Affine::from_compressed(&q.bytes).unwrap();
    G2Point { bytes: G2Affine::from(a - b).to_compressed() }
}

/// Relies on `G2Affine::from_compressed`: it accepts exactly the canonical
/// encodings of the elements of G2.
#[verifier::external_body]
fn g2_decode(b: &[u8; 96]) -> (r: Option<G2Point>)
    ensures
        r is Some <==> is_g2(b@),
        r is Some ==> r->0@ == b@,
{
    match Option::<G2Affine>::from(G2Affine::from_compressed(b)) {
        Some(_) => Some(G2Point { bytes: *b }),
        None => None,
    }
}

/// Relies on `bls12_381::pairing`, a non-degenerate bilinear map into a group of
/// order `group_order()`: e(a·g1, b·g2) = e(g1, g2)^(a·b), and e(g1, g2) generates it.
/// So two pairings agree exactly when the products of the logarithms agree.
#[verifier::external_body]
fn pairings_agree(a: &G1Point, b: &G2Point, c: &G1Point, d: &G2Point) -> (r: bool)
    ensures
        r == ((g1_log(a@) * g2_log(b@)) % group_order() == (g1_log(c@) * g2_log(d@))
            % group_order()),
{
    let a = G1Affine::from_compressed(&a.bytes).unwrap();
    let b = G2Affine::from_compressed(&b.bytes).unwrap();
    let c = G1Affine::from_compressed(&c.bytes).unwrap();
    let d = G2Affine::from_compressed(&d.bytes).unwrap();
    bls12_381::pairing(&a, &b) == bls12_381::pairing(&c, &d)
}


impl G1Point {
    #[verifier::type_invariant]
    spec fn valid(self) -> bool {
        is_g1(self.bytes@)
    }

    /// The discrete logarithm of the point to the base of the generator of G1.
    pub open spec fn log(&self) -> int {
        g1_log(self@)
    }

    /// Every point is the canonical encoding of exactly one multiple of the generator.
    pub fn in_group(&self)
        ensures
            encodes_g1(self@, self.log()),
    {
        proof {
            use_type_invariant(self);
        }
    }

    /// An encoding is 48 bytes long.
    pub proof fn lemma_len(p: G1Point)
        ensures
            p@.len() == 48,
    {
    }

    /// The fixed generator g1.
    pub fn generator() -> (r: G1Point)
        ensures
            encodes_g1(r@, 1),
            r.log() == 1,
    {
        let r = g1_generator();
        proof {
            lemma_g1_log(r@, 1);
        }
        r
    }

    /// The multiple `k·self`.
    pub fn mul(&self, k: &Scalar) -> (r: G1Point)
        ensures
            encodes_g1(r@, (self.log() * k@) % group_order()),
            r.log() == (self.log() * k@) % group_order(),
    {
        let r = g1_mul(self, k);
        proof {
            lemma_g1_log(r@, (self.log() * k@) % group_order());
        }
        r
    }

    /// The sum `self + other`.
    pub fn add(&self, other: &G1Point) -> (r: G1Point)
        ensures
            encodes_g1(r@, (self.log() + other.log()) % group_order()),
            r.log() == (self.log() + other.log()) % group_order(),
    {
        let r = g1_add(self, other);
        proof {
            lemma_g1_log(r@, (self.log() + other.log()) % group_order());
        }
        r
    }

    /// The difference `self - other`.
    pub fn sub(&self, other: &G1Point) -> (r: G1Point)
        ensures
            encodes_g1(r@, (self.log() - other.log()) % group_order()),
            r.log() == (self.log() - other.log()) % group_order(),
    {
        let r = g1_sub(self, other);
        proof {
            lemma_g1_log(r@, (self.log() - other.log()) % group_order());
        }
        r
    }

    /// The point of G1 that a candidate compressed encoding of a curve point yields
    /// once its cofactor is cleared, if the candidate names a point of the curve.
    pub fn clear_candidate(c: &[u8; 48]) -> (r: Option<G1Point>)
        ensures
            match r {
                Some(p) => g1_cleared_of(c@) == Some(p@),
                None => g1_cleared_of(c@) is None,
            },
    {
        g1_clear_candidate(c)
    }

    /// Whether the point is the identity (the point at infinity).
    pub fn is_identity(&self) -> (r: bool)
        ensures
            r == (self.log() == 0),
    {
        g1_is_identity(self)
    }

    /// Whether two points are equal.
    pub fn equals(&self, other: &G1Point) -> (r: bool)
        ensures
            r == (self@ == other@),
    {
        bytes_equal(&self.bytes, &other.bytes)
    }

    /// The canonical compressed encoding, 48 bytes long.
    pub fn to_bytes(&self) -> (r: [u8; 48])
        ensures
            r@ == self@,
    {
        self.bytes
    }

    /// The point that `b` encodes, if `b` is the canonical encoding of an element of G1.
    pub fn from_bytes(b: &[u8; 48]) -> (r: Option<G1Point>)
        ensures
            r is Some <==> is_g1(b@),
            r is Some ==> r->0@ == b@,
    {
        g1_decode(b)
    }
}

impl G2Point {
    #[verifier::type_invariant]
    spec fn valid(self) -> bool {
        is_g2(self.bytes@)
    }

    /// The discrete logarithm of the point to the base of the generator of G2.
    pub open spec fn log(&self) -> int {
        g2_log(self@)
    }

    /// Every point is the canonical encoding of exactly one multiple of the generator.
    pub fn in_group(&self)
        ensures
            encodes_g2(self@, self.log()),
    {
        proof {
            use_type_invariant(self);
        }
    }

    /// An encoding is 96 bytes long.
    pub proof fn lemma_len(p: G2Point)
        ensures
            p@.len() == 96,
    {
    }

    /// The fixed generator g2.
    pub fn generator() -> (r: G2Point)
        ensures
            encodes_g2(r@, 1),
            r.log() == 1,
    {
        let r = g2_generator();
        proof {
            lemma_g2_log(r@, 1);
        }
        r
    }

    /// The multiple `k·self`.
    pub fn mul(&self, k: &Scalar) -> (r: G2Point)
        ensures
            encodes_g2(r@, (self.log() * k@) % group_order()),
            r.log() == (self.log() * k@) % group_order(),
    {
        let r = g2_mul(self, k);
        proof {
            lemma_g2_log(r@, (self.log() * k@) % group_order());
        }
        r
    }

    /// The difference `self - other`.
    pub fn sub(&self, other: &G2Point) -> (r: G2Point)
        ensures
            encodes_g2(r@, (self.log() - other.log()) % group_order()),
            r.log() == (self.log() - other.log()) % group_order(),
    {
        let r = g2_sub(self, other);
        proof {
            lemma_g2_log(r@, (self.log() - other.log()) % group_order());
        }
        r
    }

    /// Whether two points are equal.
    pub fn equals(&self, other: &G2Point) -> (r: bool)
        ensures
            r == (self@ == other@),
    {
        bytes_equal(&self.bytes, &other.bytes)
    }

    /// The canonical compressed encoding, 96 bytes long.
    pub fn to_bytes(&self) -> (r: [u8; 96])
        ensures
            r@ == self@,
    {
        self.bytes
    }

    /// The point that `b` encodes, if `b` is the canonical encoding of an element of G2.
    pub fn from_bytes(b: &[u8; 96]) -> (r: Option<G2Point>)
        ensures
            r is Some <==> is_g2(b@),
            r is Some ==> r->0@ == b@,
    {
        g2_decode(b)
    }
}

/// Whether `e(a, b) = e(c, d)` for the pairing `e` of BLS12-381.
pub fn pairing_eq(a: &G1Point, b: &G2Point, c: &G1Point, d: &G2Point) -> (r: bool)
    ensures
        r == ((a.log() * b.log()) % group_order() == (c.log() * d.log()) % group_order()),
{
    pairings_agree(a, b, c, d)
}

/// Whether two byte strings are equal.
pub fn bytes_equal(a: &[u8], b: &[u8]) -> (r: bool)
    ensures
        r == (a@ == b@),
{
    if a.len() != b.len() {
        return false;
    }
    let mut i: usize = 0;
    while i < a.len()
        invariant
            0 <= i <= a.len(),
            a.len() == b.len(),
            forall|j: int| 0 <= j < i ==> a@[j] == b@[j],
        decreases a.len() - i,
    {
        if a[i] != b[i] {
            return false;
        }
        i = i + 1;
    }
    assert(a@ =~= b@);
    true
}

} // verus!
