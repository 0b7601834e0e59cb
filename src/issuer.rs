//! The issuer's keys: the secret pair (x, y) and the public key (X, Y) with a
//! non-interactive proof of knowledge of (x, y).
use crate::curve::{g2_of, G2Point};
use crate::hash::{append_bytes, hash_scalar, hash_to_scalar};
use crate::scalar::{group_order, lemma_response_cancels, Scalar};
use crate::EcdaaError;
use vstd::prelude::*;

verus! {

/// The issuer's secret key (x, y).
#[derive(Clone, Copy, Debug)]
pub struct ISK {
    pub x: Scalar,
    pub y: Scalar,
}

/// The issuer's public key: X = x·g2, Y = y·g2, and a proof (c, sx, sy) of
/// knowledge of x and y.
#[derive(Clone, Copy, Debug)]
pub struct IPK {
    pub x: G2Point,
    pub y: G2Point,
    pub c: Scalar,
    pub sx: Scalar,
    pub sy: Scalar,
}

/// The bytes hashed into the key's challenge: Ux ‖ Uy ‖ g2 ‖ X ‖ Y.
pub open spec fn ipk_transcript(ux: Seq<u8>, uy: Seq<u8>, x: Seq<u8>, y: Seq<u8>) -> Seq<u8> {
    ux + uy + g2_of(1) + x + y
}

/// The commitment that a response `s` to challenge `c` on the public value of
/// logarithm `v` gives back: (s - v·c)·g2.
pub open spec fn g2_commitment(s: int, v: int, c: int) -> Seq<u8> {
    g2_of((s - (v * c) % group_order()) % group_order())
}

/// Every freshly generated key validates: a key whose X and Y have logarithms `x`
/// and `y`, whose challenge hashes the commitments `rx·g2` and `ry·g2`, and whose
/// responses are `rx + c·x` and `ry + c·y` has a proof that holds.
pub proof fn lemma_fresh_key_validates(k: IPK, x: int, y: int, rx: int, ry: int)
    requires
        0 <= rx < group_order(),
        0 <= ry < group_order(),
        k.x.log() == x,
        k.y.log() == y,
        k.c@ == hash_scalar(ipk_transcript(g2_of(rx), g2_of(ry), k.x@, k.y@)),
        k.sx@ == (rx + k.c@ * x) % group_order(),
        k.sy@ == (ry + k.c@ * y) % group_order(),
    ensures
        k.proof_holds(),
{
    lemma_response_cancels(rx, k.c@, x);
    lemma_response_cancels(ry, k.c@, y);
}

impl ISK {
    pub fn new(x: Scalar, y: Scalar) -> (r: ISK)
        ensures
            r.x == x,
            r.y == y,
    {
        ISK { x, y }
    }
}

/// The bytes `ux ‖ uy ‖ g2 ‖ x ‖ y`.
fn key_transcript(ux: &G2Point, uy: &G2Point, g2: &G2Point, x: &G2Point, y: &G2Point) -> (r: Vec<
    u8,
>)
    requires
        g2@ == g2_of(1),
    ensures
        r@ == ipk_transcript(ux@, uy@, x@, y@),
{
    let mut t: Vec<u8> = Vec::new();
    append_bytes(&mut t, &ux.to_bytes());
    append_bytes(&mut t, &uy.to_bytes());
    append_bytes(&mut t, &g2.to_bytes());
    append_bytes(&mut t, &x.to_bytes());
    append_bytes(&mut t, &y.to_bytes());
    t
}

impl IPK {
    pub fn new(x: G2Point, y: G2Point, c: Scalar, sx: Scalar, sy: Scalar) -> (r: IPK)
        ensures
            r == (IPK { x, y, c, sx, sy }),
    {
        IPK { x, y, c, sx, sy }
    }

    /// The key's proof holds: its challenge is the hash of the commitments that its
    /// responses give back.
    pub open spec fn proof_holds(&self) -> bool {
        self.c@ == hash_scalar(
            ipk_transcript(
                g2_commitment(self.sx@, self.x.log(), self.c@),
                g2_commitment(self.sy@, self.y.log(), self.c@),
                self.x@,
                self.y@,
            ),
        )
    }

    /// The public key of `isk`, with its proof made from the commitments `rx`, `ry`.
    /// Every key made so validates.
    pub fn random(isk: &ISK, rx: &Scalar, ry: &Scalar) -> (r: IPK)
        ensures
            r.x.log() == isk.x@,
            r.y.log() == isk.y@,
            r.c@ == hash_scalar(ipk_transcript(g2_of(rx@), g2_of(ry@), r.x@, r.y@)),
            r.sx@ == (rx@ + r.c@ * isk.x@) % group_order(),
            r.sy@ == (ry@ + r.c@ * isk.y@) % group_order(),
            r.proof_holds(),
    {
        isk.x.in_range();
        isk.y.in_range();
        rx.in_range();
        ry.in_range();
        let g2 = G2Point::generator();
        let x = g2.mul(&isk.x);
        let y = g2.mul(&isk.y);
        let ux = g2.mul(rx);
        let uy = g2.mul(ry);
        let t = key_transcript(&ux, &uy, &g2, &x, &y);
        let c = hash_to_scalar(t.as_slice());
        let sx = rx.add(&c.mul(&isk.x));
        let sy = ry.add(&c.mul(&isk.y));
        let k = IPK { x, y, c, sx, sy };
        proof {
            let q = group_order();
            vstd::arithmetic::div_mod::lemma_add_mod_noop_right(rx@, c@ * isk.x@, q);
            vstd::arithmetic::div_mod::lemma_add_mod_noop_right(ry@, c@ * isk.y@, q);
            lemma_fresh_key_validates(k, isk.x@, isk.y@, rx@, ry@);
        }
        k
    }

    /// Checks the key's proof of knowledge of its secret key; fails with
    /// `InvalidPublicKey` where it does not hold.
    pub fn validate(&self) -> (r: Result<(), EcdaaError>)
        ensures
            r is Ok <==> self.proof_holds(),
            r is Err ==> r == Err::<(), EcdaaError>(EcdaaError::InvalidPublicKey),
    {
        self.sx.in_range();
        self.sy.in_range();
        let g2 = G2Point::generator();
        let ux = g2.mul(&self.sx).sub(&self.x.mul(&self.c));
        let uy = g2.mul(&self.sy).sub(&self.y.mul(&self.c));
        let t = key_transcript(&ux, &uy, &g2, &self.x, &self.y);
        let c = hash_to_scalar(t.as_slice());
        if c.equals(&self.c) {
            Ok(())
        } else {
            Err(EcdaaError::InvalidPublicKey)
        }
    }
}

} // verus!
