//! The Fiat-Shamir Schnorr proof of knowledge of `sk` with `W = sk·S`, optionally
//! tied to a linkability token `K = sk·B` for `B = H_G1(bn)`.
use crate::curve::{g1_log, g1_of, G1Point};
use crate::hash::{append_bytes, hash_g1, hash_scalar, hash_to_ecp, hash_to_scalar};
use crate::scalar::{group_order, lemma_commitment_recovered, scalar_encoding, Scalar};
use crate::EcdaaError;
use vstd::prelude::*;

verus! {

/// A proof (c, s, n), with the linkability token K where one was asked for.
#[derive(Clone, Copy, Debug)]
pub struct SchnorrProof {
    pub c: Scalar,
    pub s: Scalar,
    pub n: Scalar,
    pub k: Option<G1Point>,
}

/// The encoding of `(a·x - b·y)·g1` for points of logarithms `a` and `b`.
pub open spec fn g1_diff(a: int, x: int, b: int, y: int) -> Seq<u8> {
    g1_of(((a * x) % group_order() - (b * y) % group_order()) % group_order())
}

/// The outer challenge c = H_s(n ‖ c2), with c2 = H_s(inner).
pub open spec fn outer_challenge(n: int, inner: Seq<u8>) -> int {
    hash_scalar(scalar_encoding(n) + scalar_encoding(hash_scalar(inner)))
}

/// The inner transcript E ‖ S ‖ W ‖ [L ‖ B ‖ K ‖ bn] ‖ m; the bracketed part stands
/// only where linkability is asked for.
pub open spec fn inner_transcript(
    e: Seq<u8>,
    s: Seq<u8>,
    w: Seq<u8>,
    link: bool,
    l: Seq<u8>,
    b: Seq<u8>,
    k: Seq<u8>,
    bn: Seq<u8>,
    m: Seq<u8>,
) -> Seq<u8> {
    if link {
        e + s + w + l + b + k + bn + m
    } else {
        e + s + w + m
    }
}

/// The base B = H_G1(bn), where it exists.
pub open spec fn basename_point(bn: Seq<u8>) -> Seq<u8> {
    match hash_g1(bn) {
        Some(b) => b,
        None => Seq::empty(),
    }
}

/// The inner transcript of a proof made with commitment `r`.
pub open spec fn prover_transcript(
    m: Seq<u8>,
    bn: Seq<u8>,
    sk: int,
    s: G1Point,
    w: G1Point,
    link: bool,
    r: int,
) -> Seq<u8> {
    let q = group_order();
    let bl = g1_log(basename_point(bn));
    inner_transcript(
        g1_of((s.log() * r) % q),
        s@,
        w@,
        link,
        g1_of((bl * r) % q),
        basename_point(bn),
        g1_of((bl * sk) % q),
        bn,
        m,
    )
}

/// The logarithm of the linkability token K = sk·H_G1(bn).
pub open spec fn link_token_log(bn: Seq<u8>, sk: int) -> int {
    (g1_log(basename_point(bn)) * sk) % group_order()
}

/// The linkability token K = sk·H_G1(bn).
pub open spec fn link_token(bn: Seq<u8>, sk: int) -> Seq<u8> {
    g1_of(link_token_log(bn, sk))
}

/// A proof made honestly checks: one whose challenge and response are those made
/// for `sk` with commitment randomness `r`, and whose token is sk·H_G1(bn) where
/// linkability is asked for, checks whenever W = sk·S.
pub proof fn lemma_schnorr_complete(
    p: SchnorrProof,
    m: Seq<u8>,
    bn: Seq<u8>,
    sk: int,
    s: G1Point,
    w: G1Point,
    link: bool,
    r: int,
)
    requires
        w.log() == (s.log() * sk) % group_order(),
        p.c@ == outer_challenge(p.n@, prover_transcript(m, bn, sk, s, w, link, r)),
        p.s@ == (r + p.c@ * sk) % group_order(),
        link ==> hash_g1(bn) is Some,
        link ==> (p.k matches Some(k) && k@ == link_token(bn, sk) && k.log() == link_token_log(
            bn,
            sk,
        )),
    ensures
        p.check(m, bn, s, w, link) == Ok::<(), EcdaaError>(()),
{
    lemma_commitment_recovered(s.log(), r, p.c@, sk);
    lemma_commitment_recovered(g1_log(basename_point(bn)), r, p.c@, sk);
    assert(p.verifier_transcript(m, bn, s, w, link) == prover_transcript(m, bn, sk, s, w, link, r));
}

impl SchnorrProof {
    /// The inner transcript that a verifier recomputes from the proof.
    pub open spec fn verifier_transcript(
        &self,
        m: Seq<u8>,
        bn: Seq<u8>,
        s: G1Point,
        w: G1Point,
        link: bool,
    ) -> Seq<u8> {
        let k = match self.k {
            Some(k) => k,
            None => s,
        };
        inner_transcript(
            g1_diff(s.log(), self.s@, w.log(), self.c@),
            s@,
            w@,
            link,
            g1_diff(g1_log(basename_point(bn)), self.s@, k.log(), self.c@),
            basename_point(bn),
            k@,
            bn,
            m,
        )
    }

    /// The outcome of checking the proof for message `m`, base-name `bn` and bases
    /// `(S, W)`.
    pub open spec fn check(
        &self,
        m: Seq<u8>,
        bn: Seq<u8>,
        s: G1Point,
        w: G1Point,
        link: bool,
    ) -> Result<(), EcdaaError> {
        if link && self.k is None {
            Err(EcdaaError::KNotInSignature)
        } else if link && hash_g1(bn) is None {
            Err(EcdaaError::HashingFailed)
        } else if outer_challenge(self.n@, self.verifier_transcript(m, bn, s, w, link))
            == self.c@ {
            Ok(())
        } else {
            Err(EcdaaError::InvalidSchnorrProof)
        }
    }

    /// Proves knowledge of `sk` with `W = sk·S` for message `m`, with commitment
    /// randomness `r` and nonce `n`; where `link` holds, also for base-name `bn`,
    /// whose token K it carries. Fails with `HashingFailed` only where `bn` cannot be
    /// hashed to G1 and `link` holds. When `W = sk·S` the proof checks.
    pub fn random(
        m: &[u8],
        bn: &[u8],
        sk: &Scalar,
        s: &G1Point,
        w: &G1Point,
        link: bool,
        r: &Scalar,
        n: &Scalar,
    ) -> (res: Result<SchnorrProof, EcdaaError>)
        ensures
            res is Err <==> link && hash_g1(bn@) is None,
            res is Err ==> res == Err::<SchnorrProof, EcdaaError>(EcdaaError::HashingFailed),
            res matches Ok(p) ==> {
                &&& p.c@ == outer_challenge(n@, prover_transcript(m@, bn@, sk@, *s, *w, link, r@))
                &&& p.s@ == (r@ + p.c@ * sk@) % group_order()
                &&& p.n == *n
                &&& if link {
                    p.k matches Some(k) && k@ == link_token(bn@, sk@) && k.log() == link_token_log(
                        bn@,
                        sk@,
                    )
                } else {
                    p.k is None
                }
                &&& w.log() == (s.log() * sk@) % group_order() ==> p.check(m@, bn@, *s, *w, link)
                    == Ok::<(), EcdaaError>(())
            },
    {
        let e = s.mul(r);
        let mut inner: Vec<u8> = Vec::new();
        append_bytes(&mut inner, &e.to_bytes());
        append_bytes(&mut inner, &s.to_bytes());
        append_bytes(&mut inner, &w.to_bytes());
        let mut k: Option<G1Point> = None;
        if link {
            let b = match hash_to_ecp(bn) {
                Ok((b, _)) => b,
                Err(err) => {
                    return Err(err);
                },
            };
            let l = b.mul(r);
            let kp = b.mul(sk);
            append_bytes(&mut inner, &l.to_bytes());
            append_bytes(&mut inner, &b.to_bytes());
            append_bytes(&mut inner, &kp.to_bytes());
            append_bytes(&mut inner, bn);
            k = Some(kp);
        }
        append_bytes(&mut inner, m);
        let c = challenge(n, inner.as_slice());
        let resp = r.add(&c.mul(sk));
        let p = SchnorrProof { c, s: resp, n: *n, k };
        proof {
            assert(inner@ == prover_transcript(m@, bn@, sk@, *s, *w, link, r@));
            vstd::arithmetic::div_mod::lemma_add_mod_noop_right(r@, c@ * sk@, group_order());
            if w.log() == (s.log() * sk@) % group_order() {
                lemma_schnorr_complete(p, m@, bn@, sk@, *s, *w, link, r@);
            }
        }
        Ok(p)
    }

    /// Checks the proof for message `m`, base-name `bn` and bases `(S, W)`, with
    /// the linkability branch where `link` holds.
    pub fn valid(&self, m: &[u8], bn: &[u8], s: &G1Point, w: &G1Point, link: bool) -> (r: Result<
        (),
        EcdaaError,
    >)
        ensures
            r == self.check(m@, bn@, *s, *w, link),
    {
        let e = s.mul(&self.s).sub(&w.mul(&self.c));
        let mut inner: Vec<u8> = Vec::new();
        append_bytes(&mut inner, &e.to_bytes());
        append_bytes(&mut inner, &s.to_bytes());
        append_bytes(&mut inner, &w.to_bytes());
        if link {
            let k = match self.k {
                Some(k) => k,
                None => {
                    return Err(EcdaaError::KNotInSignature);
                },
            };
            let b = match hash_to_ecp(bn) {
                Ok((b, _)) => b,
                Err(err) => {
                    return Err(err);
                },
            };
            let l = b.mul(&self.s).sub(&k.mul(&self.c));
            append_bytes(&mut inner, &l.to_bytes());
            append_bytes(&mut inner, &b.to_bytes());
            append_bytes(&mut inner, &k.to_bytes());
            append_bytes(&mut inner, bn);
        }
        append_bytes(&mut inner, m);
        assert(inner@ == self.verifier_transcript(m@, bn@, *s, *w, link));
        let c = challenge(&self.n, inner.as_slice());
        if c.equals(&self.c) {
            Ok(())
        } else {
            Err(EcdaaError::InvalidSchnorrProof)
        }
    }
}

/// c = H_s(n ‖ H_s(inner)).
fn challenge(n: &Scalar, inner: &[u8]) -> (r: Scalar)
    ensures
        r@ == outer_challenge(n@, inner@),
{
    let c2 = hash_to_scalar(inner);
    let mut t: Vec<u8> = Vec::new();
    append_bytes(&mut t, &n.to_bytes());
    append_bytes(&mut t, &c2.to_bytes());
    hash_to_scalar(t.as_slice())
}

} // verus!
