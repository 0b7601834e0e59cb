//! Signing with a randomized credential, verifying such signatures, and
//! rejecting those whose linkability token belongs to a revoked secret key.
use crate::cred::{lemma_randomized_credential_valid, randomize_cred, Credential};
use crate::curve::{g1_of, G1Point};
use crate::hash::{hash_g1, hash_to_ecp};
use crate::issuer::IPK;
use crate::scalar::{group_order, lemma_scaled_product, Scalar};
use crate::schnorr::{
    lemma_schnorr_complete, link_token, link_token_log, outer_challenge, prover_transcript,
    SchnorrProof,
};
use crate::EcdaaError;
use vstd::prelude::*;

verus! {

/// A member: its secret key, the issuer key, and the credential the issuer gave it.
#[derive(Clone, Copy, Debug)]
pub struct Member {
    pub sk: Scalar,
    pub ipk: IPK,
    pub credential: Credential,
}

/// A signature: the randomized credential (R, S, T, W) and the proof of knowledge
/// of sk with W = sk·S.
#[derive(Clone, Copy, Debug)]
pub struct Signature {
    pub cred: Credential,
    pub proof: SchnorrProof,
}

impl Signature {
    pub fn new(cred: Credential, proof: SchnorrProof) -> (r: Signature)
        ensures
            r == (Signature { cred, proof }),
    {
        Signature { cred, proof }
    }

    /// The randomized credential is degenerate: S is the identity or R is g1.
    pub open spec fn degenerate(&self) -> bool {
        self.cred.b.log() == 0 || self.cred.a@ == g1_of(1)
    }

    /// The outcome of verifying the signature for message `m` and base-name `bn`
    /// under issuer key `ipk`: the degenerate case, then the proof, then the two
    /// pairing relations.
    pub open spec fn check(&self, m: Seq<u8>, bn: Seq<u8>, ipk: IPK, link: bool) -> Result<
        (),
        EcdaaError,
    > {
        if self.degenerate() {
            Err(EcdaaError::InvalidCredential1)
        } else if self.proof.check(m, bn, self.cred.b, self.cred.d, link) is Err {
            self.proof.check(m, bn, self.cred.b, self.cred.d, link)
        } else {
            self.cred.check(ipk)
        }
    }

    /// The signature carries the token K = sk·H_G1(bn).
    pub open spec fn links_to(&self, bn: Seq<u8>, sk: int) -> bool {
        self.proof.k matches Some(k) && k@ == link_token(bn, sk) && k.log() == link_token_log(
            bn,
            sk,
        )
    }

    /// Signs `m` under base-name `bn` with secret key `sk` and credential `cred`,
    /// randomized by `l`; `r` and `n` are the proof's commitment randomness and
    /// nonce. Fails with `HashingFailed` only where `link` holds and `bn` cannot be
    /// hashed to G1. A member whose credential is valid and whose key is the one in
    /// it (D = sk·B) signs what verifies, unless the randomized credential is
    /// degenerate.
    pub fn sign(
        m: &[u8],
        bn: &[u8],
        sk: &Scalar,
        cred: &Credential,
        link: bool,
        l: &Scalar,
        r: &Scalar,
        n: &Scalar,
    ) -> (res: Result<Signature, EcdaaError>)
        requires
            l@ != 0,
        ensures
            res is Err <==> link && hash_g1(bn@) is None,
            res is Err ==> res == Err::<Signature, EcdaaError>(EcdaaError::HashingFailed),
            res matches Ok(sig) ==> {
                &&& (sig.cred.a.log(), sig.cred.b.log(), sig.cred.c.log(), sig.cred.d.log())
                    == cred.scaled_logs(l@)
                &&& sig.proof.c@ == outer_challenge(
                    n@,
                    prover_transcript(m@, bn@, sk@, sig.cred.b, sig.cred.d, link, r@),
                )
                &&& sig.proof.s@ == (r@ + sig.proof.c@ * sk@) % group_order()
                &&& sig.proof.n == *n
                &&& link ==> sig.links_to(bn@, sk@)
                &&& !link ==> sig.proof.k is None
                &&& forall|ipk: IPK|
                    #![trigger cred.check(ipk)]
                    cred.check(ipk) is Ok && cred.d.log() == (cred.b.log() * sk@)
                        % group_order() && !sig.degenerate() ==> sig.check(m@, bn@, ipk, link)
                        == Ok::<(), EcdaaError>(())
            },
    {
        let rc = randomize_cred(cred, l);
        let proof = match SchnorrProof::random(m, bn, sk, &rc.b, &rc.d, link, r, n) {
            Ok(p) => p,
            Err(e) => {
                return Err(e);
            },
        };
        let sig = Signature { cred: rc, proof };
        r.in_range();
        proof {
            assert forall|ipk: IPK|
                #![trigger cred.check(ipk)]
                cred.check(ipk) is Ok && cred.d.log() == (cred.b.log() * sk@) % group_order()
                    && !sig.degenerate() implies sig.check(m@, bn@, ipk, link) == Ok::<
                (),
                EcdaaError,
            >(()) by {
                lemma_honest_signature_verifies(sig, *cred, ipk, m@, bn@, sk@, link, l@, r@);
            }
        }
        Ok(sig)
    }

    /// Verifies the signature for message `m` and base-name `bn` under issuer key
    /// `ipk`: rejects a degenerate credential with `InvalidCredential1`, then checks
    /// the proof, then the pairing relations.
    pub fn verify(&self, m: &[u8], bn: &[u8], ipk: &IPK, link: bool) -> (r: Result<
        (),
        EcdaaError,
    >)
        ensures
            r == self.check(m@, bn@, *ipk, link),
    {
        let g1 = G1Point::generator();
        if self.cred.b.is_identity() || self.cred.a.equals(&g1) {
            return Err(EcdaaError::InvalidCredential1);
        }
        match self.proof.valid(m, bn, &self.cred.b, &self.cred.d, link) {
            Ok(()) => {},
            Err(e) => {
                return Err(e);
            },
        }
        self.cred.valid(ipk)
    }
}

impl Member {
    /// Signs `m` under base-name `bn` with the member's key and credential; see
    /// `Signature::sign`.
    pub fn sign(&self, m: &[u8], bn: &[u8], link: bool, l: &Scalar, r: &Scalar, n: &Scalar) -> (res:
        Result<Signature, EcdaaError>)
        requires
            l@ != 0,
        ensures
            res is Err <==> link && hash_g1(bn@) is None,
            res is Err ==> res == Err::<Signature, EcdaaError>(EcdaaError::HashingFailed),
            res matches Ok(sig) ==> {
                &&& (sig.cred.a.log(), sig.cred.b.log(), sig.cred.c.log(), sig.cred.d.log())
                    == self.credential.scaled_logs(l@)
                &&& sig.proof.c@ == outer_challenge(
                    n@,
                    prover_transcript(m@, bn@, self.sk@, sig.cred.b, sig.cred.d, link, r@),
                )
                &&& sig.proof.s@ == (r@ + sig.proof.c@ * self.sk@) % group_order()
                &&& sig.proof.n == *n
                &&& link ==> sig.links_to(bn@, self.sk@)
                &&& !link ==> sig.proof.k is None
                &&& self.credential.check(self.ipk) is Ok && self.credential.d.log() == (
                self.credential.b.log() * self.sk@) % group_order() && !sig.degenerate()
                    ==> sig.check(m@, bn@, self.ipk, link) == Ok::<(), EcdaaError>(())
            },
    {
        Signature::sign(m, bn, &self.sk, &self.credential, link, l, r, n)
    }
}

/// A signature by a member whose credential is valid and carries the member's key
/// (D = sk·B) verifies, unless its randomized credential is degenerate: one whose
/// credential is the member's scaled by `l` and whose proof is made honestly for
/// `sk` with commitment randomness `r`.
pub proof fn lemma_honest_signature_verifies(
    sig: Signature,
    cred: Credential,
    ipk: IPK,
    m: Seq<u8>,
    bn: Seq<u8>,
    sk: int,
    link: bool,
    l: int,
    r: int,
)
    requires
        cred.check(ipk) is Ok,
        cred.d.log() == (cred.b.log() * sk) % group_order(),
        (sig.cred.a.log(), sig.cred.b.log(), sig.cred.c.log(), sig.cred.d.log())
            == cred.scaled_logs(l),
        sig.proof.c@ == outer_challenge(
            sig.proof.n@,
            prover_transcript(m, bn, sk, sig.cred.b, sig.cred.d, link, r),
        ),
        sig.proof.s@ == (r + sig.proof.c@ * sk) % group_order(),
        link ==> hash_g1(bn) is Some && sig.links_to(bn, sk),
        !sig.degenerate(),
    ensures
        sig.check(m, bn, ipk, link) == Ok::<(), EcdaaError>(()),
{
    lemma_scaled_product(cred.b.log(), sk, cred.d.log(), l);
    lemma_schnorr_complete(sig.proof, m, bn, sk, sig.cred.b, sig.cred.d, link, r);
    lemma_randomized_credential_valid(cred, sig.cred, l, ipk);
}

/// Two signatures made with linkability by one secret key under one base-name
/// carry the same token.
pub proof fn lemma_same_basename_links(s1: Signature, s2: Signature, bn: Seq<u8>, sk: int)
    requires
        s1.links_to(bn, sk),
        s2.links_to(bn, sk),
    ensures
        s1.proof.k matches Some(k1) && s2.proof.k matches Some(k2) && k1@ == k2@,
{
}

/// A verifier of signatures under one issuer key, with a list of revoked secret
/// keys.
pub struct Verifier {
    pub ipk: IPK,
    pub revoked: Vec<Scalar>,
}

/// The token of `k` is K = sk·H_G1(bn) for one of the `revoked` keys.
pub open spec fn token_revoked(k: Option<G1Point>, bn: Seq<u8>, revoked: Seq<Scalar>) -> bool {
    exists|i: int|
        0 <= i < revoked.len() && (k matches Some(t) && t@ == link_token(
            bn,
            (#[trigger] revoked[i])@,
        ))
}

impl Verifier {
    pub fn new(ipk: IPK) -> (r: Verifier)
        ensures
            r.ipk == ipk,
            r.revoked@ == Seq::<Scalar>::empty(),
    {
        Verifier { ipk, revoked: Vec::new() }
    }

    /// Accepts a signature that verifies, unless linkability is asked for and its
    /// token is that of a revoked key. Without linkability the list plays no part,
    /// so a revoked member's signature made without it is accepted.
    pub fn verify(&self, signature: &Signature, m: &[u8], bn: &[u8], link: bool) -> (r: bool)
        ensures
            r == (signature.check(m@, bn@, self.ipk, link) is Ok && !(link && token_revoked(
                signature.proof.k,
                bn@,
                self.revoked@,
            ))),
            !link ==> r == signature.check(m@, bn@, self.ipk, link) is Ok,
    {
        match signature.verify(m, bn, &self.ipk, link) {
            Ok(()) => {},
            Err(_) => {
                return false;
            },
        }
        if !link {
            return true;
        }
        let k = match signature.proof.k {
            Some(k) => k,
            None => {
                return false;
            },
        };
        let b = match hash_to_ecp(bn) {
            Ok((b, _)) => b,
            Err(_) => {
                return false;
            },
        };
        let mut i: usize = 0;
        while i < self.revoked.len()
            invariant
                0 <= i <= self.revoked.len(),
                signature.proof.k == Some(k),
                hash_g1(bn@) == Some(b@),
                link,
                signature.check(m@, bn@, self.ipk, link) is Ok,
                forall|j: int|
                    0 <= j < i ==> k@ != link_token(bn@, (#[trigger] self.revoked@[j])@),
            decreases self.revoked.len() - i,
        {
            let t = b.mul(&self.revoked[i]);
            if t.equals(&k) {
                assert(token_revoked(signature.proof.k, bn@, self.revoked@)) by {
                    assert(k@ == link_token(bn@, self.revoked@[i as int]@));
                }
                return false;
            }
            i = i + 1;
        }
        true
    }
}

} // verus!
