//! Credentials (A, B, C, D) in G1, their pairing relations with the issuer key,
//! and their randomization.
use crate::curve::{pairing_eq, G1Point, G2Point};
use crate::issuer::{ISK, IPK};
use crate::scalar::{group_order, lemma_scaled_product, lemma_scaled_sum, Scalar};
use crate::EcdaaError;
use vstd::prelude::*;

verus! {

/// A credential (A, B, C, D) with A = (1/y)·B and C = x·(A + D).
#[derive(Clone, Copy, Debug)]
pub struct Credential {
    pub a: G1Point,
    pub b: G1Point,
    pub c: G1Point,
    pub d: G1Point,
}

/// The logarithms of the credential that the issuer with secret key `isk` gives
/// to member key `q` with randomness `l`.
pub open spec fn issued_logs(isk: ISK, q: G1Point, l: int) -> (int, int, int, int) {
    let o = group_order();
    let a = l;
    let b = (l * isk.y@) % o;
    let d = (q.log() * ((l * isk.y@) % o)) % o;
    (a, b, (((a + d) % o) * isk.x@) % o, d)
}

/// A credential issued honestly satisfies both pairing relations: one whose
/// logarithms are those that the secret key `isk` issues to member key `q` with
/// randomness `l` is valid under the public key of `isk`.
pub proof fn lemma_issued_credential_valid(cred: Credential, isk: ISK, ipk: IPK, q: G1Point, l: int)
    requires
        0 <= l < group_order(),
        (cred.a.log(), cred.b.log(), cred.c.log(), cred.d.log()) == issued_logs(isk, q, l),
        ipk.x.log() == isk.x@,
        ipk.y.log() == isk.y@,
    ensures
        cred.check(ipk) == Ok::<(), EcdaaError>(()),
{
    let o = group_order();
    assert(cred.b.log() % o == cred.b.log());
    assert(cred.c.log() % o == cred.c.log());
}

/// Randomization preserves validity: a credential scaled by any `l` from one that
/// satisfies both pairing relations satisfies them too.
pub proof fn lemma_randomized_credential_valid(cred: Credential, r: Credential, l: int, ipk: IPK)
    requires
        (r.a.log(), r.b.log(), r.c.log(), r.d.log()) == cred.scaled_logs(l),
        cred.check(ipk) is Ok,
    ensures
        r.check(ipk) is Ok,
{
    let q = group_order();
    lemma_scaled_product(cred.a.log(), ipk.y.log(), cred.b.log(), l);
    assert(r.b.log() % q == r.b.log());
    lemma_scaled_sum(cred.a.log(), cred.d.log(), ipk.x.log(), cred.c.log(), l);
    assert(r.c.log() % q == r.c.log());
}

impl Credential {
    pub fn new(a: G1Point, b: G1Point, c: G1Point, d: G1Point) -> (r: Credential)
        ensures
            r == (Credential { a, b, c, d }),
    {
        Credential { a, b, c, d }
    }

    /// The credential that the issuer with secret key `isk` gives to member key `q`
    /// with randomness `l`: A = l·g1, B = y·A, D = (l·y)·Q and C = x·(A + D), which
    /// is x·A + (x·y·l)·Q. It satisfies both pairing relations under the public key
    /// of `isk`.
    pub fn with_no_encryption(q: &G1Point, isk: &ISK, l: &Scalar) -> (r: Credential)
        ensures
            (r.a.log(), r.b.log(), r.c.log(), r.d.log()) == issued_logs(*isk, *q, l@),
            forall|ipk: IPK|
                ipk.x.log() == isk.x@ && ipk.y.log() == isk.y@ ==> #[trigger] r.check(ipk)
                    == Ok::<(), EcdaaError>(()),
    {
        l.in_range();
        isk.y.in_range();
        let a = G1Point::generator().mul(l);
        let b = a.mul(&isk.y);
        let d = q.mul(&l.mul(&isk.y));
        let c = a.add(&d).mul(&isk.x);
        let cred = Credential { a, b, c, d };
        proof {
            assert forall|ipk: IPK|
                ipk.x.log() == isk.x@ && ipk.y.log() == isk.y@ implies #[trigger] cred.check(ipk)
                == Ok::<(), EcdaaError>(()) by {
                lemma_issued_credential_valid(cred, *isk, ipk, *q, l@);
            }
        }
        cred
    }

    /// e(A, Y) = e(B, g2).
    pub open spec fn first_relation(&self, ipk: IPK) -> bool {
        (self.a.log() * ipk.y.log()) % group_order() == self.b.log() % group_order()
    }

    /// e(C, g2) = e(A + D, X).
    pub open spec fn second_relation(&self, ipk: IPK) -> bool {
        self.c.log() % group_order() == (((self.a.log() + self.d.log()) % group_order())
            * ipk.x.log()) % group_order()
    }

    /// The outcome of checking the two pairing relations, the first one first.
    pub open spec fn check(&self, ipk: IPK) -> Result<(), EcdaaError> {
        if !self.first_relation(ipk) {
            Err(EcdaaError::InvalidCredential1)
        } else if !self.second_relation(ipk) {
            Err(EcdaaError::InvalidCredential2)
        } else {
            Ok(())
        }
    }

    /// The credential `(l·A, l·B, l·C, l·D)`.
    pub open spec fn scaled_logs(&self, l: int) -> (int, int, int, int) {
        let q = group_order();
        (
            (self.a.log() * l) % q,
            (self.b.log() * l) % q,
            (self.c.log() * l) % q,
            (self.d.log() * l) % q,
        )
    }

    /// Checks e(A, Y) = e(B, g2), failing with `InvalidCredential1`, then
    /// e(C, g2) = e(A + D, X), failing with `InvalidCredential2`.
    pub fn valid(&self, ipk: &IPK) -> (r: Result<(), EcdaaError>)
        ensures
            r == self.check(*ipk),
    {
        let g2 = G2Point::generator();
        self.b.in_group();
        self.c.in_group();
        if !pairing_eq(&self.a, &ipk.y, &self.b, &g2) {
            return Err(EcdaaError::InvalidCredential1);
        }
        let sum = self.a.add(&self.d);
        if !pairing_eq(&self.c, &g2, &sum, &ipk.x) {
            return Err(EcdaaError::InvalidCredential2);
        }
        Ok(())
    }
}

/// The randomized credential `(l·A, l·B, l·C, l·D)`. A valid credential stays
/// valid under every `l`.
pub fn randomize_cred(cred: &Credential, l: &Scalar) -> (r: Credential)
    ensures
        (r.a.log(), r.b.log(), r.c.log(), r.d.log()) == cred.scaled_logs(l@),
        forall|ipk: IPK| #[trigger] cred.check(ipk) is Ok ==> r.check(ipk) is Ok,
{
    let r = Credential {
        a: cred.a.mul(l),
        b: cred.b.mul(l),
        c: cred.c.mul(l),
        d: cred.d.mul(l),
    };
    proof {
        assert forall|ipk: IPK| #[trigger] cred.check(ipk) is Ok implies r.check(ipk) is Ok by {
            lemma_randomized_credential_valid(*cred, r, l@, ipk);
        }
    }
    r
}

} // verus!
