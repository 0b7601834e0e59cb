//! The three-message join between an issuer and a member: the issuer's nonce, the
//! member's key Q = sk·g1 with a proof of knowledge of sk bound to the nonce, and
//! the issuer's credential with a proof that it is well formed.
use crate::cred::{issued_logs, Credential};
use crate::curve::{g1_of, g2_of, G1Point};
use crate::hash::{append_bytes, hash_scalar, hash_to_scalar};
use crate::issuer::{ipk_transcript, ISK, IPK};
use crate::scalar::{group_order, lemma_commitment_recovered, scalar_encoding, Scalar};
use crate::schnorr::g1_diff;
use crate::signature::Member;
use crate::EcdaaError;
use vstd::prelude::*;

verus! {

/// An issuer: its secret key and the public key that goes with it.
#[derive(Clone, Copy, Debug)]
pub struct Issuer {
    pub isk: ISK,
    pub ipk: IPK,
}

impl Issuer {
    /// The public key is the one of the secret key: X = x·g2 and Y = y·g2.
    pub open spec fn keys_match(&self) -> bool {
        self.ipk.x.log() == self.isk.x@ && self.ipk.y.log() == self.isk.y@
    }

    /// The issuer with secret key (x, y), whose key proof is made from the
    /// commitments `rx`, `ry`.
    pub fn random(x: Scalar, y: Scalar, rx: &Scalar, ry: &Scalar) -> (r: Issuer)
        ensures
            r.isk.x == x,
            r.isk.y == y,
            r.keys_match(),
            r.ipk.c@ == hash_scalar(ipk_transcript(g2_of(rx@), g2_of(ry@), r.ipk.x@, r.ipk.y@)),
            r.ipk.sx@ == (rx@ + r.ipk.c@ * x@) % group_order(),
            r.ipk.sy@ == (ry@ + r.ipk.c@ * y@) % group_order(),
            r.ipk.proof_holds(),
    {
        let isk = ISK::new(x, y);
        let ipk = IPK::random(&isk, rx, ry);
        Issuer { isk, ipk }
    }
}

/// The member's join request: its key Q, a proof (c, s) of knowledge of sk with
/// Q = sk·g1, and the issuer's nonce n that the proof is bound to.
#[derive(Clone, Copy, Debug)]
pub struct ReqForJoin {
    pub q: G1Point,
    pub c: Scalar,
    pub s: Scalar,
    pub n: Scalar,
}

/// The issuer's proof (c2, s2) that B = w·g1 and D = w·Q for one w.
#[derive(Clone, Copy, Debug)]
pub struct ProofMemberCredentialValid {
    pub c2: Scalar,
    pub s2: Scalar,
}

/// U1 ‖ Q ‖ n.
pub open spec fn join_transcript(u1: Seq<u8>, q: Seq<u8>, n: int) -> Seq<u8> {
    u1 + q + scalar_encoding(n)
}

/// U2 ‖ V2 ‖ B ‖ Q ‖ D.
pub open spec fn issue_transcript(
    u2: Seq<u8>,
    v2: Seq<u8>,
    b: Seq<u8>,
    q: Seq<u8>,
    d: Seq<u8>,
) -> Seq<u8> {
    u2 + v2 + b + q + d
}

impl ReqForJoin {
    /// The proof holds: c = H_s(U1 ‖ Q ‖ n) with U1 = s·g1 - c·Q.
    pub open spec fn holds(&self) -> bool {
        self.c@ == hash_scalar(
            join_transcript(g1_diff(1, self.s@, self.q.log(), self.c@), self.q@, self.n@),
        )
    }

    /// The request of the member with secret key `sk` and key `q` for nonce `n`,
    /// its proof made with commitment randomness `r1`. It holds whenever Q = sk·g1.
    pub fn random(q: &G1Point, sk: &Scalar, n: &Scalar, r1: &Scalar) -> (r: ReqForJoin)
        ensures
            r.q == *q,
            r.n == *n,
            r.c@ == hash_scalar(join_transcript(g1_of(r1@), q@, n@)),
            r.s@ == (r1@ + r.c@ * sk@) % group_order(),
            q.log() == sk@ ==> r.holds(),
    {
        let g1 = G1Point::generator();
        let u1 = g1.mul(r1);
        let mut t: Vec<u8> = Vec::new();
        append_bytes(&mut t, &u1.to_bytes());
        append_bytes(&mut t, &q.to_bytes());
        append_bytes(&mut t, &n.to_bytes());
        let c = hash_to_scalar(t.as_slice());
        let s = r1.add(&c.mul(sk));
        r1.in_range();
        sk.in_range();
        proof {
            let o = group_order();
            vstd::arithmetic::div_mod::lemma_add_mod_noop_right(r1@, c@ * sk@, o);
            lemma_commitment_recovered(1, r1@, c@, sk@);
        }
        ReqForJoin { q: *q, c, s, n: *n }
    }

    /// Checks the request's proof; fails with `InvalidSchnorrProof` where it does
    /// not hold.
    pub fn valid(&self) -> (r: Result<(), EcdaaError>)
        ensures
            r is Ok <==> self.holds(),
            r is Err ==> r == Err::<(), EcdaaError>(EcdaaError::InvalidSchnorrProof),
    {
        self.s.in_range();
        let g1 = G1Point::generator();
        let u1 = g1.mul(&self.s).sub(&self.q.mul(&self.c));
        let mut t: Vec<u8> = Vec::new();
        append_bytes(&mut t, &u1.to_bytes());
        append_bytes(&mut t, &self.q.to_bytes());
        append_bytes(&mut t, &self.n.to_bytes());
        let c = hash_to_scalar(t.as_slice());
        if c.equals(&self.c) {
            Ok(())
        } else {
            Err(EcdaaError::InvalidSchnorrProof)
        }
    }
}

impl ProofMemberCredentialValid {
    /// The proof holds for `cred` and the member key `q`: c2 = H_s(U2 ‖ V2 ‖ B ‖ Q ‖ D)
    /// with U2 = s2·g1 - c2·B and V2 = s2·Q - c2·D.
    pub open spec fn holds(&self, cred: Credential, q: G1Point) -> bool {
        self.c2@ == hash_scalar(
            issue_transcript(
                g1_diff(1, self.s2@, cred.b.log(), self.c2@),
                g1_diff(q.log(), self.s2@, cred.d.log(), self.c2@),
                cred.b@,
                q@,
                cred.d@,
            ),
        )
    }
}

/// Where the issuer's side of a join stands.
#[derive(Clone, Copy, Debug)]
pub enum IssuerJoinState {
    Idle,
    AwaitingProof { n: Scalar },
    ReadyToIssue { q: G1Point },
    Issued { q: G1Point, l: Scalar, cred: Credential },
}

/// The issuer's side of joins, one at a time, with the nonces it has handed out.
pub struct IssuerJoinProcess {
    pub issuer: Issuer,
    pub state: IssuerJoinState,
    pub used_nonces: Vec<Scalar>,
}

/// Whether `n` is among `used`.
pub open spec fn nonce_used(used: Seq<Scalar>, n: int) -> bool {
    exists|i: int| 0 <= i < used.len() && (#[trigger] used[i])@ == n
}

/// Checks the issuer's proof that `cred` is well formed for member key `q`.
fn check_credential_proof(cred: &Credential, q: &G1Point, proof: &ProofMemberCredentialValid) -> (r:
    bool)
    ensures
        r == proof.holds(*cred, *q),
{
    proof.s2.in_range();
    let g1 = G1Point::generator();
    let u2 = g1.mul(&proof.s2).sub(&cred.b.mul(&proof.c2));
    let v2 = q.mul(&proof.s2).sub(&cred.d.mul(&proof.c2));
    let mut t: Vec<u8> = Vec::new();
    append_bytes(&mut t, &u2.to_bytes());
    append_bytes(&mut t, &v2.to_bytes());
    append_bytes(&mut t, &cred.b.to_bytes());
    append_bytes(&mut t, &q.to_bytes());
    append_bytes(&mut t, &cred.d.to_bytes());
    let c = hash_to_scalar(t.as_slice());
    c.equals(&proof.c2)
}

impl IssuerJoinProcess {
    pub fn new(issuer: Issuer) -> (r: IssuerJoinProcess)
        ensures
            r.issuer == issuer,
            r.state is Idle,
            r.used_nonces@ == Seq::<Scalar>::empty(),
    {
        IssuerJoinProcess { issuer, state: IssuerJoinState::Idle, used_nonces: Vec::new() }
    }

    /// Starts a join with the fresh nonce `n`. Refuses, and stays idle, where a join
    /// is under way or `n` was handed out before.
    pub fn gen_nonce(&mut self, n: Scalar) -> (r: bool)
        ensures
            r == (old(self).state is Idle && !nonce_used(old(self).used_nonces@, n@)),
            final(self).issuer == old(self).issuer,
            r ==> final(self).state == (IssuerJoinState::AwaitingProof { n }),
            r ==> final(self).used_nonces@ == old(self).used_nonces@.push(n),
            !r ==> final(self).state is Idle,
            !r ==> final(self).used_nonces@ == old(self).used_nonces@,
    {
        let idle = match self.state {
            IssuerJoinState::Idle => true,
            _ => false,
        };
        if !idle {
            self.state = IssuerJoinState::Idle;
            return false;
        }
        let mut i: usize = 0;
        while i < self.used_nonces.len()
            invariant
                0 <= i <= self.used_nonces.len(),
                self.used_nonces@ == old(self).used_nonces@,
                self.issuer == old(self).issuer,
                self.state is Idle,
                forall|j: int| 0 <= j < i ==> (#[trigger] self.used_nonces@[j])@ != n@,
            decreases self.used_nonces.len() - i,
        {
            if self.used_nonces[i].equals(&n) {
                return false;
            }
            i = i + 1;
        }
        self.used_nonces.push(n);
        self.state = IssuerJoinState::AwaitingProof { n };
        true
    }

    /// Checks the member's join request against the nonce handed out: the request
    /// must carry that nonce and its proof must hold. Where it passes the issuer is
    /// ready to issue to its key; otherwise, or where no nonce awaits a request, the
    /// join is dropped.
    pub fn is_proof_having_sk(&mut self, req: &ReqForJoin) -> (r: bool)
        ensures
            r == (old(self).state matches IssuerJoinState::AwaitingProof { n } && req.n@ == n@
                && req.holds()),
            final(self).issuer == old(self).issuer,
            final(self).used_nonces@ == old(self).used_nonces@,
            r ==> final(self).state == (IssuerJoinState::ReadyToIssue { q: req.q }),
            !r ==> final(self).state is Idle,
    {
        let n = match self.state {
            IssuerJoinState::AwaitingProof { n } => n,
            _ => {
                self.state = IssuerJoinState::Idle;
                return false;
            },
        };
        if req.n.equals(&n) && req.valid().is_ok() {
            self.state = IssuerJoinState::ReadyToIssue { q: req.q };
            true
        } else {
            self.state = IssuerJoinState::Idle;
            false
        }
    }

    /// Issues the credential to the member key accepted, with randomness `l`. Where
    /// no key was accepted, drops the join and issues nothing. An issuer whose keys
    /// match issues credentials that satisfy both pairing relations.
    pub fn gen_member_credential(&mut self, l: Scalar) -> (r: Option<Credential>)
        ensures
            r is Some == old(self).state is ReadyToIssue,
            final(self).issuer == old(self).issuer,
            final(self).used_nonces@ == old(self).used_nonces@,
            r is None ==> final(self).state is Idle,
            r matches Some(cred) ==> {
                &&& old(self).state matches IssuerJoinState::ReadyToIssue { q }
                    && final(self).state == (IssuerJoinState::Issued { q, l, cred })
                    && (cred.a.log(), cred.b.log(), cred.c.log(), cred.d.log()) == issued_logs(
                    old(self).issuer.isk,
                    q,
                    l@,
                )
                &&& old(self).issuer.keys_match() ==> cred.check(old(self).issuer.ipk)
                    == Ok::<(), crate::EcdaaError>(())
            },
    {
        let q = match self.state {
            IssuerJoinState::ReadyToIssue { q } => q,
            _ => {
                self.state = IssuerJoinState::Idle;
                return None;
            },
        };
        let cred = Credential::with_no_encryption(&q, &self.issuer.isk, &l);
        self.state = IssuerJoinState::Issued { q, l, cred };
        Some(cred)
    }

    /// Proves that the credential issued is well formed, with commitment randomness
    /// `r2`, and ends the join. Where no credential was issued, drops the join and
    /// proves nothing. The proof of a credential so issued holds.
    pub fn prove_member_credential_valid(&mut self, r2: &Scalar) -> (r: Option<
        ProofMemberCredentialValid,
    >)
        ensures
            r is Some == old(self).state is Issued,
            final(self).issuer == old(self).issuer,
            final(self).used_nonces@ == old(self).used_nonces@,
            final(self).state is Idle,
            r matches Some(p) ==> old(self).state matches IssuerJoinState::Issued { q, l, cred }
                && {
                let w = (l@ * old(self).issuer.isk.y@) % group_order();
                &&& p.c2@ == hash_scalar(
                    issue_transcript(
                        g1_of(r2@),
                        g1_of((q.log() * r2@) % group_order()),
                        cred.b@,
                        q@,
                        cred.d@,
                    ),
                )
                &&& p.s2@ == (r2@ + p.c2@ * w) % group_order()
                &&& (cred.a.log(), cred.b.log(), cred.c.log(), cred.d.log()) == issued_logs(
                    old(self).issuer.isk,
                    q,
                    l@,
                ) ==> p.holds(cred, q)
            },
    {
        let (q, l, cred) = match self.state {
            IssuerJoinState::Issued { q, l, cred } => (q, l, cred),
            _ => {
                self.state = IssuerJoinState::Idle;
                return None;
            },
        };
        self.state = IssuerJoinState::Idle;
        let w = l.mul(&self.issuer.isk.y);
        let g1 = G1Point::generator();
        let u2 = g1.mul(r2);
        let v2 = q.mul(r2);
        let mut t: Vec<u8> = Vec::new();
        append_bytes(&mut t, &u2.to_bytes());
        append_bytes(&mut t, &v2.to_bytes());
        append_bytes(&mut t, &cred.b.to_bytes());
        append_bytes(&mut t, &q.to_bytes());
        append_bytes(&mut t, &cred.d.to_bytes());
        let c2 = hash_to_scalar(t.as_slice());
        let s2 = r2.add(&c2.mul(&w));
        let p = ProofMemberCredentialValid { c2, s2 };
        r2.in_range();
        w.in_range();
        proof {
            let o = group_order();
            vstd::arithmetic::div_mod::lemma_add_mod_noop_right(r2@, c2@ * w@, o);
            lemma_commitment_recovered(1, r2@, c2@, w@);
            lemma_commitment_recovered(q.log(), r2@, c2@, w@);
        }
        Some(p)
    }
}

/// The member's side of a join.
pub struct MemberJoinProcess {
    pub ipk: IPK,
    pub sk: Scalar,
    pub q: G1Point,
    pub n: Scalar,
    pub credential: Option<Credential>,
}

impl MemberJoinProcess {
    /// Starts the member's side for the issuer key `ipk` and nonce `n`, with secret
    /// key `sk` and member key Q = sk·g1.
    pub fn random(ipk: IPK, n: Scalar, sk: Scalar) -> (r: MemberJoinProcess)
        ensures
            r.ipk == ipk,
            r.n == n,
            r.sk == sk,
            r.q.log() == sk@,
            r.credential is None,
    {
        sk.in_range();
        let q = G1Point::generator().mul(&sk);
        MemberJoinProcess { ipk, sk, q, n, credential: None }
    }

    /// The join request: Q with a proof of knowledge of sk bound to the nonce, made
    /// with commitment randomness `r1`. It holds whenever Q = sk·g1.
    pub fn prove_haveing_sk(&self, r1: &Scalar) -> (r: ReqForJoin)
        ensures
            r.q == self.q,
            r.n == self.n,
            self.q.log() == self.sk@ ==> r.holds(),
    {
        ReqForJoin::random(&self.q, &self.sk, &self.n, r1)
    }

    /// Accepts the issued credential where A is not g1, the issuer's proof holds and
    /// both pairing relations hold; keeps it where accepted.
    pub fn is_member_credential_valid(
        &mut self,
        credential: Credential,
        proof: &ProofMemberCredentialValid,
    ) -> (r: bool)
        ensures
            r == (credential.a@ != g1_of(1) && proof.holds(credential, old(self).q)
                && credential.check(old(self).ipk) is Ok),
            final(self).ipk == old(self).ipk,
            final(self).sk == old(self).sk,
            final(self).q == old(self).q,
            final(self).n == old(self).n,
            final(self).credential == if r {
                Some(credential)
            } else {
                old(self).credential
            },
    {
        let g1 = G1Point::generator();
        if credential.a.equals(&g1) {
            return false;
        }
        if !check_credential_proof(&credential, &self.q, proof) {
            return false;
        }
        match credential.valid(&self.ipk) {
            Ok(()) => {},
            Err(_) => {
                return false;
            },
        }
        self.credential = Some(credential);
        true
    }

    /// The member that the join made, once a credential was accepted.
    pub fn gen_member(self) -> (r: Option<Member>)
        ensures
            r is Some == self.credential is Some,
            r matches Some(m) ==> m.sk == self.sk && m.ipk == self.ipk && Some(m.credential)
                == self.credential,
    {
        match self.credential {
            Some(credential) => Some(Member { sk: self.sk, ipk: self.ipk, credential }),
            None => None,
        }
    }
}

} // verus!
