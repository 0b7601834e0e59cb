use ecdaa::cred::{randomize_cred, Credential};
use ecdaa::curve::{pairing_eq, G1Point, G2Point};
use ecdaa::hash::{hash_to_ecp, hash_to_scalar};
use ecdaa::issuer::{ISK, IPK};
use ecdaa::join::{
    Issuer, IssuerJoinProcess, MemberJoinProcess, ProofMemberCredentialValid, ReqForJoin,
};
use ecdaa::scalar::Scalar;
use ecdaa::signature::{Member, Signature, Verifier};
use ecdaa::EcdaaError;
use rand::rngs::StdRng;
use rand::{RngCore, SeedableRng};

fn seeded() -> StdRng {
    let mut seed = [0u8; 32];
    for (i, b) in seed.iter_mut().enumerate() {
        *b = i as u8;
    }
    StdRng::from_seed(seed)
}

fn draw(rng: &mut StdRng) -> Scalar {
    let mut buf = [0u8; 64];
    rng.fill_bytes(&mut buf);
    Scalar::from_uniform_bytes(&buf)
}

fn draw_nonzero(rng: &mut StdRng) -> Scalar {
    loop {
        let s = draw(rng);
        if !s.is_zero() {
            return s;
        }
    }
}

fn small(v: u8) -> Scalar {
    let mut b = [0u8; 32];
    b[0] = v;
    Scalar::from_bytes(&b).unwrap()
}

fn issuer(rng: &mut StdRng) -> Issuer {
    let x = draw(rng);
    let y = draw(rng);
    let rx = draw(rng);
    let ry = draw(rng);
    Issuer::random(x, y, &rx, &ry)
}

fn join(issuer: &Issuer, rng: &mut StdRng) -> Member {
    let mut process = IssuerJoinProcess::new(*issuer);
    let n = draw(rng);
    assert!(process.gen_nonce(n));
    let mut member = MemberJoinProcess::random(issuer.ipk, n, draw(rng));
    let request = member.prove_haveing_sk(&draw(rng));
    assert!(process.is_proof_having_sk(&request));
    let credential = process.gen_member_credential(draw(rng)).unwrap();
    let proof = process.prove_member_credential_valid(&draw(rng)).unwrap();
    assert!(member.is_member_credential_valid(credential, &proof));
    member.gen_member().unwrap()
}

fn sign(member: &Member, m: &[u8], bn: &[u8], link: bool, rng: &mut StdRng) -> Signature {
    let l = draw_nonzero(rng);
    member
        .sign(m, bn, link, &l, &draw(rng), &draw(rng))
        .unwrap()
}

#[test]
fn test() {
    let mut rng = seeded();
    let issuer = issuer(&mut rng);

    let mut issuer_join_proces = IssuerJoinProcess::new(issuer);
    let n = draw(&mut rng);
    assert!(issuer_join_proces.gen_nonce(n));

    let mut member_join_proces = MemberJoinProcess::random(issuer.ipk, n, draw(&mut rng));

    let proof = member_join_proces.prove_haveing_sk(&draw(&mut rng));
    let is_valid = issuer_join_proces.is_proof_having_sk(&proof);
    assert!(is_valid);

    let credential = issuer_join_proces
        .gen_member_credential(draw(&mut rng))
        .unwrap();
    let proof = issuer_join_proces
        .prove_member_credential_valid(&draw(&mut rng))
        .unwrap();

    let is_valid = member_join_proces.is_member_credential_valid(credential, &proof);
    assert!(is_valid);

    let member = member_join_proces.gen_member().unwrap();

    let msg: Vec<u8> = vec![2, 4, 3];
    let dummy: Vec<u8> = vec![2, 4, 4];

    let signature = sign(&member, &msg, &[], false, &mut rng);

    let verifier = Verifier::new(issuer.ipk);

    let result1 = verifier.verify(&signature, &msg, &[], false);
    let result2 = verifier.verify(&signature, &dummy, &[], false);

    assert!(result1);
    assert!(!result2);
}

#[test]
fn test_ok() {
    let mut rng = seeded();

    let isk = ISK::new(draw(&mut rng), draw(&mut rng));
    let ipk = IPK::random(&isk, &draw(&mut rng), &draw(&mut rng));

    ipk.validate().expect("ipk");

    let m = vec![0, 2, 3];
    let basename = vec![0, 2, 3, 4];
    let issuer = Issuer { isk, ipk };
    let member = join(&issuer, &mut rng);

    let cred = member.credential;
    cred.valid(&ipk).expect("cred");

    let rand_cred = randomize_cred(&cred, &draw_nonzero(&mut rng));
    rand_cred.valid(&ipk).expect("rand cred");

    let signature = sign(&member, &m, &basename, true, &mut rng);

    match signature.verify(&m, &basename, &ipk, true) {
        Err(e) => panic!("error: {:?}", e),
        _ => (),
    }

    match signature.verify(&basename, &basename, &ipk, true) {
        Err(_) => {}
        _ => panic!("error: should fail"),
    }

    match signature.verify(&basename, &basename, &ipk, true) {
        Err(_) => {}
        _ => panic!("error: should fail"),
    }
}

#[test]
fn fresh_issuer_keys_validate() {
    let mut rng = seeded();
    for _ in 0..3 {
        let issuer = issuer(&mut rng);
        assert_eq!(issuer.ipk.validate(), Ok(()));
    }
}

#[test]
fn tampered_issuer_key_is_rejected() {
    let mut rng = seeded();
    let mut ipk = issuer(&mut rng).ipk;
    ipk.sx = ipk.sx.add(&small(1));
    assert_eq!(ipk.validate(), Err(EcdaaError::InvalidPublicKey));
    let mut ipk = issuer(&mut rng).ipk;
    std::mem::swap(&mut ipk.x, &mut ipk.y);
    assert_eq!(ipk.validate(), Err(EcdaaError::InvalidPublicKey));
}

#[test]
fn signature_verifies_and_rejects_wrong_message() {
    let mut rng = seeded();
    let issuer = issuer(&mut rng);
    let member = join(&issuer, &mut rng);
    let m = [0u8, 2, 3];
    let bn = [0u8, 2, 3, 4];
    let sig = sign(&member, &m, &bn, true, &mut rng);
    assert_eq!(sig.verify(&m, &bn, &issuer.ipk, true), Ok(()));
    assert_eq!(
        sig.verify(&bn, &bn, &issuer.ipk, true),
        Err(EcdaaError::InvalidSchnorrProof)
    );
    assert_eq!(
        sig.verify(&m, &[9u8], &issuer.ipk, true),
        Err(EcdaaError::InvalidSchnorrProof)
    );
}

#[test]
fn unlinked_signature_verifies() {
    let mut rng = seeded();
    let issuer = issuer(&mut rng);
    let member = join(&issuer, &mut rng);
    let sig = sign(&member, b"hello", b"", false, &mut rng);
    assert!(sig.proof.k.is_none());
    assert_eq!(sig.verify(b"hello", b"", &issuer.ipk, false), Ok(()));
    assert_eq!(
        sig.verify(b"hello", b"", &issuer.ipk, true),
        Err(EcdaaError::KNotInSignature)
    );
}

#[test]
fn tampered_response_is_rejected() {
    let mut rng = seeded();
    let issuer = issuer(&mut rng);
    let member = join(&issuer, &mut rng);
    let m = [0u8, 2, 3];
    let bn = [0u8, 2, 3, 4];
    let mut sig = sign(&member, &m, &bn, true, &mut rng);
    sig.proof.s = sig.proof.s.add(&small(1));
    assert_eq!(
        sig.verify(&m, &bn, &issuer.ipk, true),
        Err(EcdaaError::InvalidSchnorrProof)
    );
    let mut sig = sign(&member, &m, &bn, true, &mut rng);
    sig.proof.c = sig.proof.c.add(&small(1));
    assert_eq!(
        sig.verify(&m, &bn, &issuer.ipk, true),
        Err(EcdaaError::InvalidSchnorrProof)
    );
}

#[test]
fn swapped_credential_fields_are_rejected() {
    let mut rng = seeded();
    let issuer = issuer(&mut rng);
    let member = join(&issuer, &mut rng);
    let mut cred = member.credential;
    cred.a = cred.b;
    assert_eq!(cred.valid(&issuer.ipk), Err(EcdaaError::InvalidCredential1));
    let mut cred = member.credential;
    cred.c = cred.d;
    assert_eq!(cred.valid(&issuer.ipk), Err(EcdaaError::InvalidCredential2));

    let m = [1u8];
    let sig = sign(&member, &m, &[], false, &mut rng);
    let mut bad = sig;
    std::mem::swap(&mut bad.cred.a, &mut bad.cred.c);
    assert_eq!(
        bad.verify(&m, &[], &issuer.ipk, false),
        Err(EcdaaError::InvalidCredential1)
    );
    let mut bad = sig;
    bad.cred.c = bad.cred.a;
    assert_eq!(
        bad.verify(&m, &[], &issuer.ipk, false),
        Err(EcdaaError::InvalidCredential2)
    );
    let mut bad = sig;
    bad.cred.d = bad.cred.a;
    assert_eq!(
        bad.verify(&m, &[], &issuer.ipk, false),
        Err(EcdaaError::InvalidSchnorrProof)
    );
}

#[test]
fn degenerate_signature_is_rejected() {
    let mut rng = seeded();
    let issuer = issuer(&mut rng);
    let member = join(&issuer, &mut rng);
    let m = [1u8];
    let mut sig = sign(&member, &m, &[], false, &mut rng);
    sig.cred.a = G1Point::generator();
    assert_eq!(
        sig.verify(&m, &[], &issuer.ipk, false),
        Err(EcdaaError::InvalidCredential1)
    );
    let mut sig = sign(&member, &m, &[], false, &mut rng);
    sig.cred.b = G1Point::generator().mul(&small(0));
    assert!(sig.cred.b.is_identity());
    assert_eq!(
        sig.verify(&m, &[], &issuer.ipk, false),
        Err(EcdaaError::InvalidCredential1)
    );
}

#[test]
fn randomized_credential_stays_valid() {
    let mut rng = seeded();
    let issuer = issuer(&mut rng);
    let member = join(&issuer, &mut rng);
    let l = draw_nonzero(&mut rng);
    let r = randomize_cred(&member.credential, &l);
    assert_eq!(r.valid(&issuer.ipk), Ok(()));
    assert!(!r.a.equals(&member.credential.a));
}

#[test]
fn signatures_share_no_credential_component() {
    let mut rng = seeded();
    let issuer = issuer(&mut rng);
    let member = join(&issuer, &mut rng);
    let s1 = sign(&member, b"a", b"x", true, &mut rng);
    let s2 = sign(&member, b"a", b"x", true, &mut rng);
    assert!(!s1.cred.a.equals(&s2.cred.a));
    assert!(!s1.cred.b.equals(&s2.cred.b));
    assert!(!s1.cred.c.equals(&s2.cred.c));
    assert!(!s1.cred.d.equals(&s2.cred.d));
}

#[test]
fn same_basename_links_other_basename_does_not() {
    let mut rng = seeded();
    let issuer = issuer(&mut rng);
    let member = join(&issuer, &mut rng);
    let s1 = sign(&member, b"first", b"bn", true, &mut rng);
    let s2 = sign(&member, b"second", b"bn", true, &mut rng);
    let s3 = sign(&member, b"first", b"other", true, &mut rng);
    let k1 = s1.proof.k.unwrap();
    let k2 = s2.proof.k.unwrap();
    let k3 = s3.proof.k.unwrap();
    assert!(k1.equals(&k2));
    assert!(!k1.equals(&k3));
    let other = join(&issuer, &mut rng);
    let s4 = sign(&other, b"first", b"bn", true, &mut rng);
    assert!(!k1.equals(&s4.proof.k.unwrap()));
}

#[test]
fn revocation_rejects_linked_signatures_only() {
    let mut rng = seeded();
    let issuer = issuer(&mut rng);
    let member = join(&issuer, &mut rng);
    let m = b"message";
    let bn = b"service";
    let linked = sign(&member, m, bn, true, &mut rng);
    let unlinked = sign(&member, m, bn, false, &mut rng);
    let mut verifier = Verifier::new(issuer.ipk);
    assert!(verifier.verify(&linked, m, bn, true));
    verifier.revoked.push(draw(&mut rng));
    verifier.revoked.push(member.sk);
    assert!(!verifier.verify(&linked, m, bn, true));
    assert!(verifier.verify(&unlinked, m, bn, false));
    verifier.revoked.pop();
    assert!(verifier.verify(&linked, m, bn, true));
}

#[test]
fn join_out_of_order_resets_to_idle() {
    let mut rng = seeded();
    let issuer = issuer(&mut rng);
    let mut process = IssuerJoinProcess::new(issuer);
    assert!(process.gen_member_credential(draw(&mut rng)).is_none());
    assert!(process.prove_member_credential_valid(&draw(&mut rng)).is_none());
    let member = MemberJoinProcess::random(issuer.ipk, draw(&mut rng), draw(&mut rng));
    let request = member.prove_haveing_sk(&draw(&mut rng));
    assert!(!process.is_proof_having_sk(&request));
    let n = draw(&mut rng);
    assert!(process.gen_nonce(n));
    assert!(!process.gen_nonce(draw(&mut rng)));
    assert!(!process.is_proof_having_sk(&request));
    assert!(process.gen_member_credential(draw(&mut rng)).is_none());
}

#[test]
fn nonce_is_not_accepted_twice() {
    let mut rng = seeded();
    let issuer = issuer(&mut rng);
    let mut process = IssuerJoinProcess::new(issuer);
    let n = draw(&mut rng);
    assert!(process.gen_nonce(n));
    let member = MemberJoinProcess::random(issuer.ipk, n, draw(&mut rng));
    let request = member.prove_haveing_sk(&draw(&mut rng));
    assert!(process.is_proof_having_sk(&request));
    assert!(process.gen_member_credential(draw(&mut rng)).is_some());
    assert!(process.prove_member_credential_valid(&draw(&mut rng)).is_some());
    assert!(!process.gen_nonce(n));
    assert!(process.gen_nonce(draw(&mut rng)));
}

#[test]
fn join_request_bound_to_nonce() {
    let mut rng = seeded();
    let issuer = issuer(&mut rng);
    let mut process = IssuerJoinProcess::new(issuer);
    let n = draw(&mut rng);
    assert!(process.gen_nonce(n));
    let member = MemberJoinProcess::random(issuer.ipk, draw(&mut rng), draw(&mut rng));
    let request = member.prove_haveing_sk(&draw(&mut rng));
    assert!(!process.is_proof_having_sk(&request));
}

#[test]
fn member_rejects_bad_issuance() {
    let mut rng = seeded();
    let issuer = issuer(&mut rng);
    let mut process = IssuerJoinProcess::new(issuer);
    let n = draw(&mut rng);
    assert!(process.gen_nonce(n));
    let mut member = MemberJoinProcess::random(issuer.ipk, n, draw(&mut rng));
    let request: ReqForJoin = member.prove_haveing_sk(&draw(&mut rng));
    assert!(process.is_proof_having_sk(&request));
    let credential = process.gen_member_credential(draw(&mut rng)).unwrap();
    let proof: ProofMemberCredentialValid =
        process.prove_member_credential_valid(&draw(&mut rng)).unwrap();
    let mut bad = proof;
    bad.s2 = bad.s2.add(&small(1));
    assert!(!member.is_member_credential_valid(credential, &bad));
    let mut swapped = credential;
    swapped.b = credential.d;
    assert!(!member.is_member_credential_valid(swapped, &proof));
    let degenerate = Credential::new(G1Point::generator(), credential.b, credential.c, credential.d);
    assert!(!member.is_member_credential_valid(degenerate, &proof));
    assert!(member.credential.is_none());
    assert!(member.is_member_credential_valid(credential, &proof));
    assert!(member.gen_member().is_some());
}

#[test]
fn hash_to_scalar_reads_digest_big_endian() {
    let expected: [u8; 32] = [
        172, 21, 0, 242, 98, 255, 16, 180, 157, 30, 25, 150, 160, 189, 69, 92, 30, 74, 12, 84,
        214, 104, 7, 14, 162, 82, 100, 101, 108, 111, 138, 70,
    ];
    assert_eq!(hash_to_scalar(b"abc").to_bytes(), expected);
}

#[test]
fn hash_to_g1_is_deterministic_and_not_identity() {
    let (p, i) = hash_to_ecp(b"base").unwrap();
    let (q, j) = hash_to_ecp(b"base").unwrap();
    let (r, _) = hash_to_ecp(b"other").unwrap();
    assert!(p.equals(&q));
    assert_eq!(i, j);
    assert!(!p.equals(&r));
    assert!(!p.is_identity());
    let mut retried = false;
    for v in 0u8..64 {
        let (point, counter) = hash_to_ecp(&[v]).unwrap();
        assert!(!point.is_identity());
        if counter > 0 {
            retried = true;
            let (again, _) = hash_to_ecp(&[v]).unwrap();
            assert!(again.equals(&point));
        }
    }
    assert!(retried);
}

#[test]
fn scalar_arithmetic() {
    assert!(small(7).add(&small(5)).equals(&small(12)));
    assert!(small(7).mul(&small(5)).equals(&small(35)));
    let q_minus_one: [u8; 32] = [
        0, 0, 0, 0, 255, 255, 255, 255, 254, 91, 254, 255, 2, 164, 189, 83, 5, 216, 161, 9, 8,
        216, 57, 51, 72, 125, 157, 41, 83, 167, 237, 115,
    ];
    let m1 = Scalar::from_bytes(&q_minus_one).unwrap();
    assert!(m1.add(&small(1)).is_zero());
    assert!(m1.mul(&m1).equals(&small(1)));
    let mut q = q_minus_one;
    q[0] = 1;
    assert!(Scalar::from_bytes(&q).is_none());
    assert!(!small(3).is_zero());
}

#[test]
fn group_operations() {
    let g = G1Point::generator();
    let two = g.mul(&small(2));
    let three = g.mul(&small(3));
    assert!(!two.equals(&g));
    assert!(g.add(&two).equals(&three));
    assert!(three.sub(&two).equals(&g));
    assert!(g.sub(&g).is_identity());
    let h = G2Point::generator();
    let h2 = h.mul(&small(2));
    assert!(!h2.equals(&h));
    assert!(h2.mul(&small(3)).sub(&h2).equals(&h.mul(&small(4))));
    assert!(pairing_eq(&two, &h, &g, &h2));
    assert!(!pairing_eq(&two, &h, &g, &h));
    let bytes = two.to_bytes();
    assert!(G1Point::from_bytes(&bytes).unwrap().equals(&two));
    let mut bad = bytes;
    bad[47] ^= 1;
    bad[20] ^= 0x55;
    assert!(G1Point::from_bytes(&bad).is_none() || !G1Point::from_bytes(&bad).unwrap().equals(&two));
    assert!(G2Point::from_bytes(&h2.to_bytes()).unwrap().equals(&h2));
    assert!(G1Point::from_bytes(&[0u8; 48]).is_none());
}

#[test]
fn join_request_carries_the_nonce() {
    let mut rng = seeded();
    let issuer = issuer(&mut rng);
    let n = draw(&mut rng);
    let member = MemberJoinProcess::random(issuer.ipk, n, draw(&mut rng));
    let req = member.prove_haveing_sk(&draw(&mut rng));
    assert!(req.n.equals(&n));
    assert_eq!(req.valid(), Ok(()));
    let mut bad = req;
    bad.n = draw(&mut rng);
    assert_eq!(bad.valid(), Err(EcdaaError::InvalidSchnorrProof));
}

#[test]
fn issued_credential_satisfies_pairing_relations() {
    let mut rng = seeded();
    let issuer = issuer(&mut rng);
    let q = G1Point::generator().mul(&draw(&mut rng));
    for _ in 0..3 {
        let cred = Credential::with_no_encryption(&q, &issuer.isk, &draw(&mut rng));
        assert_eq!(cred.valid(&issuer.ipk), Ok(()));
    }
    let other = self::issuer(&mut rng);
    let cred = Credential::with_no_encryption(&q, &issuer.isk, &draw(&mut rng));
    assert_eq!(cred.valid(&other.ipk), Err(EcdaaError::InvalidCredential1));
}

#[test]
fn linked_signature_round_trips_through_bytes() {
    let mut rng = seeded();
    let issuer = issuer(&mut rng);
    let member = join(&issuer, &mut rng);
    let m = [0u8, 2, 3];
    let bn = [0u8, 2, 3, 4];
    let sig = sign(&member, &m, &bn, true, &mut rng);
    let bytes = sig.to_bytes();
    assert_eq!(bytes.len(), 352);
    let back = Signature::from_bytes(&bytes).unwrap();
    assert_eq!(back.to_bytes(), bytes);
    assert_eq!(back.verify(&m, &bn, &issuer.ipk, true), Ok(()));

    let unlinked = sign(&member, &m, &bn, false, &mut rng);
    let bytes = unlinked.to_bytes();
    assert_eq!(bytes.len(), 302);
    let back = Signature::from_bytes(&bytes).unwrap();
    assert!(back.proof.k.is_none());
    assert_eq!(back.verify(&m, &bn, &issuer.ipk, false), Ok(()));

    assert!(Signature::from_bytes(&bytes[..301]).is_none());
    let mut bad = bytes.clone();
    bad[0] = 1;
    assert!(Signature::from_bytes(&bad).is_none());
}

#[test]
fn keys_requests_and_credentials_round_trip() {
    let mut rng = seeded();
    let issuer = issuer(&mut rng);
    let bytes = issuer.ipk.to_bytes();
    assert_eq!(bytes.len(), 298);
    assert_eq!(bytes[0], 0);
    assert_eq!(bytes[1], 96);
    let ipk = IPK::from_bytes(&bytes).unwrap();
    assert_eq!(ipk.validate(), Ok(()));
    assert_eq!(ipk.to_bytes(), bytes);

    let member = MemberJoinProcess::random(issuer.ipk, draw(&mut rng), draw(&mut rng));
    let req = member.prove_haveing_sk(&draw(&mut rng));
    let bytes = req.to_bytes();
    assert_eq!(bytes.len(), 152);
    let back = ReqForJoin::from_bytes(&bytes).unwrap();
    assert_eq!(back.valid(), Ok(()));

    let cred = join(&issuer, &mut rng).credential;
    let bytes = cred.to_bytes();
    assert_eq!(bytes.len(), 200);
    let back = Credential::from_bytes(&bytes).unwrap();
    assert_eq!(back.valid(&issuer.ipk), Ok(()));
    let mut bad = bytes.clone();
    bad[1] = 47;
    assert!(Credential::from_bytes(&bad).is_none());
}

#[test]
fn proof_nonce_reused_across_signatures() {
    let mut rng = seeded();
    let issuer = issuer(&mut rng);
    let member = join(&issuer, &mut rng);
    let n = draw(&mut rng);
    let s1 = member
        .sign(b"m", b"bn", true, &draw_nonzero(&mut rng), &draw(&mut rng), &n)
        .unwrap();
    let s2 = member
        .sign(b"m", b"bn", true, &draw_nonzero(&mut rng), &draw(&mut rng), &n)
        .unwrap();
    assert!(s1.proof.n.equals(&s2.proof.n));
    assert!(!s1.proof.c.equals(&s2.proof.c));
    assert_eq!(s1.verify(b"m", b"bn", &issuer.ipk, true), Ok(()));
    assert_eq!(s2.verify(b"m", b"bn", &issuer.ipk, true), Ok(()));
    let mut swapped = s1;
    swapped.proof.n = draw(&mut rng);
    assert_eq!(
        swapped.verify(b"m", b"bn", &issuer.ipk, true),
        Err(EcdaaError::InvalidSchnorrProof)
    );
}
