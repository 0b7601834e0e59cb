//! Byte encodings of the published artifacts. Each field is prefixed with its
//! length as two big-endian bytes, and the fields follow in a fixed order:
//! IPK as X ‖ Y ‖ c ‖ sx ‖ sy, a join request as Q ‖ c ‖ s ‖ n, a credential as
//! A ‖ B ‖ C ‖ D, and a signature as R ‖ S ‖ T ‖ W ‖ c ‖ s ‖ n, followed by K where
//! it carries one.
use crate::cred::Credential;
use crate::curve::{is_g1, is_g2, G1Point, G2Point};
use crate::hash::append_bytes;
use crate::issuer::IPK;
use crate::join::ReqForJoin;
use crate::scalar::{
    group_order, le_value, lemma_encoding_of_value, lemma_scalar_encoding, scalar_encoding, Scalar,
};
use crate::schnorr::SchnorrProof;
use crate::signature::Signature;
use vstd::prelude::*;

verus! {

/// The two-byte big-endian length prefix of a field of `n` bytes.
pub open spec fn length_prefix(n: nat) -> Seq<u8> {
    seq![(n / 256) as u8, (n % 256) as u8]
}

/// A field: its length prefix, then its bytes.
pub open spec fn field(b: Seq<u8>) -> Seq<u8> {
    length_prefix(b.len()) + b
}

/// The field of a scalar's 32-byte encoding.
pub open spec fn scalar_field(v: int) -> Seq<u8> {
    field(scalar_encoding(v))
}

pub open spec fn credential_encoding(c: Credential) -> Seq<u8> {
    field(c.a@) + field(c.b@) + field(c.c@) + field(c.d@)
}

pub open spec fn ipk_encoding(k: IPK) -> Seq<u8> {
    field(k.x@) + field(k.y@) + scalar_field(k.c@) + scalar_field(k.sx@) + scalar_field(k.sy@)
}

pub open spec fn req_encoding(r: ReqForJoin) -> Seq<u8> {
    field(r.q@) + scalar_field(r.c@) + scalar_field(r.s@) + scalar_field(r.n@)
}

pub open spec fn signature_encoding(s: Signature) -> Seq<u8> {
    credential_encoding(s.cred) + scalar_field(s.proof.c@) + scalar_field(s.proof.s@)
        + scalar_field(s.proof.n@) + match s.proof.k {
        Some(k) => field(k@),
        None => Seq::empty(),
    }
}

/// The scalar lies in `[0, group_order())`, as every scalar made does.
pub open spec fn scalar_ok(s: Scalar) -> bool {
    0 <= s@ < group_order()
}

/// Every point of the credential is an element of G1, as in every credential made.
pub open spec fn credential_ok(c: Credential) -> bool {
    is_g1(c.a@) && is_g1(c.b@) && is_g1(c.c@) && is_g1(c.d@)
}

pub open spec fn same_credential(c: Credential, d: Credential) -> bool {
    c.a@ == d.a@ && c.b@ == d.b@ && c.c@ == d.c@ && c.d@ == d.d@
}

pub open spec fn signature_ok(s: Signature) -> bool {
    &&& credential_ok(s.cred)
    &&& scalar_ok(s.proof.c) && scalar_ok(s.proof.s) && scalar_ok(s.proof.n)
    &&& s.proof.k matches Some(k) ==> is_g1(k@)
}

pub open spec fn same_signature(s: Signature, t: Signature) -> bool {
    &&& same_credential(s.cred, t.cred)
    &&& s.proof.c@ == t.proof.c@ && s.proof.s@ == t.proof.s@ && s.proof.n@ == t.proof.n@
    &&& match (s.proof.k, t.proof.k) {
        (Some(k), Some(l)) => k@ == l@,
        (None, None) => true,
        _ => false,
    }
}

/// Appends the field of `b` to `v`.
fn push_field(v: &mut Vec<u8>, b: &[u8])
    requires
        b.len() < 256,
    ensures
        final(v)@ == old(v)@ + field(b@),
{
    v.push(0u8);
    v.push(b.len() as u8);
    append_bytes(v, b);
    assert(final(v)@ =~= old(v)@ + field(b@));
}

fn push_g1(v: &mut Vec<u8>, p: &G1Point)
    ensures
        final(v)@ == old(v)@ + field(p@),
{
    push_field(v, &p.to_bytes());
}

fn push_scalar(v: &mut Vec<u8>, s: &Scalar)
    ensures
        final(v)@ == old(v)@ + scalar_field(s@),
{
    push_field(v, &s.to_bytes());
}

/// Whether `b` holds, from `off` on, the length prefix of a field of `n` bytes.
fn prefix_at(b: &[u8], off: usize, n: u8) -> (r: bool)
    requires
        off + 2 <= b.len(),
    ensures
        r == (b@.subrange(off as int, off + 2) == length_prefix(n as nat)),
{
    let r = b[off] == 0 && b[off + 1] == n;
    assert(r == (b@.subrange(off as int, off + 2) =~= length_prefix(n as nat)));
    r
}

/// The G1 point whose field stands in `b` from `off` on.
fn read_g1(b: &[u8], off: usize) -> (r: Option<G1Point>)
    requires
        off + 50 <= b.len(),
    ensures
        r is Some <==> b@.subrange(off as int, off + 2) == length_prefix(48) && is_g1(
            b@.subrange(off + 2, off + 50),
        ),
        r matches Some(p) ==> b@.subrange(off as int, off + 50) == field(p@) && p@ == b@.subrange(
            off + 2,
            off + 50,
        ),
{
    if !prefix_at(b, off, 48) {
        return None;
    }
    let mut a = [0u8; 48];
    let mut i: usize = 0;
    while i < 48
        invariant
            0 <= i <= 48,
            off + 50 <= b.len(),
            a@.len() == 48,
            forall|j: int| 0 <= j < i ==> a@[j] == b@[off + 2 + j],
        decreases 48 - i,
    {
        a[i] = b[off + 2 + i];
        i = i + 1;
    }
    assert(a@ =~= b@.subrange(off + 2, off + 50));
    assert(b@.subrange(off as int, off + 50) =~= b@.subrange(off as int, off + 2) + a@);
    G1Point::from_bytes(&a)
}

/// The G2 point whose field stands in `b` from `off` on.
fn read_g2(b: &[u8], off: usize) -> (r: Option<G2Point>)
    requires
        off + 98 <= b.len(),
    ensures
        r is Some <==> b@.subrange(off as int, off + 2) == length_prefix(96) && is_g2(
            b@.subrange(off + 2, off + 98),
        ),
        r matches Some(p) ==> b@.subrange(off as int, off + 98) == field(p@) && p@ == b@.subrange(
            off + 2,
            off + 98,
        ),
{
    if !prefix_at(b, off, 96) {
        return None;
    }
    let mut a = [0u8; 96];
    let mut i: usize = 0;
    while i < 96
        invariant
            0 <= i <= 96,
            off + 98 <= b.len(),
            a@.len() == 96,
            forall|j: int| 0 <= j < i ==> a@[j] == b@[off + 2 + j],
        decreases 96 - i,
    {
        a[i] = b[off + 2 + i];
        i = i + 1;
    }
    assert(a@ =~= b@.subrange(off + 2, off + 98));
    assert(b@.subrange(off as int, off + 98) =~= b@.subrange(off as int, off + 2) + a@);
    G2Point::from_bytes(&a)
}

/// The scalar whose field stands in `b` from `off` on.
fn read_scalar(b: &[u8], off: usize) -> (r: Option<Scalar>)
    requires
        off + 34 <= b.len(),
    ensures
        r is Some <==> b@.subrange(off as int, off + 2) == length_prefix(32) && le_value(
            b@.subrange(off + 2, off + 34),
        ) < group_order(),
        r matches Some(s) ==> b@.subrange(off as int, off + 34) == scalar_field(s@) && s@
            == le_value(b@.subrange(off + 2, off + 34)),
{
    if !prefix_at(b, off, 32) {
        return None;
    }
    let mut a = [0u8; 32];
    let mut i: usize = 0;
    while i < 32
        invariant
            0 <= i <= 32,
            off + 34 <= b.len(),
            a@.len() == 32,
            forall|j: int| 0 <= j < i ==> a@[j] == b@[off + 2 + j],
        decreases 32 - i,
    {
        a[i] = b[off + 2 + i];
        i = i + 1;
    }
    assert(a@ =~= b@.subrange(off + 2, off + 34));
    assert(b@.subrange(off as int, off + 34) =~= b@.subrange(off as int, off + 2) + a@);
    proof {
        lemma_encoding_of_value(a@);
    }
    Scalar::from_bytes(&a)
}


/// A field of `x` standing in `b` at `off` holds the length prefix, then `x`.
proof fn lemma_field_at(b: Seq<u8>, off: int, x: Seq<u8>)
    requires
        0 <= off,
        off + 2 + x.len() <= b.len(),
        b.subrange(off, off + 2 + x.len()) == field(x),
    ensures
        b.subrange(off, off + 2) == length_prefix(x.len()),
        b.subrange(off + 2, off + 2 + x.len()) == x,
{
    assert(b.subrange(off, off + 2) =~= field(x).subrange(0, 2));
    assert(b.subrange(off + 2, off + 2 + x.len()) =~= field(x).subrange(2, 2 + x.len() as int));
}

impl Credential {
    /// The encoding A ‖ B ‖ C ‖ D.
    pub fn to_bytes(&self) -> (r: Vec<u8>)
        ensures
            r@ == credential_encoding(*self),
    {
        let mut v: Vec<u8> = Vec::new();
        push_g1(&mut v, &self.a);
        push_g1(&mut v, &self.b);
        push_g1(&mut v, &self.c);
        push_g1(&mut v, &self.d);
        assert(v@ =~= credential_encoding(*self));
        v
    }

    /// The credential that `b` encodes, where it encodes one; every encoding of a
    /// credential decodes to that credential.
    pub fn from_bytes(b: &[u8]) -> (r: Option<Credential>)
        ensures
            r matches Some(c) ==> credential_encoding(c) == b@,
            forall|c: Credential|
                credential_ok(c) && #[trigger] credential_encoding(c) == b@ ==> (r matches Some(
                    d,
                ) && same_credential(c, d)),
    {
        proof {
            assert forall|c: Credential|
                credential_ok(c) && #[trigger] credential_encoding(c) == b@ implies {
                &&& b@.len() == 200
                &&& b@.subrange(0, 50) == field(c.a@)
                &&& b@.subrange(50, 100) == field(c.b@)
                &&& b@.subrange(100, 150) == field(c.c@)
                &&& b@.subrange(150, 200) == field(c.d@)
            } by {
                G1Point::lemma_len(c.a);
                G1Point::lemma_len(c.b);
                G1Point::lemma_len(c.c);
                G1Point::lemma_len(c.d);
                assert(b@.subrange(0, 50) =~= field(c.a@));
                assert(b@.subrange(50, 100) =~= field(c.b@));
                assert(b@.subrange(100, 150) =~= field(c.c@));
                assert(b@.subrange(150, 200) =~= field(c.d@));
            }
        }
        if b.len() != 200 {
            return None;
        }
        let ra = read_g1(b, 0);
        let rb = read_g1(b, 50);
        let rc = read_g1(b, 100);
        let rd = read_g1(b, 150);
        proof {
            assert forall|c: Credential|
                credential_ok(c) && #[trigger] credential_encoding(c) == b@ implies (ra matches Some(
                a,
            ) && a@ == c.a@) && (rb matches Some(x) && x@ == c.b@) && (rc matches Some(x) && x@
                == c.c@) && (rd matches Some(x) && x@ == c.d@) by {
                G1Point::lemma_len(c.a);
                G1Point::lemma_len(c.b);
                G1Point::lemma_len(c.c);
                G1Point::lemma_len(c.d);
                lemma_field_at(b@, 0, c.a@);
                lemma_field_at(b@, 50, c.b@);
                lemma_field_at(b@, 100, c.c@);
                lemma_field_at(b@, 150, c.d@);
            }
        }
        match (ra, rb, rc, rd) {
            (Some(a), Some(pb), Some(pc), Some(d)) => {
                let c = Credential { a, b: pb, c: pc, d };
                assert(b@ =~= b@.subrange(0, 50) + b@.subrange(50, 100) + b@.subrange(100, 150)
                    + b@.subrange(150, 200));
                Some(c)
            },
            _ => None,
        }
    }
}

fn push_g2(v: &mut Vec<u8>, p: &G2Point)
    ensures
        final(v)@ == old(v)@ + field(p@),
{
    push_field(v, &p.to_bytes());
}

/// A scalar field of `v` standing in `b` at `off` is read back as `v`.
proof fn lemma_scalar_field_at(b: Seq<u8>, off: int, v: int)
    requires
        0 <= off,
        off + 34 <= b.len(),
        0 <= v < group_order(),
        b.subrange(off, off + 34) == scalar_field(v),
    ensures
        b.subrange(off, off + 2) == length_prefix(32),
        le_value(b.subrange(off + 2, off + 34)) == v,
{
    lemma_scalar_encoding(v);
    lemma_field_at(b, off, scalar_encoding(v));
}

pub open spec fn ipk_ok(k: IPK) -> bool {
    is_g2(k.x@) && is_g2(k.y@) && scalar_ok(k.c) && scalar_ok(k.sx) && scalar_ok(k.sy)
}

pub open spec fn same_ipk(k: IPK, l: IPK) -> bool {
    k.x@ == l.x@ && k.y@ == l.y@ && k.c@ == l.c@ && k.sx@ == l.sx@ && k.sy@ == l.sy@
}

pub open spec fn req_ok(r: ReqForJoin) -> bool {
    is_g1(r.q@) && scalar_ok(r.c) && scalar_ok(r.s) && scalar_ok(r.n)
}

pub open spec fn same_req(r: ReqForJoin, t: ReqForJoin) -> bool {
    r.q@ == t.q@ && r.c@ == t.c@ && r.s@ == t.s@ && r.n@ == t.n@
}

impl IPK {
    /// The encoding X ‖ Y ‖ c ‖ sx ‖ sy.
    pub fn to_bytes(&self) -> (r: Vec<u8>)
        ensures
            r@ == ipk_encoding(*self),
    {
        let mut v: Vec<u8> = Vec::new();
        push_g2(&mut v, &self.x);
        push_g2(&mut v, &self.y);
        push_scalar(&mut v, &self.c);
        push_scalar(&mut v, &self.sx);
        push_scalar(&mut v, &self.sy);
        assert(v@ =~= ipk_encoding(*self));
        v
    }

    /// The key that `b` encodes, where it encodes one; every encoding of a key
    /// decodes to that key.
    pub fn from_bytes(b: &[u8]) -> (r: Option<IPK>)
        ensures
            r matches Some(k) ==> ipk_encoding(k) == b@,
            forall|k: IPK|
                ipk_ok(k) && #[trigger] ipk_encoding(k) == b@ ==> (r matches Some(l) && same_ipk(
                    k,
                    l,
                )),
    {
        proof {
            assert forall|k: IPK| ipk_ok(k) && #[trigger] ipk_encoding(k) == b@ implies {
                &&& b@.len() == 298
                &&& b@.subrange(0, 98) == field(k.x@)
                &&& b@.subrange(98, 196) == field(k.y@)
                &&& b@.subrange(196, 230) == scalar_field(k.c@)
                &&& b@.subrange(230, 264) == scalar_field(k.sx@)
                &&& b@.subrange(264, 298) == scalar_field(k.sy@)
            } by {
                G2Point::lemma_len(k.x);
                G2Point::lemma_len(k.y);
                lemma_scalar_encoding(k.c@);
                lemma_scalar_encoding(k.sx@);
                lemma_scalar_encoding(k.sy@);
                assert(b@.subrange(0, 98) =~= field(k.x@));
                assert(b@.subrange(98, 196) =~= field(k.y@));
                assert(b@.subrange(196, 230) =~= scalar_field(k.c@));
                assert(b@.subrange(230, 264) =~= scalar_field(k.sx@));
                assert(b@.subrange(264, 298) =~= scalar_field(k.sy@));
            }
        }
        if b.len() != 298 {
            return None;
        }
        let rx = read_g2(b, 0);
        let ry = read_g2(b, 98);
        let rc = read_scalar(b, 196);
        let rsx = read_scalar(b, 230);
        let rsy = read_scalar(b, 264);
        proof {
            assert forall|k: IPK| ipk_ok(k) && #[trigger] ipk_encoding(k) == b@ implies (rx matches Some(
                x,
            ) && x@ == k.x@) && (ry matches Some(y) && y@ == k.y@) && (rc matches Some(c) && c@
                == k.c@) && (rsx matches Some(c) && c@ == k.sx@) && (rsy matches Some(c) && c@
                == k.sy@) by {
                G2Point::lemma_len(k.x);
                G2Point::lemma_len(k.y);
                lemma_field_at(b@, 0, k.x@);
                lemma_field_at(b@, 98, k.y@);
                lemma_scalar_field_at(b@, 196, k.c@);
                lemma_scalar_field_at(b@, 230, k.sx@);
                lemma_scalar_field_at(b@, 264, k.sy@);
            }
        }
        match (rx, ry, rc, rsx, rsy) {
            (Some(x), Some(y), Some(c), Some(sx), Some(sy)) => {
                let k = IPK { x, y, c, sx, sy };
                assert(b@ =~= b@.subrange(0, 98) + b@.subrange(98, 196) + b@.subrange(196, 230)
                    + b@.subrange(230, 264) + b@.subrange(264, 298));
                Some(k)
            },
            _ => None,
        }
    }
}

impl ReqForJoin {
    /// The encoding Q ‖ c ‖ s ‖ n.
    pub fn to_bytes(&self) -> (r: Vec<u8>)
        ensures
            r@ == req_encoding(*self),
    {
        let mut v: Vec<u8> = Vec::new();
        push_g1(&mut v, &self.q);
        push_scalar(&mut v, &self.c);
        push_scalar(&mut v, &self.s);
        push_scalar(&mut v, &self.n);
        assert(v@ =~= req_encoding(*self));
        v
    }

    /// The join request that `b` encodes, where it encodes one; every encoding of a
    /// request decodes to that request.
    pub fn from_bytes(b: &[u8]) -> (r: Option<ReqForJoin>)
        ensures
            r matches Some(q) ==> req_encoding(q) == b@,
            forall|q: ReqForJoin|
                req_ok(q) && #[trigger] req_encoding(q) == b@ ==> (r matches Some(t) && same_req(
                    q,
                    t,
                )),
    {
        proof {
            assert forall|q: ReqForJoin| req_ok(q) && #[trigger] req_encoding(q) == b@ implies {
                &&& b@.len() == 152
                &&& b@.subrange(0, 50) == field(q.q@)
                &&& b@.subrange(50, 84) == scalar_field(q.c@)
                &&& b@.subrange(84, 118) == scalar_field(q.s@)
                &&& b@.subrange(118, 152) == scalar_field(q.n@)
            } by {
                G1Point::lemma_len(q.q);
                lemma_scalar_encoding(q.c@);
                lemma_scalar_encoding(q.s@);
                lemma_scalar_encoding(q.n@);
                assert(b@.subrange(0, 50) =~= field(q.q@));
                assert(b@.subrange(50, 84) =~= scalar_field(q.c@));
                assert(b@.subrange(84, 118) =~= scalar_field(q.s@));
                assert(b@.subrange(118, 152) =~= scalar_field(q.n@));
            }
        }
        if b.len() != 152 {
            return None;
        }
        let rq = read_g1(b, 0);
        let rc = read_scalar(b, 50);
        let rs = read_scalar(b, 84);
        let rn = read_scalar(b, 118);
        proof {
            assert forall|q: ReqForJoin| req_ok(q) && #[trigger] req_encoding(q) == b@ implies (rq matches Some(
                x,
            ) && x@ == q.q@) && (rc matches Some(c) && c@ == q.c@) && (rs matches Some(c) && c@
                == q.s@) && (rn matches Some(c) && c@ == q.n@) by {
                G1Point::lemma_len(q.q);
                lemma_field_at(b@, 0, q.q@);
                lemma_scalar_field_at(b@, 50, q.c@);
                lemma_scalar_field_at(b@, 84, q.s@);
                lemma_scalar_field_at(b@, 118, q.n@);
            }
        }
        match (rq, rc, rs, rn) {
            (Some(q), Some(c), Some(s), Some(n)) => {
                let t = ReqForJoin { q, c, s, n };
                assert(b@ =~= b@.subrange(0, 50) + b@.subrange(50, 84) + b@.subrange(84, 118)
                    + b@.subrange(118, 152));
                Some(t)
            },
            _ => None,
        }
    }
}

impl Signature {
    /// The encoding R ‖ S ‖ T ‖ W ‖ c ‖ s ‖ n, followed by K where the signature
    /// carries one.
    pub fn to_bytes(&self) -> (r: Vec<u8>)
        ensures
            r@ == signature_encoding(*self),
    {
        let mut v = self.cred.to_bytes();
        push_scalar(&mut v, &self.proof.c);
        push_scalar(&mut v, &self.proof.s);
        push_scalar(&mut v, &self.proof.n);
        match self.proof.k {
            Some(k) => push_g1(&mut v, &k),
            None => {},
        }
        assert(v@ =~= signature_encoding(*self));
        v
    }

    /// The signature that `b` encodes, where it encodes one; every encoding of a
    /// signature decodes to that signature.
    pub fn from_bytes(b: &[u8]) -> (r: Option<Signature>)
        ensures
            r matches Some(s) ==> signature_encoding(s) == b@,
            forall|s: Signature|
                signature_ok(s) && #[trigger] signature_encoding(s) == b@ ==> (r matches Some(t)
                    && same_signature(s, t)),
    {
        proof {
            assert forall|s: Signature| signature_ok(s) && #[trigger] signature_encoding(s) == b@ implies {
                &&& b@.len() == if s.proof.k is Some { 352int } else { 302int }
                &&& b@.subrange(0, 50) == field(s.cred.a@)
                &&& b@.subrange(50, 100) == field(s.cred.b@)
                &&& b@.subrange(100, 150) == field(s.cred.c@)
                &&& b@.subrange(150, 200) == field(s.cred.d@)
                &&& b@.subrange(200, 234) == scalar_field(s.proof.c@)
                &&& b@.subrange(234, 268) == scalar_field(s.proof.s@)
                &&& b@.subrange(268, 302) == scalar_field(s.proof.n@)
                &&& s.proof.k matches Some(k) ==> b@.subrange(302, 352) == field(k@)
            } by {
                G1Point::lemma_len(s.cred.a);
                G1Point::lemma_len(s.cred.b);
                G1Point::lemma_len(s.cred.c);
                G1Point::lemma_len(s.cred.d);
                lemma_scalar_encoding(s.proof.c@);
                lemma_scalar_encoding(s.proof.s@);
                lemma_scalar_encoding(s.proof.n@);
                assert(b@.subrange(0, 50) =~= field(s.cred.a@));
                assert(b@.subrange(50, 100) =~= field(s.cred.b@));
                assert(b@.subrange(100, 150) =~= field(s.cred.c@));
                assert(b@.subrange(150, 200) =~= field(s.cred.d@));
                assert(b@.subrange(200, 234) =~= scalar_field(s.proof.c@));
                assert(b@.subrange(234, 268) =~= scalar_field(s.proof.s@));
                assert(b@.subrange(268, 302) =~= scalar_field(s.proof.n@));
                match s.proof.k {
                    Some(k) => {
                        G1Point::lemma_len(k);
                        assert(b@.subrange(302, 352) =~= field(k@));
                    },
                    None => {},
                }
            }
        }
        if b.len() != 302 && b.len() != 352 {
            return None;
        }
        let ra = read_g1(b, 0);
        let rb = read_g1(b, 50);
        let rc = read_g1(b, 100);
        let rd = read_g1(b, 150);
        let pc = read_scalar(b, 200);
        let ps = read_scalar(b, 234);
        let pn = read_scalar(b, 268);
        let rk = if b.len() == 352 {
            read_g1(b, 302)
        } else {
            None
        };
        proof {
            assert forall|s: Signature| signature_ok(s) && #[trigger] signature_encoding(s) == b@ implies {
                &&& ra matches Some(x) && x@ == s.cred.a@
                &&& rb matches Some(x) && x@ == s.cred.b@
                &&& rc matches Some(x) && x@ == s.cred.c@
                &&& rd matches Some(x) && x@ == s.cred.d@
                &&& pc matches Some(x) && x@ == s.proof.c@
                &&& ps matches Some(x) && x@ == s.proof.s@
                &&& pn matches Some(x) && x@ == s.proof.n@
                &&& s.proof.k matches Some(k) ==> rk matches Some(x) && x@ == k@
            } by {
                G1Point::lemma_len(s.cred.a);
                G1Point::lemma_len(s.cred.b);
                G1Point::lemma_len(s.cred.c);
                G1Point::lemma_len(s.cred.d);
                lemma_field_at(b@, 0, s.cred.a@);
                lemma_field_at(b@, 50, s.cred.b@);
                lemma_field_at(b@, 100, s.cred.c@);
                lemma_field_at(b@, 150, s.cred.d@);
                lemma_scalar_field_at(b@, 200, s.proof.c@);
                lemma_scalar_field_at(b@, 234, s.proof.s@);
                lemma_scalar_field_at(b@, 268, s.proof.n@);
                match s.proof.k {
                    Some(k) => {
                        G1Point::lemma_len(k);
                        lemma_field_at(b@, 302, k@);
                    },
                    None => {},
                }
            }
        }
        match (ra, rb, rc, rd, pc, ps, pn) {
            (Some(a), Some(pb), Some(c), Some(d), Some(sc), Some(ss), Some(sn)) => {
                if b.len() == 352 && rk.is_none() {
                    return None;
                }
                let cred = Credential { a, b: pb, c, d };
                let sig = Signature { cred, proof: SchnorrProof { c: sc, s: ss, n: sn, k: rk } };
                assert(b@.subrange(0, 302) =~= b@.subrange(0, 50) + b@.subrange(50, 100)
                    + b@.subrange(100, 150) + b@.subrange(150, 200) + b@.subrange(200, 234)
                    + b@.subrange(234, 268) + b@.subrange(268, 302));
                if b.len() == 352 {
                    assert(b@ =~= b@.subrange(0, 302) + b@.subrange(302, 352));
                } else {
                    assert(b@ =~= b@.subrange(0, 302));
                }
                Some(sig)
            },
            _ => None,
        }
    }
}

} // verus!
