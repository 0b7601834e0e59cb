//! Hashing onto the scalar field and onto G1.
use crate::curve::{g1_cleared_of, g1_log, G1Point};
use crate::scalar::{
    be_value, group_order, le_value, lemma_le_value_reverse, lemma_le_value_zero_tail, Scalar,
};
use crate::EcdaaError;
use sha2::Digest;
use vstd::prelude::*;

verus! {

/// The SHA-256 digest of a byte string.
pub uninterp spec fn sha256_of(data: Seq<u8>) -> Seq<u8>;

/// Relies on `sha2::Sha256::digest`.
#[verifier::external_body]
fn sha256(data: &[u8]) -> (r: [u8; 32])
    ensures
        r@ == sha256_of(data@),
{
    sha2::Sha256::digest(data).into()
}

/// H_s: the SHA-256 digest read as a big-endian integer, reduced modulo the group order.
pub open spec fn hash_scalar(data: Seq<u8>) -> int {
    be_value(sha256_of(data)) as int % group_order()
}

/// How many counter values hashing to G1 tries before it gives up.
pub const HASH_ATTEMPTS: u16 = 232;

/// The candidate compressed encoding tried for counter `i`: the compression flag,
/// then the digest of `base ‖ i` as the big-endian x-coordinate.
pub open spec fn candidate(base: Seq<u8>, i: int) -> Seq<u8> {
    seq![0x80u8] + Seq::new(15, |j: int| 0u8) + sha256_of(base.push(i as u8))
}

/// The point that counter `i` yields, if it yields one other than the identity.
pub open spec fn attempt(base: Seq<u8>, i: int) -> Option<Seq<u8>> {
    match g1_cleared_of(candidate(base, i)) {
        Some(p) => if g1_log(p) != 0 {
            Some(p)
        } else {
            None
        },
        None => None,
    }
}

/// The point of the first counter from `i` on that yields one, with that counter.
pub open spec fn first_attempt(base: Seq<u8>, i: int) -> Option<(Seq<u8>, int)>
    decreases HASH_ATTEMPTS - i,
{
    if i >= HASH_ATTEMPTS {
        None
    } else if attempt(base, i) is Some {
        Some((attempt(base, i)->0, i))
    } else {
        first_attempt(base, i + 1)
    }
}

/// H_G1 by try-and-increment: the first counter value that yields a point of G1
/// other than the identity, or `None` where none of them does.
pub open spec fn hash_g1(base: Seq<u8>) -> Option<Seq<u8>> {
    match first_attempt(base, 0) {
        Some((p, _)) => Some(p),
        None => None,
    }
}

/// Appends `b` to `v`.
pub fn append_bytes(v: &mut Vec<u8>, b: &[u8])
    ensures
        final(v)@ == old(v)@ + b@,
{
    let mut i: usize = 0;
    while i < b.len()
        invariant
            0 <= i <= b.len(),
            v@ == old(v)@ + b@.subrange(0, i as int),
        decreases b.len() - i,
    {
        v.push(b[i]);
        i = i + 1;
        assert(v@ =~= old(v)@ + b@.subrange(0, i as int));
    }
    assert(b@.subrange(0, b.len() as int) =~= b@);
}

/// H_s of a byte string.
pub fn hash_to_scalar(data: &[u8]) -> (r: Scalar)
    ensures
        r@ == hash_scalar(data@),
{
    let d = sha256(data);
    let mut wide = [0u8; 64];
    let mut i: usize = 0;
    while i < 32
        invariant
            0 <= i <= 32,
            wide@.len() == 64,
            forall|j: int| 0 <= j < i ==> wide@[j] == d@[31 - j],
            forall|j: int| i <= j < 64 ==> wide@[j] == 0,
        decreases 32 - i,
    {
        wide[i] = d[31 - i];
        i = i + 1;
    }
    proof {
        let z = Seq::new(32, |j: int| 0u8);
        assert(wide@ =~= d@.reverse() + z);
        lemma_le_value_zero_tail(d@.reverse(), 32);
        lemma_le_value_reverse(d@);
    }
    Scalar::from_uniform_bytes(&wide)
}

/// H_G1 of a byte string, with the counter value that yielded it; fails with
/// `HashingFailed` where no counter value yields a point.
pub fn hash_to_ecp(base: &[u8]) -> (r: Result<(G1Point, u8), EcdaaError>)
    ensures
        match r {
            Ok((p, i)) => first_attempt(base@, 0) == Some((p@, i as int)) && hash_g1(base@)
                == Some(p@),
            Err(e) => e == EcdaaError::HashingFailed && hash_g1(base@) is None,
        },
{
    let mut buf: Vec<u8> = Vec::new();
    append_bytes(&mut buf, base);
    let mut i: u16 = 0;
    while i < HASH_ATTEMPTS
        invariant
            0 <= i <= HASH_ATTEMPTS,
            buf@ == base@,
            first_attempt(base@, 0) == first_attempt(base@, i as int),
        decreases HASH_ATTEMPTS - i,
    {
        buf.push(i as u8);
        let d = sha256(buf.as_slice());
        buf.pop();
        let mut c = [0u8; 48];
        c[0] = 0x80;
        let mut j: usize = 0;
        while j < 32
            invariant
                0 <= j <= 32,
                c@.len() == 48,
                c@[0] == 0x80u8,
                forall|k: int| 1 <= k < 16 ==> c@[k] == 0,
                forall|k: int| 16 <= k < 16 + j ==> c@[k] == d@[k - 16],
            decreases 32 - j,
        {
            c[16 + j] = d[j];
            j = j + 1;
        }
        assert(c@ =~= candidate(base@, i as int));
        match G1Point::clear_candidate(&c) {
            Some(p) => {
                if !p.is_identity() {
                    return Ok((p, i as u8));
                }
            },
            None => {},
        }
        i = i + 1;
    }
    Err(EcdaaError::HashingFailed)
}

} // verus!
