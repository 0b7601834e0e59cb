//! Scalars of the BLS12-381 groups, held as canonical little-endian bytes.
use vstd::arithmetic::div_mod::lemma_fundamental_div_mod_converse;
use vstd::prelude::*;

verus! {

/// The prime order of G1, G2 and GT, which is the modulus of the scalar field.
pub open spec fn group_order() -> int {
    0x73eda753299d7d483339d80809a1d80553bda402fffe5bfeffffffff00000001int
}

/// The value of a byte string read as a little-endian integer.
pub open spec fn le_value(b: Seq<u8>) -> nat
    decreases b.len(),
{
    if b.len() == 0 {
        0
    } else {
        b[0] as nat + 256 * le_value(b.drop_first())
    }
}

/// The value of a byte string read as a big-endian integer.
pub open spec fn be_value(b: Seq<u8>) -> nat
    decreases b.len(),
{
    if b.len() == 0 {
        0
    } else {
        be_value(b.drop_last()) * 256 + b.last() as nat
    }
}

/// Two byte strings of one length with the same little-endian value are equal.
pub proof fn lemma_le_value_injective(a: Seq<u8>, b: Seq<u8>)
    requires
        a.len() == b.len(),
        le_value(a) == le_value(b),
    ensures
        a == b,
    decreases a.len(),
{
    if a.len() > 0 {
        let va = le_value(a) as int;
        lemma_fundamental_div_mod_converse(va, 256, le_value(a.drop_first()) as int, a[0] as int);
        lemma_fundamental_div_mod_converse(va, 256, le_value(b.drop_first()) as int, b[0] as int);
        assert(a[0] == b[0]);
        vstd::arithmetic::div_mod::lemma_div_multiples_vanish_fancy(
            le_value(a.drop_first()) as int,
            a[0] as int,
            256,
        );
        vstd::arithmetic::div_mod::lemma_div_multiples_vanish_fancy(
            le_value(b.drop_first()) as int,
            b[0] as int,
            256,
        );
        lemma_le_value_injective(a.drop_first(), b.drop_first());
        assert(a =~= seq![a[0]] + a.drop_first());
        assert(b =~= seq![b[0]] + b.drop_first());
    } else {
        assert(a =~= b);
    }
}

/// A byte string has little-endian value zero exactly when all its bytes are zero.
pub proof fn lemma_le_value_zero(b: Seq<u8>)
    ensures
        le_value(b) == 0 <==> forall|i: int| 0 <= i < b.len() ==> b[i] == 0,
    decreases b.len(),
{
    if b.len() > 0 {
        lemma_le_value_zero(b.drop_first());
        if le_value(b) == 0 {
            assert forall|i: int| 0 <= i < b.len() implies b[i] == 0 by {
                if i > 0 {
                    assert(b[i] == b.drop_first()[i - 1]);
                }
            }
        }
        if forall|i: int| 0 <= i < b.len() ==> b[i] == 0 {
            assert forall|i: int| 0 <= i < b.drop_first().len() implies b.drop_first()[i] == 0 by {
                assert(b.drop_first()[i] == b[i + 1]);
            }
        }
    }
}

/// Reading the reversed bytes little-endian gives the big-endian value.
pub proof fn lemma_le_value_reverse(b: Seq<u8>)
    ensures
        le_value(b.reverse()) == be_value(b),
    decreases b.len(),
{
    if b.len() > 0 {
        lemma_le_value_reverse(b.drop_last());
        assert(b.reverse().drop_first() =~= b.drop_last().reverse());
        assert(b.reverse()[0] == b.last());
    }
}

/// Zero bytes appended at the high end leave the little-endian value as it is.
pub proof fn lemma_le_value_zero_tail(b: Seq<u8>, n: nat)
    ensures
        le_value(b + Seq::new(n, |i: int| 0u8)) == le_value(b),
    decreases b.len(),
{
    let z = Seq::new(n, |i: int| 0u8);
    if b.len() == 0 {
        assert(b + z =~= z);
        lemma_le_value_zero(z);
    } else {
        lemma_le_value_zero_tail(b.drop_first(), n);
        assert((b + z).drop_first() =~= b.drop_first() + z);
    }
}

/// The 32-byte little-endian encoding of `v`.
pub open spec fn scalar_encoding(v: int) -> Seq<u8> {
    choose|b: Seq<u8>| b.len() == 32 && le_value(b) == v
}

/// An element of the scalar field: an integer modulo `group_order()`.
#[derive(Clone, Copy, Debug)]
pub struct Scalar {
    pub(crate) bytes: [u8; 32],
}

impl View for Scalar {
    type V = int;

    closed spec fn view(&self) -> int {
        le_value(self.bytes@) as int
    }
}

/// Relies on `bls12_381::Scalar::from_bytes`: it accepts exactly the little-endian
/// encodings of the integers below the group order.
#[verifier::external_body]
fn decode_canonical(b: &[u8; 32]) -> (r: Option<Scalar>)
    ensures
        r is Some <==> le_value(b@) < group_order(),
        r is Some ==> r->0@ == le_value(b@),
{
    match Option::<bls12_381::Scalar>::from(bls12_381::Scalar::from_bytes(b)) {
        Some(_) => Some(Scalar { bytes: *b }),
        None => None,
    }
}

/// Relies on `bls12_381::Scalar::from_bytes_wide`: a 512-bit little-endian integer
/// reduced modulo the group order.
#[verifier::external_body]
fn reduce_wide(b: &[u8; 64]) -> (r: Scalar)
    ensures
        r@ == (le_value(b@) as int) % group_order(),
{
    Scalar { bytes: bls12_381::Scalar::from_bytes_wide(b).to_bytes() }
}

/// Relies on bls12_381's `Add` on `Scalar`: addition in the scalar field.
#[verifier::external_body]
fn field_add(a: &Scalar, b: &Scalar) -> (r: Scalar)
    ensures
        r@ == (a@ + b@) % group_order(),
{
    let x = bls12_381::Scalar::from_bytes(&a.bytes).unwrap();
    let y = bls12_381::Scalar::from_bytes(&b.bytes).unwrap();
    Scalar { bytes: (x + y).to_bytes() }
}

/// Relies on bls12_381's `Mul` on `Scalar`: multiplication in the scalar field.
#[verifier::external_body]
fn field_mul(a: &Scalar, b: &Scalar) -> (r: Scalar)
    ensures
        r@ == (a@ * b@) % group_order(),
{
    let x = bls12_381::Scalar::from_bytes(&a.bytes).unwrap();
    let y = bls12_381::Scalar::from_bytes(&b.bytes).unwrap();
    Scalar { bytes: (x * y).to_bytes() }
}

impl Scalar {
    #[verifier::type_invariant]
    spec fn canonical(self) -> bool {
        le_value(self.bytes@) < group_order()
    }

    /// Every scalar lies in `[0, group_order())`.
    pub fn in_range(&self)
        ensures
            0 <= self@ < group_order(),
    {
        proof {
            use_type_invariant(self);
        }
    }

    /// The scalar whose little-endian encoding is `b`, if `b` is below the group order.
    pub fn from_bytes(b: &[u8; 32]) -> (r: Option<Scalar>)
        ensures
            r is Some <==> le_value(b@) < group_order(),
            r is Some ==> r->0@ == le_value(b@),
    {
        decode_canonical(b)
    }

    /// A uniformly distributed scalar from 64 uniformly random bytes: their
    /// little-endian value reduced modulo the group order.
    pub fn from_uniform_bytes(b: &[u8; 64]) -> (r: Scalar)
        ensures
            r@ == (le_value(b@) as int) % group_order(),
    {
        reduce_wide(b)
    }

    /// The canonical little-endian encoding, 32 bytes long.
    pub fn to_bytes(&self) -> (r: [u8; 32])
        ensures
            le_value(r@) == self@,
            r@ == scalar_encoding(self@),
    {
        proof {
            let b = scalar_encoding(self@);
            assert(self.bytes@.len() == 32 && le_value(self.bytes@) == self@);
            lemma_le_value_injective(b, self.bytes@);
        }
        self.bytes
    }

    /// The sum modulo the group order.
    pub fn add(&self, other: &Scalar) -> (r: Scalar)
        ensures
            r@ == (self@ + other@) % group_order(),
    {
        field_add(self, other)
    }

    /// The product modulo the group order.
    pub fn mul(&self, other: &Scalar) -> (r: Scalar)
        ensures
            r@ == (self@ * other@) % group_order(),
    {
        field_mul(self, other)
    }

    /// Whether the scalar is zero.
    pub fn is_zero(&self) -> (r: bool)
        ensures
            r == (self@ == 0),
    {
        proof {
            lemma_le_value_zero(self.bytes@);
        }
        let mut i: usize = 0;
        while i < 32
            invariant
                0 <= i <= 32,
                forall|j: int| 0 <= j < i ==> self.bytes@[j] == 0,
                le_value(self.bytes@) == 0 <==> forall|j: int|
                    0 <= j < self.bytes@.len() ==> self.bytes@[j] == 0,
            decreases 32 - i,
        {
            if self.bytes[i] != 0 {
                return false;
            }
            i = i + 1;
        }
        true
    }

    /// Whether two scalars are equal.
    pub fn equals(&self, other: &Scalar) -> (r: bool)
        ensures
            r == (self@ == other@),
    {
        proof {
            if self@ == other@ {
                lemma_le_value_injective(self.bytes@, other.bytes@);
            }
        }
        let mut i: usize = 0;
        while i < 32
            invariant
                0 <= i <= 32,
                forall|j: int| 0 <= j < i ==> self.bytes@[j] == other.bytes@[j],
                self@ == other@ ==> self.bytes@ == other.bytes@,
            decreases 32 - i,
        {
            if self.bytes[i] != other.bytes[i] {
                return false;
            }
            i = i + 1;
        }
        assert(self.bytes@ =~= other.bytes@);
        true
    }
}


/// A Schnorr response `r + c·w` less `c·w` leaves the commitment `r`, modulo the
/// group order.
pub proof fn lemma_response_cancels(r: int, c: int, w: int)
    requires
        0 <= r < group_order(),
    ensures
        ((r + c * w) % group_order() - (w * c) % group_order()) % group_order() == r,
{
    let q = group_order();
    let k1 = (r + c * w) / q;
    let k2 = (w * c) / q;
    vstd::arithmetic::div_mod::lemma_fundamental_div_mod(r + c * w, q);
    vstd::arithmetic::div_mod::lemma_fundamental_div_mod(w * c, q);
    assert(c * w == w * c) by (nonlinear_arith);
    assert((r + c * w) % q - (w * c) % q == (k2 - k1) * q + r) by (nonlinear_arith)
        requires
            (r + c * w) % q == (r + c * w) - q * k1,
            (w * c) % q == w * c - q * k2,
            c * w == w * c,
    ;
    lemma_fundamental_div_mod_converse((r + c * w) % q - (w * c) % q, q, k2 - k1, r);
}


/// A Schnorr commitment recomputed from a response: with `s = r + c·w` and a public
/// value of logarithm `b·w`, `b·s - (b·w)·c` is `b·r`, modulo the group order.
pub proof fn lemma_commitment_recovered(b: int, r: int, c: int, w: int)
    ensures
        ((b * ((r + c * w) % group_order())) % group_order() - (((b * w) % group_order()) * c)
            % group_order()) % group_order() == (b * r) % group_order(),
{
    let q = group_order();
    let s = (r + c * w) % q;
    let k0 = (r + c * w) / q;
    let t1 = (b * s) % q;
    let k1 = (b * s) / q;
    let bw = (b * w) % q;
    let k2 = (b * w) / q;
    let t2 = (bw * c) % q;
    let k3 = (bw * c) / q;
    vstd::arithmetic::div_mod::lemma_fundamental_div_mod(r + c * w, q);
    vstd::arithmetic::div_mod::lemma_fundamental_div_mod(b * s, q);
    vstd::arithmetic::div_mod::lemma_fundamental_div_mod(b * w, q);
    vstd::arithmetic::div_mod::lemma_fundamental_div_mod(bw * c, q);
    assert(b * s == b * r + b * (c * w) - q * (b * k0)) by (nonlinear_arith)
        requires
            s == r + c * w - q * k0,
    ;
    assert(bw * c == (b * w) * c - q * (k2 * c)) by (nonlinear_arith)
        requires
            bw == b * w - q * k2,
    ;
    assert(b * (c * w) == (b * w) * c) by (nonlinear_arith);
    assert(t1 - t2 == b * r + q * (k3 + k2 * c - k1 - b * k0)) by (nonlinear_arith)
        requires
            t1 == b * s - q * k1,
            t2 == bw * c - q * k3,
            b * s == b * r + b * (c * w) - q * (b * k0),
            bw * c == (b * w) * c - q * (k2 * c),
            b * (c * w) == (b * w) * c,
    ;
    vstd::arithmetic::div_mod::lemma_mod_multiples_vanish(k3 + k2 * c - k1 - b * k0, b * r, q);
}


/// Scaling both sides of a congruence `a·y ≡ b` by `l` keeps it: `(a·l)·y ≡ b·l`.
pub proof fn lemma_scaled_product(a: int, y: int, b: int, l: int)
    requires
        (a * y) % group_order() == b % group_order(),
    ensures
        (((a * l) % group_order()) * y) % group_order() == (b * l) % group_order(),
{
    let q = group_order();
    vstd::arithmetic::div_mod::lemma_mul_mod_noop_left(a * l, y, q);
    assert((a * l) * y == (a * y) * l) by (nonlinear_arith);
    vstd::arithmetic::div_mod::lemma_mul_mod_noop_left(a * y, l, q);
    vstd::arithmetic::div_mod::lemma_mul_mod_noop_left(b, l, q);
}

/// Scaling `c ≡ (a + d)·x` by `l` keeps it: `c·l ≡ (a·l + d·l)·x`.
pub proof fn lemma_scaled_sum(a: int, d: int, x: int, c: int, l: int)
    requires
        c % group_order() == (((a + d) % group_order()) * x) % group_order(),
    ensures
        (c * l) % group_order() == ((((a * l) % group_order() + (d * l) % group_order())
            % group_order()) * x) % group_order(),
{
    let q = group_order();
    let u = (a + d) % q;
    vstd::arithmetic::div_mod::lemma_add_mod_noop(a * l, d * l, q);
    assert(a * l + d * l == (a + d) * l) by (nonlinear_arith);
    vstd::arithmetic::div_mod::lemma_mul_mod_noop_left(a + d, l, q);
    vstd::arithmetic::div_mod::lemma_mul_mod_noop_left((a + d) * l, x, q);
    vstd::arithmetic::div_mod::lemma_mul_mod_noop_left(u * l, x, q);
    assert((u * l) * x == (u * x) * l) by (nonlinear_arith);
    vstd::arithmetic::div_mod::lemma_mul_mod_noop_left(u * x, l, q);
    vstd::arithmetic::div_mod::lemma_mul_mod_noop_left(c, l, q);
}


/// 256 to the power `n`.
pub open spec fn pow256(n: nat) -> nat
    decreases n,
{
    if n == 0 {
        1
    } else {
        256 * pow256((n - 1) as nat)
    }
}

/// The `n`-byte little-endian encoding of `v`, below `pow256(n)`.
pub open spec fn le_bytes(v: nat, n: nat) -> Seq<u8>
    decreases n,
{
    if n == 0 {
        Seq::empty()
    } else {
        seq![(v % 256) as u8] + le_bytes(v / 256, (n - 1) as nat)
    }
}

/// The `n`-byte encoding of a value below `pow256(n)` reads back as that value.
proof fn lemma_le_bytes(v: nat, n: nat)
    requires
        v < pow256(n),
    ensures
        le_bytes(v, n).len() == n,
        le_value(le_bytes(v, n)) == v,
    decreases n,
{
    if n > 0 {
        lemma_le_bytes(v / 256, (n - 1) as nat);
        let b = le_bytes(v, n);
        assert(b.drop_first() =~= le_bytes(v / 256, (n - 1) as nat));
    }
}

/// The encoding of a scalar value is 32 bytes long and reads back as that value.
pub proof fn lemma_scalar_encoding(v: int)
    requires
        0 <= v < group_order(),
    ensures
        scalar_encoding(v).len() == 32,
        le_value(scalar_encoding(v)) == v,
{
    reveal_with_fuel(pow256, 33);
    assert(pow256(32) == 0x10000000000000000000000000000000000000000000000000000000000000000nat);
    lemma_le_bytes(v as nat, 32);
    let w = le_bytes(v as nat, 32);
    assert(w.len() == 32 && le_value(w) == v);
}

/// A 32-byte string is the encoding of its value.
pub proof fn lemma_encoding_of_value(b: Seq<u8>)
    requires
        b.len() == 32,
    ensures
        scalar_encoding(le_value(b) as int) == b,
{
    let e = scalar_encoding(le_value(b) as int);
    assert(b.len() == 32 && le_value(b) == le_value(b) as int);
    lemma_le_value_injective(e, b);
}

} // verus!
