//! Ed25519 scalars and points as plain 32-byte values.
//!
//! A scalar is held as its little-endian encoding and a point as its
//! compressed Edwards encoding. The arithmetic itself is done by
//! `curve25519-dalek`; the wrappers below state what each call returns.
use curve25519_dalek::constants::ED25519_BASEPOINT_POINT;
use curve25519_dalek::edwards::CompressedEdwardsY;
use curve25519_dalek::scalar::Scalar;
use sha3::Digest;
use vstd::arithmetic::div_mod::{
    lemma_add_mod_noop, lemma_add_mod_noop_right, lemma_mod_twice, lemma_mul_mod_noop_general,
};
use vstd::prelude::*;

verus! {

/// The order of the prime-order subgroup generated by the basepoint.
pub open spec fn group_order() -> nat {
    7237005577332262213973186563042994240857116359379907606001950938285454250989nat
}

/// The value of a little-endian byte string.
pub open spec fn le_nat(b: Seq<u8>) -> nat
    decreases b.len(),
{
    if b.len() == 0 {
        0
    } else {
        b[0] as nat + 256 * le_nat(b.drop_first())
    }
}

/// The scalar that 32 bytes stand for once reduced modulo the group order.
pub open spec fn scalar_of(b: Seq<u8>) -> nat {
    le_nat(b) % group_order()
}

/// The compressed encoding of `k·B`, for `0 <= k < group_order()`.
pub uninterp spec fn base_enc(k: int) -> Seq<u8>;

/// What decompressing `p`, multiplying by the scalar `k` and compressing gives
/// (`None` where `p` does not decompress).
pub uninterp spec fn point_mul_of(k: int, p: Seq<u8>) -> Option<Seq<u8>>;

/// What decompressing `a` and `b`, adding and compressing gives (`None` where
/// either does not decompress).
pub uninterp spec fn point_add_of(a: Seq<u8>, b: Seq<u8>) -> Option<Seq<u8>>;

/// Whether `p` decompresses to a point of the prime-order subgroup.
pub uninterp spec fn valid_point(p: Seq<u8>) -> bool;

/// The SHA3-256 digest of `data`.
pub uninterp spec fn sha3_of(data: Seq<u8>) -> Seq<u8>;

/// The key that the owner of nonce `own` derives from the peer's commitment
/// `peer·B`: the SHA3-256 digest of the encoding of `(own·peer mod q)·B`.
pub open spec fn dh_key(own: int, peer: int) -> Seq<u8> {
    sha3_of(base_enc((own * peer) % (group_order() as int)))
}

/// Both sides of a Diffie-Hellman exchange on the same two commitments derive
/// the same key.
pub proof fn lemma_dh_agreement(a: int, b: int)
    ensures
        dh_key(a, b) == dh_key(b, a),
{
    assert(a * b == b * a) by (nonlinear_arith);
}

/// Thirty-two zero bytes.
pub open spec fn zero_bytes() -> Seq<u8> {
    Seq::new(32, |i: int| 0u8)
}

/// The view of an optional 32-byte value.
pub open spec fn opt_view(o: Option<[u8; 32]>) -> Option<Seq<u8>> {
    match o {
        Some(v) => Some(v@),
        None => None,
    }
}

/// Relies on `Scalar::from_bytes_mod_order` and `Scalar::to_bytes`: the
/// canonical encoding of the input reduced modulo the group order.
#[verifier::external_body]
pub(crate) fn reduce_scalar(b: [u8; 32]) -> (r: [u8; 32])
    ensures
        le_nat(r@) == scalar_of(b@),
{
    Scalar::from_bytes_mod_order(b).to_bytes()
}

/// Relies on `Scalar`'s `Add`: the sum modulo the group order.
#[verifier::external_body]
pub(crate) fn scalar_add(a: &[u8; 32], b: &[u8; 32]) -> (r: [u8; 32])
    ensures
        le_nat(r@) == (le_nat(a@) + le_nat(b@)) % group_order(),
{
    (Scalar::from_bytes_mod_order(*a) + Scalar::from_bytes_mod_order(*b)).to_bytes()
}

/// Relies on `Scalar`'s `Mul`: the product modulo the group order.
#[verifier::external_body]
pub(crate) fn scalar_mul(a: &[u8; 32], b: &[u8; 32]) -> (r: [u8; 32])
    ensures
        le_nat(r@) == (le_nat(a@) * le_nat(b@)) % group_order(),
{
    (Scalar::from_bytes_mod_order(*a) * Scalar::from_bytes_mod_order(*b)).to_bytes()
}

/// Relies on `Scalar * EdwardsPoint` with the basepoint and on
/// `EdwardsPoint::compress`: the encoding of `k·B`.
#[verifier::external_body]
pub(crate) fn mul_base(k: &[u8; 32]) -> (r: [u8; 32])
    ensures
        r@ == base_enc(scalar_of(k@) as int),
{
    (Scalar::from_bytes_mod_order(*k) * ED25519_BASEPOINT_POINT).compress().to_bytes()
}

/// Relies on `CompressedEdwardsY::decompress` and `Scalar * EdwardsPoint`:
/// on a multiple `j·B` of the basepoint the result is `(k·j mod q)·B`.
#[verifier::external_body]
pub(crate) fn mul_point(k: &[u8; 32], p: &[u8; 32]) -> (r: Option<[u8; 32]>)
    ensures
        opt_view(r) == point_mul_of(scalar_of(k@) as int, p@),
        forall|j: int|
            0 <= j < group_order() && p@ == #[trigger] base_enc(j) ==> opt_view(r) == Some(
                base_enc((scalar_of(k@) * j) % (group_order() as int)),
            ),
{
    match CompressedEdwardsY(*p).decompress() {
        Some(q) => Some((Scalar::from_bytes_mod_order(*k) * q).compress().to_bytes()),
        None => None,
    }
}

/// Relies on `CompressedEdwardsY::decompress` and `EdwardsPoint`'s `Add`: on
/// two multiples `i·B`, `j·B` of the basepoint the result is `(i + j mod q)·B`.
#[verifier::external_body]
pub(crate) fn add_points(a: &[u8; 32], b: &[u8; 32]) -> (r: Option<[u8; 32]>)
    ensures
        opt_view(r) == point_add_of(a@, b@),
        forall|i: int, j: int|
            #![trigger base_enc(i), base_enc(j)]
            0 <= i < group_order() && 0 <= j < group_order() && a@ == base_enc(i) && b@
                == base_enc(j) ==> opt_view(r) == Some(base_enc((i + j) % (group_order() as int))),
{
    match (CompressedEdwardsY(*a).decompress(), CompressedEdwardsY(*b).decompress()) {
        (Some(p), Some(q)) => Some((p + q).compress().to_bytes()),
        _ => None,
    }
}

/// Relies on `CompressedEdwardsY::decompress` and
/// `EdwardsPoint::is_torsion_free`: every multiple of the basepoint passes,
/// and a point that passes decompresses, so every multiple of it is defined.
#[verifier::external_body]
pub(crate) fn is_valid_point(p: &[u8; 32]) -> (r: bool)
    ensures
        r == valid_point(p@),
        forall|j: int| 0 <= j < group_order() && p@ == #[trigger] base_enc(j) ==> r,
        r ==> forall|k: int| 0 <= k < group_order() ==> #[trigger] point_mul_of(k, p@) is Some,
{
    match CompressedEdwardsY(*p).decompress() {
        Some(q) => q.is_torsion_free(),
        None => false,
    }
}

/// Relies on `sha3::Sha3_256::digest`.
#[verifier::external_body]
pub(crate) fn sha3_256(data: &Vec<u8>) -> (r: [u8; 32])
    ensures
        r@ == sha3_of(data@),
{
    sha3::Sha3_256::digest(data.as_slice()).into()
}

/// Relies on `rand::random`: 32 bytes from the thread-local generator.
#[verifier::external_body]
pub(crate) fn draw_random_bytes() -> (r: [u8; 32]) {
    rand::random::<[u8; 32]>()
}

/// Whether two 32-byte values are equal.
pub fn bytes_eq(a: &[u8; 32], b: &[u8; 32]) -> (r: bool)
    ensures
        r == (a@ == b@),
{
    let mut i: usize = 0;
    while i < 32
        invariant
            0 <= i <= 32,
            forall|k: int| 0 <= k < i ==> a@[k] == b@[k],
        decreases 32 - i,
    {
        if a[i] != b[i] {
            return false;
        }
        i = i + 1;
    }
    assert(a@ =~= b@);
    true
}

/// `(a + b·c) mod m` may reduce each operand first.
pub proof fn lemma_affine_mod(a: int, b: int, c: int, m: int)
    requires
        m > 0,
    ensures
        (a + b * c) % m == ((a % m) + (b % m) * (c % m)) % m,
        (a + b * c) % m == (a + (b * c) % m) % m,
{
    lemma_add_mod_noop(a, b * c, m);
    lemma_mul_mod_noop_general(b, c, m);
    let y = (b % m) * (c % m);
    lemma_add_mod_noop(a, y, m);
    lemma_add_mod_noop(a % m, y, m);
    lemma_add_mod_noop_right(a, y, m);
    lemma_add_mod_noop_right(a, b * c, m);
    lemma_mod_twice(a, m);
}

/// Two byte strings of one length with the same value are equal.
pub proof fn lemma_le_nat_injective(a: Seq<u8>, b: Seq<u8>)
    requires
        a.len() == b.len(),
        le_nat(a) == le_nat(b),
    ensures
        a == b,
    decreases a.len(),
{
    if a.len() > 0 {
        let x0 = a[0] as int;
        let x1 = b[0] as int;
        let y0 = le_nat(a.drop_first()) as int;
        let y1 = le_nat(b.drop_first()) as int;
        assert(x0 == x1 && y0 == y1) by (nonlinear_arith)
            requires
                x0 + 256 * y0 == x1 + 256 * y1,
                0 <= x0 < 256,
                0 <= x1 < 256,
                0 <= y0,
                0 <= y1,
        ;
        lemma_le_nat_injective(a.drop_first(), b.drop_first());
        assert forall|i: int| 0 <= i < a.len() implies a[i] == b[i] by {
            if i > 0 {
                assert(a[i] == a.drop_first()[i - 1]);
                assert(b[i] == b.drop_first()[i - 1]);
            }
        }
        assert(a =~= b);
    } else {
        assert(a =~= b);
    }
}

/// Bytes whose value is below the group order are their own canonical
/// reduction.
pub proof fn lemma_canonical_le(b: Seq<u8>, r: Seq<u8>)
    requires
        b.len() == r.len(),
        le_nat(r) == scalar_of(b),
        le_nat(b) < group_order(),
    ensures
        r == b,
{
    lemma_affine_mod(0, 1, le_nat(b) as int, group_order() as int);
    lemma_le_nat_injective(r, b);
}

/// 32 fresh random bytes.
pub fn generate_random_32bytes() -> (r: [u8; 32]) {
    draw_random_bytes()
}

/// A fresh random scalar, in canonical form.
pub fn generate_random_scalar() -> (r: [u8; 32])
    ensures
        le_nat(r@) < group_order(),
{
    let b = draw_random_bytes();
    let r = reduce_scalar(b);
    r
}

} // verus!
