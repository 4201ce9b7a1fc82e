//! The Ristretto group and its scalars, held as their canonical 32-byte encodings.
//!
//! The group has prime order, so every element is a multiple of the base point: an
//! encoding that decodes stands for one number below the group order, and the group
//! operations are arithmetic on those numbers modulo the order. The numbers exist in
//! specifications only.
use curve25519_dalek::constants::RISTRETTO_BASEPOINT_POINT;
use curve25519_dalek::ristretto::{CompressedRistretto, RistrettoPoint};
use curve25519_dalek::traits::IsIdentity;
use sha2::Sha512;
use vstd::prelude::*;

use crate::bytes::{same_digest, ZERO};
use crate::error::DeKyxError;
use crate::hash::sha512;

verus! {

/// The order of the group, 2^252 + 27742317777372353535851937790883648493.
pub open spec fn group_order() -> nat {
    0x1000000000000000000000000000000000000000000000000000000000000000nat
        + 27742317777372353535851937790883648493nat
}

/// The integer whose little-endian bytes are `bytes`.
pub open spec fn le_nat(bytes: Seq<u8>) -> nat
    decreases bytes.len(),
{
    if bytes.len() == 0 {
        0
    } else {
        bytes[0] as nat + 256 * le_nat(bytes.drop_first())
    }
}

/// A byte string stands for zero exactly when all its bytes are zero.
pub proof fn lemma_le_nat_zero(bytes: Seq<u8>)
    ensures
        le_nat(bytes) == 0 <==> (forall|i: int| 0 <= i < bytes.len() ==> bytes[i] == 0),
    decreases bytes.len(),
{
    if bytes.len() > 0 {
        let rest = bytes.drop_first();
        lemma_le_nat_zero(rest);
        if le_nat(bytes) == 0 {
            assert forall|i: int| 0 <= i < bytes.len() implies bytes[i] == 0 by {
                if i > 0 {
                    assert(rest[i - 1] == bytes[i]);
                }
            }
        }
        if forall|i: int| 0 <= i < bytes.len() ==> bytes[i] == 0 {
            assert forall|i: int| 0 <= i < rest.len() implies rest[i] == 0 by {
                assert(rest[i] == bytes[i + 1]);
            }
        }
    }
}

/// Byte strings of one length that stand for the same integer are equal.
pub proof fn law_scalar_bytes_unique(a: Seq<u8>, b: Seq<u8>)
    requires
        a.len() == b.len(),
        le_nat(a) == le_nat(b),
    ensures
        a == b,
    decreases a.len(),
{
    if a.len() > 0 {
        law_scalar_bytes_unique(a.drop_first(), b.drop_first());
        assert(a =~= seq![a[0]] + a.drop_first());
        assert(b =~= seq![b[0]] + b.drop_first());
    } else {
        assert(a =~= b);
    }
}

// ---------------------------------------------------------------------------
// Scalars
// ---------------------------------------------------------------------------
/// An integer modulo the group order, as its canonical little-endian bytes.
#[derive(Clone, Copy)]
pub struct Scalar {
    bytes: [u8; 32],
}

impl View for Scalar {
    type V = nat;

    closed spec fn view(&self) -> nat {
        le_nat(self.bytes@)
    }
}

/// Calls `curve25519_dalek::scalar::Scalar::from_canonical_bytes`. Claimed: it accepts
/// exactly the little-endian encodings of integers below the group order.
#[verifier::external_body]
fn scalar_bytes_canonical(bytes: &[u8; 32]) -> (r: bool)
    ensures
        r == (le_nat(bytes@) < group_order()),
{
    bool::from(curve25519_dalek::scalar::Scalar::from_canonical_bytes(*bytes).is_some())
}

/// Calls `curve25519_dalek::scalar::Scalar::from_bytes_mod_order_wide`. Claimed: it reduces
/// the 512-bit little-endian integer modulo the group order and gives the canonical bytes.
#[verifier::external_body]
fn scalar_bytes_reduced(bytes: &[u8; 64]) -> (r: [u8; 32])
    ensures
        le_nat(r@) == le_nat(bytes@) % group_order(),
{
    curve25519_dalek::scalar::Scalar::from_bytes_mod_order_wide(bytes).to_bytes()
}

/// Calls `+` of `curve25519_dalek::scalar::Scalar`. Claimed: it adds modulo the group order
/// and gives the canonical bytes of the sum.
#[verifier::external_body]
fn scalar_bytes_sum(a: &[u8; 32], b: &[u8; 32]) -> (r: [u8; 32])
    requires
        le_nat(a@) < group_order(),
        le_nat(b@) < group_order(),
    ensures
        le_nat(r@) == (le_nat(a@) + le_nat(b@)) % group_order(),
{
    let x = curve25519_dalek::scalar::Scalar::from_canonical_bytes(*a).unwrap();
    let y = curve25519_dalek::scalar::Scalar::from_canonical_bytes(*b).unwrap();
    (x + y).to_bytes()
}

/// Calls `*` of `curve25519_dalek::scalar::Scalar`. Claimed: it multiplies modulo the group
/// order and gives the canonical bytes of the product.
#[verifier::external_body]
fn scalar_bytes_product(a: &[u8; 32], b: &[u8; 32]) -> (r: [u8; 32])
    requires
        le_nat(a@) < group_order(),
        le_nat(b@) < group_order(),
    ensures
        le_nat(r@) == (le_nat(a@) * le_nat(b@)) % group_order(),
{
    let x = curve25519_dalek::scalar::Scalar::from_canonical_bytes(*a).unwrap();
    let y = curve25519_dalek::scalar::Scalar::from_canonical_bytes(*b).unwrap();
    (x * y).to_bytes()
}

impl Scalar {
    #[verifier::type_invariant]
    spec fn canonical(self) -> bool {
        le_nat(self.bytes@) < group_order()
    }

    /// The canonical encoding in specifications.
    pub closed spec fn spec_bytes(self) -> [u8; 32] {
        self.bytes
    }

    /// The scalar that `bytes` encodes, if they are its canonical encoding.
    pub fn from_canonical_bytes(bytes: [u8; 32]) -> (r: Option<Scalar>)
        ensures
            r is Some <==> le_nat(bytes@) < group_order(),
            r matches Some(s) ==> s@ == le_nat(bytes@) && s.spec_bytes() == bytes,
    {
        if scalar_bytes_canonical(&bytes) {
            Some(Scalar { bytes })
        } else {
            None
        }
    }

    /// A 512-bit little-endian integer, reduced. Uniform bytes give a uniform scalar.
    pub fn from_wide_bytes(bytes: &[u8; 64]) -> (r: Scalar)
        ensures
            r@ == le_nat(bytes@) % group_order(),
    {
        let reduced = scalar_bytes_reduced(bytes);
        Scalar { bytes: reduced }
    }

    /// The scalar that a message hashes to under SHA-512.
    pub fn from_message(message: &[u8]) -> (r: Scalar)
        ensures
            r@ == message_scalar(message@),
    {
        Scalar::from_wide_bytes(&sha512(message))
    }

    /// What every scalar satisfies: it is reduced.
    pub(crate) fn reveal_canonical(&self)
        ensures
            self@ < group_order(),
    {
        proof {
            use_type_invariant(self);
        }
    }

    /// The canonical encoding.
    pub fn to_bytes(&self) -> (r: [u8; 32])
        ensures
            r == self.spec_bytes(),
            le_nat(r@) == self@,
            self@ < group_order(),
    {
        proof {
            use_type_invariant(self);
        }
        self.bytes
    }

    /// Whether this is the scalar zero.
    pub fn is_zero(&self) -> (r: bool)
        ensures
            r == (self@ == 0),
    {
        proof {
            lemma_le_nat_zero(self.bytes@);
            assert(forall|i: int| 0 <= i < 32 ==> ZERO@[i] == 0);
        }
        let r = same_digest(&self.bytes, &ZERO);
        proof {
            if self@ == 0 {
                assert(self.bytes =~= ZERO);
            }
        }
        r
    }

    /// The sum modulo the group order.
    pub fn plus(&self, other: &Scalar) -> (r: Scalar)
        ensures
            r@ == (self@ + other@) % group_order(),
    {
        proof {
            use_type_invariant(self);
            use_type_invariant(other);
        }
        let bytes = scalar_bytes_sum(&self.bytes, &other.bytes);
        Scalar { bytes }
    }

    /// The product modulo the group order.
    pub fn times(&self, other: &Scalar) -> (r: Scalar)
        ensures
            r@ == (self@ * other@) % group_order(),
    {
        proof {
            use_type_invariant(self);
            use_type_invariant(other);
        }
        let bytes = scalar_bytes_product(&self.bytes, &other.bytes);
        Scalar { bytes }
    }
}

/// The scalar that a message hashes to: its SHA-512 digest read as a little-endian integer
/// and reduced modulo the group order.
pub open spec fn message_scalar(message: Seq<u8>) -> nat {
    le_nat(crate::hash::sha512_digest(message)@) % group_order()
}

/// The scalar that `bytes` encodes; an encoding that is not canonical is refused.
pub(crate) fn canonical_scalar(bytes: &[u8; 32]) -> (r: Result<Scalar, DeKyxError>)
    ensures
        r matches Err(e) ==> e == DeKyxError::NonCanonicalScalar,
        r is Ok <==> le_nat(bytes@) < group_order(),
        r matches Ok(s) ==> s@ == le_nat(bytes@) && s.spec_bytes() == *bytes,
{
    match Scalar::from_canonical_bytes(*bytes) {
        Some(scalar) => Ok(scalar),
        None => Err(DeKyxError::NonCanonicalScalar),
    }
}

// ---------------------------------------------------------------------------
// Group elements
// ---------------------------------------------------------------------------
/// Which multiple of the base point a byte string decodes to, if it decodes.
pub uninterp spec fn point_multiple(encoding: Seq<u8>) -> Option<nat>;

/// The encoding of a multiple of the base point.
pub uninterp spec fn point_encoding(multiple: nat) -> [u8; 32];

/// Which multiple of the base point a message hashes to.
pub uninterp spec fn hashed_multiple(message: Seq<u8>) -> nat;

/// `bytes` are the canonical encoding of the base point times `multiple`.
pub open spec fn encodes(bytes: [u8; 32], multiple: nat) -> bool {
    &&& multiple < group_order()
    &&& point_multiple(bytes@) == Some(multiple)
    &&& bytes == point_encoding(multiple)
}

/// Calls `curve25519_dalek::ristretto::CompressedRistretto::decompress`. Claimed: whether
/// the bytes decode, and to which multiple of the base point, is a function of the bytes,
/// named `point_multiple`; every element is a multiple below the group order; and only the
/// canonical encoding of an element, the one `compress` gives, decodes.
#[verifier::external_body]
fn point_bytes_decode(bytes: &[u8; 32]) -> (r: bool)
    ensures
        r == (point_multiple(bytes@) is Some),
        r ==> point_multiple(bytes@)->0 < group_order(),
        r ==> point_encoding(point_multiple(bytes@)->0) == *bytes,
{
    CompressedRistretto(*bytes).decompress().is_some()
}

/// Calls `curve25519_dalek::traits::IsIdentity::is_identity` on a Ristretto point. Claimed:
/// the identity is the base point times zero.
#[verifier::external_body]
fn point_bytes_identity(bytes: &[u8; 32]) -> (r: bool)
    requires
        point_multiple(bytes@) is Some,
    ensures
        r == (point_multiple(bytes@) == Some(0nat)),
{
    CompressedRistretto(*bytes).decompress().unwrap().is_identity()
}

/// Compresses `curve25519_dalek::constants::RISTRETTO_BASEPOINT_POINT`. Claimed: the result
/// is the encoding of the base point, which is the base point times one.
#[verifier::external_body]
fn point_bytes_base() -> (r: [u8; 32])
    ensures
        encodes(r, 1),
{
    RISTRETTO_BASEPOINT_POINT.compress().to_bytes()
}

/// Calls `*` of `curve25519_dalek::ristretto::RistrettoPoint` and a scalar. Claimed: scaling
/// a multiple of the base point multiplies the multiple modulo the group order, and the
/// compressed result is the encoding of that multiple and decodes to it.
#[verifier::external_body]
fn point_bytes_scaled(point: &[u8; 32], scalar: &[u8; 32]) -> (r: [u8; 32])
    requires
        point_multiple(point@) is Some,
        le_nat(scalar@) < group_order(),
    ensures
        encodes(r, (point_multiple(point@)->0 * le_nat(scalar@)) % group_order()),
{
    let p = CompressedRistretto(*point).decompress().unwrap();
    let s = curve25519_dalek::scalar::Scalar::from_canonical_bytes(*scalar).unwrap();
    (p * s).compress().to_bytes()
}

/// Calls `+` of `curve25519_dalek::ristretto::RistrettoPoint`. Claimed: the sum of two
/// multiples of the base point is the sum of the multiples modulo the group order, and the
/// compressed result is the encoding of that multiple and decodes to it.
#[verifier::external_body]
fn point_bytes_sum(a: &[u8; 32], b: &[u8; 32]) -> (r: [u8; 32])
    requires
        point_multiple(a@) is Some,
        point_multiple(b@) is Some,
    ensures
        encodes(r, (point_multiple(a@)->0 + point_multiple(b@)->0) % group_order()),
{
    let p = CompressedRistretto(*a).decompress().unwrap();
    let q = CompressedRistretto(*b).decompress().unwrap();
    (p + q).compress().to_bytes()
}

/// Calls `curve25519_dalek::ristretto::RistrettoPoint::hash_from_bytes` with SHA-512.
/// Claimed: the element is a function of the message, the multiple of the base point named
/// `hashed_multiple`, which is below the group order, and the compressed result is its encoding
/// and decodes to it.
#[verifier::external_body]
fn point_bytes_hashed(message: &[u8]) -> (r: [u8; 32])
    ensures
        encodes(r, hashed_multiple(message@)),
{
    RistrettoPoint::hash_from_bytes::<Sha512>(message).compress().to_bytes()
}

/// An element of the group, as its canonical encoding.
#[derive(Clone, Copy)]
pub struct Point {
    bytes: [u8; 32],
}

impl View for Point {
    type V = nat;

    closed spec fn view(&self) -> nat {
        point_multiple(self.bytes@)->0
    }
}

impl Point {
    #[verifier::type_invariant]
    spec fn canonical(self) -> bool {
        encodes(self.bytes, self@)
    }

    /// The element that `bytes` encode, if they decode.
    pub fn decompress(bytes: &[u8; 32]) -> (r: Option<Point>)
        ensures
            r is Some <==> point_multiple(bytes@) is Some,
            r matches Some(p) ==> encodes(*bytes, p@),
    {
        if point_bytes_decode(bytes) {
            Some(Point { bytes: *bytes })
        } else {
            None
        }
    }

    /// The base point.
    pub fn base() -> (r: Point)
        ensures
            r@ == 1,
    {
        let bytes = point_bytes_base();
        Point { bytes }
    }

    /// The element that a message hashes to.
    pub fn hash_of(message: &[u8]) -> (r: Point)
        ensures
            r@ == hashed_multiple(message@),
            r@ < group_order(),
    {
        let bytes = point_bytes_hashed(message);
        Point { bytes }
    }

    /// The canonical encoding.
    pub fn compress(&self) -> (r: [u8; 32])
        ensures
            encodes(r, self@),
    {
        proof {
            use_type_invariant(self);
        }
        self.bytes
    }

    /// Whether this is the neutral element.
    pub fn is_identity(&self) -> (r: bool)
        ensures
            r == (self@ == 0),
    {
        proof {
            use_type_invariant(self);
        }
        point_bytes_identity(&self.bytes)
    }

    /// This element times a scalar.
    pub fn times(&self, scalar: &Scalar) -> (r: Point)
        ensures
            r@ == (self@ * scalar@) % group_order(),
    {
        proof {
            use_type_invariant(self);
            use_type_invariant(scalar);
        }
        let bytes = point_bytes_scaled(&self.bytes, &scalar.bytes);
        Point { bytes }
    }

    /// The sum of two elements.
    pub fn plus(&self, other: &Point) -> (r: Point)
        ensures
            r@ == (self@ + other@) % group_order(),
    {
        proof {
            use_type_invariant(self);
            use_type_invariant(other);
        }
        let bytes = point_bytes_sum(&self.bytes, &other.bytes);
        Point { bytes }
    }

    /// Whether two elements are equal.
    pub fn same(&self, other: &Point) -> (r: bool)
        ensures
            r == (self@ == other@),
    {
        proof {
            use_type_invariant(self);
            use_type_invariant(other);
        }
        same_digest(&self.bytes, &other.bytes)
    }
}

/// The element that `bytes` encode; bytes that do not decode are refused.
pub(crate) fn decompress_point(bytes: &[u8; 32]) -> (r: Result<Point, DeKyxError>)
    ensures
        r matches Err(e) ==> e == DeKyxError::NonCanonicalPoint,
        r is Ok <==> point_multiple(bytes@) is Some,
        r matches Ok(p) ==> encodes(*bytes, p@),
{
    match Point::decompress(bytes) {
        Some(point) => Ok(point),
        None => Err(DeKyxError::NonCanonicalPoint),
    }
}

/// `bytes` decode to an element other than the identity.
pub open spec fn decodes_to_non_identity(bytes: [u8; 32]) -> bool {
    point_multiple(bytes@) matches Some(k) && k != 0
}

/// The element that `bytes` encode; the identity and bytes that do not decode are refused.
pub(crate) fn decompress_non_identity(bytes: &[u8; 32]) -> (r: Result<Point, DeKyxError>)
    ensures
        r matches Err(e) ==> e == DeKyxError::NonCanonicalPoint,
        r is Ok <==> decodes_to_non_identity(*bytes),
        r matches Ok(p) ==> encodes(*bytes, p@),
{
    let point = decompress_point(bytes)?;
    if point.is_identity() {
        return Err(DeKyxError::NonCanonicalPoint);
    }
    Ok(point)
}

} // verus!
