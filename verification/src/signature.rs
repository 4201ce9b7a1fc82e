//! Signatures as byte strings, and what the signature backend reported about them.
//!
//! The library computes which message is signed under which key and for which purpose. The
//! backend that holds the keys signs and verifies; its verdicts reach the library as
//! [`SignatureReports`], in which each verdict is filed under the exact key, purpose, message
//! and signature that it is about. What was not reported as valid counts as invalid.
use vstd::prelude::*;

use crate::bytes::{append, copy_bytes, same_bytes, same_digest, Digest32};

verus! {

/// Length of an ML-DSA-65 public key.
pub const ML_DSA_65_PK_BYTES: usize = 1952;

/// Length of an ML-DSA-65 signature.
pub const ML_DSA_65_SIG_BYTES: usize = 3309;

/// Which signature suite a key belongs to.
#[derive(Clone, Copy, Debug, PartialEq, Eq, Structural)]
pub enum SuiteId {
    /// Ed25519 alone.
    Ed25519,
    /// ML-DSA-65 alone.
    MlDsa65,
    /// Ed25519 and ML-DSA-65 together.
    Ed25519MlDsa65,
    /// Any other suite, or another version of one of the suites above.
    Other,
}

/// A signature suite: which one it is, and the bytes by which statements name it.
#[derive(Debug, PartialEq, Eq)]
pub struct Suite {
    pub id: SuiteId,
    pub encoding: Vec<u8>,
}

/// The contents of a suite.
pub struct SuiteModel {
    pub id: SuiteId,
    pub encoding: Seq<u8>,
}

impl View for Suite {
    type V = SuiteModel;

    open spec fn view(&self) -> SuiteModel {
        SuiteModel { id: self.id, encoding: self.encoding@ }
    }
}

impl Clone for Suite {
    fn clone(&self) -> (r: Self)
        ensures
            r@ == self@,
    {
        Suite { id: self.id, encoding: copy_bytes(self.encoding.as_slice()) }
    }
}

impl Suite {
    /// Whether two suites are the same.
    pub fn same(&self, other: &Suite) -> (r: bool)
        ensures
            r == (self@ == other@),
    {
        self.id == other.id && same_bytes(self.encoding.as_slice(), other.encoding.as_slice())
    }
}

/// What a key is used for.
#[derive(Clone, Copy, Debug, PartialEq, Eq, Structural)]
pub enum KeyPurpose {
    /// Vouching for a statement.
    Attestation,
    /// Acting on a request.
    Order,
}

/// How a signature is checked.
#[derive(Clone, Copy, Debug, PartialEq, Eq, Structural)]
pub enum SignatureScheme {
    /// Both halves of an Ed25519 and ML-DSA-65 signature must hold.
    Hybrid,
    /// An ML-DSA-65 signature.
    MlDsa65,
}

/// A hybrid signature as the backend gives it.
#[derive(Debug, PartialEq, Eq)]
pub struct HybridSignature {
    pub classical: Vec<u8>,
    pub pq: Vec<u8>,
}

/// A hybrid signature as records carry it: the classical part in two halves.
#[derive(Debug, PartialEq, Eq)]
pub struct SignatureBytes {
    pub first: [u8; 32],
    pub second: [u8; 32],
    pub pq: Vec<u8>,
}

/// The contents of a hybrid signature.
pub struct SignatureModel {
    pub first: [u8; 32],
    pub second: [u8; 32],
    pub pq: Seq<u8>,
}

impl View for SignatureBytes {
    type V = SignatureModel;

    open spec fn view(&self) -> SignatureModel {
        SignatureModel { first: self.first, second: self.second, pq: self.pq@ }
    }
}

impl Clone for SignatureBytes {
    fn clone(&self) -> (r: Self)
        ensures
            r@ == self@,
    {
        SignatureBytes {
            first: self.first,
            second: self.second,
            pq: copy_bytes(self.pq.as_slice()),
        }
    }
}

/// The 32 bytes of `bytes` from `from` on.
pub(crate) fn take_32(bytes: &[u8], from: usize) -> (r: [u8; 32])
    requires
        from + 32 <= bytes@.len(),
    ensures
        r@ == bytes@.subrange(from as int, from + 32),
{
    let mut out: [u8; 32] = crate::bytes::ZERO;
    let mut i: usize = 0;
    while i < 32
        invariant
            i <= 32,
            from + 32 <= bytes.len(),
            forall|k: int| 0 <= k < i ==> out@[k] == bytes@[from + k],
        decreases 32 - i,
    {
        out[i] = bytes[from + i];
        i += 1;
    }
    assert(out@ =~= bytes@.subrange(from as int, from + 32));
    out
}

impl SignatureBytes {
    /// Splits the classical part, which is 64 bytes long, into its halves.
    pub fn from_signature(signature: HybridSignature) -> (r: SignatureBytes)
        requires
            signature.classical@.len() == 64,
        ensures
            r.first@ + r.second@ == signature.classical@,
            r.pq@ == signature.pq@,
    {
        let first = take_32(signature.classical.as_slice(), 0);
        let second = take_32(signature.classical.as_slice(), 32);
        assert(first@ + second@ =~= signature.classical@);
        SignatureBytes { first, second, pq: signature.pq }
    }

    /// Joins the halves of the classical part.
    pub fn signature(&self) -> (r: HybridSignature)
        ensures
            r.classical@ == self.first@ + self.second@,
            r.pq@ == self.pq@,
    {
        let mut classical: Vec<u8> = Vec::new();
        append(&mut classical, self.first.as_slice());
        append(&mut classical, self.second.as_slice());
        assert(classical@ =~= self.first@ + self.second@);
        HybridSignature { classical, pq: copy_bytes(self.pq.as_slice()) }
    }

    /// The place of a signature that is still to come.
    pub(crate) fn pending() -> (r: SignatureBytes)
        ensures
            r@ == (SignatureModel {
                first: crate::bytes::ZERO,
                second: crate::bytes::ZERO,
                pq: Seq::empty(),
            }),
    {
        SignatureBytes { first: crate::bytes::ZERO, second: crate::bytes::ZERO, pq: Vec::new() }
    }

    /// Whether two signatures are the same.
    pub fn same(&self, other: &SignatureBytes) -> (r: bool)
        ensures
            r == (self@ == other@),
    {
        same_digest(&self.first, &other.first) && same_digest(&self.second, &other.second)
            && same_bytes(self.pq.as_slice(), other.pq.as_slice())
    }
}

/// A signature to be verified: scheme, purpose, key, message, and the signature itself. The
/// classical part of an ML-DSA-65 signature is empty.
#[derive(Debug, PartialEq, Eq)]
pub struct SignatureCheck {
    pub scheme: SignatureScheme,
    pub purpose: KeyPurpose,
    pub public_key: Vec<u8>,
    pub message: Digest32,
    pub classical: Vec<u8>,
    pub pq: Vec<u8>,
}

/// The contents of a signature to be verified.
pub struct SignatureCheckModel {
    pub scheme: SignatureScheme,
    pub purpose: KeyPurpose,
    pub public_key: Seq<u8>,
    pub message: Digest32,
    pub classical: Seq<u8>,
    pub pq: Seq<u8>,
}

impl View for SignatureCheck {
    type V = SignatureCheckModel;

    open spec fn view(&self) -> SignatureCheckModel {
        SignatureCheckModel {
            scheme: self.scheme,
            purpose: self.purpose,
            public_key: self.public_key@,
            message: self.message,
            classical: self.classical@,
            pq: self.pq@,
        }
    }
}

/// The check of a hybrid attestation of `message` under `public_key`.
pub open spec fn hybrid_check(
    public_key: Seq<u8>,
    message: Digest32,
    signature: SignatureModel,
) -> SignatureCheckModel {
    SignatureCheckModel {
        scheme: SignatureScheme::Hybrid,
        purpose: KeyPurpose::Attestation,
        public_key,
        message,
        classical: signature.first@ + signature.second@,
        pq: signature.pq,
    }
}

/// The check of a holder's ML-DSA-65 signature of `message` for `purpose`.
pub open spec fn holder_check(
    purpose: KeyPurpose,
    public_key: Seq<u8>,
    message: Digest32,
    signature: Seq<u8>,
) -> SignatureCheckModel {
    SignatureCheckModel {
        scheme: SignatureScheme::MlDsa65,
        purpose,
        public_key,
        message,
        classical: Seq::empty(),
        pq: signature,
    }
}

impl SignatureCheck {
    /// The check of a hybrid attestation.
    pub(crate) fn hybrid(
        public_key: Vec<u8>,
        message: Digest32,
        signature: &SignatureBytes,
    ) -> (r: SignatureCheck)
        ensures
            r@ == hybrid_check(public_key@, message, signature@),
    {
        let signature = signature.signature();
        SignatureCheck {
            scheme: SignatureScheme::Hybrid,
            purpose: KeyPurpose::Attestation,
            public_key,
            message,
            classical: signature.classical,
            pq: signature.pq,
        }
    }

    /// The check of a holder's signature.
    pub(crate) fn holder(
        purpose: KeyPurpose,
        public_key: &Vec<u8>,
        message: Digest32,
        signature: &Vec<u8>,
    ) -> (r: SignatureCheck)
        ensures
            r@ == holder_check(purpose, public_key@, message, signature@),
    {
        SignatureCheck {
            scheme: SignatureScheme::MlDsa65,
            purpose,
            public_key: copy_bytes(public_key.as_slice()),
            message,
            classical: Vec::new(),
            pq: copy_bytes(signature.as_slice()),
        }
    }

    /// Whether two checks are about the same signature.
    pub fn same(&self, other: &SignatureCheck) -> (r: bool)
        ensures
            r == (self@ == other@),
    {
        self.scheme == other.scheme && self.purpose == other.purpose && same_digest(
            &self.message,
            &other.message,
        ) && same_bytes(self.public_key.as_slice(), other.public_key.as_slice()) && same_bytes(
            self.classical.as_slice(),
            other.classical.as_slice(),
        ) && same_bytes(self.pq.as_slice(), other.pq.as_slice())
    }
}

/// What the signature backend reported: which signatures it verified, and how it encodes
/// hybrid signatures.
#[derive(Debug)]
pub struct SignatureReports {
    verified: Vec<SignatureCheck>,
    encodings: Vec<(SignatureBytes, Vec<u8>)>,
}

/// The last encoding filed for `signature`.
pub closed spec fn last_encoding(
    encodings: Seq<(SignatureBytes, Vec<u8>)>,
    signature: SignatureModel,
) -> Option<Seq<u8>>
    decreases encodings.len(),
{
    if encodings.len() == 0 {
        None
    } else if encodings.last().0@ == signature {
        Some(encodings.last().1@)
    } else {
        last_encoding(encodings.drop_last(), signature)
    }
}

impl SignatureReports {
    /// The backend reported this signature as valid.
    pub closed spec fn accepted(self, check: SignatureCheckModel) -> bool {
        exists|i: int| 0 <= i < self.verified@.len() && (#[trigger] self.verified@[i])@ == check
    }

    /// The bytes that the backend encodes a hybrid signature to, if it reported them.
    pub closed spec fn encoded(self, signature: SignatureModel) -> Option<Seq<u8>> {
        last_encoding(self.encodings@, signature)
    }

    /// No reports.
    pub fn new() -> (r: Self)
        ensures
            forall|check: SignatureCheckModel| !(#[trigger] r.accepted(check)),
            forall|signature: SignatureModel| (#[trigger] r.encoded(signature)) is None,
    {
        SignatureReports { verified: Vec::new(), encodings: Vec::new() }
    }

    /// Files that the backend verified a signature.
    pub fn accept(&mut self, check: SignatureCheck)
        ensures
            forall|other: SignatureCheckModel| #[trigger]
                final(self).accepted(other) <==> old(self).accepted(other) || other == check@,
            forall|signature: SignatureModel| #[trigger]
                final(self).encoded(signature) == old(self).encoded(signature),
    {
        let ghost before = self.verified@;
        self.verified.push(check);
        proof {
            let after = self.verified@;
            assert(after[before.len() as int]@ == check@);
            assert forall|other: SignatureCheckModel| #[trigger]
                self.accepted(other) <==> old(self).accepted(other) || other == check@ by {
                if old(self).accepted(other) {
                    let i = choose|i: int| 0 <= i < before.len() && (#[trigger] before[i])@ == other;
                    assert(after[i]@ == other);
                }
                if self.accepted(other) && other != check@ {
                    let i = choose|i: int| 0 <= i < after.len() && (#[trigger] after[i])@ == other;
                    assert(before[i]@ == other);
                }
            }
        }
    }

    /// Files how the backend encodes a hybrid signature.
    pub fn set_encoding(&mut self, signature: SignatureBytes, encoding: Vec<u8>)
        ensures
            forall|check: SignatureCheckModel| #[trigger]
                final(self).accepted(check) <==> old(self).accepted(check),
            forall|other: SignatureModel| #[trigger]
                final(self).encoded(other) == (if other == signature@ {
                    Some(encoding@)
                } else {
                    old(self).encoded(other)
                }),
    {
        let ghost before = self.encodings@;
        self.encodings.push((signature, encoding));
        assert(self.encodings@.drop_last() =~= before);
        assert forall|check: SignatureCheckModel| #[trigger]
            self.accepted(check) <==> old(self).accepted(check) by {
            assert(self.verified@ == old(self).verified@);
        }
    }

    /// Whether the backend reported this signature as valid.
    pub fn accepts(&self, check: &SignatureCheck) -> (r: bool)
        ensures
            r == self.accepted(check@),
    {
        let mut i: usize = 0;
        while i < self.verified.len()
            invariant
                i <= self.verified.len(),
                forall|k: int| 0 <= k < i ==> (#[trigger] self.verified@[k])@ != check@,
            decreases self.verified.len() - i,
        {
            if self.verified[i].same(check) {
                assert(self.verified@[i as int]@ == check@);
                return true;
            }
            i += 1;
        }
        false
    }

    /// The bytes that the backend encodes a hybrid signature to, if it reported them.
    pub fn encoding(&self, signature: &SignatureBytes) -> (r: Option<&Vec<u8>>)
        ensures
            self.encoded(signature@) == (match r {
                Some(bytes) => Some(bytes@),
                None => None,
            }),
    {
        let mut i: usize = self.encodings.len();
        assert(self.encodings@.take(i as int) =~= self.encodings@);
        while i > 0
            invariant
                i <= self.encodings.len(),
                self.encoded(signature@) == last_encoding(
                    self.encodings@.take(i as int),
                    signature@,
                ),
            decreases i,
        {
            assert(self.encodings@.take(i as int).last() == self.encodings@[i - 1]);
            assert(self.encodings@.take(i as int).drop_last() =~= self.encodings@.take(i - 1));
            i -= 1;
            if self.encodings[i].0.same(signature) {
                return Some(&self.encodings[i].1);
            }
        }
        None
    }
}

/// Splitting a signature and joining it again gives it back, and the halves are those of the
/// classical part.
pub proof fn law_signature_rejoins(
    given: HybridSignature,
    stored: SignatureBytes,
    joined: HybridSignature,
)
    requires
        stored.first@ + stored.second@ == given.classical@,
        stored.pq@ == given.pq@,
        joined.classical@ == stored.first@ + stored.second@,
        joined.pq@ == stored.pq@,
    ensures
        joined.classical@ == given.classical@,
        joined.pq@ == given.pq@,
        stored.first@ == given.classical@.subrange(0, 32),
        stored.second@ == given.classical@.subrange(32, 64),
{
    assert(stored.first@ =~= given.classical@.subrange(0, 32));
    assert(stored.second@ =~= given.classical@.subrange(32, 64));
}

/// The contents of a signature to be verified are its parts.
pub proof fn law_check_contents(check: SignatureCheck, signature: SignatureBytes, suite: Suite)
    ensures
        check@.scheme == check.scheme,
        check@.purpose == check.purpose,
        check@.public_key == check.public_key@,
        check@.message == check.message,
        check@.classical == check.classical@,
        check@.pq == check.pq@,
        signature@.first == signature.first,
        signature@.second == signature.second,
        signature@.pq == signature.pq@,
        suite@.id == suite.id,
        suite@.encoding == suite.encoding@,
{
}

} // verus!
