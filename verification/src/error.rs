//! The reasons for which an operation is refused.
use vstd::prelude::*;

verus! {

/// Why an operation was refused.
#[derive(Clone, Copy, Debug, PartialEq, Eq, Structural)]
pub enum DeKyxError {
    /// The issuer definition is invalid.
    InvalidIssuer,
    /// The issuer key is invalid.
    InvalidIssuerKey,
    /// The issuer and its epoch are unknown.
    UnknownIssuer,
    /// The issuer epoch is already registered.
    DuplicateIssuerEpoch,
    /// The issuer key epoch does not exceed every registered epoch, or keeps a key.
    InvalidKeyRotation,
    /// No revocation status list was published for this issuer key epoch.
    MissingStatusList,
    /// The issuer is not active or authorized for this subject kind.
    IssuerNotAuthorized,
    /// The qualification is invalid.
    InvalidQualification,
    /// A required qualification is absent.
    MissingQualification,
    /// The qualification proof is invalid.
    InvalidQualificationProof,
    /// The credential is invalid.
    InvalidCredential,
    /// The credential signature is invalid.
    InvalidCredentialSignature,
    /// The credential witness is invalid.
    InvalidWitness,
    /// The credential issuance proof is invalid.
    InvalidIssuanceProof,
    /// The revocation status list is invalid.
    InvalidStatusList,
    /// The revocation status signature is invalid.
    InvalidStatusListSignature,
    /// The revocation status list is older than the credential.
    StaleStatusList,
    /// The credential was revoked.
    RevokedCredential,
    /// The presentation context is invalid.
    InvalidPresentationContext,
    /// The credential witness or the scope context does not match.
    MismatchedWitnessOrContext,
    /// The presentation does not meet the requested subject, scope, policy, or attributes.
    RequirementMismatch,
    /// The anonymous presentation proof is invalid.
    InvalidAnonymousProof,
    /// The context was already consumed for this scope pseudonym.
    ReplayedContext,
    /// The Ristretto point is non-canonical or the identity.
    NonCanonicalPoint,
    /// The scalar encoding is non-canonical.
    NonCanonicalScalar,
}

} // verus!
