//! Application-neutral identity and qualification verification.
//!
//! DeKYX answers one question: whether an issuer-backed subject satisfies a
//! policy in an exact scope and request context. It deliberately does not
//! decide credit, reserve collateral, clear obligations, or settle assets.
//!
//! Signing, signature verification and sealing are done by a backend that the caller talks to.
//! The library says what has to be signed, verified or sealed, takes the outcome as a value,
//! and decides everything else.
pub mod binding;
pub mod bytes;
pub mod credential;
pub mod custody;
pub mod directory;
pub mod eligibility;
pub mod error;
pub mod fields;
pub mod group;
pub mod hash;
pub mod issuance;
pub mod issuer;
pub mod ledger;
pub mod membership;
pub mod pedersen;
pub mod presentation;
pub mod qualification;
pub mod record;
pub mod signature;
pub mod status;
pub mod store;
pub mod text;
pub mod tree;
pub mod witness;

pub use crate::bytes::{Digest32, Identifier, ZERO};
pub use crate::credential::{Credential, CredentialIssuanceProof, CredentialRequest};
pub use crate::custody::{
    CustodyParts, CustodySealing, EncryptedCredentialWitness, OpenedCustody, SealedMessage,
};
pub use crate::directory::IssuerDirectory;
pub use crate::eligibility::{
    DeKyxVerifier, EligibilityProvider, EligibilityRequirement, VerifiedEligibility,
};
pub use crate::error::DeKyxError;
pub use crate::group::Scalar;
pub use crate::issuance::{CredentialIssuer, UnsignedCredential, UnsignedStatusList};
pub use crate::issuer::{
    IssuerDefinition, IssuerRegistry, IssuerStatus, SubjectKind, SubjectKinds,
};
pub use crate::ledger::PresentationLedger;
pub use crate::presentation::{AnonymousPresentation, PresentationContext, UnsignedPresentation};
pub use crate::qualification::Qualification;
pub use crate::record::IssuerDirectoryRecord;
pub use crate::signature::{
    HybridSignature, KeyPurpose, SignatureBytes, SignatureCheck, SignatureReports,
    SignatureScheme, Suite, SuiteId,
};
pub use crate::status::RevocationStatusList;
pub use crate::store::TextMap;
pub use crate::tree::{qualification_proof, qualification_root, QualificationProof};
pub use crate::witness::{CredentialWitness, HolderKey, UnsignedIssuanceProof};
