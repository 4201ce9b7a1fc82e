//! Credentials: what a holder asks for, what an issuer signs, and the proof by which the
//! holder shows that they can open the commitment in the request.
use vstd::prelude::*;
use vstd::utf8::encode_utf8;

use crate::bytes::{
    append, append_digest, append_u64, be_bytes, copy_bytes, same_digest, Digest32, Identifier,
    ZERO,
};
use crate::error::DeKyxError;
use crate::fields::{digest_fields, field_contents, fields_digest, fields_message};
use crate::group::{
    canonical_scalar, decodes_to_non_identity, decompress_non_identity, decompress_point,
    group_order, hashed_multiple, le_nat, message_scalar, point_multiple, Scalar,
};
use crate::hash::{sha256, sha256_digest, sha512_digest};
use crate::issuer::{IssuerDefinition, IssuerDefinitionModel, SubjectKind};
use crate::pedersen::{answer, answered, commit, committed};
use crate::qualification::{copy_qualifications, models, Qualification, QualificationModel};
use crate::signature::{
    holder_check, hybrid_check, KeyPurpose, SignatureBytes, SignatureCheck, SignatureCheckModel,
    SignatureModel, SignatureReports, SignatureScheme, Suite, SuiteId, SuiteModel,
    ML_DSA_65_PK_BYTES,
};
use crate::tree::{law_root_ignores_order, qualification_root, root_of};

verus! {

/// Domain of credential statements.
pub const CREDENTIAL_DOMAIN: &'static str = "DEKYX:CREDENTIAL:v3";

/// Domain of issuance request statements.
pub const ISSUANCE_REQUEST_DOMAIN: &'static str = "DEKYX:ISSUANCE-REQUEST:v2";

/// Domain of issuance proof challenges.
pub const ISSUANCE_PROOF_DOMAIN: &'static str = "DEKYX:ISSUANCE-PROOF:v2";

/// Domain of what a holder signs at issuance.
pub const HOLDER_ISSUANCE_DOMAIN: &'static str = "DEKYX:HOLDER-ISSUANCE:v2";

/// The holder key is an ML-DSA-65 key.
pub open spec fn holder_key_admissible(suite: SuiteModel, public_key: Seq<u8>) -> bool {
    suite.id == SuiteId::MlDsa65 && public_key.len() == ML_DSA_65_PK_BYTES
}

fn is_holder_key(suite: &Suite, public_key: &Vec<u8>) -> (r: bool)
    ensures
        r == holder_key_admissible(suite@, public_key@),
{
    suite.id == SuiteId::MlDsa65 && public_key.len() == ML_DSA_65_PK_BYTES
}

// ---------------------------------------------------------------------------
// Credentials
// ---------------------------------------------------------------------------
/// A statement of an issuer about a subject, and the issuer's signature.
#[derive(Debug, PartialEq, Eq)]
pub struct Credential {
    pub credential_id: Identifier,
    pub issuer_id: Identifier,
    pub issuer_key_epoch: u64,
    pub subject_kind: SubjectKind,
    pub subject_commitment: [u8; 32],
    pub holder_public_key: Vec<u8>,
    pub holder_suite: Suite,
    pub scope_digest: Digest32,
    pub policy_digest: Digest32,
    pub qualifications_root: Digest32,
    pub status_epoch: u64,
    pub valid_from: u64,
    pub valid_until: u64,
    pub signature: SignatureBytes,
}

/// The contents of a credential.
pub struct CredentialModel {
    pub credential_id: Identifier,
    pub issuer_id: Identifier,
    pub issuer_key_epoch: u64,
    pub subject_kind: SubjectKind,
    pub subject_commitment: [u8; 32],
    pub holder_public_key: Seq<u8>,
    pub holder_suite: SuiteModel,
    pub scope_digest: Digest32,
    pub policy_digest: Digest32,
    pub qualifications_root: Digest32,
    pub status_epoch: u64,
    pub valid_from: u64,
    pub valid_until: u64,
    pub signature: SignatureModel,
}

impl View for Credential {
    type V = CredentialModel;

    open spec fn view(&self) -> CredentialModel {
        CredentialModel {
            credential_id: self.credential_id,
            issuer_id: self.issuer_id,
            issuer_key_epoch: self.issuer_key_epoch,
            subject_kind: self.subject_kind,
            subject_commitment: self.subject_commitment,
            holder_public_key: self.holder_public_key@,
            holder_suite: self.holder_suite@,
            scope_digest: self.scope_digest,
            policy_digest: self.policy_digest,
            qualifications_root: self.qualifications_root,
            status_epoch: self.status_epoch,
            valid_from: self.valid_from,
            valid_until: self.valid_until,
            signature: self.signature@,
        }
    }
}

impl Clone for Credential {
    fn clone(&self) -> (r: Self)
        ensures
            r@ == self@,
    {
        Credential {
            credential_id: self.credential_id,
            issuer_id: self.issuer_id,
            issuer_key_epoch: self.issuer_key_epoch,
            subject_kind: self.subject_kind,
            subject_commitment: self.subject_commitment,
            holder_public_key: copy_bytes(self.holder_public_key.as_slice()),
            holder_suite: self.holder_suite.clone(),
            scope_digest: self.scope_digest,
            policy_digest: self.policy_digest,
            qualifications_root: self.qualifications_root,
            status_epoch: self.status_epoch,
            valid_from: self.valid_from,
            valid_until: self.valid_until,
            signature: self.signature.clone(),
        }
    }
}

impl CredentialModel {
    /// No identifier, digest, epoch or start of validity is zero, and validity does not end
    /// before it starts.
    pub open spec fn complete(self) -> bool {
        &&& self.credential_id != ZERO
        &&& self.issuer_id != ZERO
        &&& self.subject_commitment != ZERO
        &&& self.scope_digest != ZERO
        &&& self.policy_digest != ZERO
        &&& self.qualifications_root != ZERO
        &&& self.issuer_key_epoch != 0
        &&& self.status_epoch != 0
        &&& self.valid_from != 0
        &&& self.valid_from <= self.valid_until
    }

    /// The bytes that the statement digest covers: everything but the signature.
    pub open spec fn statement_message(self) -> Seq<u8> {
        encode_utf8(CREDENTIAL_DOMAIN@) + self.credential_id@ + self.issuer_id@ + be_bytes(
            self.issuer_key_epoch as nat,
            8,
        ) + seq![self.subject_kind.tag_byte()] + self.subject_commitment@
            + self.holder_suite.encoding + self.holder_public_key + self.scope_digest@
            + self.policy_digest@ + self.qualifications_root@ + be_bytes(
            self.status_epoch as nat,
            8,
        ) + be_bytes(self.valid_from as nat, 8) + be_bytes(self.valid_until as nat, 8)
    }

    /// The digest that the issuer signs, or why there is none.
    pub open spec fn statement(self) -> Result<Digest32, DeKyxError> {
        if !self.complete() {
            Err(DeKyxError::InvalidCredential)
        } else if !decodes_to_non_identity(self.subject_commitment) {
            Err(DeKyxError::NonCanonicalPoint)
        } else if !holder_key_admissible(self.holder_suite, self.holder_public_key) {
            Err(DeKyxError::InvalidCredential)
        } else {
            Ok(sha256_digest(self.statement_message()))
        }
    }

    /// The digest of the credential with its signature, or why there is none.
    pub open spec fn digest(self, reports: SignatureReports) -> Result<Digest32, DeKyxError> {
        match self.statement() {
            Err(e) => Err(e),
            Ok(statement) => match reports.encoded(self.signature) {
                None => Err(DeKyxError::InvalidCredentialSignature),
                Some(encoding) => Ok(sha256_digest(statement@ + encoding)),
            },
        }
    }

    /// What checking the signature gives.
    pub open spec fn check_signature(
        self,
        issuer: IssuerDefinitionModel,
        reports: SignatureReports,
    ) -> Result<(), DeKyxError> {
        match issuer.check() {
            Err(e) => Err(e),
            Ok(()) => match self.statement() {
                Err(e) => Err(e),
                Ok(message) => if reports.accepted(
                    hybrid_check(issuer.hybrid_key(), message, self.signature),
                ) {
                    Ok(())
                } else {
                    Err(DeKyxError::InvalidCredentialSignature)
                },
            },
        }
    }
}

impl Credential {
    /// The digest that the issuer signs.
    pub fn statement_digest(&self) -> (r: Result<Digest32, DeKyxError>)
        ensures
            r == self@.statement(),
    {
        if same_digest(&self.credential_id, &ZERO) || same_digest(&self.issuer_id, &ZERO)
            || same_digest(&self.subject_commitment, &ZERO) || same_digest(
            &self.scope_digest,
            &ZERO,
        ) || same_digest(&self.policy_digest, &ZERO) || same_digest(
            &self.qualifications_root,
            &ZERO,
        ) || self.issuer_key_epoch == 0 || self.status_epoch == 0 || self.valid_from == 0
            || self.valid_from > self.valid_until {
            return Err(DeKyxError::InvalidCredential);
        }
        decompress_non_identity(&self.subject_commitment)?;
        if !is_holder_key(&self.holder_suite, &self.holder_public_key) {
            return Err(DeKyxError::InvalidCredential);
        }
        let mut message: Vec<u8> = Vec::new();
        append(&mut message, CREDENTIAL_DOMAIN.as_bytes());
        append_digest(&mut message, &self.credential_id);
        append_digest(&mut message, &self.issuer_id);
        append_u64(&mut message, self.issuer_key_epoch);
        message.push(self.subject_kind.tag());
        append_digest(&mut message, &self.subject_commitment);
        append(&mut message, self.holder_suite.encoding.as_slice());
        append(&mut message, self.holder_public_key.as_slice());
        append_digest(&mut message, &self.scope_digest);
        append_digest(&mut message, &self.policy_digest);
        append_digest(&mut message, &self.qualifications_root);
        append_u64(&mut message, self.status_epoch);
        append_u64(&mut message, self.valid_from);
        append_u64(&mut message, self.valid_until);
        assert(message@ =~= self@.statement_message());
        Ok(sha256(message.as_slice()))
    }

    /// The digest of the credential with its signature, in the encoding that the signature
    /// backend reported for it. A signature that the backend does not encode is refused.
    pub fn digest(&self, reports: &SignatureReports) -> (r: Result<Digest32, DeKyxError>)
        ensures
            r == self@.digest(*reports),
    {
        let statement = self.statement_digest()?;
        match reports.encoding(&self.signature) {
            None => Err(DeKyxError::InvalidCredentialSignature),
            Some(encoding) => {
                let mut message: Vec<u8> = Vec::new();
                append_digest(&mut message, &statement);
                append(&mut message, encoding.as_slice());
                assert(message@ =~= statement@ + encoding@);
                Ok(sha256(message.as_slice()))
            },
        }
    }

    /// The signature that has to hold for the credential to be accepted from `issuer`.
    pub fn signature_check(&self, issuer: &IssuerDefinition) -> (r: Result<
        SignatureCheck,
        DeKyxError,
    >)
        ensures
            match r {
                Ok(check) => {
                    &&& issuer@.check() is Ok
                    &&& self@.statement() matches Ok(message)
                    &&& check@ == hybrid_check(issuer@.hybrid_key(), message, self.signature@)
                },
                Err(e) => forall|reports: SignatureReports| #[trigger]
                    self@.check_signature(issuer@, reports) == Err::<(), DeKyxError>(e),
            },
    {
        issuer.validate()?;
        let message = self.statement_digest()?;
        Ok(SignatureCheck::hybrid(issuer.hybrid_public_key(), message, &self.signature))
    }

    /// Checks that `issuer` signed the credential.
    pub fn verify_signature(&self, issuer: &IssuerDefinition, reports: &SignatureReports) -> (r:
        Result<(), DeKyxError>)
        ensures
            r == self@.check_signature(issuer@, *reports),
    {
        match self.signature_check(issuer) {
            Err(e) => {
                assert(self@.check_signature(issuer@, *reports) == Err::<(), DeKyxError>(e));
                Err(e)
            },
            Ok(check) => if reports.accepts(&check) {
                Ok(())
            } else {
                Err(DeKyxError::InvalidCredentialSignature)
            },
        }
    }
}

// ---------------------------------------------------------------------------
// Requests
// ---------------------------------------------------------------------------
/// What a holder asks an issuer to vouch for.
#[derive(Debug, PartialEq, Eq)]
pub struct CredentialRequest {
    pub credential_id: Identifier,
    pub issuer_id: Identifier,
    pub issuer_key_epoch: u64,
    pub subject_kind: SubjectKind,
    pub subject_commitment: [u8; 32],
    pub holder_public_key: Vec<u8>,
    pub holder_suite: Suite,
    pub scope_digest: Digest32,
    pub policy_digest: Digest32,
    pub qualifications: Vec<Qualification>,
    pub status_epoch: u64,
    pub valid_from: u64,
    pub valid_until: u64,
}

/// The contents of a request.
pub struct CredentialRequestModel {
    pub credential_id: Identifier,
    pub issuer_id: Identifier,
    pub issuer_key_epoch: u64,
    pub subject_kind: SubjectKind,
    pub subject_commitment: [u8; 32],
    pub holder_public_key: Seq<u8>,
    pub holder_suite: SuiteModel,
    pub scope_digest: Digest32,
    pub policy_digest: Digest32,
    pub qualifications: Seq<QualificationModel>,
    pub status_epoch: u64,
    pub valid_from: u64,
    pub valid_until: u64,
}

impl View for CredentialRequest {
    type V = CredentialRequestModel;

    open spec fn view(&self) -> CredentialRequestModel {
        CredentialRequestModel {
            credential_id: self.credential_id,
            issuer_id: self.issuer_id,
            issuer_key_epoch: self.issuer_key_epoch,
            subject_kind: self.subject_kind,
            subject_commitment: self.subject_commitment,
            holder_public_key: self.holder_public_key@,
            holder_suite: self.holder_suite@,
            scope_digest: self.scope_digest,
            policy_digest: self.policy_digest,
            qualifications: models(self.qualifications@),
            status_epoch: self.status_epoch,
            valid_from: self.valid_from,
            valid_until: self.valid_until,
        }
    }
}

impl Clone for CredentialRequest {
    fn clone(&self) -> (r: Self)
        ensures
            r@ == self@,
    {
        CredentialRequest {
            credential_id: self.credential_id,
            issuer_id: self.issuer_id,
            issuer_key_epoch: self.issuer_key_epoch,
            subject_kind: self.subject_kind,
            subject_commitment: self.subject_commitment,
            holder_public_key: copy_bytes(self.holder_public_key.as_slice()),
            holder_suite: self.holder_suite.clone(),
            scope_digest: self.scope_digest,
            policy_digest: self.policy_digest,
            qualifications: copy_qualifications(self.qualifications.as_slice()),
            status_epoch: self.status_epoch,
            valid_from: self.valid_from,
            valid_until: self.valid_until,
        }
    }
}

impl CredentialRequestModel {
    /// No identifier, digest, epoch or start of validity is zero, and validity does not end
    /// before it starts.
    pub open spec fn complete(self) -> bool {
        &&& self.credential_id != ZERO
        &&& self.issuer_id != ZERO
        &&& self.subject_commitment != ZERO
        &&& self.scope_digest != ZERO
        &&& self.policy_digest != ZERO
        &&& self.issuer_key_epoch != 0
        &&& self.status_epoch != 0
        &&& self.valid_from != 0
        &&& self.valid_from <= self.valid_until
    }

    /// The fields that the statement digest covers. The qualifications are covered by the root
    /// of their hash tree.
    pub open spec fn statement_fields(self, qualifications_root: Digest32) -> Seq<Seq<u8>> {
        seq![
            self.credential_id@,
            self.issuer_id@,
            be_bytes(self.issuer_key_epoch as nat, 8),
            seq![self.subject_kind.tag_byte()],
            self.subject_commitment@,
            self.holder_suite.encoding,
            self.holder_public_key,
            self.scope_digest@,
            self.policy_digest@,
            qualifications_root@,
            be_bytes(self.status_epoch as nat, 8),
            be_bytes(self.valid_from as nat, 8),
            be_bytes(self.valid_until as nat, 8),
        ]
    }

    /// The digest that stands for the request, or why there is none.
    pub open spec fn statement(self) -> Result<Digest32, DeKyxError> {
        if !self.complete() {
            Err(DeKyxError::InvalidCredential)
        } else if !decodes_to_non_identity(self.subject_commitment) {
            Err(DeKyxError::NonCanonicalPoint)
        } else if !holder_key_admissible(self.holder_suite, self.holder_public_key) {
            Err(DeKyxError::InvalidCredential)
        } else {
            match root_of(self.qualifications) {
                Err(e) => Err(e),
                Ok(root) => Ok(fields_digest(ISSUANCE_REQUEST_DOMAIN@, self.statement_fields(root))),
            }
        }
    }
}

/// The eight big-endian bytes of a number.
fn u64_field(value: u64) -> (r: Vec<u8>)
    ensures
        r@ == be_bytes(value as nat, 8),
{
    let mut out: Vec<u8> = Vec::new();
    append_u64(&mut out, value);
    assert(out@ =~= be_bytes(value as nat, 8));
    out
}

impl CredentialRequest {
    /// The digest that stands for the request.
    pub fn statement_digest(&self) -> (r: Result<Digest32, DeKyxError>)
        ensures
            r == self@.statement(),
    {
        if same_digest(&self.credential_id, &ZERO) || same_digest(&self.issuer_id, &ZERO)
            || same_digest(&self.subject_commitment, &ZERO) || same_digest(
            &self.scope_digest,
            &ZERO,
        ) || same_digest(&self.policy_digest, &ZERO) || self.issuer_key_epoch == 0
            || self.status_epoch == 0 || self.valid_from == 0 || self.valid_from
            > self.valid_until {
            return Err(DeKyxError::InvalidCredential);
        }
        decompress_non_identity(&self.subject_commitment)?;
        if !is_holder_key(&self.holder_suite, &self.holder_public_key) {
            return Err(DeKyxError::InvalidCredential);
        }
        let qualifications_root = qualification_root(self.qualifications.as_slice())?;
        let issuer_key_epoch = u64_field(self.issuer_key_epoch);
        let tag: [u8; 1] = [self.subject_kind.tag()];
        let status_epoch = u64_field(self.status_epoch);
        let valid_from = u64_field(self.valid_from);
        let valid_until = u64_field(self.valid_until);
        let fields: [&[u8]; 13] = [
            self.credential_id.as_slice(),
            self.issuer_id.as_slice(),
            issuer_key_epoch.as_slice(),
            tag.as_slice(),
            self.subject_commitment.as_slice(),
            self.holder_suite.encoding.as_slice(),
            self.holder_public_key.as_slice(),
            self.scope_digest.as_slice(),
            self.policy_digest.as_slice(),
            qualifications_root.as_slice(),
            status_epoch.as_slice(),
            valid_from.as_slice(),
            valid_until.as_slice(),
        ];
        proof {
            assert(tag@ =~= seq![self.subject_kind.tag_byte()]);
            assert(field_contents(fields@) =~= self@.statement_fields(qualifications_root));
        }
        Ok(digest_fields(ISSUANCE_REQUEST_DOMAIN, fields.as_slice()))
    }
}

// ---------------------------------------------------------------------------
// Proofs of possession
// ---------------------------------------------------------------------------
/// Shows that a holder can open the commitment in a request and holds the key in it.
#[derive(Debug, PartialEq, Eq)]
pub struct CredentialIssuanceProof {
    pub announcement_commitment: [u8; 32],
    pub response_subject: [u8; 32],
    pub response_blinding: [u8; 32],
    pub holder_signature: Vec<u8>,
}

/// The contents of an issuance proof.
pub struct IssuanceProofModel {
    pub announcement_commitment: [u8; 32],
    pub response_subject: [u8; 32],
    pub response_blinding: [u8; 32],
    pub holder_signature: Seq<u8>,
}

impl View for CredentialIssuanceProof {
    type V = IssuanceProofModel;

    open spec fn view(&self) -> IssuanceProofModel {
        IssuanceProofModel {
            announcement_commitment: self.announcement_commitment,
            response_subject: self.response_subject,
            response_blinding: self.response_blinding,
            holder_signature: self.holder_signature@,
        }
    }
}

impl Clone for CredentialIssuanceProof {
    fn clone(&self) -> (r: Self)
        ensures
            r@ == self@,
    {
        CredentialIssuanceProof {
            announcement_commitment: self.announcement_commitment,
            response_subject: self.response_subject,
            response_blinding: self.response_blinding,
            holder_signature: copy_bytes(self.holder_signature.as_slice()),
        }
    }
}

/// The challenge for an announcement about a request.
pub open spec fn issuance_challenge_for(statement: Digest32, announcement: [u8; 32]) -> nat {
    message_scalar(encode_utf8(ISSUANCE_PROOF_DOMAIN@) + statement@ + announcement@)
}

impl IssuanceProofModel {
    /// The fields that the digest the holder signs covers.
    pub open spec fn signed_fields(self, statement: Digest32) -> Seq<Seq<u8>> {
        seq![
            statement@,
            self.announcement_commitment@,
            self.response_subject@,
            self.response_blinding@,
        ]
    }

    /// The digest that the holder signs, or why there is none.
    pub open spec fn signing_message(self, request: CredentialRequestModel) -> Result<
        Digest32,
        DeKyxError,
    > {
        match request.statement() {
            Err(e) => Err(e),
            Ok(statement) => Ok(
                fields_digest(HOLDER_ISSUANCE_DOMAIN@, self.signed_fields(statement)),
            ),
        }
    }

    /// What checking the answers alone gives: the announcement and the answers have to be
    /// canonical, and the answers have to open the announced element plus the commitment of
    /// the request times the challenge.
    pub open spec fn check_answers(self, request: CredentialRequestModel) -> Result<(), DeKyxError> {
        match request.statement() {
            Err(e) => Err(e),
            Ok(statement) => if !decodes_to_non_identity(request.subject_commitment)
                || point_multiple(self.announcement_commitment@) is None {
                Err(DeKyxError::NonCanonicalPoint)
            } else if le_nat(self.response_subject@) >= group_order() || le_nat(
                self.response_blinding@,
            ) >= group_order() {
                Err(DeKyxError::NonCanonicalScalar)
            } else if committed(le_nat(self.response_subject@), le_nat(self.response_blinding@))
                == answered(
                point_multiple(self.announcement_commitment@)->0,
                point_multiple(request.subject_commitment@)->0,
                issuance_challenge_for(statement, self.announcement_commitment),
            ) {
                Ok(())
            } else {
                Err(DeKyxError::InvalidIssuanceProof)
            },
        }
    }

    /// What checking the proof gives: first the holder's signature, then the answers.
    pub open spec fn check(self, request: CredentialRequestModel, reports: SignatureReports) -> Result<
        (),
        DeKyxError,
    > {
        match self.signing_message(request) {
            Err(e) => Err(e),
            Ok(message) => if !reports.accepted(
                holder_check(
                    KeyPurpose::Attestation,
                    request.holder_public_key,
                    message,
                    self.holder_signature,
                ),
            ) {
                Err(DeKyxError::InvalidIssuanceProof)
            } else {
                self.check_answers(request)
            },
        }
    }
}

/// The challenge for an announcement about a request.
pub(crate) fn issuance_challenge(
    request: &CredentialRequest,
    announcement_commitment: &[u8; 32],
) -> (r: Result<Scalar, DeKyxError>)
    ensures
        match request@.statement() {
            Ok(statement) => r matches Ok(challenge) && challenge@ == issuance_challenge_for(
                statement,
                *announcement_commitment,
            ),
            Err(e) => r matches Err(f) && f == e,
        },
{
    let statement = request.statement_digest()?;
    let mut message: Vec<u8> = Vec::new();
    append(&mut message, ISSUANCE_PROOF_DOMAIN.as_bytes());
    append_digest(&mut message, &statement);
    append_digest(&mut message, announcement_commitment);
    assert(message@ =~= encode_utf8(ISSUANCE_PROOF_DOMAIN@) + statement@
        + announcement_commitment@);
    Ok(Scalar::from_message(message.as_slice()))
}

impl CredentialIssuanceProof {
    /// The digest that the holder signs.
    pub fn holder_signing_message(&self, request: &CredentialRequest) -> (r: Result<
        Digest32,
        DeKyxError,
    >)
        ensures
            r == self@.signing_message(request@),
    {
        let statement = request.statement_digest()?;
        let fields: [&[u8]; 4] = [
            statement.as_slice(),
            self.announcement_commitment.as_slice(),
            self.response_subject.as_slice(),
            self.response_blinding.as_slice(),
        ];
        assert(field_contents(fields@) =~= seq![
            statement@,
            self.announcement_commitment@,
            self.response_subject@,
            self.response_blinding@,
        ]);
        Ok(digest_fields(HOLDER_ISSUANCE_DOMAIN, fields.as_slice()))
    }

    /// The signature that has to hold for the proof to be accepted.
    pub fn signature_check(&self, request: &CredentialRequest) -> (r: Result<
        SignatureCheck,
        DeKyxError,
    >)
        ensures
            match self@.signing_message(request@) {
                Ok(message) => r matches Ok(check) && check@ == holder_check(
                    KeyPurpose::Attestation,
                    request.holder_public_key@,
                    message,
                    self.holder_signature@,
                ),
                Err(e) => r matches Err(f) && f == e,
            },
    {
        let message = self.holder_signing_message(request)?;
        Ok(
            SignatureCheck::holder(
                KeyPurpose::Attestation,
                &request.holder_public_key,
                message,
                &self.holder_signature,
            ),
        )
    }

    /// Checks that the holder can open the commitment in the request and holds the key in it.
    pub fn verify(&self, request: &CredentialRequest, reports: &SignatureReports) -> (r: Result<
        (),
        DeKyxError,
    >)
        ensures
            r == self@.check(request@, *reports),
    {
        let check = self.signature_check(request)?;
        if !reports.accepts(&check) {
            return Err(DeKyxError::InvalidIssuanceProof);
        }
        let commitment = decompress_non_identity(&request.subject_commitment)?;
        let announcement = decompress_point(&self.announcement_commitment)?;
        let response_subject = canonical_scalar(&self.response_subject)?;
        let response_blinding = canonical_scalar(&self.response_blinding)?;
        let challenge = issuance_challenge(request, &self.announcement_commitment)?;
        let opened = commit(&response_subject, &response_blinding);
        if !opened.same(&answer(&announcement, &commitment, &challenge)) {
            return Err(DeKyxError::InvalidIssuanceProof);
        }
        Ok(())
    }
}

/// A request is the same in whatever order its qualifications are listed: it has the same
/// statement, and a holder proof for one order checks for every other.
pub proof fn law_request_ignores_order(
    request: CredentialRequestModel,
    qualifications: Seq<QualificationModel>,
    holder_proof: IssuanceProofModel,
    reports: SignatureReports,
)
    requires
        qualifications.to_multiset() == request.qualifications.to_multiset(),
    ensures
        (CredentialRequestModel { qualifications, ..request }).statement() == request.statement(),
        holder_proof.check(CredentialRequestModel { qualifications, ..request }, reports)
            == holder_proof.check(request, reports),
{
    law_root_ignores_order(qualifications, request.qualifications);
    let other = CredentialRequestModel { qualifications, ..request };
    if let Ok(root) = root_of(request.qualifications) {
        assert(other.statement_fields(root) == request.statement_fields(root));
    }
    assert(holder_proof.signing_message(other) == holder_proof.signing_message(request));
}

/// What makes a credential fit to be signed, which fault is named, and the bytes whose digest the
/// issuer signs.
pub proof fn law_credential_fit_to_sign(c: CredentialModel)
    ensures
        ({
            let filled = {
                &&& c.credential_id != ZERO
                &&& c.issuer_id != ZERO
                &&& c.subject_commitment != ZERO
                &&& c.scope_digest != ZERO
                &&& c.policy_digest != ZERO
                &&& c.qualifications_root != ZERO
                &&& c.issuer_key_epoch > 0
                &&& c.status_epoch > 0
                &&& 0 < c.valid_from <= c.valid_until
            };
            let committed_to = point_multiple(c.subject_commitment@) is Some && point_multiple(
                c.subject_commitment@,
            ) != Some(0nat);
            let keyed = c.holder_suite.id == SuiteId::MlDsa65 && c.holder_public_key.len() == 1952;
            &&& filled && committed_to && keyed ==> c.statement() == Ok::<Digest32, DeKyxError>(
                sha256_digest(
                    encode_utf8("DEKYX:CREDENTIAL:v3"@) + c.credential_id@ + c.issuer_id@
                        + be_bytes(c.issuer_key_epoch as nat, 8) + seq![c.subject_kind.tag_byte()]
                        + c.subject_commitment@ + c.holder_suite.encoding + c.holder_public_key
                        + c.scope_digest@ + c.policy_digest@ + c.qualifications_root@ + be_bytes(
                        c.status_epoch as nat,
                        8,
                    ) + be_bytes(c.valid_from as nat, 8) + be_bytes(c.valid_until as nat, 8),
                ),
            )
            &&& filled && !committed_to ==> c.statement() == Err::<Digest32, DeKyxError>(
                DeKyxError::NonCanonicalPoint,
            )
            &&& !filled || (committed_to && !keyed) ==> c.statement() == Err::<
                Digest32,
                DeKyxError,
            >(DeKyxError::InvalidCredential)
        }),
{
}

/// The digest of a credential covers its statement and its signature as the backend encodes it;
/// where the backend does not encode the signature, there is none.
pub proof fn law_credential_digest_covers_signature(c: CredentialModel, reports: SignatureReports)
    ensures
        c.statement() is Err ==> c.digest(reports) == c.statement(),
        c.statement() is Ok && reports.encoded(c.signature) is None ==> c.digest(reports) == Err::<
            Digest32,
            DeKyxError,
        >(DeKyxError::InvalidCredentialSignature),
        c.statement() is Ok && reports.encoded(c.signature) is Some ==> c.digest(reports) == Ok::<
            Digest32,
            DeKyxError,
        >(sha256_digest(c.statement()->Ok_0@ + reports.encoded(c.signature)->0)),
{
}

/// A credential is accepted from an issuer epoch that is valid and whose hybrid attestation of
/// the credential, under both its keys, the backend accepted.
pub proof fn law_credential_checked_against_its_issuer(
    c: CredentialModel,
    issuer: IssuerDefinitionModel,
    reports: SignatureReports,
)
    ensures
        ({
            let result = c.check_signature(issuer, reports);
            let valid = issuer.check() is Ok;
            let stated = valid && c.statement() is Ok;
            let attested = stated && reports.accepted(
                SignatureCheckModel {
                    scheme: SignatureScheme::Hybrid,
                    purpose: KeyPurpose::Attestation,
                    public_key: issuer.public_key@ + issuer.pq_public_key,
                    message: c.statement()->Ok_0,
                    classical: c.signature.first@ + c.signature.second@,
                    pq: c.signature.pq,
                },
            );
            &&& attested <==> result is Ok
            &&& !valid ==> result == issuer.check()
            &&& valid && !stated ==> result == Err::<(), DeKyxError>(c.statement()->Err_0)
            &&& stated && !attested ==> result == Err::<(), DeKyxError>(
                DeKyxError::InvalidCredentialSignature,
            )
        }),
{
}

/// What makes a request fit to be answered, which fault is named, and the fields whose digest
/// stands for it.
pub proof fn law_request_fit_to_answer(r: CredentialRequestModel)
    ensures
        ({
            let filled = {
                &&& r.credential_id != ZERO
                &&& r.issuer_id != ZERO
                &&& r.subject_commitment != ZERO
                &&& r.scope_digest != ZERO
                &&& r.policy_digest != ZERO
                &&& r.issuer_key_epoch > 0
                &&& r.status_epoch > 0
                &&& 0 < r.valid_from <= r.valid_until
            };
            let committed_to = point_multiple(r.subject_commitment@) is Some && point_multiple(
                r.subject_commitment@,
            ) != Some(0nat);
            let keyed = r.holder_suite.id == SuiteId::MlDsa65 && r.holder_public_key.len() == 1952;
            let root = root_of(r.qualifications);
            &&& filled && committed_to && keyed && root is Ok ==> r.statement() == Ok::<
                Digest32,
                DeKyxError,
            >(
                sha256_digest(
                    encode_utf8("DEKYX:ISSUANCE-REQUEST:v2"@) + fields_message(
                        seq![
                            r.credential_id@,
                            r.issuer_id@,
                            be_bytes(r.issuer_key_epoch as nat, 8),
                            seq![r.subject_kind.tag_byte()],
                            r.subject_commitment@,
                            r.holder_suite.encoding,
                            r.holder_public_key,
                            r.scope_digest@,
                            r.policy_digest@,
                            root->Ok_0@,
                            be_bytes(r.status_epoch as nat, 8),
                            be_bytes(r.valid_from as nat, 8),
                            be_bytes(r.valid_until as nat, 8),
                        ],
                    ),
                ),
            )
            &&& filled && !committed_to ==> r.statement() == Err::<Digest32, DeKyxError>(
                DeKyxError::NonCanonicalPoint,
            )
            &&& !filled || (committed_to && !keyed) ==> r.statement() == Err::<
                Digest32,
                DeKyxError,
            >(DeKyxError::InvalidCredential)
            &&& filled && committed_to && keyed && root is Err ==> r.statement() == root
        }),
{
}

/// The challenge at issuance is the hash of the statement of the request and of the announcement,
/// reduced: the bytes that it is hashed from determine both.
pub proof fn law_issuance_challenge_covers(
    statement: Digest32,
    announcement: [u8; 32],
    other_statement: Digest32,
    other_announcement: [u8; 32],
)
    ensures
        issuance_challenge_for(statement, announcement) == le_nat(
            sha512_digest(
                encode_utf8("DEKYX:ISSUANCE-PROOF:v2"@) + statement@ + announcement@,
            )@,
        ) % group_order(),
        encode_utf8("DEKYX:ISSUANCE-PROOF:v2"@) + statement@ + announcement@ == encode_utf8(
            "DEKYX:ISSUANCE-PROOF:v2"@,
        ) + other_statement@ + other_announcement@ ==> statement == other_statement
            && announcement == other_announcement,
{
    let domain = encode_utf8("DEKYX:ISSUANCE-PROOF:v2"@);
    let d = domain.len() as int;
    let x = domain + statement@ + announcement@;
    let y = domain + other_statement@ + other_announcement@;
    if x == y {
        assert(statement@ =~= x.subrange(d, d + 32));
        assert(other_statement@ =~= y.subrange(d, d + 32));
        assert(announcement@ =~= x.subrange(d + 32, d + 64));
        assert(other_announcement@ =~= y.subrange(d + 32, d + 64));
        assert(statement =~= other_statement);
        assert(announcement =~= other_announcement);
    }
}

/// A proof of possession at issuance is accepted just where the backend accepted the holder's
/// attestation of it under the key of the request, the announcement and the answers are canonical,
/// and the answers open the announced element plus the commitment times the challenge. What is
/// amiss is named in this order: the request, the signature, the announcement, the answers, and
/// the equation.
pub proof fn law_issuance_proof_checked_in_full(
    p: IssuanceProofModel,
    request: CredentialRequestModel,
    reports: SignatureReports,
)
    ensures
        ({
            let result = p.check(request, reports);
            let stated = request.statement() is Ok;
            let statement = request.statement()->Ok_0;
            let attested = stated && reports.accepted(
                SignatureCheckModel {
                    scheme: SignatureScheme::MlDsa65,
                    purpose: KeyPurpose::Attestation,
                    public_key: request.holder_public_key,
                    message: sha256_digest(
                        encode_utf8("DEKYX:HOLDER-ISSUANCE:v2"@) + fields_message(
                            seq![
                                statement@,
                                p.announcement_commitment@,
                                p.response_subject@,
                                p.response_blinding@,
                            ],
                        ),
                    ),
                    classical: Seq::empty(),
                    pq: p.holder_signature,
                },
            );
            let announced = attested && point_multiple(p.announcement_commitment@) is Some;
            let canonical = announced && le_nat(p.response_subject@) < group_order() && le_nat(
                p.response_blinding@,
            ) < group_order();
            let opened = canonical && (le_nat(p.response_subject@) + hashed_multiple(
                encode_utf8("DEKYX:SUBJECT-BLINDING-GENERATOR:v1"@),
            ) * le_nat(p.response_blinding@)) % group_order() == (point_multiple(
                p.announcement_commitment@,
            )->0 + point_multiple(request.subject_commitment@)->0 * issuance_challenge_for(
                statement,
                p.announcement_commitment,
            )) % group_order();
            &&& opened <==> result is Ok
            &&& !stated ==> result == Err::<(), DeKyxError>(request.statement()->Err_0)
            &&& stated && !attested ==> result == Err::<(), DeKyxError>(
                DeKyxError::InvalidIssuanceProof,
            )
            &&& attested && !announced ==> result == Err::<(), DeKyxError>(
                DeKyxError::NonCanonicalPoint,
            )
            &&& announced && !canonical ==> result == Err::<(), DeKyxError>(
                DeKyxError::NonCanonicalScalar,
            )
            &&& canonical && !opened ==> result == Err::<(), DeKyxError>(
                DeKyxError::InvalidIssuanceProof,
            )
        }),
{
}

/// The contents of a credential are its parts.
pub proof fn law_credential_contents(c: Credential)
    ensures
        c@.credential_id == c.credential_id,
        c@.issuer_id == c.issuer_id,
        c@.issuer_key_epoch == c.issuer_key_epoch,
        c@.subject_kind == c.subject_kind,
        c@.subject_commitment == c.subject_commitment,
        c@.holder_public_key == c.holder_public_key@,
        c@.holder_suite.id == c.holder_suite.id,
        c@.holder_suite.encoding == c.holder_suite.encoding@,
        c@.scope_digest == c.scope_digest,
        c@.policy_digest == c.policy_digest,
        c@.qualifications_root == c.qualifications_root,
        c@.status_epoch == c.status_epoch,
        c@.valid_from == c.valid_from,
        c@.valid_until == c.valid_until,
        c@.signature.first == c.signature.first,
        c@.signature.second == c.signature.second,
        c@.signature.pq == c.signature.pq@,
{
}

/// The contents of a request are its parts.
pub proof fn law_request_contents(r: CredentialRequest)
    ensures
        r@.credential_id == r.credential_id,
        r@.issuer_id == r.issuer_id,
        r@.issuer_key_epoch == r.issuer_key_epoch,
        r@.subject_kind == r.subject_kind,
        r@.subject_commitment == r.subject_commitment,
        r@.holder_public_key == r.holder_public_key@,
        r@.holder_suite.id == r.holder_suite.id,
        r@.holder_suite.encoding == r.holder_suite.encoding@,
        r@.scope_digest == r.scope_digest,
        r@.policy_digest == r.policy_digest,
        r@.qualifications == models(r.qualifications@),
        r@.status_epoch == r.status_epoch,
        r@.valid_from == r.valid_from,
        r@.valid_until == r.valid_until,
{
}

/// The contents of a proof of possession are its parts.
pub proof fn law_issuance_proof_contents(p: CredentialIssuanceProof)
    ensures
        p@.announcement_commitment == p.announcement_commitment,
        p@.response_subject == p.response_subject,
        p@.response_blinding == p.response_blinding,
        p@.holder_signature == p.holder_signature@,
{
}

} // verus!
