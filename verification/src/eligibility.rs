//! The question that everything else serves: does a subject, backed by an issuer, satisfy a
//! policy in an exact scope and request context?
use vstd::prelude::*;

use crate::bytes::{holds_in_ascending, same_digest, Digest32, Identifier, ZERO};
use crate::credential::{CredentialModel, CredentialRequestModel, IssuanceProofModel};
use crate::custody::issued_for;
use crate::error::DeKyxError;
use crate::group::encodes;
use crate::issuance::{granted, law_issued_credential_verifies};
use crate::issuer::{
    definition_of, issuers_sound, IssuerDefinitionModel, IssuerRegistry, IssuerStatus, Issuers,
    SubjectKind,
};
use crate::pedersen::pseudonym;
use crate::presentation::{
    holds_all, law_presentation_proof_verifies, law_selected_proofs_verify, AnonymousPresentation,
    PresentationContext, PresentationModel, UnsignedPresentation,
};
use crate::qualification::{
    copy_qualifications, models, Qualification, QualificationModel, MAX_QUALIFICATIONS,
};
use crate::signature::{
    holder_check, hybrid_check, KeyPurpose, SignatureModel, SignatureReports, ML_DSA_65_SIG_BYTES,
};
use crate::status::{RevocationStatusList, StatusListModel};
use crate::text::{issuer_key_text, law_issuer_key_injective};
use crate::tree::{law_root_ignores_order, proof_models, QualificationProof, QualificationProofModel};
use crate::witness::WitnessModel;

verus! {

/// What a verifier asks of a subject.
#[derive(Debug, PartialEq, Eq)]
pub struct EligibilityRequirement {
    pub issuer_id: Identifier,
    pub issuer_key_epoch: u64,
    pub issuer_namespace_digest: Digest32,
    pub subject_kind: SubjectKind,
    pub scope_digest: Digest32,
    pub policy_digest: Digest32,
    pub required_qualifications: Vec<Qualification>,
}

/// The contents of a requirement.
pub struct RequirementModel {
    pub issuer_id: Identifier,
    pub issuer_key_epoch: u64,
    pub issuer_namespace_digest: Digest32,
    pub subject_kind: SubjectKind,
    pub scope_digest: Digest32,
    pub policy_digest: Digest32,
    pub required_qualifications: Seq<QualificationModel>,
}

impl View for EligibilityRequirement {
    type V = RequirementModel;

    open spec fn view(&self) -> RequirementModel {
        RequirementModel {
            issuer_id: self.issuer_id,
            issuer_key_epoch: self.issuer_key_epoch,
            issuer_namespace_digest: self.issuer_namespace_digest,
            subject_kind: self.subject_kind,
            scope_digest: self.scope_digest,
            policy_digest: self.policy_digest,
            required_qualifications: models(self.required_qualifications@),
        }
    }
}

impl Clone for EligibilityRequirement {
    fn clone(&self) -> (r: Self)
        ensures
            r@ == self@,
    {
        EligibilityRequirement {
            issuer_id: self.issuer_id,
            issuer_key_epoch: self.issuer_key_epoch,
            issuer_namespace_digest: self.issuer_namespace_digest,
            subject_kind: self.subject_kind,
            scope_digest: self.scope_digest,
            policy_digest: self.policy_digest,
            required_qualifications: copy_qualifications(self.required_qualifications.as_slice()),
        }
    }
}

/// What a verifier learns about an eligible subject.
#[derive(Clone, Copy, Debug, PartialEq, Eq)]
pub struct VerifiedEligibility {
    pub issuer_id: Identifier,
    pub issuer_key_epoch: u64,
    pub issuer_namespace_digest: Digest32,
    pub subject_kind: SubjectKind,
    pub subject_commitment: [u8; 32],
    pub subject_nullifier: [u8; 32],
    pub subject_line_id: Digest32,
    pub policy_digest: Digest32,
    pub proof_digest: Digest32,
    pub valid_until: u64,
}

/// Decides whether evidence meets a requirement in a context.
pub trait EligibilityProvider {
    type Evidence;

    fn verify_eligibility(
        &self,
        requirement: &EligibilityRequirement,
        context: &PresentationContext,
        evidence: &Self::Evidence,
        now: u64,
    ) -> Result<VerifiedEligibility, DeKyxError>;
}

/// Verifies anonymous presentations against trust anchors, one status list, and what the
/// signature backend reported.
pub struct DeKyxVerifier<'a> {
    pub issuers: &'a IssuerRegistry,
    pub status_list: &'a RevocationStatusList,
    pub signatures: &'a SignatureReports,
}

/// The evidence is what the requirement and the context ask for, before any signature or
/// proof is looked at.
pub open spec fn asked_for(
    requirement: RequirementModel,
    context: PresentationContext,
    evidence: PresentationModel,
    now: u64,
) -> bool {
    &&& evidence.context == context
    &&& now <= context.valid_until
    &&& evidence.credential.issuer_id == requirement.issuer_id
    &&& evidence.credential.issuer_key_epoch == requirement.issuer_key_epoch
    &&& requirement.issuer_id != ZERO
    &&& requirement.issuer_key_epoch != 0
    &&& requirement.issuer_namespace_digest != ZERO
    &&& evidence.credential.subject_kind == requirement.subject_kind
    &&& evidence.credential.scope_digest == requirement.scope_digest
    &&& context.scope_digest == requirement.scope_digest
    &&& evidence.credential.policy_digest == requirement.policy_digest
    &&& evidence.credential.valid_from <= now <= evidence.credential.valid_until
    &&& requirement.required_qualifications.len() <= MAX_QUALIFICATIONS
    &&& evidence.qualifications.len() <= MAX_QUALIFICATIONS
}

/// The qualifications that proofs show.
pub open spec fn shown(proofs: Seq<QualificationProofModel>) -> Seq<QualificationModel> {
    proofs.map_values(|p: QualificationProofModel| p.qualification)
}

/// The proofs show exactly the required qualifications, and each only once.
pub open spec fn shows_exactly(
    required: Seq<QualificationModel>,
    proofs: Seq<QualificationProofModel>,
) -> bool {
    &&& forall|q: QualificationModel| required.contains(q) <==> shown(proofs).contains(q)
    &&& shown(proofs).no_duplicates()
}

/// Why the first membership proof that does not check is refused, if there is one.
pub open spec fn proofs_refusal(proofs: Seq<QualificationProofModel>, root: Digest32) -> Option<
    DeKyxError,
>
    decreases proofs.len(),
{
    if proofs.len() == 0 {
        None
    } else {
        match proofs[0].check(root) {
            Err(e) => Some(e),
            Ok(()) => proofs_refusal(proofs.drop_first(), root),
        }
    }
}

/// What is learnt from evidence that was found eligible.
pub open spec fn learnt(
    issuer: IssuerDefinitionModel,
    context: PresentationContext,
    evidence: PresentationModel,
    proof_digest: Digest32,
) -> VerifiedEligibility {
    VerifiedEligibility {
        issuer_id: evidence.credential.issuer_id,
        issuer_key_epoch: evidence.credential.issuer_key_epoch,
        issuer_namespace_digest: issuer.namespace_digest,
        subject_kind: evidence.credential.subject_kind,
        subject_commitment: evidence.credential.subject_commitment,
        subject_nullifier: evidence.nullifier,
        subject_line_id: evidence.subject_line(),
        policy_digest: evidence.credential.policy_digest,
        proof_digest,
        valid_until: if evidence.credential.valid_until <= context.valid_until {
            evidence.credential.valid_until
        } else {
            context.valid_until
        },
    }
}

/// What checking the shown qualifications and the proof of possession gives, once issuer,
/// signature and revocation are settled.
pub open spec fn proven(
    issuer: IssuerDefinitionModel,
    reports: SignatureReports,
    requirement: RequirementModel,
    context: PresentationContext,
    evidence: PresentationModel,
) -> Result<VerifiedEligibility, DeKyxError> {
    if !shows_exactly(requirement.required_qualifications, evidence.qualifications) {
        Err(DeKyxError::RequirementMismatch)
    } else {
        match proofs_refusal(evidence.qualifications, evidence.credential.qualifications_root) {
            Some(e) => Err(e),
            None => match evidence.check_proof(reports) {
                Err(e) => Err(e),
                Ok(()) => match evidence.identity(reports) {
                    Err(e) => Err(e),
                    Ok(proof_digest) => Ok(learnt(issuer, context, evidence, proof_digest)),
                },
            },
        }
    }
}

/// What checking signature and revocation gives, once the issuer epoch is settled, and then
/// the rest.
pub open spec fn unrevoked(
    issuer: IssuerDefinitionModel,
    status_list: StatusListModel,
    reports: SignatureReports,
    requirement: RequirementModel,
    context: PresentationContext,
    evidence: PresentationModel,
    now: u64,
) -> Result<VerifiedEligibility, DeKyxError> {
    match evidence.credential.check_signature(issuer, reports) {
        Err(e) => Err(e),
        Ok(()) => match status_list.check(issuer, now, reports) {
            Err(e) => Err(e),
            Ok(()) => if status_list.status_epoch < evidence.credential.status_epoch {
                Err(DeKyxError::StaleStatusList)
            } else {
                match evidence.credential.digest(reports) {
                    Err(e) => Err(e),
                    Ok(credential_digest) => if status_list.revoked_credentials.contains(
                        credential_digest,
                    ) {
                        Err(DeKyxError::RevokedCredential)
                    } else {
                        proven(issuer, reports, requirement, context, evidence)
                    },
                }
            },
        },
    }
}

/// The verdict on evidence.
pub open spec fn verdict(
    issuers: Issuers,
    status_list: StatusListModel,
    reports: SignatureReports,
    requirement: RequirementModel,
    context: PresentationContext,
    evidence: PresentationModel,
    now: u64,
) -> Result<VerifiedEligibility, DeKyxError> {
    if !asked_for(requirement, context, evidence, now) {
        Err(DeKyxError::RequirementMismatch)
    } else {
        match definition_of(
            issuers,
            evidence.credential.issuer_id,
            evidence.credential.issuer_key_epoch,
        ) {
            None => Err(DeKyxError::UnknownIssuer),
            Some(issuer) => if !issuer.is_active_for(requirement.subject_kind, now)
                || issuer.namespace_digest != requirement.issuer_namespace_digest {
                Err(DeKyxError::IssuerNotAuthorized)
            } else {
                unrevoked(issuer, status_list, reports, requirement, context, evidence, now)
            },
        }
    }
}

/// Whether a list of qualifications holds `wanted`.
fn holds(qualifications: &Vec<Qualification>, wanted: &Qualification) -> (r: bool)
    ensures
        r == models(qualifications@).contains(wanted@),
{
    let mut i: usize = 0;
    while i < qualifications.len()
        invariant
            i <= qualifications.len(),
            forall|k: int| 0 <= k < i ==> models(qualifications@)[k] != wanted@,
        decreases qualifications.len() - i,
    {
        if qualifications[i].same(wanted) {
            assert(models(qualifications@)[i as int] == wanted@);
            return true;
        }
        i += 1;
    }
    false
}

/// The place of the first of the proofs before `end` that shows `wanted`, or `end`.
fn first_showing(proofs: &Vec<QualificationProof>, wanted: &Qualification, end: usize) -> (r: usize)
    requires
        end <= proofs.len(),
    ensures
        r <= end,
        r < end ==> shown(proof_models(proofs@))[r as int] == wanted@,
        forall|k: int| 0 <= k < r ==> shown(proof_models(proofs@))[k] != wanted@,
{
    let mut i: usize = 0;
    while i < end
        invariant
            i <= end <= proofs.len(),
            forall|k: int| 0 <= k < i ==> shown(proof_models(proofs@))[k] != wanted@,
        decreases end - i,
    {
        if proofs[i].qualification.same(wanted) {
            return i;
        }
        i += 1;
    }
    i
}

/// Whether the proofs show exactly the required qualifications, each once.
fn are_exactly(required: &Vec<Qualification>, proofs: &Vec<QualificationProof>) -> (r: bool)
    ensures
        r == shows_exactly(models(required@), proof_models(proofs@)),
{
    let ghost wanted = models(required@);
    let ghost given = shown(proof_models(proofs@));
    let mut i: usize = 0;
    while i < proofs.len()
        invariant
            i <= proofs.len(),
            wanted == models(required@),
            given == shown(proof_models(proofs@)),
            forall|k: int| 0 <= k < i ==> wanted.contains(#[trigger] given[k]),
            forall|k: int, l: int| 0 <= k < l < i ==> given[k] != given[l],
        decreases proofs.len() - i,
    {
        assert(given[i as int] == proofs@[i as int].qualification@);
        if !holds(required, &proofs[i].qualification) {
            assert(given.contains(given[i as int]));
            return false;
        }
        let at = first_showing(proofs, &proofs[i].qualification, i);
        if at < i {
            assert(given[at as int] == given[i as int]);
            return false;
        }
        i += 1;
    }
    let mut j: usize = 0;
    while j < required.len()
        invariant
            j <= required.len(),
            wanted == models(required@),
            given == shown(proof_models(proofs@)),
            forall|k: int| 0 <= k < j ==> given.contains(#[trigger] wanted[k]),
        decreases required.len() - j,
    {
        assert(wanted[j as int] == required@[j as int]@);
        let at = first_showing(proofs, &required[j], proofs.len());
        if at == proofs.len() {
            assert(wanted.contains(wanted[j as int]));
            assert(!given.contains(wanted[j as int]));
            return false;
        }
        assert(given.contains(given[at as int]));
        j += 1;
    }
    proof {
        assert forall|q: QualificationModel| wanted.contains(q) <==> given.contains(q) by {
            if wanted.contains(q) {
                assert(given.contains(wanted[wanted.index_of(q)]));
            }
            if given.contains(q) {
                assert(wanted.contains(given[given.index_of(q)]));
            }
        }
    }
    true
}

/// Checks membership proofs one after the other.
fn verify_proofs(proofs: &Vec<QualificationProof>, root: &Digest32) -> (r: Result<(), DeKyxError>)
    ensures
        match proofs_refusal(proof_models(proofs@), *root) {
            Some(e) => r matches Err(f) && f == e,
            None => r is Ok,
        },
{
    let ghost all = proof_models(proofs@);
    let mut i: usize = 0;
    assert(all.skip(0) =~= all);
    while i < proofs.len()
        invariant
            i <= proofs.len(),
            all == proof_models(proofs@),
            proofs_refusal(all, *root) == proofs_refusal(all.skip(i as int), *root),
        decreases proofs.len() - i,
    {
        let ghost rest = all.skip(i as int);
        assert(rest[0] == proofs@[i as int]@);
        assert(rest.drop_first() =~= all.skip(i + 1));
        proofs[i].verify(root)?;
        i += 1;
    }
    Ok(())
}

impl EligibilityProvider for DeKyxVerifier<'_> {
    type Evidence = AnonymousPresentation;

    fn verify_eligibility(
        &self,
        requirement: &EligibilityRequirement,
        context: &PresentationContext,
        evidence: &Self::Evidence,
        now: u64,
    ) -> (r: Result<VerifiedEligibility, DeKyxError>)
        ensures
            r == verdict(
                self.issuers@,
                self.status_list@,
                *self.signatures,
                requirement@,
                *context,
                evidence@,
                now,
            ),
            r is Ok ==> {
                &&& evidence.context.scope_digest == context.scope_digest
                &&& evidence.context.audience_digest == context.audience_digest
                &&& evidence.context.action_digest == context.action_digest
                &&& evidence.context.request_digest == context.request_digest
                &&& evidence.context.challenge_nonce == context.challenge_nonce
                &&& evidence.context.valid_until == context.valid_until
            },
    {
        if !evidence.context.same(context) || context.valid_until < now || !same_digest(
            &evidence.credential.issuer_id,
            &requirement.issuer_id,
        ) || evidence.credential.issuer_key_epoch != requirement.issuer_key_epoch || same_digest(
            &requirement.issuer_id,
            &ZERO,
        ) || requirement.issuer_key_epoch == 0 || same_digest(
            &requirement.issuer_namespace_digest,
            &ZERO,
        ) || evidence.credential.subject_kind != requirement.subject_kind || !same_digest(
            &evidence.credential.scope_digest,
            &requirement.scope_digest,
        ) || !same_digest(&context.scope_digest, &requirement.scope_digest) || !same_digest(
            &evidence.credential.policy_digest,
            &requirement.policy_digest,
        ) || evidence.credential.valid_from > now || evidence.credential.valid_until < now
            || requirement.required_qualifications.len() > MAX_QUALIFICATIONS
            || evidence.qualifications.len() > MAX_QUALIFICATIONS {
            return Err(DeKyxError::RequirementMismatch);
        }
        assert(asked_for(requirement@, *context, evidence@, now));
        let issuer = self.issuers.issuer(
            &evidence.credential.issuer_id,
            evidence.credential.issuer_key_epoch,
        )?;
        if !issuer.active_for(requirement.subject_kind, now) {
            return Err(DeKyxError::IssuerNotAuthorized);
        }
        if !same_digest(&issuer.namespace_digest, &requirement.issuer_namespace_digest) {
            return Err(DeKyxError::IssuerNotAuthorized);
        }
        evidence.credential.verify_signature(issuer, self.signatures)?;
        self.status_list.verify(issuer, now, self.signatures)?;
        if self.status_list.status_epoch < evidence.credential.status_epoch {
            return Err(DeKyxError::StaleStatusList);
        }
        let credential_digest = evidence.credential.digest(self.signatures)?;
        if holds_in_ascending(&self.status_list.revoked_credentials, &credential_digest) {
            return Err(DeKyxError::RevokedCredential);
        }
        if !are_exactly(&requirement.required_qualifications, &evidence.qualifications) {
            return Err(DeKyxError::RequirementMismatch);
        }
        verify_proofs(&evidence.qualifications, &evidence.credential.qualifications_root)?;
        evidence.verify_proof(self.signatures)?;
        let subject_line_id = evidence.subject_line_id()?;
        let proof_digest = evidence.digest(self.signatures)?;
        let valid_until = if evidence.credential.valid_until <= context.valid_until {
            evidence.credential.valid_until
        } else {
            context.valid_until
        };
        Ok(
            VerifiedEligibility {
                issuer_id: evidence.credential.issuer_id,
                issuer_key_epoch: evidence.credential.issuer_key_epoch,
                issuer_namespace_digest: issuer.namespace_digest,
                subject_kind: evidence.credential.subject_kind,
                subject_commitment: evidence.credential.subject_commitment,
                subject_nullifier: evidence.nullifier,
                subject_line_id,
                policy_digest: evidence.credential.policy_digest,
                proof_digest,
                valid_until,
            },
        )
    }
}

// ---------------------------------------------------------------------------
// Laws
// ---------------------------------------------------------------------------
/// No membership proof is refused exactly where every one checks.
pub proof fn lemma_proofs_refusal(proofs: Seq<QualificationProofModel>, root: Digest32)
    ensures
        proofs_refusal(proofs, root) is None <==> (forall|i: int|
            0 <= i < proofs.len() ==> (#[trigger] proofs[i]).check(root) is Ok),
    decreases proofs.len(),
{
    if proofs.len() > 0 {
        let rest = proofs.drop_first();
        lemma_proofs_refusal(rest, root);
        if proofs_refusal(proofs, root) is None {
            assert forall|i: int| 0 <= i < proofs.len() implies (#[trigger] proofs[i]).check(
                root,
            ) is Ok by {
                if i > 0 {
                    assert(rest[i - 1] == proofs[i]);
                }
            }
        }
        if forall|i: int| 0 <= i < proofs.len() ==> (#[trigger] proofs[i]).check(root) is Ok {
            assert(proofs[0].check(root) is Ok);
            assert forall|i: int| 0 <= i < rest.len() implies (#[trigger] rest[i]).check(
                root,
            ) is Ok by {
                assert(rest[i] == proofs[i + 1]);
            }
        }
    }
}

/// Nobody is found eligible without cause: the evidence is what was asked for in this very
/// context; its issuer epoch is registered, active for the subject kind, and of the required
/// namespace; the backend accepted the issuer's signatures of the credential and of a current
/// status list that does not revoke it, and the holder's signature of the presentation;
/// exactly the required qualifications are shown, each with a proof that checks; and the
/// presenter answered the challenge.
pub proof fn law_eligible_with_cause(
    issuers: Issuers,
    status_list: StatusListModel,
    reports: SignatureReports,
    requirement: RequirementModel,
    context: PresentationContext,
    evidence: PresentationModel,
    now: u64,
)
    requires
        issuers_sound(issuers),
        verdict(issuers, status_list, reports, requirement, context, evidence, now) is Ok,
    ensures
        asked_for(requirement, context, evidence, now),
        definition_of(
            issuers,
            requirement.issuer_id,
            requirement.issuer_key_epoch,
        ) matches Some(issuer) && {
            &&& issuer.is_active_for(requirement.subject_kind, now)
            &&& issuer.namespace_digest == requirement.issuer_namespace_digest
            &&& evidence.credential.statement() matches Ok(statement)
            &&& reports.accepted(
                hybrid_check(issuer.hybrid_key(), statement, evidence.credential.signature),
            )
            &&& status_list.statement() matches Ok(status)
            &&& reports.accepted(
                hybrid_check(issuer.hybrid_key(), status, status_list.signature),
            )
        },
        status_list.issuer_id == requirement.issuer_id,
        status_list.issuer_key_epoch == requirement.issuer_key_epoch,
        status_list.effective_at <= now <= status_list.valid_until,
        evidence.credential.status_epoch <= status_list.status_epoch,
        evidence.credential.digest(reports) matches Ok(digest)
            && !status_list.revoked_credentials.contains(digest),
        shows_exactly(requirement.required_qualifications, evidence.qualifications),
        forall|i: int|
            0 <= i < evidence.qualifications.len() ==> (#[trigger] evidence.qualifications[i]).check(
                evidence.credential.qualifications_root,
            ) is Ok,
        evidence.signing_message(reports) matches Ok(message) && reports.accepted(
            holder_check(
                KeyPurpose::Order,
                evidence.credential.holder_public_key,
                message,
                evidence.holder_signature,
            ),
        ),
        evidence.check_answers(reports) is Ok,
{
    let issuer = definition_of(issuers, requirement.issuer_id, requirement.issuer_key_epoch)->0;
    let checked = unrevoked(
        issuer,
        status_list,
        reports,
        requirement,
        context,
        evidence,
        now,
    );
    assert(asked_for(requirement, context, evidence, now) && checked is Ok);
    assert(evidence.credential.check_signature(issuer, reports) is Ok);
    assert(status_list.check(issuer, now, reports) is Ok);
    assert(proven(issuer, reports, requirement, context, evidence) is Ok);
    assert(evidence.check_proof(reports) is Ok);
    law_issuer_key_injective(
        requirement.issuer_id,
        requirement.issuer_key_epoch,
        issuer.issuer_id,
        issuer.key_epoch,
    );
    lemma_proofs_refusal(evidence.qualifications, evidence.credential.qualifications_root);
}

/// An honest holder is found eligible: where a witness presents a credential that was issued
/// for it, in the context and with the qualifications that are asked for, each once, and
/// issuer, credential and status list are in order, the verdict is what is learnt from the
/// presentation, unless the pseudonym happens to be the identity, which is refused.
pub proof fn law_honest_holder_is_eligible(
    issuers: Issuers,
    issuer: IssuerDefinitionModel,
    status_list: StatusListModel,
    reports: SignatureReports,
    requirement: RequirementModel,
    context: PresentationContext,
    credential: CredentialModel,
    witness: WitnessModel,
    unsigned: UnsignedPresentation,
    nonce_subject: nat,
    nonce_blinding: nat,
    signature: Seq<u8>,
    now: u64,
)
    requires
        witness.sound(),
        issued_for(witness, credential),
        encodes(credential.subject_commitment, witness.commitment()),
        requirement.required_qualifications.no_duplicates(),
        holds_all(witness, requirement.required_qualifications),
        unsigned.presents(
            credential,
            witness,
            context,
            requirement.required_qualifications,
            nonce_subject,
            nonce_blinding,
            reports,
        ),
        pseudonym(context.scope_digest, witness.secret) != 0,
        signature.len() == ML_DSA_65_SIG_BYTES,
        reports.accepted(
            holder_check(
                KeyPurpose::Order,
                credential.holder_public_key,
                unsigned.spec_message(),
                signature,
            ),
        ),
        asked_for(requirement, context, unsigned.presentation_with(signature), now),
        definition_of(issuers, credential.issuer_id, credential.issuer_key_epoch) == Some(issuer),
        issuer.is_active_for(requirement.subject_kind, now),
        issuer.namespace_digest == requirement.issuer_namespace_digest,
        credential.check_signature(issuer, reports) is Ok,
        status_list.check(issuer, now, reports) is Ok,
        credential.status_epoch <= status_list.status_epoch,
        !status_list.revoked_credentials.contains(credential.digest(reports)->Ok_0),
    ensures
        unsigned.presentation_with(signature).identity(reports) matches Ok(proof_digest)
            && verdict(
            issuers,
            status_list,
            reports,
            requirement,
            context,
            unsigned.presentation_with(signature),
            now,
        ) == Ok::<VerifiedEligibility, DeKyxError>(
            learnt(issuer, context, unsigned.presentation_with(signature), proof_digest),
        ),
{
    let p = unsigned.presentation_with(signature);
    let required = requirement.required_qualifications;
    unsigned.lemma_signature_only(signature);
    let q = unsigned.presentation_with(Seq::empty());
    assert(p.qualifications == q.qualifications);
    assert(p.credential == credential);
    let given = shown(p.qualifications);
    assert forall|i: int| 0 <= i < p.qualifications.len() implies (#[trigger] p.qualifications[i]).check(
        credential.qualifications_root,
    ) is Ok && given[i] == required[i] by {
        law_selected_proofs_verify(witness, required, p.qualifications, i);
    }
    assert(given =~= required);
    lemma_proofs_refusal(p.qualifications, credential.qualifications_root);
    law_presentation_proof_verifies(
        unsigned,
        credential,
        witness,
        context,
        required,
        nonce_subject,
        nonce_blinding,
        signature,
        reports,
    );
    assert(p.signing_message(reports) == q.signing_message(reports));
}

/// A credential signature counts whole: where evidence is found eligible, the same evidence with
/// another signature of the credential, in either part, is refused for that signature unless the
/// backend accepted it as well.
pub proof fn law_changed_credential_signature_refused(
    issuers: Issuers,
    status_list: StatusListModel,
    reports: SignatureReports,
    requirement: RequirementModel,
    context: PresentationContext,
    evidence: PresentationModel,
    now: u64,
    signature: SignatureModel,
    other_reports: SignatureReports,
)
    requires
        verdict(issuers, status_list, reports, requirement, context, evidence, now) is Ok,
        definition_of(
            issuers,
            evidence.credential.issuer_id,
            evidence.credential.issuer_key_epoch,
        ) matches Some(issuer) && !other_reports.accepted(
            hybrid_check(
                issuer.hybrid_key(),
                evidence.credential.statement()->Ok_0,
                signature,
            ),
        ),
    ensures
        verdict(
            issuers,
            status_list,
            other_reports,
            requirement,
            context,
            PresentationModel {
                credential: CredentialModel { signature, ..evidence.credential },
                ..evidence
            },
            now,
        ) == Err::<VerifiedEligibility, DeKyxError>(DeKyxError::InvalidCredentialSignature),
{
    let changed = CredentialModel { signature, ..evidence.credential };
    let other = PresentationModel { credential: changed, ..evidence };
    let issuer = definition_of(
        issuers,
        evidence.credential.issuer_id,
        evidence.credential.issuer_key_epoch,
    )->0;
    assert(evidence.credential.check_signature(issuer, reports) is Ok);
    assert(changed.statement_message() == evidence.credential.statement_message());
    assert(changed.statement() == evidence.credential.statement());
    assert(asked_for(requirement, context, other, now));
    assert(changed.check_signature(issuer, other_reports) == Err::<(), DeKyxError>(
        DeKyxError::InvalidCredentialSignature,
    ));
}

/// The signature of a status list counts whole as well: where evidence is found eligible, it is
/// refused under the same list with another signature, in either part, unless the backend
/// accepted that one too.
pub proof fn law_changed_list_signature_refused(
    issuers: Issuers,
    status_list: StatusListModel,
    reports: SignatureReports,
    requirement: RequirementModel,
    context: PresentationContext,
    evidence: PresentationModel,
    now: u64,
    signature: SignatureModel,
    other_reports: SignatureReports,
)
    requires
        verdict(issuers, status_list, reports, requirement, context, evidence, now) is Ok,
        definition_of(
            issuers,
            evidence.credential.issuer_id,
            evidence.credential.issuer_key_epoch,
        ) matches Some(issuer) && {
            &&& evidence.credential.check_signature(issuer, other_reports) is Ok
            &&& !other_reports.accepted(
                hybrid_check(issuer.hybrid_key(), status_list.statement()->Ok_0, signature),
            )
        },
    ensures
        verdict(
            issuers,
            StatusListModel { signature, ..status_list },
            other_reports,
            requirement,
            context,
            evidence,
            now,
        ) == Err::<VerifiedEligibility, DeKyxError>(DeKyxError::InvalidStatusListSignature),
{
    let changed = StatusListModel { signature, ..status_list };
    let issuer = definition_of(
        issuers,
        evidence.credential.issuer_id,
        evidence.credential.issuer_key_epoch,
    )->0;
    assert(evidence.credential.check_signature(issuer, reports) is Ok);
    assert(status_list.check(issuer, now, reports) is Ok);
    assert(changed.statement_message() == status_list.statement_message());
    assert(changed.statement() == status_list.statement());
    assert(changed.check(issuer, now, other_reports) == Err::<(), DeKyxError>(
        DeKyxError::InvalidStatusListSignature,
    ));
}

/// Evidence counts for one request only: where it is found eligible, the context that it was made
/// for is the context of the verifier in the scope, the audience, the action, the request, the
/// nonce and the end of validity.
pub proof fn law_eligible_for_this_request_only(
    issuers: Issuers,
    status_list: StatusListModel,
    reports: SignatureReports,
    requirement: RequirementModel,
    context: PresentationContext,
    evidence: PresentationModel,
    now: u64,
)
    ensures
        verdict(issuers, status_list, reports, requirement, context, evidence, now) is Ok ==> {
            &&& evidence.context.scope_digest == context.scope_digest
            &&& evidence.context.audience_digest == context.audience_digest
            &&& evidence.context.action_digest == context.action_digest
            &&& evidence.context.request_digest == context.request_digest
            &&& evidence.context.challenge_nonce == context.challenge_nonce
            &&& evidence.context.valid_until == context.valid_until
        },
        evidence.context.scope_digest != context.scope_digest || evidence.context.audience_digest
            != context.audience_digest || evidence.context.action_digest != context.action_digest
            || evidence.context.request_digest != context.request_digest
            || evidence.context.challenge_nonce != context.challenge_nonce
            || evidence.context.valid_until != context.valid_until ==> verdict(
            issuers,
            status_list,
            reports,
            requirement,
            context,
            evidence,
            now,
        ) == Err::<VerifiedEligibility, DeKyxError>(DeKyxError::RequirementMismatch),
{
}

/// Every verdict has its reason, and the reasons come in one order: evidence that is not what was
/// asked for; an issuer epoch that is not filed; one that may not be relied on for this kind of
/// subject now, or is of another namespace; the signature of the credential; the status list; a
/// list that is older than the credential; a revoked credential; other qualifications than the
/// required ones; the first membership proof that does not check; and the proof of possession.
/// Nothing else keeps evidence from being found eligible.
pub proof fn law_every_verdict_has_its_reason(
    issuers: Issuers,
    status_list: StatusListModel,
    reports: SignatureReports,
    requirement: RequirementModel,
    context: PresentationContext,
    evidence: PresentationModel,
    now: u64,
)
    ensures
        ({
            let v = verdict(issuers, status_list, reports, requirement, context, evidence, now);
            let c = evidence.credential;
            let key = issuer_key_text(requirement.issuer_id, requirement.issuer_key_epoch);
            let issuer = issuers[key];
            let asked = {
                &&& evidence.context.scope_digest == context.scope_digest
                &&& evidence.context.audience_digest == context.audience_digest
                &&& evidence.context.action_digest == context.action_digest
                &&& evidence.context.request_digest == context.request_digest
                &&& evidence.context.challenge_nonce == context.challenge_nonce
                &&& evidence.context.valid_until == context.valid_until
                &&& now <= context.valid_until
                &&& c.valid_from <= now
                &&& now <= c.valid_until
                &&& c.issuer_id == requirement.issuer_id
                &&& c.issuer_key_epoch == requirement.issuer_key_epoch
                &&& c.subject_kind == requirement.subject_kind
                &&& c.scope_digest == requirement.scope_digest
                &&& context.scope_digest == requirement.scope_digest
                &&& c.policy_digest == requirement.policy_digest
                &&& requirement.issuer_id != ZERO
                &&& requirement.issuer_key_epoch > 0
                &&& requirement.issuer_namespace_digest != ZERO
                &&& requirement.required_qualifications.len() <= 256
                &&& evidence.qualifications.len() <= 256
            };
            let known = asked && issuers.contains_key(key);
            let relied_on = {
                &&& known
                &&& issuer.status == IssuerStatus::Active
                &&& issuer.valid_from <= now
                &&& now <= issuer.valid_until
                &&& issuer.supported_subjects.has(requirement.subject_kind)
                &&& issuer.namespace_digest == requirement.issuer_namespace_digest
            };
            let signed = relied_on && c.check_signature(issuer, reports) is Ok;
            let listed = signed && status_list.check(issuer, now, reports) is Ok;
            let fresh = listed && c.status_epoch <= status_list.status_epoch;
            let digested = fresh && c.digest(reports) is Ok;
            let unrevoked = digested && !status_list.revoked_credentials.contains(
                c.digest(reports)->Ok_0,
            );
            let exact = {
                &&& unrevoked
                &&& forall|q: QualificationModel| #[trigger]
                    requirement.required_qualifications.contains(q) ==> exists|i: int|
                        0 <= i < evidence.qualifications.len() && (
                        #[trigger] evidence.qualifications[i]).qualification == q
                &&& forall|i: int|
                    0 <= i < evidence.qualifications.len()
                        ==> requirement.required_qualifications.contains(
                        (#[trigger] evidence.qualifications[i]).qualification,
                    )
                &&& forall|i: int, j: int|
                    0 <= i < j < evidence.qualifications.len() ==> (
                    #[trigger] evidence.qualifications[i]).qualification != (
                    #[trigger] evidence.qualifications[j]).qualification
            };
            let members = exact && forall|i: int|
                0 <= i < evidence.qualifications.len() ==> (
                #[trigger] evidence.qualifications[i]).check(c.qualifications_root) is Ok;
            let possessed = members && evidence.check_proof(reports) is Ok;
            let identified = possessed && evidence.identity(reports) is Ok;
            &&& v is Ok <==> identified
            &&& !asked ==> v == Err::<VerifiedEligibility, DeKyxError>(
                DeKyxError::RequirementMismatch,
            )
            &&& asked && !known ==> v == Err::<VerifiedEligibility, DeKyxError>(
                DeKyxError::UnknownIssuer,
            )
            &&& known && !relied_on ==> v == Err::<VerifiedEligibility, DeKyxError>(
                DeKyxError::IssuerNotAuthorized,
            )
            &&& relied_on && !signed ==> v == Err::<VerifiedEligibility, DeKyxError>(
                c.check_signature(issuer, reports)->Err_0,
            )
            &&& signed && !listed ==> v == Err::<VerifiedEligibility, DeKyxError>(
                status_list.check(issuer, now, reports)->Err_0,
            )
            &&& listed && !fresh ==> v == Err::<VerifiedEligibility, DeKyxError>(
                DeKyxError::StaleStatusList,
            )
            &&& fresh && !digested ==> v == Err::<VerifiedEligibility, DeKyxError>(
                c.digest(reports)->Err_0,
            )
            &&& digested && !unrevoked ==> v == Err::<VerifiedEligibility, DeKyxError>(
                DeKyxError::RevokedCredential,
            )
            &&& unrevoked && !exact ==> v == Err::<VerifiedEligibility, DeKyxError>(
                DeKyxError::RequirementMismatch,
            )
            &&& exact ==> forall|i: int|
                0 <= i < evidence.qualifications.len() && (
                #[trigger] evidence.qualifications[i]).check(c.qualifications_root) is Err && (
                forall|j: int|
                    0 <= j < i ==> (#[trigger] evidence.qualifications[j]).check(
                        c.qualifications_root,
                    ) is Ok) ==> v == Err::<VerifiedEligibility, DeKyxError>(
                    evidence.qualifications[i].check(c.qualifications_root)->Err_0,
                )
            &&& members && !possessed ==> v == Err::<VerifiedEligibility, DeKyxError>(
                evidence.check_proof(reports)->Err_0,
            )
            &&& possessed && !identified ==> v == Err::<VerifiedEligibility, DeKyxError>(
                evidence.identity(reports)->Err_0,
            )
        }),
{
    let required = requirement.required_qualifications;
    let proofs = evidence.qualifications;
    let root = evidence.credential.qualifications_root;
    let given = shown(proofs);
    assert forall|i: int| 0 <= i < proofs.len() implies given[i] == (
    #[trigger] proofs[i]).qualification by {}
    let all_shown = forall|q: QualificationModel| #[trigger]
        required.contains(q) ==> exists|i: int|
            0 <= i < proofs.len() && (#[trigger] proofs[i]).qualification == q;
    let all_asked = forall|i: int|
        0 <= i < proofs.len() ==> required.contains((#[trigger] proofs[i]).qualification);
    let each_once = forall|i: int, j: int|
        0 <= i < j < proofs.len() ==> (#[trigger] proofs[i]).qualification != (
        #[trigger] proofs[j]).qualification;
    if shows_exactly(required, proofs) {
        assert forall|q: QualificationModel| #[trigger] required.contains(q) implies exists|i: int|
            0 <= i < proofs.len() && (#[trigger] proofs[i]).qualification == q by {
            assert(given.contains(q));
            let i = given.index_of(q);
            assert(proofs[i].qualification == q);
        }
        assert forall|i: int| 0 <= i < proofs.len() implies required.contains(
            (#[trigger] proofs[i]).qualification,
        ) by {
            assert(given.contains(given[i]));
        }
        assert(each_once) by {
            assert forall|i: int, j: int| 0 <= i < j < proofs.len() implies (
            #[trigger] proofs[i]).qualification != (#[trigger] proofs[j]).qualification by {
                assert(given[i] != given[j]);
            }
        }
    }
    if all_shown && all_asked && each_once {
        assert forall|q: QualificationModel| required.contains(q) <==> given.contains(q) by {
            if required.contains(q) {
                let i = choose|i: int|
                    0 <= i < proofs.len() && (#[trigger] proofs[i]).qualification == q;
                assert(given[i] == q);
            }
            if given.contains(q) {
                let i = given.index_of(q);
                assert(required.contains(proofs[i].qualification));
            }
        }
        assert forall|i: int, j: int|
            0 <= i < given.len() && 0 <= j < given.len() && i != j implies given[i]
            != given[j] by {
            if i < j {
                assert(proofs[i].qualification != proofs[j].qualification);
            } else {
                assert(proofs[j].qualification != proofs[i].qualification);
            }
        }
        assert(given.no_duplicates());
    }
    assert(shows_exactly(required, proofs) <==> all_shown && all_asked && each_once);
    lemma_proofs_refusal(proofs, root);
    assert forall|i: int|
        0 <= i < proofs.len() && (#[trigger] proofs[i]).check(root) is Err && (forall|j: int|
            0 <= j < i ==> (#[trigger] proofs[j]).check(root) is Ok) implies proofs_refusal(
        proofs,
        root,
    ) == Some(proofs[i].check(root)->Err_0) by {
        lemma_first_proof_refused(proofs, root, i);
    }
}

/// The refusal is that of the first membership proof that does not check.
proof fn lemma_first_proof_refused(proofs: Seq<QualificationProofModel>, root: Digest32, i: int)
    requires
        0 <= i < proofs.len(),
        proofs[i].check(root) is Err,
        forall|j: int| 0 <= j < i ==> (#[trigger] proofs[j]).check(root) is Ok,
    ensures
        proofs_refusal(proofs, root) == Some(proofs[i].check(root)->Err_0),
    decreases i,
{
    if i > 0 {
        let rest = proofs.drop_first();
        assert(proofs[0].check(root) is Ok);
        assert(rest[i - 1] == proofs[i]);
        assert forall|j: int| 0 <= j < i - 1 implies (#[trigger] rest[j]).check(root) is Ok by {
            assert(rest[j] == proofs[j + 1]);
        }
        lemma_first_proof_refused(rest, root, i - 1);
    }
}

/// What a verifier learns is what the evidence and the issuer say, field by field, and it lasts
/// until the credential or the context ends, whichever comes first.
pub proof fn law_verifier_learns_what_was_shown(
    issuers: Issuers,
    status_list: StatusListModel,
    reports: SignatureReports,
    requirement: RequirementModel,
    context: PresentationContext,
    evidence: PresentationModel,
    now: u64,
)
    ensures
        verdict(
            issuers,
            status_list,
            reports,
            requirement,
            context,
            evidence,
            now,
        ) matches Ok(learnt) ==> {
            &&& learnt.issuer_id == requirement.issuer_id
            &&& learnt.issuer_key_epoch == requirement.issuer_key_epoch
            &&& learnt.issuer_namespace_digest == requirement.issuer_namespace_digest
            &&& learnt.subject_kind == requirement.subject_kind
            &&& learnt.policy_digest == requirement.policy_digest
            &&& learnt.subject_commitment == evidence.credential.subject_commitment
            &&& learnt.subject_nullifier == evidence.nullifier
            &&& learnt.subject_line_id == evidence.subject_line()
            &&& evidence.identity(reports) == Ok::<Digest32, DeKyxError>(learnt.proof_digest)
            &&& now <= learnt.valid_until
            &&& learnt.valid_until <= evidence.credential.valid_until
            &&& learnt.valid_until <= context.valid_until
            &&& learnt.valid_until == evidence.credential.valid_until || learnt.valid_until
                == context.valid_until
        },
{
}

/// The contents of a requirement are its parts.
pub proof fn law_requirement_contents(r: EligibilityRequirement)
    ensures
        r@.issuer_id == r.issuer_id,
        r@.issuer_key_epoch == r.issuer_key_epoch,
        r@.issuer_namespace_digest == r.issuer_namespace_digest,
        r@.subject_kind == r.subject_kind,
        r@.scope_digest == r.scope_digest,
        r@.policy_digest == r.policy_digest,
        r@.required_qualifications == models(r.required_qualifications@),
{
}

/// What was requested is what is met: where a request was granted and the credential signed, and
/// its holder presents it in a context of its scope, a requirement for just the issuer, the kind
/// of subject, the scope and the policy of the request is met while all are in time, and the
/// verifier learns these and the commitment of the request.
pub proof fn law_granted_request_meets_its_requirement(
    issuers: Issuers,
    issuer: IssuerDefinitionModel,
    request: CredentialRequestModel,
    holder_proof: IssuanceProofModel,
    issued_with: SignatureReports,
    signature: SignatureModel,
    witness: WitnessModel,
    requirement: RequirementModel,
    context: PresentationContext,
    unsigned: UnsignedPresentation,
    nonces: (nat, nat),
    holder_signature: Seq<u8>,
    status_list: StatusListModel,
    reports: SignatureReports,
    now: u64,
)
    requires
        granted(issuer, request, holder_proof, issued_with) is Ok,
        issuer.check() is Ok,
        issuers.contains_key(issuer_key_text(request.issuer_id, request.issuer_key_epoch)),
        issuers[issuer_key_text(request.issuer_id, request.issuer_key_epoch)] == issuer,
        issuer.status == IssuerStatus::Active,
        issuer.valid_from <= now <= issuer.valid_until,
        reports.accepted(
            hybrid_check(
                issuer.public_key@ + issuer.pq_public_key,
                granted(issuer, request, holder_proof, issued_with)->Ok_0.statement()->Ok_0,
                signature,
            ),
        ),
        witness.sound(),
        encodes(request.subject_commitment, witness.commitment()),
        request.holder_public_key == witness.holder.public_key,
        request.holder_suite == witness.holder.suite,
        request.qualifications.to_multiset() == witness.qualifications.to_multiset(),
        requirement.issuer_id == request.issuer_id,
        requirement.issuer_key_epoch == request.issuer_key_epoch,
        requirement.issuer_namespace_digest == issuer.namespace_digest,
        requirement.subject_kind == request.subject_kind,
        requirement.scope_digest == request.scope_digest,
        requirement.policy_digest == request.policy_digest,
        requirement.required_qualifications.len() <= 256,
        requirement.required_qualifications.no_duplicates(),
        holds_all(witness, requirement.required_qualifications),
        context.scope_digest == request.scope_digest,
        now <= context.valid_until,
        request.valid_from <= now <= request.valid_until,
        unsigned.presents(
            CredentialModel {
                signature,
                ..granted(issuer, request, holder_proof, issued_with)->Ok_0
            },
            witness,
            context,
            requirement.required_qualifications,
            nonces.0,
            nonces.1,
            reports,
        ),
        pseudonym(context.scope_digest, witness.secret) != 0,
        holder_signature.len() == 3309,
        reports.accepted(
            holder_check(
                KeyPurpose::Order,
                request.holder_public_key,
                unsigned.spec_message(),
                holder_signature,
            ),
        ),
        status_list.check(issuer, now, reports) is Ok,
        request.status_epoch <= status_list.status_epoch,
        !status_list.revoked_credentials.contains(
            (CredentialModel {
                signature,
                ..granted(issuer, request, holder_proof, issued_with)->Ok_0
            }).digest(reports)->Ok_0,
        ),
    ensures
        verdict(
            issuers,
            status_list,
            reports,
            requirement,
            context,
            unsigned.presentation_with(holder_signature),
            now,
        ) matches Ok(learnt) && {
            &&& learnt.issuer_id == request.issuer_id
            &&& learnt.issuer_key_epoch == request.issuer_key_epoch
            &&& learnt.subject_kind == request.subject_kind
            &&& learnt.policy_digest == request.policy_digest
            &&& learnt.subject_commitment == request.subject_commitment
        },
{
    let unsigned_credential = granted(issuer, request, holder_proof, issued_with)->Ok_0;
    let credential = CredentialModel { signature, ..unsigned_credential };
    let p = unsigned.presentation_with(holder_signature);
    law_issued_credential_verifies(issuer, request, holder_proof, signature, issued_with, reports);
    law_root_ignores_order(request.qualifications, witness.qualifications);
    assert(issued_for(witness, credential));
    unsigned.lemma_signature_only(holder_signature);
    assert(p.credential == credential && p.context == context);
    assert(p.qualifications.len() == requirement.required_qualifications.len());
    assert(asked_for(requirement, context, p, now));
    law_honest_holder_is_eligible(
        issuers,
        issuer,
        status_list,
        reports,
        requirement,
        context,
        credential,
        witness,
        unsigned,
        nonces.0,
        nonces.1,
        holder_signature,
        now,
    );
}

} // verus!
