//! Issuing credentials and status lists.
use vstd::prelude::*;

use crate::bytes::{
    digest_order, lemma_digest_order_total, lemma_sorted_distinct, lex_less, same_bytes,
    same_digest, Digest32, ZERO,
};
use crate::credential::{
    issuance_challenge_for, Credential, CredentialIssuanceProof, CredentialModel, CredentialRequest,
    CredentialRequestModel, IssuanceProofModel,
};
use crate::error::DeKyxError;
use crate::group::{group_order, point_multiple};
use crate::issuer::{IssuerDefinition, IssuerDefinitionModel};
use crate::pedersen::lemma_same_sum;
use crate::signature::{
    holder_check, hybrid_check, HybridSignature, KeyPurpose, SignatureBytes, SignatureModel, SignatureReports,
};
use crate::status::{
    lemma_sorted_revocations, revocations_admissible, RevocationStatusList, StatusListModel,
};
use crate::tree::{qualification_root, root_of};

verus! {

/// The place of a signature that is still to come.
pub open spec fn pending_signature() -> SignatureModel {
    SignatureModel { first: ZERO, second: ZERO, pq: Seq::empty() }
}

/// `stored` holds the parts of `given`.
pub open spec fn holds_signature(stored: SignatureModel, given: HybridSignature) -> bool {
    stored.first@ + stored.second@ == given.classical@ && stored.pq == given.pq@
}

/// The request is one that the issuer epoch may grant: it names the epoch and a supported
/// subject kind, and its validity lies within that of the epoch.
pub open spec fn authorized(
    issuer: IssuerDefinitionModel,
    request: CredentialRequestModel,
) -> bool {
    &&& request.issuer_id == issuer.issuer_id
    &&& request.issuer_key_epoch == issuer.key_epoch
    &&& issuer.supported_subjects.has(request.subject_kind)
    &&& issuer.valid_from <= request.valid_from
    &&& request.valid_until <= issuer.valid_until
}

/// The credential for a request, before it is signed.
pub open spec fn requested_credential(
    request: CredentialRequestModel,
    qualifications_root: Digest32,
) -> CredentialModel {
    CredentialModel {
        credential_id: request.credential_id,
        issuer_id: request.issuer_id,
        issuer_key_epoch: request.issuer_key_epoch,
        subject_kind: request.subject_kind,
        subject_commitment: request.subject_commitment,
        holder_public_key: request.holder_public_key,
        holder_suite: request.holder_suite,
        scope_digest: request.scope_digest,
        policy_digest: request.policy_digest,
        qualifications_root,
        status_epoch: request.status_epoch,
        valid_from: request.valid_from,
        valid_until: request.valid_until,
        signature: pending_signature(),
    }
}

/// The credential that an issuer grants for a request, before it is signed, or why it does
/// not.
pub open spec fn granted(
    issuer: IssuerDefinitionModel,
    request: CredentialRequestModel,
    holder_proof: IssuanceProofModel,
    reports: SignatureReports,
) -> Result<CredentialModel, DeKyxError> {
    if !authorized(issuer, request) {
        Err(DeKyxError::IssuerNotAuthorized)
    } else {
        match request.statement() {
            Err(e) => Err(e),
            Ok(_) => match holder_proof.check(request, reports) {
                Err(e) => Err(e),
                Ok(()) => match root_of(request.qualifications) {
                    Err(e) => Err(e),
                    Ok(root) => match requested_credential(request, root).statement() {
                        Err(e) => Err(e),
                        Ok(_) => Ok(requested_credential(request, root)),
                    },
                },
            },
        }
    }
}

/// The status list of an issuer epoch, before it is signed, or why there is none.
pub open spec fn listed(
    issuer: IssuerDefinitionModel,
    status_epoch: u64,
    effective_at: u64,
    valid_until: u64,
    revoked_credentials: Seq<Digest32>,
) -> Result<StatusListModel, DeKyxError> {
    let list = StatusListModel {
        issuer_id: issuer.issuer_id,
        issuer_key_epoch: issuer.key_epoch,
        status_epoch,
        effective_at,
        valid_until,
        revoked_credentials: revoked_credentials.sort_by(digest_order()),
        signature: pending_signature(),
    };
    if !revocations_admissible(revoked_credentials) || !revoked_credentials.no_duplicates() {
        Err(DeKyxError::InvalidStatusList)
    } else {
        match list.statement() {
            Err(e) => Err(e),
            Ok(_) => Ok(list),
        }
    }
}

/// Why nobody can issue for an epoch with a signer of this key, if nobody can.
pub open spec fn office_refusal(
    definition: IssuerDefinitionModel,
    signer_public_key: Seq<u8>,
) -> Option<DeKyxError> {
    match definition.check() {
        Err(e) => Some(e),
        Ok(()) => if definition.hybrid_key() != signer_public_key {
            Some(DeKyxError::InvalidIssuerKey)
        } else {
            None
        },
    }
}

/// One key epoch of an issuer, whose signing keys the signature backend holds.
pub struct CredentialIssuer {
    definition: IssuerDefinition,
}

impl View for CredentialIssuer {
    type V = IssuerDefinitionModel;

    closed spec fn view(&self) -> IssuerDefinitionModel {
        self.definition@
    }
}

impl CredentialIssuer {
    #[verifier::type_invariant]
    spec fn valid(self) -> bool {
        self.definition@.check() is Ok
    }

    /// The issuer of an epoch. `signer_public_key` is the hybrid public key of the signer that
    /// the backend holds; it has to be the key of the definition.
    pub fn new(definition: IssuerDefinition, signer_public_key: &[u8]) -> (r: Result<
        Self,
        DeKyxError,
    >)
        ensures
            match definition@.check() {
                Err(e) => r matches Err(f) && f == e,
                Ok(()) => if definition@.hybrid_key() != signer_public_key@ {
                    r matches Err(e) && e == DeKyxError::InvalidIssuerKey
                } else {
                    r matches Ok(issuer) && issuer@ == definition@
                },
            },
            match office_refusal(definition@, signer_public_key@) {
                Some(e) => r matches Err(f) && f == e,
                None => r matches Ok(issuer) && issuer@ == definition@,
            },
    {
        definition.validate()?;
        let key = definition.hybrid_public_key();
        if !same_bytes(key.as_slice(), signer_public_key) {
            return Err(DeKyxError::InvalidIssuerKey);
        }
        Ok(CredentialIssuer { definition })
    }

    /// The definition of the epoch.
    pub fn definition(&self) -> (r: &IssuerDefinition)
        ensures
            r@ == self@,
            r@.check() is Ok,
    {
        proof {
            use_type_invariant(self);
        }
        &self.definition
    }

    /// Grants a request whose holder shows possession of what is behind it. The credential is
    /// still to be signed.
    pub fn issue(
        &self,
        request: CredentialRequest,
        holder_proof: CredentialIssuanceProof,
        reports: &SignatureReports,
    ) -> (r: Result<UnsignedCredential, DeKyxError>)
        ensures
            match granted(self@, request@, holder_proof@, *reports) {
                Err(e) => r matches Err(f) && f == e,
                Ok(credential) => r matches Ok(unsigned) && unsigned@ == credential,
            },
            r matches Ok(unsigned) ==> {
                &&& unsigned@.credential_id == request.credential_id
                &&& unsigned@.issuer_id == request.issuer_id
                &&& unsigned@.issuer_key_epoch == request.issuer_key_epoch
                &&& unsigned@.subject_kind == request.subject_kind
                &&& unsigned@.subject_commitment == request.subject_commitment
                &&& unsigned@.holder_public_key == request.holder_public_key@
                &&& unsigned@.holder_suite == request.holder_suite@
                &&& unsigned@.scope_digest == request.scope_digest
                &&& unsigned@.policy_digest == request.policy_digest
                &&& unsigned@.status_epoch == request.status_epoch
                &&& unsigned@.valid_from == request.valid_from
                &&& unsigned@.valid_until == request.valid_until
            },
    {
        if !same_digest(&request.issuer_id, &self.definition.issuer_id) || request.issuer_key_epoch
            != self.definition.key_epoch || !self.definition.supported_subjects.contains(
            request.subject_kind,
        ) || request.valid_from < self.definition.valid_from || request.valid_until
            > self.definition.valid_until {
            return Err(DeKyxError::IssuerNotAuthorized);
        }
        request.statement_digest()?;
        holder_proof.verify(&request, reports)?;
        let qualifications_root = qualification_root(request.qualifications.as_slice())?;
        let ghost goal = requested_credential(request@, qualifications_root);
        let credential = Credential {
            credential_id: request.credential_id,
            issuer_id: self.definition.issuer_id,
            issuer_key_epoch: self.definition.key_epoch,
            subject_kind: request.subject_kind,
            subject_commitment: request.subject_commitment,
            holder_public_key: request.holder_public_key,
            holder_suite: request.holder_suite,
            scope_digest: request.scope_digest,
            policy_digest: request.policy_digest,
            qualifications_root,
            status_epoch: request.status_epoch,
            valid_from: request.valid_from,
            valid_until: request.valid_until,
            signature: SignatureBytes::pending(),
        };
        assert(credential@ == goal);
        let message = credential.statement_digest()?;
        Ok(UnsignedCredential { credential, message })
    }

    /// A status list of this epoch, with the revoked credentials in order. It is still to be
    /// signed.
    pub fn issue_status_list(
        &self,
        status_epoch: u64,
        effective_at: u64,
        valid_until: u64,
        revoked_credentials: Vec<Digest32>,
    ) -> (r: Result<UnsignedStatusList, DeKyxError>)
        ensures
            match listed(self@, status_epoch, effective_at, valid_until, revoked_credentials@) {
                Err(e) => r matches Err(f) && f == e,
                Ok(list) => r matches Ok(unsigned) && unsigned@ == list,
            },
    {
        let mut list = RevocationStatusList {
            issuer_id: self.definition.issuer_id,
            issuer_key_epoch: self.definition.key_epoch,
            status_epoch,
            effective_at,
            valid_until,
            revoked_credentials,
            signature: SignatureBytes::pending(),
        };
        list.canonicalize()?;
        let message = list.statement_digest()?;
        Ok(UnsignedStatusList { list, message })
    }
}

/// A credential before the issuer has signed it.
pub struct UnsignedCredential {
    credential: Credential,
    message: Digest32,
}

impl View for UnsignedCredential {
    type V = CredentialModel;

    closed spec fn view(&self) -> CredentialModel {
        self.credential@
    }
}

impl UnsignedCredential {
    #[verifier::type_invariant]
    spec fn stated(self) -> bool {
        self.credential@.statement() == Ok::<Digest32, DeKyxError>(self.message)
    }

    /// The digest that the issuer has to sign, for the purpose of attestation.
    pub fn message(&self) -> (r: Digest32)
        ensures
            self@.statement() == Ok::<Digest32, DeKyxError>(r),
    {
        proof {
            use_type_invariant(self);
        }
        self.message
    }

    /// The credential with the issuer's signature, which is missing where the signature
    /// backend could not sign. The classical part of a signature is 64 bytes long.
    pub fn signed(self, signature: Option<HybridSignature>) -> (r: Result<Credential, DeKyxError>)
        requires
            signature matches Some(s) ==> s.classical@.len() == 64,
        ensures
            match signature {
                None => r matches Err(e) && e == DeKyxError::InvalidCredentialSignature,
                Some(given) => r matches Ok(credential) && holds_signature(
                    credential.signature@,
                    given,
                ) && credential@ == (CredentialModel {
                    signature: credential.signature@,
                    ..self@
                }),
            },
    {
        match signature {
            None => Err(DeKyxError::InvalidCredentialSignature),
            Some(given) => {
                let mut credential = self.credential;
                credential.signature = SignatureBytes::from_signature(given);
                Ok(credential)
            },
        }
    }
}

/// A status list before the issuer has signed it.
pub struct UnsignedStatusList {
    list: RevocationStatusList,
    message: Digest32,
}

impl View for UnsignedStatusList {
    type V = StatusListModel;

    closed spec fn view(&self) -> StatusListModel {
        self.list@
    }
}

impl UnsignedStatusList {
    #[verifier::type_invariant]
    spec fn stated(self) -> bool {
        self.list@.statement() == Ok::<Digest32, DeKyxError>(self.message)
    }

    /// The digest that the issuer has to sign, for the purpose of attestation.
    pub fn message(&self) -> (r: Digest32)
        ensures
            self@.statement() == Ok::<Digest32, DeKyxError>(r),
    {
        proof {
            use_type_invariant(self);
        }
        self.message
    }

    /// The list with the issuer's signature, which is missing where the signature backend
    /// could not sign. The classical part of a signature is 64 bytes long.
    pub fn signed(self, signature: Option<HybridSignature>) -> (r: Result<
        RevocationStatusList,
        DeKyxError,
    >)
        requires
            signature matches Some(s) ==> s.classical@.len() == 64,
        ensures
            match signature {
                None => r matches Err(e) && e == DeKyxError::InvalidStatusListSignature,
                Some(given) => r matches Ok(list) && holds_signature(list.signature@, given)
                    && list@ == (StatusListModel { signature: list.signature@, ..self@ }),
            },
    {
        match signature {
            None => Err(DeKyxError::InvalidStatusListSignature),
            Some(given) => {
                let mut list = self.list;
                list.signature = SignatureBytes::from_signature(given);
                Ok(list)
            },
        }
    }
}

/// An issued credential is accepted from its issuer: where the backend accepts the signature
/// that was put on a granted credential, checking the signature succeeds.
pub proof fn law_issued_credential_verifies(
    issuer: IssuerDefinitionModel,
    request: CredentialRequestModel,
    holder_proof: IssuanceProofModel,
    signature: SignatureModel,
    issued_with: SignatureReports,
    reports: SignatureReports,
)
    requires
        issuer.check() is Ok,
        granted(issuer, request, holder_proof, issued_with) is Ok,
        reports.accepted(
            hybrid_check(
                issuer.hybrid_key(),
                granted(issuer, request, holder_proof, issued_with)->Ok_0.statement()->Ok_0,
                signature,
            ),
        ),
    ensures
        (CredentialModel {
            signature,
            ..granted(issuer, request, holder_proof, issued_with)->Ok_0
        }).check_signature(issuer, reports) == Ok::<(), DeKyxError>(()),
{
    let unsigned = granted(issuer, request, holder_proof, issued_with)->Ok_0;
    let credential = CredentialModel { signature, ..unsigned };
    assert(credential.statement_message() == unsigned.statement_message());
}

/// No credential is granted for a commitment that the holder proof does not open: a granted
/// request carries a holder proof that checks, and the credential states exactly what was
/// requested.
pub proof fn law_granted_only_with_possession(
    issuer: IssuerDefinitionModel,
    request: CredentialRequestModel,
    holder_proof: IssuanceProofModel,
    reports: SignatureReports,
)
    requires
        granted(issuer, request, holder_proof, reports) is Ok,
    ensures
        authorized(issuer, request),
        holder_proof.check(request, reports) == Ok::<(), DeKyxError>(()),
        root_of(request.qualifications) matches Ok(root) && granted(
            issuer,
            request,
            holder_proof,
            reports,
        ) == Ok::<CredentialModel, DeKyxError>(requested_credential(request, root)),
{
}

/// An issued status list is accepted from its issuer: where the backend accepts the signature
/// that was put on it, checking the signature succeeds.
pub proof fn law_issued_status_list_verifies(
    issuer: IssuerDefinitionModel,
    status_epoch: u64,
    effective_at: u64,
    valid_until: u64,
    revoked_credentials: Seq<Digest32>,
    signature: SignatureModel,
    reports: SignatureReports,
)
    requires
        issuer.check() is Ok,
        listed(issuer, status_epoch, effective_at, valid_until, revoked_credentials) is Ok,
        reports.accepted(
            hybrid_check(
                issuer.hybrid_key(),
                listed(
                    issuer,
                    status_epoch,
                    effective_at,
                    valid_until,
                    revoked_credentials,
                )->Ok_0.statement()->Ok_0,
                signature,
            ),
        ),
    ensures
        (StatusListModel {
            signature,
            ..listed(issuer, status_epoch, effective_at, valid_until, revoked_credentials)->Ok_0
        }).check_signature(issuer, reports) == Ok::<(), DeKyxError>(()),
{
    let unsigned = listed(
        issuer,
        status_epoch,
        effective_at,
        valid_until,
        revoked_credentials,
    )->Ok_0;
    let list = StatusListModel { signature, ..unsigned };
    assert(list.statement_message() == unsigned.statement_message());
}

/// A holder proof is worth nothing for another commitment: where a proof answers a request, it
/// is refused for the same request with another commitment, unless the backend accepted the
/// holder's signature for that request too and the two commitments, each times its own
/// challenge, happen to be the same element.
pub proof fn law_substituted_commitment_refused(
    issuer: IssuerDefinitionModel,
    request: CredentialRequestModel,
    holder_proof: IssuanceProofModel,
    commitment: [u8; 32],
    reports: SignatureReports,
)
    requires
        authorized(issuer, request),
        holder_proof.check_answers(request) is Ok,
        (CredentialRequestModel { subject_commitment: commitment, ..request }).statement() is Ok,
        ({
            let other = CredentialRequestModel { subject_commitment: commitment, ..request };
            let message = holder_proof.signing_message(other)->Ok_0;
            let announcement = holder_proof.announcement_commitment;
            ||| !reports.accepted(
                holder_check(
                    KeyPurpose::Attestation,
                    request.holder_public_key,
                    message,
                    holder_proof.holder_signature,
                ),
            )
            ||| (point_multiple(request.subject_commitment@)->0 * issuance_challenge_for(
                request.statement()->Ok_0,
                announcement,
            )) % group_order() != (point_multiple(commitment@)->0 * issuance_challenge_for(
                other.statement()->Ok_0,
                announcement,
            )) % group_order()
        }),
    ensures
        granted(
            issuer,
            CredentialRequestModel { subject_commitment: commitment, ..request },
            holder_proof,
            reports,
        ) == Err::<CredentialModel, DeKyxError>(DeKyxError::InvalidIssuanceProof),
{
    let other = CredentialRequestModel { subject_commitment: commitment, ..request };
    let announcement = holder_proof.announcement_commitment;
    let announced = point_multiple(announcement@)->0;
    let x = point_multiple(request.subject_commitment@)->0 * issuance_challenge_for(
        request.statement()->Ok_0,
        announcement,
    );
    let y = point_multiple(commitment@)->0 * issuance_challenge_for(
        other.statement()->Ok_0,
        announcement,
    );
    if (announced + x) % group_order() == (announced + y) % group_order() {
        lemma_same_sum(announced, x, y);
    }
}

/// A credential says what was requested and nothing else: it agrees with the request in every
/// field, it commits to the qualifications of the request, and its signature is still to come.
pub proof fn law_credential_is_as_requested(
    issuer: IssuerDefinitionModel,
    request: CredentialRequestModel,
    holder_proof: IssuanceProofModel,
    reports: SignatureReports,
)
    ensures
        granted(issuer, request, holder_proof, reports) matches Ok(credential) ==> {
            &&& credential.credential_id == request.credential_id
            &&& credential.issuer_id == request.issuer_id
            &&& credential.issuer_key_epoch == request.issuer_key_epoch
            &&& credential.subject_kind == request.subject_kind
            &&& credential.subject_commitment == request.subject_commitment
            &&& credential.holder_public_key == request.holder_public_key
            &&& credential.holder_suite == request.holder_suite
            &&& credential.scope_digest == request.scope_digest
            &&& credential.policy_digest == request.policy_digest
            &&& root_of(request.qualifications) == Ok::<Digest32, DeKyxError>(
                credential.qualifications_root,
            )
            &&& credential.status_epoch == request.status_epoch
            &&& credential.valid_from == request.valid_from
            &&& credential.valid_until == request.valid_until
            &&& credential.signature.first == ZERO
            &&& credential.signature.second == ZERO
            &&& credential.signature.pq.len() == 0
        },
{
}

/// An issuer grants whatever it may: a request that names its epoch, a kind of subject that it
/// supports and a time within its own, that is complete, and whose holder proof checks, is
/// granted, unless the commitment to its qualifications happens to be the zero digest. A request
/// outside the authority of the epoch is refused as such, before anything else is looked at; then
/// a request that is not complete, then a holder proof that does not check.
pub proof fn law_issuer_grants_what_it_may(
    issuer: IssuerDefinitionModel,
    request: CredentialRequestModel,
    holder_proof: IssuanceProofModel,
    reports: SignatureReports,
)
    ensures
        ({
            let result = granted(issuer, request, holder_proof, reports);
            let authority = {
                &&& request.issuer_id == issuer.issuer_id
                &&& request.issuer_key_epoch == issuer.key_epoch
                &&& issuer.supported_subjects.has(request.subject_kind)
                &&& issuer.valid_from <= request.valid_from
                &&& request.valid_until <= issuer.valid_until
            };
            let stated = authority && request.statement() is Ok;
            let possessed = stated && holder_proof.check(request, reports) is Ok;
            &&& !authority ==> result == Err::<CredentialModel, DeKyxError>(
                DeKyxError::IssuerNotAuthorized,
            )
            &&& authority && !stated ==> result == Err::<CredentialModel, DeKyxError>(
                request.statement()->Err_0,
            )
            &&& stated && !possessed ==> result == Err::<CredentialModel, DeKyxError>(
                holder_proof.check(request, reports)->Err_0,
            )
            &&& possessed && root_of(request.qualifications)->Ok_0 != ZERO ==> result is Ok
            &&& possessed && root_of(request.qualifications)->Ok_0 == ZERO ==> result == Err::<
                CredentialModel,
                DeKyxError,
            >(DeKyxError::InvalidCredential)
        }),
{
}

/// A status list is of the epoch that issues it, with the status epoch and times that were asked
/// for, and revokes just the credentials that were named, in ascending order. It is issued
/// whenever these are not too many, none is named twice or is the zero digest, and the epochs and
/// times make sense.
pub proof fn law_status_list_is_as_asked(
    issuer: IssuerDefinitionModel,
    status_epoch: u64,
    effective_at: u64,
    valid_until: u64,
    revoked_credentials: Seq<Digest32>,
)
    ensures
        ({
            let result = listed(issuer, status_epoch, effective_at, valid_until, revoked_credentials);
            let sensible = {
                &&& issuer.issuer_id != ZERO
                &&& issuer.key_epoch > 0
                &&& status_epoch > 0
                &&& 0 < effective_at <= valid_until
                &&& revoked_credentials.len() <= 1_000_000
                &&& !revoked_credentials.contains(ZERO)
                &&& revoked_credentials.no_duplicates()
            };
            &&& sensible <==> result is Ok
            &&& !sensible ==> result == Err::<StatusListModel, DeKyxError>(
                DeKyxError::InvalidStatusList,
            )
            &&& result matches Ok(list) ==> {
                &&& list.issuer_id == issuer.issuer_id
                &&& list.issuer_key_epoch == issuer.key_epoch
                &&& list.status_epoch == status_epoch
                &&& list.effective_at == effective_at
                &&& list.valid_until == valid_until
                &&& list.revoked_credentials.to_multiset() == revoked_credentials.to_multiset()
                &&& forall|i: int, j: int|
                    0 <= i < j < list.revoked_credentials.len() ==> lex_less(
                        (#[trigger] list.revoked_credentials[i])@,
                        (#[trigger] list.revoked_credentials[j])@,
                    )
                &&& list.signature.first == ZERO
                &&& list.signature.second == ZERO
                &&& list.signature.pq.len() == 0
            }
        }),
{
    let sorted = revoked_credentials.sort_by(digest_order());
    lemma_digest_order_total();
    revoked_credentials.lemma_sort_by_ensures(digest_order());
    lemma_sorted_revocations(revoked_credentials);
    lemma_sorted_distinct(sorted);
}

/// Only a signer with both keys of a valid epoch issues for it: the classical key first, then the
/// post-quantum one, and nothing after.
pub proof fn law_issuer_holds_both_keys(
    definition: IssuerDefinitionModel,
    signer_public_key: Seq<u8>,
)
    ensures
        definition.check() is Err ==> office_refusal(definition, signer_public_key) == Some(
            definition.check()->Err_0,
        ),
        definition.check() is Ok && signer_public_key == definition.public_key@
            + definition.pq_public_key ==> office_refusal(definition, signer_public_key) is None,
        definition.check() is Ok && signer_public_key != definition.public_key@
            + definition.pq_public_key ==> office_refusal(definition, signer_public_key) == Some(
            DeKyxError::InvalidIssuerKey,
        ),
{
}

} // verus!
