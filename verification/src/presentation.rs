//! Anonymous presentations: a holder shows chosen qualifications of a credential in one exact
//! context, under a pseudonym that is stable within a scope.
use vstd::prelude::*;
use vstd::utf8::encode_utf8;

use crate::bytes::{
    append, append_digest, append_digests, append_u32, append_u64, be_bytes, copy_bytes, joined,
    same_digest, Digest32, Identifier, ZERO,
};
use crate::credential::{Credential, CredentialModel};
use crate::error::DeKyxError;
use crate::fields::{digest_fields, field_contents, fields_digest, fields_message};
use crate::group::{
    canonical_scalar, decodes_to_non_identity, decompress_non_identity, decompress_point, encodes,
    group_order, hashed_multiple, le_nat, message_scalar, point_encoding, point_multiple, Scalar,
};
use crate::hash::{sha256, sha256_digest, sha512_digest};
use crate::pedersen::{
    answer, answered, commit, committed, law_commitment_answer, law_pseudonym_answer, pseudonym,
    pseudonym_point, respond, response,
};
use crate::qualification::{models, Qualification, QualificationModel};
use crate::signature::{
    holder_check, KeyPurpose, SignatureCheck, SignatureCheckModel, SignatureReports,
    SignatureScheme, ML_DSA_65_SIG_BYTES,
};
use crate::tree::{
    proof_models, proof_of, root_of, QualificationProof, QualificationProofModel,
};
use crate::witness::{drawn, CredentialWitness, HolderKeyModel, WitnessModel};

verus! {

/// Domain of context digests.
pub const CONTEXT_DOMAIN: &'static str = "DEKYX:PRESENTATION-CONTEXT:v1";

/// Domain of presentation proof challenges.
pub const PROOF_DOMAIN: &'static str = "DEKYX:ANONYMOUS-PRESENTATION:v1";

/// Domain of presentation digests.
pub const PRESENTATION_DOMAIN: &'static str = "DEKYX:PRESENTATION-DIGEST:v2";

/// Domain of what a holder signs when presenting.
pub const HOLDER_PRESENTATION_DOMAIN: &'static str = "DEKYX:HOLDER-PRESENTATION:v2";

/// A subject line is the stable identity of one holder inside one issuer, scope,
/// and policy. It deliberately excludes the issuer key epoch and the commitment
/// blinding so that an issuer key rotation or a re-issued credential with the
/// same subject secret continues the same line.
pub const SUBJECT_LINE_DOMAIN: &'static str = "DEKYX:SUBJECT-LINE:v2";

// ---------------------------------------------------------------------------
// Contexts
// ---------------------------------------------------------------------------
/// The exact request that a presentation answers.
#[derive(Clone, Copy, Debug, PartialEq, Eq)]
pub struct PresentationContext {
    pub scope_digest: Digest32,
    pub audience_digest: Digest32,
    pub action_digest: Digest32,
    pub request_digest: Digest32,
    pub challenge_nonce: Identifier,
    pub valid_until: u64,
}

impl PresentationContext {
    /// No digest is zero, and neither is the nonce or the end of validity.
    pub open spec fn complete(self) -> bool {
        &&& self.scope_digest != ZERO
        &&& self.audience_digest != ZERO
        &&& self.action_digest != ZERO
        &&& self.request_digest != ZERO
        &&& self.challenge_nonce != ZERO
        &&& self.valid_until != 0
    }

    /// The bytes that the digest covers.
    pub open spec fn message(self) -> Seq<u8> {
        encode_utf8(CONTEXT_DOMAIN@) + self.scope_digest@ + self.audience_digest@
            + self.action_digest@ + self.request_digest@ + self.challenge_nonce@ + be_bytes(
            self.valid_until as nat,
            8,
        )
    }

    /// The digest of the context, or why there is none.
    pub open spec fn identity(self) -> Result<Digest32, DeKyxError> {
        if self.complete() {
            Ok(sha256_digest(self.message()))
        } else {
            Err(DeKyxError::InvalidPresentationContext)
        }
    }

    /// The digest of the context.
    pub fn digest(&self) -> (r: Result<Digest32, DeKyxError>)
        ensures
            r == self.identity(),
    {
        if same_digest(&self.scope_digest, &ZERO) || same_digest(&self.audience_digest, &ZERO)
            || same_digest(&self.action_digest, &ZERO) || same_digest(&self.request_digest, &ZERO)
            || same_digest(&self.challenge_nonce, &ZERO) || self.valid_until == 0 {
            return Err(DeKyxError::InvalidPresentationContext);
        }
        let mut message: Vec<u8> = Vec::new();
        append(&mut message, CONTEXT_DOMAIN.as_bytes());
        append_digest(&mut message, &self.scope_digest);
        append_digest(&mut message, &self.audience_digest);
        append_digest(&mut message, &self.action_digest);
        append_digest(&mut message, &self.request_digest);
        append_digest(&mut message, &self.challenge_nonce);
        append_u64(&mut message, self.valid_until);
        assert(message@ =~= self.message());
        Ok(sha256(message.as_slice()))
    }

    /// Whether two contexts are the same.
    pub fn same(&self, other: &PresentationContext) -> (r: bool)
        ensures
            r == (*self == *other),
    {
        same_digest(&self.scope_digest, &other.scope_digest) && same_digest(
            &self.audience_digest,
            &other.audience_digest,
        ) && same_digest(&self.action_digest, &other.action_digest) && same_digest(
            &self.request_digest,
            &other.request_digest,
        ) && same_digest(&self.challenge_nonce, &other.challenge_nonce) && self.valid_until
            == other.valid_until
    }
}

// ---------------------------------------------------------------------------
// Presentations
// ---------------------------------------------------------------------------
/// A credential shown in a context, with proofs of chosen qualifications and of possession.
#[derive(Debug, PartialEq, Eq)]
pub struct AnonymousPresentation {
    pub credential: Credential,
    pub context: PresentationContext,
    pub qualifications: Vec<QualificationProof>,
    pub nullifier: [u8; 32],
    pub announcement_commitment: [u8; 32],
    pub announcement_nullifier: [u8; 32],
    pub response_subject: [u8; 32],
    pub response_blinding: [u8; 32],
    pub holder_signature: Vec<u8>,
}

/// The contents of a presentation.
pub struct PresentationModel {
    pub credential: CredentialModel,
    pub context: PresentationContext,
    pub qualifications: Seq<QualificationProofModel>,
    pub nullifier: [u8; 32],
    pub announcement_commitment: [u8; 32],
    pub announcement_nullifier: [u8; 32],
    pub response_subject: [u8; 32],
    pub response_blinding: [u8; 32],
    pub holder_signature: Seq<u8>,
}

impl View for AnonymousPresentation {
    type V = PresentationModel;

    open spec fn view(&self) -> PresentationModel {
        PresentationModel {
            credential: self.credential@,
            context: self.context,
            qualifications: proof_models(self.qualifications@),
            nullifier: self.nullifier,
            announcement_commitment: self.announcement_commitment,
            announcement_nullifier: self.announcement_nullifier,
            response_subject: self.response_subject,
            response_blinding: self.response_blinding,
            holder_signature: self.holder_signature@,
        }
    }
}

/// A copy of a list of membership proofs.
fn copy_proofs(proofs: &Vec<QualificationProof>) -> (r: Vec<QualificationProof>)
    ensures
        proof_models(r@) == proof_models(proofs@),
{
    let mut out: Vec<QualificationProof> = Vec::new();
    let mut i: usize = 0;
    while i < proofs.len()
        invariant
            i <= proofs.len(),
            proof_models(out@) == proof_models(proofs@).take(i as int),
        decreases proofs.len() - i,
    {
        let ghost before = out@;
        let copy = proofs[i].clone();
        out.push(copy);
        assert(proof_models(out@) =~= proof_models(before).push(copy@));
        assert(proof_models(proofs@).take(i + 1) =~= proof_models(proofs@).take(i as int).push(
            proofs@[i as int]@,
        ));
        i += 1;
    }
    assert(proof_models(proofs@).take(i as int) =~= proof_models(proofs@));
    out
}

impl Clone for AnonymousPresentation {
    fn clone(&self) -> (r: Self)
        ensures
            r@ == self@,
    {
        AnonymousPresentation {
            credential: self.credential.clone(),
            context: self.context,
            qualifications: copy_proofs(&self.qualifications),
            nullifier: self.nullifier,
            announcement_commitment: self.announcement_commitment,
            announcement_nullifier: self.announcement_nullifier,
            response_subject: self.response_subject,
            response_blinding: self.response_blinding,
            holder_signature: copy_bytes(self.holder_signature.as_slice()),
        }
    }
}

/// Every qualification that is shown is valid.
pub open spec fn all_valid(proofs: Seq<QualificationProofModel>) -> bool {
    forall|i: int| 0 <= i < proofs.len() ==> (#[trigger] proofs[i]).qualification.valid()
}

/// The bytes of membership proofs in a challenge.
pub open spec fn challenged_proofs(proofs: Seq<QualificationProofModel>) -> Seq<u8>
    decreases proofs.len(),
{
    if proofs.len() == 0 {
        Seq::empty()
    } else {
        let p = proofs.last();
        challenged_proofs(proofs.drop_last()) + p.qualification.leaf()@ + be_bytes(
            p.index as nat,
            4,
        ) + be_bytes(p.total as nat, 4) + joined(p.siblings)
    }
}

/// The bytes of a membership proof in what a holder signs.
pub open spec fn signed_proof(p: QualificationProofModel) -> Seq<u8> {
    p.qualification.leaf()@ + be_bytes(p.index as nat, 4) + be_bytes(p.total as nat, 4) + be_bytes(
        p.siblings.len(),
        8,
    ) + joined(p.siblings)
}

/// The bytes of membership proofs in what a holder signs.
pub open spec fn signed_proofs(proofs: Seq<QualificationProofModel>) -> Seq<u8>
    decreases proofs.len(),
{
    if proofs.len() == 0 {
        Seq::empty()
    } else {
        signed_proofs(proofs.drop_last()) + signed_proof(proofs.last())
    }
}

/// The challenge for the announcements of a presentation, or why there is none.
pub open spec fn presentation_challenge(
    credential: CredentialModel,
    context: PresentationContext,
    qualifications: Seq<QualificationProofModel>,
    nullifier: [u8; 32],
    announcement_commitment: [u8; 32],
    announcement_nullifier: [u8; 32],
    reports: SignatureReports,
) -> Result<nat, DeKyxError> {
    match credential.digest(reports) {
        Err(e) => Err(e),
        Ok(credential_digest) => match context.identity() {
            Err(e) => Err(e),
            Ok(context_digest) => if !all_valid(qualifications) {
                Err(DeKyxError::InvalidQualification)
            } else {
                Ok(
                    message_scalar(
                        encode_utf8(PROOF_DOMAIN@) + credential_digest@ + context_digest@
                            + nullifier@ + announcement_commitment@ + announcement_nullifier@
                            + challenged_proofs(qualifications),
                    ),
                )
            },
        },
    }
}

impl PresentationModel {
    /// The challenge for the announcements, or why there is none.
    pub open spec fn challenge(self, reports: SignatureReports) -> Result<nat, DeKyxError> {
        presentation_challenge(
            self.credential,
            self.context,
            self.qualifications,
            self.nullifier,
            self.announcement_commitment,
            self.announcement_nullifier,
            reports,
        )
    }

    /// The bytes that the digest the holder signs covers.
    pub open spec fn signed_bytes(
        self,
        credential_digest: Digest32,
        context_digest: Digest32,
    ) -> Seq<u8> {
        encode_utf8(HOLDER_PRESENTATION_DOMAIN@) + credential_digest@ + context_digest@
            + self.nullifier@ + self.announcement_commitment@ + self.announcement_nullifier@
            + self.response_subject@ + self.response_blinding@ + be_bytes(
            self.qualifications.len(),
            8,
        ) + signed_proofs(self.qualifications)
    }

    /// The digest that the holder signs, or why there is none.
    pub open spec fn signing_message(self, reports: SignatureReports) -> Result<
        Digest32,
        DeKyxError,
    > {
        match self.credential.digest(reports) {
            Err(e) => Err(e),
            Ok(credential_digest) => match self.context.identity() {
                Err(e) => Err(e),
                Ok(context_digest) => if !all_valid(self.qualifications) {
                    Err(DeKyxError::InvalidQualification)
                } else {
                    Ok(sha256_digest(self.signed_bytes(credential_digest, context_digest)))
                },
            },
        }
    }

    /// The digest of the presentation, or why there is none.
    pub open spec fn identity(self, reports: SignatureReports) -> Result<Digest32, DeKyxError> {
        if self.holder_signature.len() != ML_DSA_65_SIG_BYTES {
            Err(DeKyxError::InvalidAnonymousProof)
        } else {
            match self.signing_message(reports) {
                Err(e) => Err(e),
                Ok(message) => Ok(
                    fields_digest(PRESENTATION_DOMAIN@, seq![message@, self.holder_signature]),
                ),
            }
        }
    }

    /// The messages that are hashed in making the digest, above the digests of the credential
    /// and of the context.
    pub open spec fn digest_messages(self, reports: SignatureReports) -> Set<Seq<u8>> {
        let signed = self.signed_bytes(
            self.credential.digest(reports)->Ok_0,
            self.context.identity()->Ok_0,
        );
        set![
            signed,
            encode_utf8(PRESENTATION_DOMAIN@) + fields_message(
                seq![sha256_digest(signed)@, self.holder_signature],
            ),
        ]
    }

    /// The bytes that the subject line is hashed from.
    pub open spec fn line_message(self) -> Seq<u8> {
        encode_utf8(SUBJECT_LINE_DOMAIN@) + self.credential.issuer_id@
            + self.credential.scope_digest@ + self.credential.policy_digest@ + self.nullifier@
    }

    /// The subject line that the presentation belongs to.
    pub open spec fn subject_line(self) -> Digest32 {
        sha256_digest(self.line_message())
    }

    /// What checking the answers alone gives: all elements and scalars have to be canonical,
    /// the commitment and the pseudonym must not be the identity, and the answers have to
    /// match both announcements.
    pub open spec fn check_answers(self, reports: SignatureReports) -> Result<(), DeKyxError> {
        if !decodes_to_non_identity(self.credential.subject_commitment) || !decodes_to_non_identity(
            self.nullifier,
        ) || point_multiple(self.announcement_commitment@) is None || point_multiple(
            self.announcement_nullifier@,
        ) is None {
            Err(DeKyxError::NonCanonicalPoint)
        } else if le_nat(self.response_subject@) >= group_order() || le_nat(
            self.response_blinding@,
        ) >= group_order() {
            Err(DeKyxError::NonCanonicalScalar)
        } else {
            match self.challenge(reports) {
                Err(e) => Err(e),
                Ok(challenge) => if committed(
                    le_nat(self.response_subject@),
                    le_nat(self.response_blinding@),
                ) == answered(
                    point_multiple(self.announcement_commitment@)->0,
                    point_multiple(self.credential.subject_commitment@)->0,
                    challenge,
                ) && pseudonym(self.context.scope_digest, le_nat(self.response_subject@))
                    == answered(
                    point_multiple(self.announcement_nullifier@)->0,
                    point_multiple(self.nullifier@)->0,
                    challenge,
                ) {
                    Ok(())
                } else {
                    Err(DeKyxError::InvalidAnonymousProof)
                },
            }
        }
    }

    /// What checking the proof of possession gives: first the holder's signature, then the
    /// answers.
    pub open spec fn check_proof(self, reports: SignatureReports) -> Result<(), DeKyxError> {
        match self.signing_message(reports) {
            Err(e) => Err(e),
            Ok(message) => if !reports.accepted(
                holder_check(
                    KeyPurpose::Order,
                    self.credential.holder_public_key,
                    message,
                    self.holder_signature,
                ),
            ) {
                Err(DeKyxError::InvalidAnonymousProof)
            } else {
                self.check_answers(reports)
            },
        }
    }
}

/// Appends the membership proofs of a challenge.
fn append_challenged_proofs(out: &mut Vec<u8>, proofs: &Vec<QualificationProof>) -> (r: Result<
    (),
    DeKyxError,
>)
    ensures
        r is Ok <==> all_valid(proof_models(proofs@)),
        r is Ok ==> final(out)@ == old(out)@ + challenged_proofs(proof_models(proofs@)),
        r matches Err(e) ==> e == DeKyxError::InvalidQualification,
{
    let ghost all = proof_models(proofs@);
    let ghost before = out@;
    let mut i: usize = 0;
    assert(before + challenged_proofs(all.take(0)) =~= before);
    while i < proofs.len()
        invariant
            i <= proofs.len(),
            all == proof_models(proofs@),
            forall|k: int| 0 <= k < i ==> (#[trigger] all[k]).qualification.valid(),
            out@ == before + challenged_proofs(all.take(i as int)),
        decreases proofs.len() - i,
    {
        let ghost next = all.take(i + 1);
        assert(next.drop_last() =~= all.take(i as int));
        assert(next.last() == all[i as int]);
        let leaf = match proofs[i].qualification.leaf_digest() {
            Ok(leaf) => leaf,
            Err(e) => {
                assert(!all[i as int].qualification.valid());
                return Err(e);
            },
        };
        append_digest(out, &leaf);
        append_u32(out, proofs[i].index);
        append_u32(out, proofs[i].total);
        append_digests(out, &proofs[i].siblings);
        assert(out@ =~= before + challenged_proofs(next));
        i += 1;
    }
    assert(all.take(i as int) =~= all);
    Ok(())
}

/// Appends the membership proofs of what a holder signs.
fn append_signed_proofs(out: &mut Vec<u8>, proofs: &Vec<QualificationProof>) -> (r: Result<
    (),
    DeKyxError,
>)
    ensures
        r is Ok <==> all_valid(proof_models(proofs@)),
        r is Ok ==> final(out)@ == old(out)@ + signed_proofs(proof_models(proofs@)),
        r matches Err(e) ==> e == DeKyxError::InvalidQualification,
{
    let ghost all = proof_models(proofs@);
    let ghost before = out@;
    let mut i: usize = 0;
    assert(before + signed_proofs(all.take(0)) =~= before);
    while i < proofs.len()
        invariant
            i <= proofs.len(),
            all == proof_models(proofs@),
            forall|k: int| 0 <= k < i ==> (#[trigger] all[k]).qualification.valid(),
            out@ == before + signed_proofs(all.take(i as int)),
        decreases proofs.len() - i,
    {
        let ghost next = all.take(i + 1);
        assert(next.drop_last() =~= all.take(i as int));
        assert(next.last() == all[i as int]);
        let leaf = match proofs[i].qualification.leaf_digest() {
            Ok(leaf) => leaf,
            Err(e) => {
                assert(!all[i as int].qualification.valid());
                return Err(e);
            },
        };
        append_digest(out, &leaf);
        append_u32(out, proofs[i].index);
        append_u32(out, proofs[i].total);
        append_u64(out, proofs[i].siblings.len() as u64);
        append_digests(out, &proofs[i].siblings);
        assert(out@ =~= before + signed_proofs(next));
        i += 1;
    }
    assert(all.take(i as int) =~= all);
    Ok(())
}

/// The challenge for the announcements of a presentation.
fn proof_challenge(
    credential: &Credential,
    context: &PresentationContext,
    qualifications: &Vec<QualificationProof>,
    nullifier: &[u8; 32],
    announcement_commitment: &[u8; 32],
    announcement_nullifier: &[u8; 32],
    reports: &SignatureReports,
) -> (r: Result<Scalar, DeKyxError>)
    ensures
        match presentation_challenge(
            credential@,
            *context,
            proof_models(qualifications@),
            *nullifier,
            *announcement_commitment,
            *announcement_nullifier,
            *reports,
        ) {
            Ok(challenge) => r matches Ok(scalar) && scalar@ == challenge,
            Err(e) => r matches Err(f) && f == e,
        },
{
    let credential_digest = credential.digest(reports)?;
    let context_digest = context.digest()?;
    let mut message: Vec<u8> = Vec::new();
    append(&mut message, PROOF_DOMAIN.as_bytes());
    append_digest(&mut message, &credential_digest);
    append_digest(&mut message, &context_digest);
    append_digest(&mut message, nullifier);
    append_digest(&mut message, announcement_commitment);
    append_digest(&mut message, announcement_nullifier);
    append_challenged_proofs(&mut message, qualifications)?;
    assert(message@ =~= encode_utf8(PROOF_DOMAIN@) + credential_digest@ + context_digest@
        + nullifier@ + announcement_commitment@ + announcement_nullifier@ + challenged_proofs(
        proof_models(qualifications@),
    ));
    Ok(Scalar::from_message(message.as_slice()))
}

/// The membership proofs of `required` among the qualifications of a witness: all of them are
/// there, in the order in which they are asked for.
pub open spec fn selects(
    witness: WitnessModel,
    required: Seq<QualificationModel>,
    proofs: Seq<QualificationProofModel>,
) -> bool {
    &&& proofs.len() == required.len()
    &&& forall|i: int|
        0 <= i < required.len() ==> proof_of(witness.qualifications, #[trigger] required[i])
            == Ok::<QualificationProofModel, DeKyxError>(proofs[i])
}

/// Every required qualification is among those of the witness.
pub open spec fn holds_all(
    witness: WitnessModel,
    required: Seq<QualificationModel>,
) -> bool {
    forall|i: int|
        0 <= i < required.len() ==> witness.qualifications.contains(#[trigger] required[i])
}

/// The membership proofs of the required qualifications.
fn select_proofs(witness: &CredentialWitness, required: &[Qualification]) -> (r: Result<
    Vec<QualificationProof>,
    DeKyxError,
>)
    ensures
        match r {
            Ok(proofs) => holds_all(witness@, models(required@)) && selects(
                witness@,
                models(required@),
                proof_models(proofs@),
            ),
            Err(e) => e == DeKyxError::MissingQualification && !holds_all(
                witness@,
                models(required@),
            ),
        },
{
    witness.reveal_sound();
    let ghost wanted = models(required@);
    let mut proofs: Vec<QualificationProof> = Vec::new();
    let mut i: usize = 0;
    while i < required.len()
        invariant
            i <= required.len(),
            witness@.sound(),
            wanted == models(required@),
            proofs.len() == i,
            forall|k: int|
                0 <= k < i ==> witness@.qualifications.contains(#[trigger] wanted[k]) && proof_of(
                    witness@.qualifications,
                    wanted[k],
                ) == Ok::<QualificationProofModel, DeKyxError>(proof_models(proofs@)[k]),
        decreases required.len() - i,
    {
        assert(wanted[i as int] == required@[i as int]@);
        let ghost before = proofs@;
        match witness.qualification_proof(&required[i]) {
            Err(e) => {
                assert(!witness@.qualifications.contains(wanted[i as int]));
                return Err(e);
            },
            Ok(found) => {
                proofs.push(found);
                assert(proof_models(proofs@) =~= proof_models(before).push(found@));
            },
        }
        i += 1;
    }
    Ok(proofs)
}

/// Why a presentation cannot be made, if it cannot.
pub open spec fn presentation_refusal(
    credential: CredentialModel,
    witness: WitnessModel,
    context: PresentationContext,
    required: Seq<QualificationModel>,
    reports: SignatureReports,
) -> Option<DeKyxError> {
    if !witness.matches_holder(
        credential.subject_commitment,
        credential.holder_public_key,
        credential.holder_suite,
    ) || credential.scope_digest != context.scope_digest || context.valid_until
        > credential.valid_until {
        Some(DeKyxError::MismatchedWitnessOrContext)
    } else if !holds_all(witness, required) {
        Some(DeKyxError::MissingQualification)
    } else {
        match credential.digest(reports) {
            Err(e) => Some(e),
            Ok(_) => match context.identity() {
                Err(e) => Some(e),
                Ok(_) => None,
            },
        }
    }
}

impl AnonymousPresentation {
    /// Presents a credential in a context, showing the required qualifications and nothing
    /// else of what was vouched for. The nonces are uniform bytes; the holder's signature is
    /// still to come.
    pub fn create(
        credential: Credential,
        witness: &CredentialWitness,
        context: PresentationContext,
        required: &[Qualification],
        nonce_subject_draw: &[u8; 64],
        nonce_blinding_draw: &[u8; 64],
        reports: &SignatureReports,
    ) -> (r: Result<UnsignedPresentation, DeKyxError>)
        ensures
            match presentation_refusal(
                credential@,
                witness@,
                context,
                models(required@),
                *reports,
            ) {
                Some(e) => r matches Err(f) && f == e,
                None => r matches Ok(unsigned) && unsigned.presents(
                    credential@,
                    witness@,
                    context,
                    models(required@),
                    drawn(*nonce_subject_draw),
                    drawn(*nonce_blinding_draw),
                    *reports,
                ),
            },
    {
        if !witness.is_holder_of(
            &credential.subject_commitment,
            &credential.holder_public_key,
            &credential.holder_suite,
        ) || !same_digest(&credential.scope_digest, &context.scope_digest) || context.valid_until
            > credential.valid_until {
            return Err(DeKyxError::MismatchedWitnessOrContext);
        }
        let qualifications = select_proofs(witness, required)?;
        let ghost shown = proof_models(qualifications@);
        witness.reveal_sound();
        proof {
            lemma_selected_valid(witness@, models(required@), shown);
        }
        let nullifier = witness.scope_nullifier(&context.scope_digest);
        let nonce_subject = Scalar::from_wide_bytes(nonce_subject_draw);
        let nonce_blinding = Scalar::from_wide_bytes(nonce_blinding_draw);
        let announcement_commitment = commit(&nonce_subject, &nonce_blinding).compress();
        let announcement_nullifier = pseudonym_point(
            &context.scope_digest,
            &nonce_subject,
        ).compress();
        let challenge = proof_challenge(
            &credential,
            &context,
            &qualifications,
            &nullifier,
            &announcement_commitment,
            &announcement_nullifier,
            reports,
        )?;
        let response_subject = respond(&nonce_subject, &challenge, witness.secret()).to_bytes();
        let response_blinding = respond(&nonce_blinding, &challenge, witness.blinding()).to_bytes();
        let presentation = AnonymousPresentation {
            credential,
            context,
            qualifications,
            nullifier,
            announcement_commitment,
            announcement_nullifier,
            response_subject,
            response_blinding,
            holder_signature: Vec::new(),
        };
        let message = presentation.holder_signing_message(reports)?;
        let unsigned = UnsignedPresentation { presentation, message };
        assert(unsigned.presentation_with(Seq::empty()) == presentation@);
        Ok(unsigned)
    }

    /// The digest of the presentation.
    pub fn digest(&self, reports: &SignatureReports) -> (r: Result<Digest32, DeKyxError>)
        ensures
            r == self@.identity(*reports),
    {
        if self.holder_signature.len() != ML_DSA_65_SIG_BYTES {
            return Err(DeKyxError::InvalidAnonymousProof);
        }
        let message = self.holder_signing_message(reports)?;
        let fields: [&[u8]; 2] = [message.as_slice(), self.holder_signature.as_slice()];
        assert(field_contents(fields@) =~= seq![message@, self.holder_signature@]);
        Ok(digest_fields(PRESENTATION_DOMAIN, fields.as_slice()))
    }

    /// The digest that the holder signs.
    pub fn holder_signing_message(&self, reports: &SignatureReports) -> (r: Result<
        Digest32,
        DeKyxError,
    >)
        ensures
            r == self@.signing_message(*reports),
    {
        let credential_digest = self.credential.digest(reports)?;
        let context_digest = self.context.digest()?;
        let mut message: Vec<u8> = Vec::new();
        append(&mut message, HOLDER_PRESENTATION_DOMAIN.as_bytes());
        append_digest(&mut message, &credential_digest);
        append_digest(&mut message, &context_digest);
        append_digest(&mut message, &self.nullifier);
        append_digest(&mut message, &self.announcement_commitment);
        append_digest(&mut message, &self.announcement_nullifier);
        append_digest(&mut message, &self.response_subject);
        append_digest(&mut message, &self.response_blinding);
        append_u64(&mut message, self.qualifications.len() as u64);
        append_signed_proofs(&mut message, &self.qualifications)?;
        assert(message@ =~= self@.signed_bytes(credential_digest, context_digest));
        Ok(sha256(message.as_slice()))
    }

    /// The subject line that the presentation belongs to.
    pub fn subject_line_id(&self) -> (r: Result<Digest32, DeKyxError>)
        ensures
            r == Ok::<Digest32, DeKyxError>(self@.subject_line()),
    {
        let mut message: Vec<u8> = Vec::new();
        append(&mut message, SUBJECT_LINE_DOMAIN.as_bytes());
        append_digest(&mut message, &self.credential.issuer_id);
        append_digest(&mut message, &self.credential.scope_digest);
        append_digest(&mut message, &self.credential.policy_digest);
        append_digest(&mut message, &self.nullifier);
        assert(message@ =~= self@.line_message());
        Ok(sha256(message.as_slice()))
    }

    /// The holder's signature that has to hold for the presentation to be accepted.
    pub fn signature_check(&self, reports: &SignatureReports) -> (r: Result<
        SignatureCheck,
        DeKyxError,
    >)
        ensures
            match self@.signing_message(*reports) {
                Ok(message) => r matches Ok(check) && check@ == holder_check(
                    KeyPurpose::Order,
                    self.credential.holder_public_key@,
                    message,
                    self.holder_signature@,
                ),
                Err(e) => r matches Err(f) && f == e,
            },
    {
        let message = self.holder_signing_message(reports)?;
        Ok(
            SignatureCheck::holder(
                KeyPurpose::Order,
                &self.credential.holder_public_key,
                message,
                &self.holder_signature,
            ),
        )
    }

    /// Checks that the presenter holds the key of the credential, can open its commitment, and
    /// that the pseudonym belongs to the same secret.
    pub fn verify_proof(&self, reports: &SignatureReports) -> (r: Result<(), DeKyxError>)
        ensures
            r == self@.check_proof(*reports),
    {
        let check = self.signature_check(reports)?;
        if !reports.accepts(&check) {
            return Err(DeKyxError::InvalidAnonymousProof);
        }
        let commitment = decompress_non_identity(&self.credential.subject_commitment)?;
        let nullifier = decompress_non_identity(&self.nullifier)?;
        let announce_commitment = decompress_point(&self.announcement_commitment)?;
        let announce_nullifier = decompress_point(&self.announcement_nullifier)?;
        let response_subject = canonical_scalar(&self.response_subject)?;
        let response_blinding = canonical_scalar(&self.response_blinding)?;
        let challenge = proof_challenge(
            &self.credential,
            &self.context,
            &self.qualifications,
            &self.nullifier,
            &self.announcement_commitment,
            &self.announcement_nullifier,
            reports,
        )?;
        if !commit(&response_subject, &response_blinding).same(
            &answer(&announce_commitment, &commitment, &challenge),
        ) || !pseudonym_point(&self.context.scope_digest, &response_subject).same(
            &answer(&announce_nullifier, &nullifier, &challenge),
        ) {
            return Err(DeKyxError::InvalidAnonymousProof);
        }
        Ok(())
    }
}

/// Selected qualifications are valid.
proof fn lemma_selected_valid(
    witness: WitnessModel,
    required: Seq<QualificationModel>,
    proofs: Seq<QualificationProofModel>,
)
    requires
        witness.sound(),
        holds_all(witness, required),
        selects(witness, required, proofs),
    ensures
        all_valid(proofs),
{
    assert forall|i: int| 0 <= i < proofs.len() implies (#[trigger] proofs[i]).qualification.valid() by {
        let q = required[i];
        assert(witness.qualifications.contains(q));
        let k = witness.qualifications.index_of(q);
        assert(witness.qualifications[k].valid());
    }
}

/// A presentation before the holder has signed it.
pub struct UnsignedPresentation {
    presentation: AnonymousPresentation,
    message: Digest32,
}

impl UnsignedPresentation {
    /// The digest that the holder has to sign, in specifications.
    pub closed spec fn spec_message(self) -> Digest32 {
        self.message
    }

    /// The presentation with a signature.
    pub closed spec fn presentation_with(self, signature: Seq<u8>) -> PresentationModel {
        PresentationModel { holder_signature: signature, ..self.presentation@ }
    }

    /// The presentation shows the credential in the context with exactly the required
    /// qualifications and the pseudonym of the secret, announces the nonces, answers the
    /// challenge for those announcements with the opening of the commitment, and asks the
    /// holder to sign just that.
    pub open spec fn presents(
        self,
        credential: CredentialModel,
        witness: WitnessModel,
        context: PresentationContext,
        required: Seq<QualificationModel>,
        nonce_subject: nat,
        nonce_blinding: nat,
        reports: SignatureReports,
    ) -> bool {
        let p = self.presentation_with(Seq::empty());
        &&& p.credential == credential
        &&& p.context == context
        &&& selects(witness, required, p.qualifications)
        &&& encodes(p.nullifier, pseudonym(context.scope_digest, witness.secret))
        &&& encodes(p.announcement_commitment, committed(nonce_subject, nonce_blinding))
        &&& encodes(p.announcement_nullifier, pseudonym(context.scope_digest, nonce_subject))
        &&& p.challenge(reports) matches Ok(challenge)
        &&& le_nat(p.response_subject@) == response(nonce_subject, challenge, witness.secret)
        &&& le_nat(p.response_blinding@) == response(nonce_blinding, challenge, witness.blinding)
        &&& p.signing_message(reports) == Ok::<Digest32, DeKyxError>(self.spec_message())
    }

    /// The signature is all that signing changes.
    pub proof fn lemma_signature_only(self, signature: Seq<u8>)
        ensures
            self.presentation_with(signature) == (PresentationModel {
                holder_signature: signature,
                ..self.presentation_with(Seq::empty())
            }),
    {
    }

    /// The digest that the holder has to sign, for the purpose of acting on a request.
    pub fn message(&self) -> (r: Digest32)
        ensures
            r == self.spec_message(),
    {
        self.message
    }

    /// The presentation with the holder's signature, which is missing where the signature
    /// backend could not sign.
    pub fn signed(self, signature: Option<Vec<u8>>) -> (r: Result<
        AnonymousPresentation,
        DeKyxError,
    >)
        ensures
            match signature {
                Some(bytes) => r matches Ok(presentation) && presentation@
                    == self.presentation_with(bytes@),
                None => r matches Err(e) && e == DeKyxError::InvalidAnonymousProof,
            },
    {
        match signature {
            None => Err(DeKyxError::InvalidAnonymousProof),
            Some(holder_signature) => {
                let mut presentation = self.presentation;
                presentation.holder_signature = holder_signature;
                Ok(presentation)
            },
        }
    }
}

/// An honest presentation proves possession: where it presents a credential whose commitment
/// the witness opens, its pseudonym is not the identity, and the signature backend accepts the
/// holder's signature of its message, the proof of the signed presentation checks.
pub proof fn law_presentation_proof_verifies(
    unsigned: UnsignedPresentation,
    credential: CredentialModel,
    witness: WitnessModel,
    context: PresentationContext,
    required: Seq<QualificationModel>,
    nonce_subject: nat,
    nonce_blinding: nat,
    signature: Seq<u8>,
    reports: SignatureReports,
)
    requires
        unsigned.presents(
            credential,
            witness,
            context,
            required,
            nonce_subject,
            nonce_blinding,
            reports,
        ),
        encodes(credential.subject_commitment, witness.commitment()),
        pseudonym(context.scope_digest, witness.secret) != 0,
        reports.accepted(
            holder_check(
                KeyPurpose::Order,
                credential.holder_public_key,
                unsigned.spec_message(),
                signature,
            ),
        ),
    ensures
        unsigned.presentation_with(signature).check_proof(reports) == Ok::<(), DeKyxError>(()),
{
    let p = unsigned.presentation_with(signature);
    let q = unsigned.presentation_with(Seq::empty());
    assert(p.signing_message(reports) == q.signing_message(reports));
    assert(p.challenge(reports) == q.challenge(reports));
    let challenge = p.challenge(reports)->Ok_0;
    law_commitment_answer(
        witness.secret,
        witness.blinding,
        nonce_subject,
        nonce_blinding,
        challenge,
    );
    law_pseudonym_answer(context.scope_digest, witness.secret, nonce_subject, challenge);
}

/// Only the required qualifications are shown, each with a proof that checks against the root
/// of the qualifications that were vouched for.
pub proof fn law_selected_proofs_verify(
    witness: WitnessModel,
    required: Seq<QualificationModel>,
    proofs: Seq<QualificationProofModel>,
    i: int,
)
    requires
        witness.sound(),
        holds_all(witness, required),
        selects(witness, required, proofs),
        0 <= i < proofs.len(),
    ensures
        proofs[i].qualification == required[i],
        root_of(witness.qualifications) matches Ok(root) && proofs[i].check(root) == Ok::<
            (),
            DeKyxError,
        >(()),
{
    let q = required[i];
    assert(witness.qualifications.contains(q));
    assert(proof_of(witness.qualifications, q) == Ok::<QualificationProofModel, DeKyxError>(
        proofs[i],
    ));
    crate::tree::law_qualification_proof_verifies(witness.qualifications, q);
}

/// The subject line is stable: presentations of credentials for one issuer, scope and policy
/// under one subject secret belong to one line, whatever the key epoch of the issuer, the
/// blinding of the commitment, the holder key, the qualifications and the context.
pub proof fn law_subject_line_stable(
    a: PresentationModel,
    b: PresentationModel,
    scope: Digest32,
    secret: nat,
)
    requires
        a.credential.issuer_id == b.credential.issuer_id,
        a.credential.scope_digest == b.credential.scope_digest,
        a.credential.policy_digest == b.credential.policy_digest,
        encodes(a.nullifier, pseudonym(scope, secret)),
        encodes(b.nullifier, pseudonym(scope, secret)),
    ensures
        a.nullifier == b.nullifier,
        a.subject_line() == b.subject_line(),
{
}

/// Only the holder key that a credential was issued for presents it: a witness with another
/// holder key cannot, though it has the same scalars.
pub proof fn law_other_holder_key_cannot_present(
    credential: CredentialModel,
    witness: WitnessModel,
    other: HolderKeyModel,
    context: PresentationContext,
    required: Seq<QualificationModel>,
    reports: SignatureReports,
)
    requires
        witness.matches_holder(
            credential.subject_commitment,
            credential.holder_public_key,
            credential.holder_suite,
        ),
        other.public_key != witness.holder.public_key,
    ensures
        (WitnessModel { holder: other, ..witness }).commitment() == witness.commitment(),
        presentation_refusal(
            credential,
            WitnessModel { holder: other, ..witness },
            context,
            required,
            reports,
        ) == Some(DeKyxError::MismatchedWitnessOrContext),
{
}

/// A context has a digest just where none of its parts is zero, and the digest is that of all of
/// its parts.
pub proof fn law_context_digest_covers_every_part(c: PresentationContext)
    ensures
        ({
            let filled = {
                &&& c.scope_digest != ZERO
                &&& c.audience_digest != ZERO
                &&& c.action_digest != ZERO
                &&& c.request_digest != ZERO
                &&& c.challenge_nonce != ZERO
                &&& c.valid_until > 0
            };
            &&& filled ==> c.identity() == Ok::<Digest32, DeKyxError>(
                sha256_digest(
                    encode_utf8("DEKYX:PRESENTATION-CONTEXT:v1"@) + c.scope_digest@
                        + c.audience_digest@ + c.action_digest@ + c.request_digest@
                        + c.challenge_nonce@ + be_bytes(c.valid_until as nat, 8),
                ),
            )
            &&& !filled ==> c.identity() == Err::<Digest32, DeKyxError>(
                DeKyxError::InvalidPresentationContext,
            )
        }),
{
}

impl PresentationModel {
    /// The bytes that the challenge is hashed from.
    pub open spec fn challenged_bytes(
        self,
        credential_digest: Digest32,
        context_digest: Digest32,
    ) -> Seq<u8> {
        encode_utf8("DEKYX:ANONYMOUS-PRESENTATION:v1"@) + credential_digest@ + context_digest@
            + self.nullifier@ + self.announcement_commitment@ + self.announcement_nullifier@
            + challenged_proofs(self.qualifications)
    }
}

/// The challenge of a presentation is the hash of the digests of its credential and its context,
/// its pseudonym, both its announcements and its membership proofs, reduced. There is one just
/// where the credential and the context have digests and every qualification that is shown is
/// valid, and the first of these that fails is named.
pub proof fn law_presentation_challenge_covers_announcements(
    p: PresentationModel,
    reports: SignatureReports,
)
    ensures
        ({
            let credential = p.credential.digest(reports);
            let context = p.context.identity();
            let valid = forall|i: int|
                0 <= i < p.qualifications.len() ==> (
                #[trigger] p.qualifications[i]).qualification.valid();
            &&& credential is Ok && context is Ok && valid ==> p.challenge(reports) == Ok::<
                nat,
                DeKyxError,
            >(
                le_nat(
                    sha512_digest(p.challenged_bytes(credential->Ok_0, context->Ok_0))@,
                ) % group_order(),
            )
            &&& credential is Err ==> p.challenge(reports) == Err::<nat, DeKyxError>(
                credential->Err_0,
            )
            &&& credential is Ok && context is Err ==> p.challenge(reports) == Err::<
                nat,
                DeKyxError,
            >(context->Err_0)
            &&& credential is Ok && context is Ok && !valid ==> p.challenge(reports) == Err::<
                nat,
                DeKyxError,
            >(DeKyxError::InvalidQualification)
        }),
{
}

/// What a holder signs when presenting: the digests of the credential and the context, the
/// pseudonym, the announcements, the answers, and the number of the membership proofs and their
/// contents. It exists just where the credential and the context have digests and every
/// qualification that is shown is valid. The digest of a presentation covers it and the holder's
/// signature, which has its fixed length.
pub proof fn law_holder_signs_the_whole_presentation(
    p: PresentationModel,
    reports: SignatureReports,
)
    ensures
        ({
            let credential = p.credential.digest(reports);
            let context = p.context.identity();
            let valid = forall|i: int|
                0 <= i < p.qualifications.len() ==> (
                #[trigger] p.qualifications[i]).qualification.valid();
            let message = p.signing_message(reports);
            &&& credential is Ok && context is Ok && valid ==> message == Ok::<
                Digest32,
                DeKyxError,
            >(
                sha256_digest(
                    encode_utf8("DEKYX:HOLDER-PRESENTATION:v2"@) + credential->Ok_0@
                        + context->Ok_0@ + p.nullifier@ + p.announcement_commitment@
                        + p.announcement_nullifier@ + p.response_subject@ + p.response_blinding@
                        + be_bytes(p.qualifications.len(), 8) + signed_proofs(p.qualifications),
                ),
            )
            &&& credential is Err ==> message == credential
            &&& credential is Ok && context is Err ==> message == context
            &&& credential is Ok && context is Ok && !valid ==> message == Err::<
                Digest32,
                DeKyxError,
            >(DeKyxError::InvalidQualification)
            &&& p.holder_signature.len() != 3309 ==> p.identity(reports) == Err::<
                Digest32,
                DeKyxError,
            >(DeKyxError::InvalidAnonymousProof)
            &&& p.holder_signature.len() == 3309 && message is Err ==> p.identity(reports) == message
            &&& p.holder_signature.len() == 3309 && message is Ok ==> p.identity(reports) == Ok::<
                Digest32,
                DeKyxError,
            >(
                sha256_digest(
                    encode_utf8("DEKYX:PRESENTATION-DIGEST:v2"@) + fields_message(
                        seq![message->Ok_0@, p.holder_signature],
                    ),
                ),
            )
        }),
{
}

/// The subject line is hashed from the issuer, the scope, the policy and the pseudonym, and from
/// nothing else.
pub proof fn law_subject_line_covers(p: PresentationModel)
    ensures
        p.subject_line() == sha256_digest(
            encode_utf8("DEKYX:SUBJECT-LINE:v2"@) + p.credential.issuer_id@
                + p.credential.scope_digest@ + p.credential.policy_digest@ + p.nullifier@,
        ),
{
}

/// A proof of possession is accepted just where the backend accepted the holder's signature of
/// the whole presentation under the key of the credential; the commitment and the pseudonym are
/// elements other than the identity and the announcements are elements; the answers are
/// canonical; and the answers match both announcements, that for the commitment and, with the
/// same answer for the secret, that for the pseudonym. What is amiss is named in this order.
pub proof fn law_possession_checked_in_full(p: PresentationModel, reports: SignatureReports)
    ensures
        ({
            let result = p.check_proof(reports);
            let stated = p.signing_message(reports) is Ok;
            let signed = stated && reports.accepted(
                SignatureCheckModel {
                    scheme: SignatureScheme::MlDsa65,
                    purpose: KeyPurpose::Order,
                    public_key: p.credential.holder_public_key,
                    message: p.signing_message(reports)->Ok_0,
                    classical: Seq::empty(),
                    pq: p.holder_signature,
                },
            );
            let commitment = point_multiple(p.credential.subject_commitment@);
            let nullifier = point_multiple(p.nullifier@);
            let announced = point_multiple(p.announcement_commitment@);
            let announced_nullifier = point_multiple(p.announcement_nullifier@);
            let elements = signed && commitment is Some && commitment->0 != 0 && nullifier is Some
                && nullifier->0 != 0 && announced is Some && announced_nullifier is Some;
            let secret = le_nat(p.response_subject@);
            let blinding = le_nat(p.response_blinding@);
            let canonical = elements && secret < group_order() && blinding < group_order();
            let challenge = p.challenge(reports)->Ok_0;
            let opened = (secret + hashed_multiple(
                encode_utf8("DEKYX:SUBJECT-BLINDING-GENERATOR:v1"@),
            ) * blinding) % group_order() == (announced->0 + commitment->0 * challenge)
                % group_order();
            let tied = (hashed_multiple(
                encode_utf8("DEKYX:SCOPE-NULLIFIER-GENERATOR:v1"@) + p.context.scope_digest@,
            ) * secret) % group_order() == (announced_nullifier->0 + nullifier->0 * challenge)
                % group_order();
            &&& canonical && opened && tied <==> result is Ok
            &&& !stated ==> result == Err::<(), DeKyxError>(p.signing_message(reports)->Err_0)
            &&& stated && !signed ==> result == Err::<(), DeKyxError>(
                DeKyxError::InvalidAnonymousProof,
            )
            &&& signed && !elements ==> result == Err::<(), DeKyxError>(
                DeKyxError::NonCanonicalPoint,
            )
            &&& elements && !canonical ==> result == Err::<(), DeKyxError>(
                DeKyxError::NonCanonicalScalar,
            )
            &&& canonical && !(opened && tied) ==> result == Err::<(), DeKyxError>(
                DeKyxError::InvalidAnonymousProof,
            )
        }),
{
}

/// A presentation is made whenever it can be: by the witness whose commitment, holder key and
/// suite the credential has, in the scope of the credential and no longer than it, with
/// qualifications that the witness has, for a credential and a context that have digests. It is
/// refused for nothing else, and what is amiss is named in this order.
pub proof fn law_presentation_refused_only_for_cause(
    credential: CredentialModel,
    witness: WitnessModel,
    context: PresentationContext,
    required: Seq<QualificationModel>,
    reports: SignatureReports,
)
    ensures
        ({
            let refusal = presentation_refusal(credential, witness, context, required, reports);
            let matching = {
                &&& credential.subject_commitment == point_encoding(
                    (witness.secret + hashed_multiple(
                        encode_utf8("DEKYX:SUBJECT-BLINDING-GENERATOR:v1"@),
                    ) * witness.blinding) % group_order(),
                )
                &&& credential.holder_public_key == witness.holder.public_key
                &&& credential.holder_suite == witness.holder.suite
                &&& credential.scope_digest == context.scope_digest
                &&& context.valid_until <= credential.valid_until
            };
            let held = matching && forall|i: int|
                0 <= i < required.len() ==> witness.qualifications.contains(
                    #[trigger] required[i],
                );
            &&& !matching ==> refusal == Some(DeKyxError::MismatchedWitnessOrContext)
            &&& matching && !held ==> refusal == Some(DeKyxError::MissingQualification)
            &&& held && credential.digest(reports) is Err ==> refusal == Some(
                credential.digest(reports)->Err_0,
            )
            &&& held && credential.digest(reports) is Ok && context.identity() is Err ==> refusal
                == Some(context.identity()->Err_0)
            &&& held && credential.digest(reports) is Ok && context.identity() is Ok ==> refusal
                is None
        }),
{
}

/// What a presentation shows: the credential, the context, and the required qualifications in
/// the order in which they were required, each with its membership proof; the pseudonym of the
/// secret in the scope of the context; announcements of the two nonces; and answers from these
/// nonces, the secret and the blinding to the challenge for just this presentation. The holder is
/// asked to sign all of it.
pub proof fn law_presentation_shows_what_it_should(
    unsigned: UnsignedPresentation,
    credential: CredentialModel,
    witness: WitnessModel,
    context: PresentationContext,
    required: Seq<QualificationModel>,
    nonce_subject: nat,
    nonce_blinding: nat,
    signature: Seq<u8>,
    reports: SignatureReports,
)
    requires
        unsigned.presents(
            credential,
            witness,
            context,
            required,
            nonce_subject,
            nonce_blinding,
            reports,
        ),
    ensures
        ({
            let p = unsigned.presentation_with(signature);
            let blinding_generator = hashed_multiple(
                encode_utf8("DEKYX:SUBJECT-BLINDING-GENERATOR:v1"@),
            );
            let scope_generator = hashed_multiple(
                encode_utf8("DEKYX:SCOPE-NULLIFIER-GENERATOR:v1"@) + context.scope_digest@,
            );
            &&& p.credential == credential
            &&& p.context == context
            &&& p.holder_signature == signature
            &&& p.qualifications.len() == required.len()
            &&& forall|i: int|
                0 <= i < required.len() ==> (#[trigger] p.qualifications[i]).qualification
                    == required[i] && proof_of(witness.qualifications, required[i]) == Ok::<
                    QualificationProofModel,
                    DeKyxError,
                >(p.qualifications[i])
            &&& p.nullifier == point_encoding((scope_generator * witness.secret) % group_order())
            &&& p.announcement_commitment == point_encoding(
                (nonce_subject + blinding_generator * nonce_blinding) % group_order(),
            )
            &&& p.announcement_nullifier == point_encoding(
                (scope_generator * nonce_subject) % group_order(),
            )
            &&& p.challenge(reports) matches Ok(challenge) && le_nat(p.response_subject@) == (
            nonce_subject + challenge * witness.secret) % group_order() && le_nat(
                p.response_blinding@,
            ) == (nonce_blinding + challenge * witness.blinding) % group_order()
            &&& p.signing_message(reports) == Ok::<Digest32, DeKyxError>(unsigned.spec_message())
        }),
{
    let p = unsigned.presentation_with(signature);
    let q = unsigned.presentation_with(Seq::empty());
    unsigned.lemma_signature_only(signature);
    assert(p.signing_message(reports) == q.signing_message(reports));
    assert(p.challenge(reports) == q.challenge(reports));
    assert forall|i: int| 0 <= i < required.len() implies (
    #[trigger] p.qualifications[i]).qualification == required[i] && proof_of(
        witness.qualifications,
        required[i],
    ) == Ok::<QualificationProofModel, DeKyxError>(p.qualifications[i]) by {
        assert(proof_of(witness.qualifications, required[i]) == Ok::<
            QualificationProofModel,
            DeKyxError,
        >(q.qualifications[i]));
    }
}

/// The contents of a presentation are its parts.
pub proof fn law_presentation_contents(p: AnonymousPresentation)
    ensures
        p@.credential == p.credential@,
        p@.context == p.context,
        p@.qualifications == proof_models(p.qualifications@),
        p@.nullifier == p.nullifier,
        p@.announcement_commitment == p.announcement_commitment,
        p@.announcement_nullifier == p.announcement_nullifier,
        p@.response_subject == p.response_subject,
        p@.response_blinding == p.response_blinding,
        p@.holder_signature == p.holder_signature@,
{
}

/// Membership proofs follow one another, in a challenge and in what a holder signs: the leaf
/// digest, the place, the size, in what is signed the number of siblings, and the siblings.
pub proof fn law_proofs_follow_one_another(
    proofs: Seq<QualificationProofModel>,
    p: QualificationProofModel,
)
    ensures
        challenged_proofs(Seq::<QualificationProofModel>::empty()) == Seq::<u8>::empty(),
        signed_proofs(Seq::<QualificationProofModel>::empty()) == Seq::<u8>::empty(),
        challenged_proofs(proofs.push(p)) == challenged_proofs(proofs) + p.qualification.leaf()@
            + be_bytes(p.index as nat, 4) + be_bytes(p.total as nat, 4) + joined(p.siblings),
        signed_proofs(proofs.push(p)) == signed_proofs(proofs) + (p.qualification.leaf()@
            + be_bytes(p.index as nat, 4) + be_bytes(p.total as nat, 4) + be_bytes(
            p.siblings.len(),
            8,
        ) + joined(p.siblings)),
{
    assert(proofs.push(p).drop_last() =~= proofs);
}

} // verus!
