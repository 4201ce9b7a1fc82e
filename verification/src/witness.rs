//! What a holder keeps: the secret behind a commitment, its blinding, the qualifications that
//! were vouched for, and the key of the credential.
use vstd::prelude::*;
use vstd::utf8::encode_utf8;

use crate::bytes::{copy_bytes, same_bytes, same_digest, Digest32};
use crate::credential::{
    issuance_challenge, issuance_challenge_for, CredentialIssuanceProof, CredentialRequest,
    CredentialRequestModel, IssuanceProofModel,
};
use crate::error::DeKyxError;
use crate::fields::fields_message;
use crate::group::{encodes, group_order, hashed_multiple, le_nat, point_encoding, Scalar};
use crate::hash::{sha256_digest, sha512_digest};
use crate::pedersen::{
    blinding_multiple, commit, committed, invertible, law_blinding_changes_commitment,
    law_commitment_answer, pseudonym, pseudonym_point, respond, response,
};
use crate::qualification::{
    admissible, canonical_order, canonical_qualifications, copy_qualifications,
    lemma_canonical_order, lemma_canonical_order_idempotent, lemma_qualification_order_total,
    lemma_strictly_ordered, models, qualification_order, same_qualifications, strictly_ordered,
    Qualification, QualificationModel,
};
use crate::signature::{holder_check, KeyPurpose, SignatureReports, Suite, SuiteModel};
use crate::tree::{proof_of, proof_result, qualification_proof, QualificationProof};

verus! {

/// The key that a holder signs with: the seed it comes from, and the public key and suite
/// that the signature backend derives from the seed.
pub struct HolderKey {
    pub seed: [u8; 32],
    pub public_key: Vec<u8>,
    pub suite: Suite,
}

/// The contents of a holder key.
pub struct HolderKeyModel {
    pub seed: [u8; 32],
    pub public_key: Seq<u8>,
    pub suite: SuiteModel,
}

impl View for HolderKey {
    type V = HolderKeyModel;

    open spec fn view(&self) -> HolderKeyModel {
        HolderKeyModel {
            seed: self.seed,
            public_key: self.public_key@,
            suite: self.suite@,
        }
    }
}

/// What a holder keeps for one credential.
pub struct CredentialWitness {
    subject_secret: Scalar,
    blinding: Scalar,
    qualifications: Vec<Qualification>,
    holder_key: HolderKey,
}

/// The contents of a witness.
pub struct WitnessModel {
    pub secret: nat,
    pub blinding: nat,
    pub qualifications: Seq<QualificationModel>,
    pub holder: HolderKeyModel,
}

impl View for CredentialWitness {
    type V = WitnessModel;

    closed spec fn view(&self) -> WitnessModel {
        WitnessModel {
            secret: self.subject_secret@,
            blinding: self.blinding@,
            qualifications: models(self.qualifications@),
            holder: self.holder_key@,
        }
    }
}

impl WitnessModel {
    /// The secret is not zero, the scalars are reduced, and the qualifications are admissible
    /// and in canonical order.
    pub open spec fn sound(self) -> bool {
        &&& 0 < self.secret < group_order()
        &&& self.blinding < group_order()
        &&& admissible(self.qualifications)
        &&& canonical_order(self.qualifications) == self.qualifications
    }

    /// The witness with another blinding and another holder key.
    pub open spec fn rerandomized(self, blinding: nat, holder: HolderKeyModel) -> Self {
        WitnessModel { blinding, holder, ..self }
    }

    /// The element that commits to the secret.
    pub open spec fn commitment(self) -> nat {
        committed(self.secret, self.blinding)
    }

    /// The commitment, the holder key and the suite of a request or a credential are those of
    /// this witness.
    pub open spec fn matches_holder(
        self,
        subject_commitment: [u8; 32],
        public_key: Seq<u8>,
        suite: SuiteModel,
    ) -> bool {
        &&& subject_commitment == point_encoding(self.commitment())
        &&& public_key == self.holder.public_key
        &&& suite == self.holder.suite
    }

    /// Why this witness cannot prove a request, if it cannot.
    pub open spec fn issuance_refusal(self, request: CredentialRequestModel) -> Option<DeKyxError> {
        if !self.matches_holder(
            request.subject_commitment,
            request.holder_public_key,
            request.holder_suite,
        ) {
            Some(DeKyxError::MismatchedWitnessOrContext)
        } else if !admissible(request.qualifications) {
            Some(DeKyxError::InvalidQualification)
        } else if canonical_order(request.qualifications) != self.qualifications {
            Some(DeKyxError::MismatchedWitnessOrContext)
        } else {
            match request.statement() {
                Err(e) => Some(e),
                Ok(_) => None,
            }
        }
    }
}

/// Why a witness cannot be made, if it cannot.
pub open spec fn witness_refusal(
    subject_secret: nat,
    qualifications: Seq<QualificationModel>,
) -> Option<DeKyxError> {
    if subject_secret == 0 {
        Some(DeKyxError::InvalidWitness)
    } else if !admissible(qualifications) {
        Some(DeKyxError::InvalidQualification)
    } else {
        None
    }
}

/// The witness that is made of its parts.
pub open spec fn witness_of(
    subject_secret: nat,
    blinding: nat,
    qualifications: Seq<QualificationModel>,
    holder: HolderKeyModel,
) -> WitnessModel {
    WitnessModel {
        secret: subject_secret,
        blinding,
        qualifications: canonical_order(qualifications),
        holder,
    }
}

/// The scalar that a uniform draw of 64 bytes gives.
pub open spec fn drawn(bytes: [u8; 64]) -> nat {
    le_nat(bytes@) % group_order()
}

impl CredentialWitness {
    #[verifier::type_invariant]
    spec fn always_sound(self) -> bool {
        self@.sound()
    }

    /// A witness with a secret and a blinding drawn at random: `secret_draw` and
    /// `blinding_draw` are uniform bytes, and `holder_key` comes from a fresh seed. There is
    /// no witness where the drawn secret is zero; the caller draws again.
    pub fn random(
        qualifications: Vec<Qualification>,
        secret_draw: &[u8; 64],
        blinding_draw: &[u8; 64],
        holder_key: HolderKey,
    ) -> (r: Result<Option<Self>, DeKyxError>)
        ensures
            r matches Ok(None) <==> drawn(*secret_draw) == 0,
            r matches Err(e) ==> e == DeKyxError::InvalidQualification,
            r is Err <==> drawn(*secret_draw) != 0 && !admissible(models(qualifications@)),
            r matches Ok(Some(witness)) ==> witness@ == witness_of(
                drawn(*secret_draw),
                drawn(*blinding_draw),
                models(qualifications@),
                holder_key@,
            ),
    {
        let secret = Scalar::from_wide_bytes(secret_draw);
        if secret.is_zero() {
            return Ok(None);
        }
        let blinding = Scalar::from_wide_bytes(blinding_draw);
        let witness = Self::from_scalars_with_holder(secret, blinding, qualifications, holder_key)?;
        Ok(Some(witness))
    }

    /// Create a new witness with an independent fresh PQ holder key, which is missing where
    /// the signature backend could not generate one.
    /// Restoring an issued credential requires its original holder key through
    /// `from_scalars_with_holder`; the curve scalars cannot reconstruct it.
    pub fn from_scalars(
        subject_secret: Scalar,
        blinding: Scalar,
        qualifications: Vec<Qualification>,
        generated: Option<HolderKey>,
    ) -> (r: Result<Self, DeKyxError>)
        ensures
            match generated {
                None => r matches Err(e) && e == DeKyxError::InvalidWitness,
                Some(holder_key) => match witness_refusal(
                    subject_secret@,
                    models(qualifications@),
                ) {
                    Some(e) => r matches Err(f) && f == e,
                    None => r matches Ok(witness) && witness@ == witness_of(
                        subject_secret@,
                        blinding@,
                        models(qualifications@),
                        holder_key@,
                    ),
                },
            },
    {
        match generated {
            None => Err(DeKyxError::InvalidWitness),
            Some(holder_key) => Self::from_scalars_with_holder(
                subject_secret,
                blinding,
                qualifications,
                holder_key,
            ),
        }
    }

    /// The witness of a credential with a given holder key.
    pub fn from_scalars_with_holder(
        subject_secret: Scalar,
        blinding: Scalar,
        qualifications: Vec<Qualification>,
        holder_key: HolderKey,
    ) -> (r: Result<Self, DeKyxError>)
        ensures
            match witness_refusal(subject_secret@, models(qualifications@)) {
                Some(e) => r matches Err(f) && f == e,
                None => r matches Ok(witness) && witness@ == witness_of(
                    subject_secret@,
                    blinding@,
                    models(qualifications@),
                    holder_key@,
                ),
            },
    {
        if subject_secret.is_zero() {
            return Err(DeKyxError::InvalidWitness);
        }
        let canonical = canonical_qualifications(qualifications.as_slice())?;
        subject_secret.reveal_canonical();
        blinding.reveal_canonical();
        proof {
            lemma_canonical_order(models(qualifications@));
            lemma_canonical_order_idempotent(models(canonical@));
        }
        Ok(CredentialWitness { subject_secret, blinding, qualifications: canonical, holder_key })
    }

    /// Keeps the subject secret and qualifications while drawing a fresh
    /// blinding and independent PQ key for a new credential. No holder public
    /// key is reused to link credentials across scopes.
    pub fn rerandomize(&self, blinding_draw: &[u8; 64], holder_key: HolderKey) -> (r: Self)
        ensures
            r@ == (WitnessModel {
                blinding: drawn(*blinding_draw),
                holder: holder_key@,
                ..self@
            }),
            r@ == self@.rerandomized(drawn(*blinding_draw), holder_key@),
    {
        proof {
            use_type_invariant(self);
        }
        let blinding = Scalar::from_wide_bytes(blinding_draw);
        blinding.reveal_canonical();
        CredentialWitness {
            subject_secret: self.subject_secret,
            blinding,
            qualifications: copy_qualifications(self.qualifications.as_slice()),
            holder_key,
        }
    }

    /// What every witness satisfies.
    pub(crate) fn reveal_sound(&self)
        ensures
            self@.sound(),
    {
        proof {
            use_type_invariant(self);
        }
    }

    /// The public key of the holder.
    pub fn holder_public_key(&self) -> (r: Vec<u8>)
        ensures
            r@ == self@.holder.public_key,
    {
        copy_bytes(self.holder_key.public_key.as_slice())
    }

    /// The suite of the holder key.
    pub fn holder_suite(&self) -> (r: Suite)
        ensures
            r@ == self@.holder.suite,
    {
        self.holder_key.suite.clone()
    }

    /// The seed of the holder key, which the signature backend signs with.
    pub fn holder_seed(&self) -> (r: [u8; 32])
        ensures
            r == self@.holder.seed,
    {
        self.holder_key.seed
    }

    /// The qualifications, in canonical order.
    pub fn qualifications(&self) -> (r: &Vec<Qualification>)
        ensures
            models(r@) == self@.qualifications,
    {
        &self.qualifications
    }

    /// The canonical bytes of the subject secret and of the blinding.
    pub(crate) fn scalar_bytes(&self) -> (r: ([u8; 32], [u8; 32]))
        ensures
            le_nat(r.0@) == self@.secret,
            le_nat(r.1@) == self@.blinding,
    {
        (self.subject_secret.to_bytes(), self.blinding.to_bytes())
    }

    /// The subject secret.
    pub(crate) fn secret(&self) -> (r: &Scalar)
        ensures
            r@ == self@.secret,
    {
        &self.subject_secret
    }

    /// The blinding.
    pub(crate) fn blinding(&self) -> (r: &Scalar)
        ensures
            r@ == self@.blinding,
    {
        &self.blinding
    }

    /// The commitment to the subject secret.
    pub fn subject_commitment(&self) -> (r: [u8; 32])
        ensures
            encodes(r, self@.commitment()),
    {
        commit(&self.subject_secret, &self.blinding).compress()
    }

    /// The pseudonym of the subject in a scope.
    pub fn scope_nullifier(&self, scope: &Digest32) -> (r: [u8; 32])
        ensures
            encodes(r, pseudonym(*scope, self@.secret)),
    {
        pseudonym_point(scope, &self.subject_secret).compress()
    }

    /// A proof that one qualification is among those of this witness.
    pub fn qualification_proof(&self, qualification: &Qualification) -> (r: Result<
        QualificationProof,
        DeKyxError,
    >)
        ensures
            proof_result(r) == proof_of(self@.qualifications, qualification@),
    {
        qualification_proof(self.qualifications.as_slice(), qualification)
    }

    /// Whether the commitment, the holder key and the suite of a request or a credential are
    /// those of this witness.
    pub(crate) fn is_holder_of(
        &self,
        subject_commitment: &[u8; 32],
        public_key: &Vec<u8>,
        suite: &Suite,
    ) -> (r: bool)
        ensures
            r == self@.matches_holder(*subject_commitment, public_key@, suite@),
    {
        let commitment = self.subject_commitment();
        same_digest(subject_commitment, &commitment) && same_bytes(
            public_key.as_slice(),
            self.holder_key.public_key.as_slice(),
        ) && suite.same(&self.holder_key.suite)
    }

    /// Proves possession of the secret opening used in an issuance request.
    /// The issuer sees only the commitment and proof, never either scalar. The nonces are
    /// uniform bytes; the holder's signature is still to come.
    pub fn prove_issuance(
        &self,
        request: &CredentialRequest,
        nonce_subject_draw: &[u8; 64],
        nonce_blinding_draw: &[u8; 64],
    ) -> (r: Result<UnsignedIssuanceProof, DeKyxError>)
        ensures
            match self@.issuance_refusal(request@) {
                Some(e) => r matches Err(f) && f == e,
                None => r matches Ok(unsigned) && unsigned.answers(
                    self@,
                    request@,
                    drawn(*nonce_subject_draw),
                    drawn(*nonce_blinding_draw),
                ) && unsigned.proof_with(Seq::empty()).check_answers(request@) is Ok,
            },
    {
        if !self.is_holder_of(
            &request.subject_commitment,
            &request.holder_public_key,
            &request.holder_suite,
        ) {
            return Err(DeKyxError::MismatchedWitnessOrContext);
        }
        let canonical = canonical_qualifications(request.qualifications.as_slice())?;
        if !same_qualifications(&canonical, &self.qualifications) {
            return Err(DeKyxError::MismatchedWitnessOrContext);
        }
        request.statement_digest()?;
        let nonce_subject = Scalar::from_wide_bytes(nonce_subject_draw);
        let nonce_blinding = Scalar::from_wide_bytes(nonce_blinding_draw);
        let announcement_commitment = commit(&nonce_subject, &nonce_blinding).compress();
        let challenge = issuance_challenge(request, &announcement_commitment)?;
        let response_subject = respond(&nonce_subject, &challenge, &self.subject_secret).to_bytes();
        let response_blinding = respond(&nonce_blinding, &challenge, &self.blinding).to_bytes();
        let proof = CredentialIssuanceProof {
            announcement_commitment,
            response_subject,
            response_blinding,
            holder_signature: Vec::new(),
        };
        let message = proof.holder_signing_message(request)?;
        let unsigned = UnsignedIssuanceProof { proof, message };
        let commitment = self.subject_commitment();
        proof {
            assert(request.subject_commitment == commitment);
            law_commitment_answer(
                self@.secret,
                self@.blinding,
                nonce_subject@,
                nonce_blinding@,
                challenge@,
            );
            assert(unsigned.proof_with(Seq::empty()) == proof@);
        }
        Ok(unsigned)
    }
}

/// An issuance proof before the holder has signed it.
pub struct UnsignedIssuanceProof {
    proof: CredentialIssuanceProof,
    message: Digest32,
}

impl UnsignedIssuanceProof {
    /// The digest that the holder has to sign, in specifications.
    pub closed spec fn spec_message(self) -> Digest32 {
        self.message
    }

    /// The proof with a signature.
    pub closed spec fn proof_with(self, signature: Seq<u8>) -> IssuanceProofModel {
        IssuanceProofModel { holder_signature: signature, ..self.proof@ }
    }

    /// The proof announces the nonces, answers the challenge for that announcement with the
    /// opening of the commitment, and asks the holder to sign just that.
    pub open spec fn answers(
        self,
        witness: WitnessModel,
        request: CredentialRequestModel,
        nonce_subject: nat,
        nonce_blinding: nat,
    ) -> bool {
        let proof = self.proof_with(Seq::empty());
        &&& encodes(proof.announcement_commitment, committed(nonce_subject, nonce_blinding))
        &&& request.statement() matches Ok(statement)
        &&& {
            let challenge = issuance_challenge_for(statement, proof.announcement_commitment);
            &&& le_nat(proof.response_subject@) == response(
                nonce_subject,
                challenge,
                witness.secret,
            )
            &&& le_nat(proof.response_blinding@) == response(
                nonce_blinding,
                challenge,
                witness.blinding,
            )
        }
        &&& proof.signing_message(request) == Ok::<Digest32, DeKyxError>(self.spec_message())
    }

    /// The signature is all that signing changes.
    pub proof fn lemma_signature_only(self, signature: Seq<u8>)
        ensures
            self.proof_with(signature) == (IssuanceProofModel {
                holder_signature: signature,
                ..self.proof_with(Seq::empty())
            }),
    {
    }

    /// The digest that the holder has to sign, for the purpose of attestation.
    pub fn message(&self) -> (r: Digest32)
        ensures
            r == self.spec_message(),
    {
        self.message
    }

    /// The proof with the holder's signature, which is missing where the signature backend
    /// could not sign.
    pub fn signed(self, signature: Option<Vec<u8>>) -> (r: Result<
        CredentialIssuanceProof,
        DeKyxError,
    >)
        ensures
            match signature {
                Some(bytes) => r matches Ok(proof) && proof@ == self.proof_with(bytes@),
                None => r matches Err(e) && e == DeKyxError::InvalidIssuanceProof,
            },
    {
        match signature {
            None => Err(DeKyxError::InvalidIssuanceProof),
            Some(holder_signature) => Ok(
                CredentialIssuanceProof {
                    announcement_commitment: self.proof.announcement_commitment,
                    response_subject: self.proof.response_subject,
                    response_blinding: self.proof.response_blinding,
                    holder_signature,
                },
            ),
        }
    }
}

/// An honest issuance proof is accepted: where a proof answers a request whose commitment the
/// witness opens, and the signature backend accepts the holder's signature of its message, the
/// signed proof checks.
pub proof fn law_issuance_proof_verifies(
    unsigned: UnsignedIssuanceProof,
    witness: WitnessModel,
    request: CredentialRequestModel,
    nonce_subject: nat,
    nonce_blinding: nat,
    signature: Seq<u8>,
    reports: SignatureReports,
)
    requires
        unsigned.answers(witness, request, nonce_subject, nonce_blinding),
        encodes(request.subject_commitment, witness.commitment()),
        reports.accepted(
            holder_check(
                KeyPurpose::Attestation,
                request.holder_public_key,
                unsigned.spec_message(),
                signature,
            ),
        ),
    ensures
        unsigned.proof_with(signature).check(request, reports) == Ok::<(), DeKyxError>(()),
{
    let proof = unsigned.proof_with(signature);
    assert(proof.signing_message(request) == unsigned.proof_with(Seq::empty()).signing_message(
        request,
    ));
    let challenge = issuance_challenge_for(
        request.statement()->Ok_0,
        proof.announcement_commitment,
    );
    law_commitment_answer(
        witness.secret,
        witness.blinding,
        nonce_subject,
        nonce_blinding,
        challenge,
    );
}

/// Witnesses with the same secret have the same pseudonym in a scope, whatever their blinding
/// and their holder key.
pub proof fn law_same_secret_same_pseudonym(
    a: WitnessModel,
    b: WitnessModel,
    scope: Digest32,
    a_nullifier: [u8; 32],
    b_nullifier: [u8; 32],
)
    requires
        a.secret == b.secret,
        encodes(a_nullifier, pseudonym(scope, a.secret)),
        encodes(b_nullifier, pseudonym(scope, b.secret)),
    ensures
        a_nullifier == b_nullifier,
{
}

/// What a rerandomized witness keeps and what it changes: its pseudonym is the same in every
/// scope and so are its qualification proofs, its holder key is the given one, and its
/// commitment is another one wherever its blinding is, as long as the generator for blindings
/// generates the group.
pub proof fn law_rerandomized_witness(
    witness: WitnessModel,
    blinding: nat,
    holder: HolderKeyModel,
    scope: Digest32,
    target: QualificationModel,
    commitment: [u8; 32],
    rerandomized_commitment: [u8; 32],
)
    requires
        witness.sound(),
        blinding < group_order(),
        encodes(commitment, witness.commitment()),
        encodes(
            rerandomized_commitment,
            (WitnessModel { blinding, holder, ..witness }).commitment(),
        ),
    ensures
        ({
            let after = WitnessModel { blinding, holder, ..witness };
            &&& after.sound()
            &&& pseudonym(scope, after.secret) == pseudonym(scope, witness.secret)
            &&& proof_of(after.qualifications, target) == proof_of(witness.qualifications, target)
            &&& after.holder == holder
            &&& invertible(blinding_multiple()) && blinding != witness.blinding
                ==> rerandomized_commitment != commitment
        }),
{
    if invertible(blinding_multiple()) && blinding != witness.blinding {
        law_blinding_changes_commitment(witness.secret, blinding, witness.blinding);
    }
}

/// Rerandomizing keeps the secret and the qualifications, and takes the blinding and the holder
/// key that it is given.
pub proof fn law_rerandomizing_keeps_the_secret(
    witness: WitnessModel,
    blinding: nat,
    holder: HolderKeyModel,
)
    ensures
        witness.rerandomized(blinding, holder).secret == witness.secret,
        witness.rerandomized(blinding, holder).qualifications == witness.qualifications,
        witness.rerandomized(blinding, holder).blinding == blinding,
        witness.rerandomized(blinding, holder).holder == holder,
{
}

/// A draw of 64 bytes is read as a little-endian number and reduced modulo the group order.
pub proof fn law_draws_are_reduced(bytes: [u8; 64])
    ensures
        drawn(bytes) < group_order(),
        drawn(bytes) == le_nat(bytes@) % group_order(),
{
    vstd::arithmetic::div_mod::lemma_mod_bound(le_nat(bytes@) as int, group_order() as int);
}

/// A witness is made of every secret but zero and every set of qualifications that can be issued,
/// and of nothing else; it has the secret, the blinding and the holder key that it is made of,
/// and the same qualifications in canonical order. A secret of zero is named first.
pub proof fn law_witness_made_of_its_parts(
    subject_secret: nat,
    blinding: nat,
    qualifications: Seq<QualificationModel>,
    holder: HolderKeyModel,
)
    ensures
        subject_secret == 0 ==> witness_refusal(subject_secret, qualifications) == Some(
            DeKyxError::InvalidWitness,
        ),
        subject_secret > 0 && !admissible(qualifications) ==> witness_refusal(
            subject_secret,
            qualifications,
        ) == Some(DeKyxError::InvalidQualification),
        subject_secret > 0 && admissible(qualifications) ==> witness_refusal(
            subject_secret,
            qualifications,
        ) is None,
        ({
            let witness = witness_of(subject_secret, blinding, qualifications, holder);
            &&& witness.secret == subject_secret
            &&& witness.blinding == blinding
            &&& witness.holder == holder
            &&& witness.qualifications.to_multiset() == qualifications.to_multiset()
            &&& admissible(qualifications) ==> strictly_ordered(witness.qualifications)
        }),
{
    lemma_canonical_order(qualifications);
    lemma_strictly_ordered(canonical_order(qualifications));
}

/// The commitment of a witness is the base point times the secret plus the generator for
/// blindings times the blinding, and its pseudonym in a scope is the generator of the scope times
/// the secret.
pub proof fn law_commitment_and_pseudonym(witness: WitnessModel, scope: Digest32)
    ensures
        witness.commitment() == (witness.secret + hashed_multiple(
            encode_utf8("DEKYX:SUBJECT-BLINDING-GENERATOR:v1"@),
        ) * witness.blinding) % group_order(),
        pseudonym(scope, witness.secret) == (hashed_multiple(
            encode_utf8("DEKYX:SCOPE-NULLIFIER-GENERATOR:v1"@) + scope@,
        ) * witness.secret) % group_order(),
{
}

/// A witness proves every request that is its own: one with its commitment, its holder key, its
/// suite and, in whatever order, its qualifications, that is fit to be answered. It proves no
/// other, and what is amiss is named in this order: the holder, qualifications that cannot be
/// issued, other qualifications, and the request.
pub proof fn law_issuance_refused_only_for_cause(
    witness: WitnessModel,
    request: CredentialRequestModel,
)
    requires
        witness.sound(),
    ensures
        ({
            let refusal = witness.issuance_refusal(request);
            let own = {
                &&& request.subject_commitment == point_encoding(
                    (witness.secret + hashed_multiple(
                        encode_utf8("DEKYX:SUBJECT-BLINDING-GENERATOR:v1"@),
                    ) * witness.blinding) % group_order(),
                )
                &&& request.holder_public_key == witness.holder.public_key
                &&& request.holder_suite == witness.holder.suite
            };
            let issuable = own && admissible(request.qualifications);
            let same = issuable && request.qualifications.to_multiset()
                == witness.qualifications.to_multiset();
            &&& !own ==> refusal == Some(DeKyxError::MismatchedWitnessOrContext)
            &&& own && !issuable ==> refusal == Some(DeKyxError::InvalidQualification)
            &&& issuable && !same ==> refusal == Some(DeKyxError::MismatchedWitnessOrContext)
            &&& same && request.statement() is Err ==> refusal == Some(request.statement()->Err_0)
            &&& same && request.statement() is Ok ==> refusal is None
        }),
{
    let ordered = canonical_order(request.qualifications);
    lemma_canonical_order(request.qualifications);
    lemma_canonical_order(witness.qualifications);
    lemma_qualification_order_total();
    if request.qualifications.to_multiset() == witness.qualifications.to_multiset() {
        vstd::seq_lib::lemma_sorted_unique(
            ordered,
            witness.qualifications,
            qualification_order(),
        );
    }
}

/// What a proof of possession at issuance holds: an announcement of the two nonces, and answers
/// from these nonces, the secret and the blinding to the challenge for the request and that
/// announcement. The holder is asked to sign the statement of the request and all of it.
pub proof fn law_issuance_proof_holds_what_it_should(
    unsigned: UnsignedIssuanceProof,
    witness: WitnessModel,
    request: CredentialRequestModel,
    nonce_subject: nat,
    nonce_blinding: nat,
    signature: Seq<u8>,
)
    requires
        unsigned.answers(witness, request, nonce_subject, nonce_blinding),
    ensures
        ({
            let p = unsigned.proof_with(signature);
            let statement = request.statement()->Ok_0;
            let challenge = le_nat(
                sha512_digest(
                    encode_utf8("DEKYX:ISSUANCE-PROOF:v2"@) + statement@
                        + p.announcement_commitment@,
                )@,
            ) % group_order();
            &&& request.statement() is Ok
            &&& p.holder_signature == signature
            &&& p.announcement_commitment == point_encoding(
                (nonce_subject + hashed_multiple(
                    encode_utf8("DEKYX:SUBJECT-BLINDING-GENERATOR:v1"@),
                ) * nonce_blinding) % group_order(),
            )
            &&& le_nat(p.response_subject@) == (nonce_subject + challenge * witness.secret)
                % group_order()
            &&& le_nat(p.response_blinding@) == (nonce_blinding + challenge * witness.blinding)
                % group_order()
            &&& unsigned.spec_message() == sha256_digest(
                encode_utf8("DEKYX:HOLDER-ISSUANCE:v2"@) + fields_message(
                    seq![
                        statement@,
                        p.announcement_commitment@,
                        p.response_subject@,
                        p.response_blinding@,
                    ],
                ),
            )
        }),
{
    unsigned.lemma_signature_only(signature);
}

/// The contents of a holder key are its parts.
pub proof fn law_holder_key_contents(key: HolderKey)
    ensures
        key@.seed == key.seed,
        key@.public_key == key.public_key@,
        key@.suite.id == key.suite.id,
        key@.suite.encoding == key.suite.encoding@,
{
}

} // verus!
