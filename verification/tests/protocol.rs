use dekyx_core::{
    AnonymousPresentation, Credential, CredentialIssuanceProof, CredentialIssuer,
    CredentialRequest, CredentialWitness, DeKyxError, DeKyxVerifier, EligibilityProvider,
    EligibilityRequirement, HolderKey, HybridSignature, IssuerDefinition, IssuerDirectory,
    IssuerDirectoryRecord, IssuerRegistry, IssuerStatus, KeyPurpose, PresentationContext,
    PresentationLedger, Qualification, RevocationStatusList, SignatureBytes, SignatureCheck,
    SignatureReports, SignatureScheme, SubjectKind, SubjectKinds, Suite, SuiteId, TextMap,
    VerifiedEligibility,
};
use ed25519_dalek::{Signature, Signer, SigningKey, Verifier, VerifyingKey};
use rand_core::{OsRng, RngCore};
use sha2::{Digest, Sha256};

fn id(byte: u8) -> [u8; 32] {
    [byte; 32]
}

// A signature backend for tests. The classical half is real Ed25519; the post-quantum half is a
// digest of key, purpose and message, stretched to the length of an ML-DSA-65 signature.

fn purpose_byte(purpose: KeyPurpose) -> u8 {
    match purpose {
        KeyPurpose::Attestation => 1,
        KeyPurpose::Order => 2,
    }
}

fn stretch(parts: &[&[u8]], length: usize) -> Vec<u8> {
    let mut out = Vec::new();
    let mut counter = 0u32;
    while out.len() < length {
        let mut hash = Sha256::new();
        hash.update(counter.to_be_bytes());
        for part in parts {
            hash.update((part.len() as u32).to_be_bytes());
            hash.update(part);
        }
        out.extend_from_slice(&hash.finalize());
        counter += 1;
    }
    out.truncate(length);
    out
}

fn pq_public_key(seed: &[u8]) -> Vec<u8> {
    stretch(&[b"pq-key", seed], 1952)
}

fn pq_sign(public_key: &[u8], purpose: KeyPurpose, message: &[u8]) -> Vec<u8> {
    stretch(&[b"pq-signature", public_key, &[purpose_byte(purpose)], message], 3309)
}

fn hybrid_suite() -> Suite {
    Suite { id: SuiteId::Ed25519MlDsa65, encoding: vec![0, 3, 0, 1] }
}

fn holder_suite() -> Suite {
    Suite { id: SuiteId::MlDsa65, encoding: vec![0, 2, 0, 1] }
}

fn hybrid_public_key(key: &SigningKey) -> Vec<u8> {
    let classical = key.verifying_key().to_bytes();
    let mut out = classical.to_vec();
    out.extend_from_slice(&pq_public_key(&classical));
    out
}

fn hybrid_sign(key: &SigningKey, message: &[u8; 32]) -> HybridSignature {
    let mut signed = vec![purpose_byte(KeyPurpose::Attestation)];
    signed.extend_from_slice(message);
    HybridSignature {
        classical: key.sign(&signed).to_bytes().to_vec(),
        pq: pq_sign(
            &pq_public_key(&key.verifying_key().to_bytes()),
            KeyPurpose::Attestation,
            message,
        ),
    }
}

fn backend_verifies(check: &SignatureCheck) -> bool {
    match check.scheme {
        SignatureScheme::MlDsa65 => {
            check.pq == pq_sign(&check.public_key, check.purpose, &check.message)
        }
        SignatureScheme::Hybrid => {
            let classical_key: [u8; 32] = match check.public_key[..32].try_into() {
                Ok(key) => key,
                Err(_) => return false,
            };
            let classical: [u8; 64] = match check.classical.as_slice().try_into() {
                Ok(bytes) => bytes,
                Err(_) => return false,
            };
            let mut signed = vec![purpose_byte(check.purpose)];
            signed.extend_from_slice(&check.message);
            VerifyingKey::from_bytes(&classical_key).is_ok_and(|key| {
                key.verify(&signed, &Signature::from_bytes(&classical)).is_ok()
            }) && check.pq == pq_sign(&check.public_key[32..], check.purpose, &check.message)
        }
    }
}

fn examine(reports: &mut SignatureReports, check: Result<SignatureCheck, DeKyxError>) {
    if let Ok(check) = check {
        if backend_verifies(&check) {
            reports.accept(check);
        }
    }
}

fn encode(reports: &mut SignatureReports, signature: &SignatureBytes) {
    if signature.pq.len() == 3309 {
        let mut encoding = signature.first.to_vec();
        encoding.extend_from_slice(&signature.second);
        encoding.extend_from_slice(&signature.pq);
        reports.set_encoding(signature.clone(), encoding);
    }
}

fn list_reports(definition: &IssuerDefinition, list: &RevocationStatusList) -> SignatureReports {
    let mut reports = SignatureReports::new();
    examine(&mut reports, list.signature_check(definition));
    reports
}

fn presentation_reports(
    definition: &IssuerDefinition,
    list: &RevocationStatusList,
    presentation: &AnonymousPresentation,
) -> SignatureReports {
    let mut reports = list_reports(definition, list);
    examine(&mut reports, presentation.credential.signature_check(definition));
    encode(&mut reports, &presentation.credential.signature);
    let holder = presentation.signature_check(&reports);
    examine(&mut reports, holder);
    reports
}

fn draw() -> [u8; 64] {
    let mut bytes = [0u8; 64];
    OsRng.fill_bytes(&mut bytes);
    bytes
}

fn fresh_holder_key() -> HolderKey {
    let mut seed = [0u8; 32];
    OsRng.fill_bytes(&mut seed);
    HolderKey { seed, public_key: pq_public_key(&seed), suite: holder_suite() }
}

fn random_witness(qualifications: Vec<Qualification>) -> CredentialWitness {
    loop {
        if let Some(witness) =
            CredentialWitness::random(qualifications.clone(), &draw(), &draw(), fresh_holder_key())
                .unwrap()
        {
            return witness;
        }
    }
}

fn prove_issuance(
    witness: &CredentialWitness,
    request: &CredentialRequest,
) -> CredentialIssuanceProof {
    let unsigned = witness.prove_issuance(request, &draw(), &draw()).unwrap();
    let signature =
        pq_sign(&witness.holder_public_key(), KeyPurpose::Attestation, &unsigned.message());
    unsigned.signed(Some(signature)).unwrap()
}

fn issue(
    issuer: &CredentialIssuer,
    key: &SigningKey,
    request: CredentialRequest,
    proof: CredentialIssuanceProof,
) -> Result<Credential, DeKyxError> {
    let mut reports = SignatureReports::new();
    examine(&mut reports, proof.signature_check(&request));
    let unsigned = issuer.issue(request, proof, &reports)?;
    let signature = hybrid_sign(key, &unsigned.message());
    unsigned.signed(Some(signature))
}

fn issue_status_list(
    issuer: &CredentialIssuer,
    key: &SigningKey,
    status_epoch: u64,
    effective_at: u64,
    valid_until: u64,
    revoked: Vec<[u8; 32]>,
) -> RevocationStatusList {
    let unsigned =
        issuer.issue_status_list(status_epoch, effective_at, valid_until, revoked).unwrap();
    let signature = hybrid_sign(key, &unsigned.message());
    unsigned.signed(Some(signature)).unwrap()
}

fn present(
    credential: Credential,
    witness: &CredentialWitness,
    context: PresentationContext,
    required: &[Qualification],
) -> Result<AnonymousPresentation, DeKyxError> {
    let mut reports = SignatureReports::new();
    encode(&mut reports, &credential.signature);
    let unsigned = AnonymousPresentation::create(
        credential,
        witness,
        context,
        required,
        &draw(),
        &draw(),
        &reports,
    )?;
    let signature = pq_sign(&witness.holder_public_key(), KeyPurpose::Order, &unsigned.message());
    unsigned.signed(Some(signature))
}

fn publish(
    directory: &mut IssuerDirectory,
    list: RevocationStatusList,
) -> Result<(), DeKyxError> {
    let reports = match directory.issuer(&list.issuer_id, list.issuer_key_epoch) {
        Ok(definition) => list_reports(definition, &list),
        Err(_) => SignatureReports::new(),
    };
    directory.publish_status_list(list, &reports)
}

fn verify_in(
    directory: &IssuerDirectory,
    key_epoch: u64,
    requirement: &EligibilityRequirement,
    context: &PresentationContext,
    presentation: &AnonymousPresentation,
    now: u64,
) -> Result<VerifiedEligibility, DeKyxError> {
    let issuer_id = requirement.issuer_id;
    let definition = directory.issuer(&issuer_id, key_epoch)?;
    let list = directory.status_list(&issuer_id, key_epoch).ok_or(DeKyxError::MissingStatusList)?;
    let reports = presentation_reports(definition, list, presentation);
    let verifier = directory.verifier_for(&issuer_id, key_epoch, &reports)?;
    verifier.verify_eligibility(requirement, context, presentation, now)
}

#[test]
fn selective_qualification_proof_hides_other_attributes_and_consumes_context_once() {
    let signing = SigningKey::generate(&mut OsRng);
    let definition = IssuerDefinition {
        issuer_id: id(1),
        key_epoch: 1,
        public_key: signing.verifying_key().to_bytes(),
        pq_public_key: pq_public_key(&signing.verifying_key().to_bytes()),
        signature_suite: hybrid_suite(),
        supported_subjects: SubjectKinds::of(&[SubjectKind::LegalEntity]),
        namespace_digest: id(2),
        valid_from: 100,
        valid_until: 1_000,
        status: IssuerStatus::Active,
    };
    let issuer = CredentialIssuer::new(definition.clone(), &hybrid_public_key(&signing)).unwrap();
    let qualifications = vec![
        Qualification { namespace: "global.lei".into(), predicate_digest: id(3) },
        Qualification { namespace: "jp.kyb".into(), predicate_digest: id(4) },
        Qualification { namespace: "market.professional".into(), predicate_digest: id(5) },
    ];
    let required = qualifications[1].clone();
    let witness = random_witness(qualifications.clone());
    let credential_request = CredentialRequest {
        credential_id: id(6),
        issuer_id: id(1),
        issuer_key_epoch: 1,
        subject_kind: SubjectKind::LegalEntity,
        subject_commitment: witness.subject_commitment(),
        holder_public_key: witness.holder_public_key(),
        holder_suite: witness.holder_suite(),
        scope_digest: id(7),
        policy_digest: id(8),
        qualifications,
        status_epoch: 2,
        valid_from: 100,
        valid_until: 900,
    };
    let issuance_proof = prove_issuance(&witness, &credential_request);
    let credential = issue(&issuer, &signing, credential_request, issuance_proof).unwrap();
    let status = issue_status_list(&issuer, &signing, 3, 100, 950, vec![]);
    let mut registry = IssuerRegistry::default();
    registry.register(definition.clone()).unwrap();
    let requirement = EligibilityRequirement {
        issuer_id: id(1),
        issuer_key_epoch: 1,
        issuer_namespace_digest: id(2),
        subject_kind: SubjectKind::LegalEntity,
        scope_digest: id(7),
        policy_digest: id(8),
        required_qualifications: vec![required.clone()],
    };
    let context = PresentationContext {
        scope_digest: id(7),
        audience_digest: id(9),
        action_digest: id(10),
        request_digest: id(11),
        challenge_nonce: id(12),
        valid_until: 800,
    };
    let proof =
        present(credential.clone(), &witness, context, std::slice::from_ref(&required)).unwrap();
    assert_eq!(proof.qualifications.len(), 1);
    let reports = presentation_reports(&definition, &status, &proof);
    let verified = DeKyxVerifier {
        issuers: &registry,
        status_list: &status,
        signatures: &reports,
    }
    .verify_eligibility(&requirement, &context, &proof, 200)
    .unwrap();
    for mutation in 0..4 {
        let mut changed = proof.clone();
        match mutation {
            0 => changed.credential.signature.first[0] ^= 1,
            1 => changed.credential.signature.pq[0] ^= 1,
            2 => {
                changed.credential.signature.pq.pop().unwrap();
            }
            3 => changed.credential.signature.pq.clear(),
            _ => unreachable!(),
        }
        let reports = presentation_reports(&definition, &status, &changed);
        let verifier =
            DeKyxVerifier { issuers: &registry, status_list: &status, signatures: &reports };
        assert_eq!(
            verifier.verify_eligibility(&requirement, &context, &changed, 200),
            Err(DeKyxError::InvalidCredentialSignature),
            "accepted credential with only one valid signature component",
        );
    }
    for mutation in 0..3 {
        let mut changed = status.clone();
        match mutation {
            0 => changed.signature.first[0] ^= 1,
            1 => changed.signature.pq[0] ^= 1,
            2 => changed.signature.pq.clear(),
            _ => unreachable!(),
        }
        let reports = presentation_reports(&definition, &changed, &proof);
        let changed_verifier =
            DeKyxVerifier { issuers: &registry, status_list: &changed, signatures: &reports };
        assert_eq!(
            changed_verifier.verify_eligibility(&requirement, &context, &proof, 200),
            Err(DeKyxError::InvalidStatusListSignature),
        );
    }
    let mut ledger = PresentationLedger::default();
    ledger.consume(&verified.subject_nullifier, &context).unwrap();

    let rerandomized =
        present(credential, &witness, context, std::slice::from_ref(&required)).unwrap();
    let again = presentation_reports(&definition, &status, &rerandomized);
    let rerandomized_verified =
        DeKyxVerifier { issuers: &registry, status_list: &status, signatures: &again }
            .verify_eligibility(&requirement, &context, &rerandomized, 200)
            .unwrap();
    assert_ne!(proof.digest(&reports).unwrap(), rerandomized.digest(&again).unwrap());
    assert_eq!(
        ledger.consume(&rerandomized_verified.subject_nullifier, &context),
        Err(DeKyxError::ReplayedContext)
    );
}

#[test]
fn duplicate_issuer_epoch_does_not_replace_the_existing_trust_anchor() {
    let first = SigningKey::generate(&mut OsRng);
    let second = SigningKey::generate(&mut OsRng);
    let definition = |key: &SigningKey| IssuerDefinition {
        issuer_id: id(20),
        key_epoch: 5,
        public_key: key.verifying_key().to_bytes(),
        pq_public_key: pq_public_key(&key.verifying_key().to_bytes()),
        signature_suite: hybrid_suite(),
        supported_subjects: SubjectKinds::of(&[SubjectKind::Person]),
        namespace_digest: id(21),
        valid_from: 1,
        valid_until: 100,
        status: IssuerStatus::Active,
    };
    let mut registry = IssuerRegistry::default();
    registry.register(definition(&first)).unwrap();
    assert_eq!(
        registry.register(definition(&second)),
        Err(DeKyxError::DuplicateIssuerEpoch)
    );
    assert_eq!(
        registry.issuer(&id(20), 5).unwrap().public_key,
        first.verifying_key().to_bytes()
    );
}

#[test]
fn issuance_rejects_a_commitment_not_opened_by_the_holder_proof() {
    let signing = SigningKey::generate(&mut OsRng);
    let definition = IssuerDefinition {
        issuer_id: id(30),
        key_epoch: 1,
        public_key: signing.verifying_key().to_bytes(),
        pq_public_key: pq_public_key(&signing.verifying_key().to_bytes()),
        signature_suite: hybrid_suite(),
        supported_subjects: SubjectKinds::of(&[SubjectKind::LegalEntity]),
        namespace_digest: id(31),
        valid_from: 1,
        valid_until: 1_000,
        status: IssuerStatus::Active,
    };
    let issuer = CredentialIssuer::new(definition, &hybrid_public_key(&signing)).unwrap();
    let qualification = Qualification { namespace: "global.lei".into(), predicate_digest: id(32) };
    let holder = random_witness(vec![qualification.clone()]);
    let substitute = random_witness(vec![qualification.clone()]);
    let request = CredentialRequest {
        credential_id: id(33),
        issuer_id: id(30),
        issuer_key_epoch: 1,
        subject_kind: SubjectKind::LegalEntity,
        subject_commitment: holder.subject_commitment(),
        holder_public_key: holder.holder_public_key(),
        holder_suite: holder.holder_suite(),
        scope_digest: id(34),
        policy_digest: id(35),
        qualifications: vec![qualification],
        status_epoch: 1,
        valid_from: 1,
        valid_until: 900,
    };
    let proof = prove_issuance(&holder, &request);
    let mut substituted_request = request;
    substituted_request.subject_commitment = substitute.subject_commitment();
    assert_eq!(
        issue(&issuer, &signing, substituted_request.clone(), proof.clone()),
        Err(DeKyxError::InvalidIssuanceProof)
    );
    // Nor does signing the old answers anew help: they do not open the other commitment.
    let mut resigned = proof;
    let message = resigned.holder_signing_message(&substituted_request).unwrap();
    resigned.holder_signature =
        pq_sign(&substituted_request.holder_public_key, KeyPurpose::Attestation, &message);
    assert_eq!(
        issue(&issuer, &signing, substituted_request, resigned),
        Err(DeKyxError::InvalidIssuanceProof)
    );
}

fn issuer_definition(
    key: &SigningKey,
    issuer: u8,
    epoch: u64,
    namespace: u8,
    valid_until: u64,
) -> IssuerDefinition {
    IssuerDefinition {
        issuer_id: id(issuer),
        key_epoch: epoch,
        public_key: key.verifying_key().to_bytes(),
        pq_public_key: pq_public_key(&key.verifying_key().to_bytes()),
        signature_suite: hybrid_suite(),
        supported_subjects: SubjectKinds::of(&[SubjectKind::LegalEntity]),
        namespace_digest: id(namespace),
        valid_from: 1,
        valid_until,
        status: IssuerStatus::Active,
    }
}

fn issue_for(
    issuer: &CredentialIssuer,
    key: &SigningKey,
    definition: &IssuerDefinition,
    witness: &CredentialWitness,
    qualification: &Qualification,
    credential_id: u8,
    scope: u8,
    policy: u8,
) -> Credential {
    let request = CredentialRequest {
        credential_id: id(credential_id),
        issuer_id: definition.issuer_id,
        issuer_key_epoch: definition.key_epoch,
        subject_kind: SubjectKind::LegalEntity,
        subject_commitment: witness.subject_commitment(),
        holder_public_key: witness.holder_public_key(),
        holder_suite: witness.holder_suite(),
        scope_digest: id(scope),
        policy_digest: id(policy),
        qualifications: vec![qualification.clone()],
        status_epoch: 1,
        valid_from: 1,
        valid_until: 900,
    };
    let proof = prove_issuance(witness, &request);
    issue(issuer, key, request, proof).unwrap()
}

fn requirement_for(
    definition: &IssuerDefinition,
    scope: u8,
    policy: u8,
    qualification: &Qualification,
) -> EligibilityRequirement {
    EligibilityRequirement {
        issuer_id: definition.issuer_id,
        issuer_key_epoch: definition.key_epoch,
        issuer_namespace_digest: definition.namespace_digest,
        subject_kind: SubjectKind::LegalEntity,
        scope_digest: id(scope),
        policy_digest: id(policy),
        required_qualifications: vec![qualification.clone()],
    }
}

fn context_for(scope: u8, nonce: u8) -> PresentationContext {
    PresentationContext {
        scope_digest: id(scope),
        audience_digest: id(200),
        action_digest: id(201),
        request_digest: id(202),
        challenge_nonce: id(nonce),
        valid_until: 800,
    }
}

#[test]
fn key_rotation_bounds_the_old_epoch_and_keeps_the_subject_line() {
    let first_key = SigningKey::generate(&mut OsRng);
    let second_key = SigningKey::generate(&mut OsRng);
    let first = issuer_definition(&first_key, 40, 1, 41, 1_000);
    let second = issuer_definition(&second_key, 40, 2, 41, 1_000);
    let first_issuer =
        CredentialIssuer::new(first.clone(), &hybrid_public_key(&first_key)).unwrap();
    let second_issuer =
        CredentialIssuer::new(second.clone(), &hybrid_public_key(&second_key)).unwrap();
    let qualification = Qualification { namespace: "jp.kyb".into(), predicate_digest: id(42) };
    let witness = random_witness(vec![qualification.clone()]);
    let old_credential =
        issue_for(&first_issuer, &first_key, &first, &witness, &qualification, 43, 44, 45);

    let mut directory = IssuerDirectory::default();
    directory.register_issuer(first.clone()).unwrap();
    // A later epoch cannot be registered without bounding the earlier one.
    assert_eq!(
        directory.register_issuer(second.clone()),
        Err(DeKyxError::InvalidKeyRotation)
    );
    // Fail closed until the issuer publishes a status list for the epoch.
    assert_eq!(
        directory.verifier_for(&id(40), 1, &SignatureReports::new()).map(|_| ()),
        Err(DeKyxError::MissingStatusList)
    );
    publish(
        &mut directory,
        issue_status_list(&first_issuer, &first_key, 1, 1, 950, vec![]),
    )
    .unwrap();
    let requirement = requirement_for(&first, 44, 45, &qualification);
    let context = context_for(44, 46);
    let old_presentation = present(
        old_credential,
        &witness,
        context,
        std::slice::from_ref(&qualification),
    )
    .unwrap();
    let before_rotation =
        verify_in(&directory, 1, &requirement, &context, &old_presentation, 200).unwrap();

    // Rotation with the same key or a non-increasing epoch is refused.
    let same_key = issuer_definition(&first_key, 40, 2, 41, 1_000);
    assert_eq!(
        directory.rotate_key(same_key, 300),
        Err(DeKyxError::InvalidKeyRotation)
    );
    directory.rotate_key(second.clone(), 300).unwrap();
    assert_eq!(
        directory.current_epoch(&id(40), SubjectKind::LegalEntity, 250),
        Some(2)
    );
    assert_eq!(directory.issuer(&id(40), 1).unwrap().valid_until, 300);

    // Within the grace window the old epoch still verifies.
    verify_in(&directory, 1, &requirement, &context, &old_presentation, 250).unwrap();
    // After the grace window it does not.
    assert_eq!(
        verify_in(&directory, 1, &requirement, &context, &old_presentation, 400),
        Err(DeKyxError::IssuerNotAuthorized)
    );

    // The same subject re-issued under the new epoch continues the same line.
    publish(
        &mut directory,
        issue_status_list(&second_issuer, &second_key, 1, 1, 950, vec![]),
    )
    .unwrap();
    let new_credential =
        issue_for(&second_issuer, &second_key, &second, &witness, &qualification, 47, 44, 45);
    let new_presentation = present(
        new_credential,
        &witness,
        context,
        std::slice::from_ref(&qualification),
    )
    .unwrap();
    let after_rotation = verify_in(
        &directory,
        2,
        &requirement_for(&second, 44, 45, &qualification),
        &context,
        &new_presentation,
        400,
    )
    .unwrap();
    assert_eq!(
        after_rotation.subject_nullifier,
        before_rotation.subject_nullifier
    );
    assert_eq!(
        after_rotation.subject_line_id,
        before_rotation.subject_line_id
    );
    assert_ne!(
        after_rotation.issuer_key_epoch,
        before_rotation.issuer_key_epoch
    );

    // Immediate retirement is the compromise path: the old epoch is revoked.
    let third = issuer_definition(&SigningKey::generate(&mut OsRng), 40, 3, 41, 1_000);
    directory.rotate_key(third, 0).unwrap();
    assert_eq!(
        directory.issuer(&id(40), 2).unwrap().status,
        IssuerStatus::Revoked
    );
    assert_eq!(
        verify_in(
            &directory,
            2,
            &requirement_for(&second, 44, 45, &qualification),
            &context,
            &new_presentation,
            400,
        ),
        Err(DeKyxError::IssuerNotAuthorized)
    );
}

#[test]
fn different_scopes_are_not_publicly_linkable() {
    let key = SigningKey::generate(&mut OsRng);
    let definition = issuer_definition(&key, 50, 1, 51, 1_000);
    let issuer = CredentialIssuer::new(definition.clone(), &hybrid_public_key(&key)).unwrap();
    let qualification = Qualification { namespace: "jp.kyb".into(), predicate_digest: id(52) };
    let witness_a = random_witness(vec![qualification.clone()]);
    let witness_b = witness_a.rerandomize(&draw(), fresh_holder_key());
    let credential_a =
        issue_for(&issuer, &key, &definition, &witness_a, &qualification, 53, 54, 55);
    let credential_b =
        issue_for(&issuer, &key, &definition, &witness_b, &qualification, 56, 57, 55);
    assert_ne!(
        credential_a.subject_commitment,
        credential_b.subject_commitment
    );

    let mut directory = IssuerDirectory::default();
    directory.register_issuer(definition.clone()).unwrap();
    publish(
        &mut directory,
        issue_status_list(&issuer, &key, 1, 1, 950, vec![]),
    )
    .unwrap();
    let context_a = context_for(54, 58);
    let context_b = context_for(57, 59);
    let presentation_a = present(
        credential_a.clone(),
        &witness_a,
        context_a,
        std::slice::from_ref(&qualification),
    )
    .unwrap();
    let presentation_b = present(
        credential_b,
        &witness_b,
        context_b,
        std::slice::from_ref(&qualification),
    )
    .unwrap();
    let verified_a = verify_in(
        &directory,
        1,
        &requirement_for(&definition, 54, 55, &qualification),
        &context_a,
        &presentation_a,
        200,
    )
    .unwrap();
    let verified_b = verify_in(
        &directory,
        1,
        &requirement_for(&definition, 57, 55, &qualification),
        &context_b,
        &presentation_b,
        200,
    )
    .unwrap();
    // Nothing that reaches a verifier ties the two scopes together.
    assert_ne!(verified_a.subject_commitment, verified_b.subject_commitment);
    assert_ne!(verified_a.subject_nullifier, verified_b.subject_nullifier);
    assert_ne!(verified_a.subject_line_id, verified_b.subject_line_id);
    assert_ne!(verified_a.proof_digest, verified_b.proof_digest);

    // A credential for one scope cannot satisfy the other scope's requirement,
    // and a witness cannot present a credential whose commitment it does not open.
    assert_eq!(
        verify_in(
            &directory,
            1,
            &requirement_for(&definition, 57, 55, &qualification),
            &context_b,
            &presentation_a,
            200,
        ),
        Err(DeKyxError::RequirementMismatch)
    );
    assert_eq!(
        present(
            credential_a,
            &witness_b,
            context_a,
            std::slice::from_ref(&qualification),
        )
        .map(|_| ()),
        Err(DeKyxError::MismatchedWitnessOrContext)
    );
}

#[test]
fn directory_rejects_stale_status_lists_and_reloads_only_validated_state() {
    let key = SigningKey::generate(&mut OsRng);
    let definition = issuer_definition(&key, 60, 1, 61, 1_000);
    let issuer = CredentialIssuer::new(definition.clone(), &hybrid_public_key(&key)).unwrap();
    let mut directory = IssuerDirectory::default();
    directory.register_issuer(definition.clone()).unwrap();
    let newer = issue_status_list(&issuer, &key, 3, 1, 950, vec![id(62)]);
    let older = issue_status_list(&issuer, &key, 2, 1, 950, vec![]);
    publish(&mut directory, newer.clone()).unwrap();
    // An older list cannot un-revoke by replacing the newer one.
    assert_eq!(
        publish(&mut directory, older),
        Err(DeKyxError::StaleStatusList)
    );
    assert_eq!(
        publish(&mut directory, newer.clone()),
        Err(DeKyxError::StaleStatusList)
    );
    // A list signed by an unregistered epoch is refused.
    let stranger = CredentialIssuer::new(
        issuer_definition(&SigningKey::generate(&mut OsRng), 60, 2, 61, 1_000),
        &hybrid_public_key(&SigningKey::generate(&mut OsRng)),
    );
    assert!(stranger.is_err());

    let record = IssuerDirectoryRecord::from(directory.clone());
    let reports = list_reports(&definition, &newer);
    let reloaded = IssuerDirectory::try_from(record, &reports).unwrap();
    assert_eq!(reloaded, directory);
    assert_eq!(reloaded.status_list(&id(60), 1), Some(&newer));

    // Tampering with a persisted status list breaks its signature on reload.
    let mut tampered = IssuerDirectoryRecord::from(directory.clone());
    let mut changed = newer.clone();
    changed.status_epoch = 9;
    let mut reports = list_reports(&definition, &newer);
    examine(&mut reports, changed.signature_check(&definition));
    let list_key = tampered.status_lists.key_at(0).clone();
    tampered.status_lists.insert(list_key, changed);
    assert_eq!(
        IssuerDirectory::try_from(tampered, &reports),
        Err(DeKyxError::InvalidStatusListSignature)
    );
    // A persisted issuer whose key does not match its map key is refused.
    let stored = IssuerDirectoryRecord::from(directory);
    let mut issuers = TextMap::new();
    issuers.insert("00:1".into(), stored.issuers.value_at(0).clone());
    let misfiled = IssuerDirectoryRecord { issuers, status_lists: stored.status_lists };
    assert_eq!(
        IssuerDirectory::try_from(misfiled, &reports),
        Err(DeKyxError::InvalidIssuer)
    );
}

#[test]
fn issuer_rotation_requires_new_pq_material_and_legacy_records_fail_closed() {
    let first = issuer_definition(&SigningKey::generate(&mut OsRng), 87, 1, 88, 1_000);
    let mut next = issuer_definition(&SigningKey::generate(&mut OsRng), 87, 2, 88, 2_000);
    let mut directory = IssuerDirectory::default();
    directory.register_issuer(first.clone()).unwrap();
    let before = directory.clone();
    next.pq_public_key = first.pq_public_key.clone();
    assert_eq!(
        directory.rotate_key(next, 500),
        Err(DeKyxError::InvalidKeyRotation)
    );
    assert_eq!(directory, before);

    let mut legacy = first.clone();
    legacy.pq_public_key = Vec::new();
    assert_eq!(legacy.validate(), Err(DeKyxError::InvalidIssuer));
    let mut unsupported = first;
    unsupported.signature_suite = Suite { id: SuiteId::Ed25519, encoding: vec![0, 1, 0, 1] };
    assert_eq!(unsupported.validate(), Err(DeKyxError::InvalidIssuer));
}
