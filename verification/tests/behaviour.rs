use dekyx_core::{
    AnonymousPresentation, Credential, CredentialIssuanceProof, CredentialIssuer,
    CredentialRequest, CredentialWitness, CustodyParts, DeKyxError, DeKyxVerifier,
    EligibilityProvider, EligibilityRequirement, HolderKey, HybridSignature, IssuerDefinition,
    IssuerDirectory, IssuerDirectoryRecord, IssuerRegistry, IssuerStatus, KeyPurpose,
    OpenedCustody, PresentationContext, PresentationLedger, Qualification, RevocationStatusList, Scalar,
    SealedMessage, SignatureBytes, SignatureCheck, SignatureReports, SignatureScheme, SubjectKind,
    SubjectKinds, Suite, SuiteId, TextMap, VerifiedEligibility,
};
use ed25519_dalek::{SigningKey, VerifyingKey};

// These tests decide by themselves which signatures the backend reports as valid.

fn id(byte: u8) -> [u8; 32] {
    [byte; 32]
}

fn classical_key(seed: u8) -> [u8; 32] {
    SigningKey::from_bytes(&[seed; 32]).verifying_key().to_bytes()
}

fn definition(issuer: u8, epoch: u64, seed: u8) -> IssuerDefinition {
    IssuerDefinition {
        issuer_id: id(issuer),
        key_epoch: epoch,
        public_key: classical_key(seed),
        pq_public_key: vec![seed; 1952],
        signature_suite: Suite { id: SuiteId::Ed25519MlDsa65, encoding: vec![0, 3] },
        supported_subjects: SubjectKinds::of(&[SubjectKind::LegalEntity, SubjectKind::Device]),
        namespace_digest: id(2),
        valid_from: 100,
        valid_until: 1_000,
        status: IssuerStatus::Active,
    }
}

fn qualification(namespace: &str, digest: u8) -> Qualification {
    Qualification { namespace: namespace.into(), predicate_digest: id(digest) }
}

fn qualifications() -> Vec<Qualification> {
    vec![qualification("jp.kyb", 4), qualification("global.lei", 3), qualification("a.b", 5)]
}

fn holder_key(seed: u8) -> HolderKey {
    HolderKey {
        seed: id(seed),
        public_key: vec![seed; 1952],
        suite: Suite { id: SuiteId::MlDsa65, encoding: vec![0, 2] },
    }
}

fn scalar(value: u8) -> Scalar {
    Scalar::from_wide_bytes(&[value; 64])
}

fn witness(secret: u8) -> CredentialWitness {
    CredentialWitness::from_scalars_with_holder(
        scalar(secret),
        scalar(90),
        qualifications(),
        holder_key(91),
    )
    .unwrap()
}

fn request_of(witness: &CredentialWitness) -> CredentialRequest {
    CredentialRequest {
        credential_id: id(6),
        issuer_id: id(1),
        issuer_key_epoch: 1,
        subject_kind: SubjectKind::LegalEntity,
        subject_commitment: witness.subject_commitment(),
        holder_public_key: witness.holder_public_key(),
        holder_suite: witness.holder_suite(),
        scope_digest: id(7),
        policy_digest: id(8),
        qualifications: qualifications(),
        status_epoch: 2,
        valid_from: 150,
        valid_until: 900,
    }
}

fn proof_of(witness: &CredentialWitness, request: &CredentialRequest) -> CredentialIssuanceProof {
    witness
        .prove_issuance(request, &[21; 64], &[22; 64])
        .unwrap()
        .signed(Some(vec![1; 3309]))
        .unwrap()
}

fn accepting(check: Result<SignatureCheck, DeKyxError>) -> SignatureReports {
    let mut reports = SignatureReports::new();
    if let Ok(check) = check {
        reports.accept(check);
    }
    reports
}

fn issuer() -> CredentialIssuer {
    let definition = definition(1, 1, 11);
    let key = definition.hybrid_public_key();
    CredentialIssuer::new(definition, &key).unwrap()
}

fn hybrid(byte: u8) -> HybridSignature {
    HybridSignature { classical: vec![byte; 64], pq: vec![byte; 3309] }
}

fn issue(
    request: CredentialRequest,
    proof: CredentialIssuanceProof,
) -> Result<Credential, DeKyxError> {
    let reports = accepting(proof.signature_check(&request));
    issuer().issue(request, proof, &reports)?.signed(Some(hybrid(31)))
}

fn credential_of(witness: &CredentialWitness) -> Credential {
    let request = request_of(witness);
    let proof = proof_of(witness, &request);
    issue(request, proof).unwrap()
}

fn status_list(status_epoch: u64, revoked: Vec<[u8; 32]>) -> RevocationStatusList {
    issuer()
        .issue_status_list(status_epoch, 100, 950, revoked)
        .unwrap()
        .signed(Some(hybrid(32)))
        .unwrap()
}

fn context() -> PresentationContext {
    PresentationContext {
        scope_digest: id(7),
        audience_digest: id(9),
        action_digest: id(10),
        request_digest: id(11),
        challenge_nonce: id(12),
        valid_until: 800,
    }
}

fn requirement(required: Vec<Qualification>) -> EligibilityRequirement {
    EligibilityRequirement {
        issuer_id: id(1),
        issuer_key_epoch: 1,
        issuer_namespace_digest: id(2),
        subject_kind: SubjectKind::LegalEntity,
        scope_digest: id(7),
        policy_digest: id(8),
        required_qualifications: required,
    }
}

fn encoding(credential: &Credential) -> SignatureReports {
    let mut reports = SignatureReports::new();
    reports.set_encoding(credential.signature.clone(), vec![1, 2, 3]);
    reports
}

fn present_with(
    witness: &CredentialWitness,
    required: &[Qualification],
    draw: u8,
) -> AnonymousPresentation {
    let credential = credential_of(witness);
    let reports = encoding(&credential);
    AnonymousPresentation::create(
        credential,
        witness,
        context(),
        required,
        &[draw; 64],
        &[draw + 1; 64],
        &reports,
    )
    .unwrap()
    .signed(Some(vec![2; 3309]))
    .unwrap()
}

fn reports_on(
    definition: &IssuerDefinition,
    list: &RevocationStatusList,
    presentation: &AnonymousPresentation,
) -> SignatureReports {
    let mut reports = encoding(&presentation.credential);
    for check in [
        presentation.credential.signature_check(definition),
        list.signature_check(definition),
        presentation.signature_check(&reports),
    ] {
        if let Ok(check) = check {
            reports.accept(check);
        }
    }
    reports
}

fn judge(
    definition: IssuerDefinition,
    list: &RevocationStatusList,
    requirement: &EligibilityRequirement,
    presentation: &AnonymousPresentation,
    now: u64,
) -> Result<VerifiedEligibility, DeKyxError> {
    let reports = reports_on(&definition, list, presentation);
    let mut registry = IssuerRegistry::default();
    registry.register(definition).unwrap();
    DeKyxVerifier { issuers: &registry, status_list: list, signatures: &reports }
        .verify_eligibility(requirement, &context(), presentation, now)
}

fn required() -> Vec<Qualification> {
    vec![qualification("jp.kyb", 4), qualification("a.b", 5)]
}

#[test]
fn reports_hold_what_was_filed_and_nothing_else() {
    let check = SignatureCheck {
        scheme: SignatureScheme::MlDsa65,
        purpose: KeyPurpose::Order,
        public_key: vec![1],
        message: id(2),
        classical: vec![],
        pq: vec![3],
    };
    let mut reports = SignatureReports::new();
    assert!(!reports.accepts(&check));
    reports.accept(SignatureCheck {
        scheme: SignatureScheme::MlDsa65,
        purpose: KeyPurpose::Attestation,
        public_key: vec![1],
        message: id(2),
        classical: vec![],
        pq: vec![3],
    });
    assert!(!reports.accepts(&check));
    reports.accept(SignatureCheck {
        scheme: SignatureScheme::MlDsa65,
        purpose: KeyPurpose::Order,
        public_key: vec![1],
        message: id(2),
        classical: vec![],
        pq: vec![3],
    });
    assert!(reports.accepts(&check));
    let signature = SignatureBytes { first: id(1), second: id(2), pq: vec![3] };
    assert_eq!(reports.encoding(&signature), None);
    reports.set_encoding(signature.clone(), vec![4]);
    reports.set_encoding(signature.clone(), vec![5]);
    assert_eq!(reports.encoding(&signature), Some(&vec![5]));
    assert!(reports.accepts(&check));
}

#[test]
fn signatures_split_and_rejoin() {
    let mut classical: Vec<u8> = (0..64).collect();
    let split =
        SignatureBytes::from_signature(HybridSignature { classical: classical.clone(), pq: vec![9] });
    assert_eq!(split.first[..], classical[..32]);
    assert_eq!(split.second[..], classical[32..]);
    let joined = split.signature();
    assert_eq!(joined.classical, classical);
    assert_eq!(joined.pq, vec![9]);
    classical.reverse();
    assert_ne!(joined.classical, classical);
}

#[test]
fn subject_kinds_are_a_set() {
    let mut kinds = SubjectKinds::new();
    assert!(kinds.is_empty());
    kinds.insert(SubjectKind::Service);
    kinds.insert(SubjectKind::Service);
    assert!(kinds.contains(SubjectKind::Service));
    assert!(!kinds.contains(SubjectKind::Person));
    assert_eq!(kinds, SubjectKinds::of(&[SubjectKind::Service]));
    assert_eq!(
        SubjectKinds::of(&[SubjectKind::Person, SubjectKind::AutonomousAgent]),
        SubjectKinds::of(&[SubjectKind::AutonomousAgent, SubjectKind::Person, SubjectKind::Person])
    );
}

#[test]
fn text_map_is_walked_in_the_order_of_keys() {
    let mut map: TextMap<Qualification> = TextMap::new();
    assert!(map.is_empty());
    for key in ["b", "a:10", "a:9", "a:10"] {
        map.insert(key.into(), qualification(key, 1));
    }
    map.insert("b".into(), qualification("last", 1));
    assert_eq!(map.len(), 3);
    let keys: Vec<&str> = (0..3).map(|i| map.key_at(i).as_str()).collect();
    assert_eq!(keys, vec!["a:10", "a:9", "b"]);
    assert_eq!(map.value_at(2).namespace, "last");
    assert_eq!(map.get("b").unwrap().namespace, "last");
    assert!(map.get("c").is_none());
    map.set_value_at(0, qualification("first", 1));
    assert_eq!(map.get("a:10").unwrap().namespace, "first");
}

#[test]
fn issuer_definitions_are_validated() {
    let invalid = Err(DeKyxError::InvalidIssuer);
    assert_eq!(definition(1, 1, 11).validate(), Ok(()));
    let mut d = definition(0, 1, 11);
    assert_eq!(d.validate(), invalid);
    d = definition(1, 0, 11);
    assert_eq!(d.validate(), invalid);
    d = definition(1, 1, 11);
    d.namespace_digest = id(0);
    assert_eq!(d.validate(), invalid);
    d = definition(1, 1, 11);
    d.public_key = id(0);
    assert_eq!(d.validate(), invalid);
    d = definition(1, 1, 11);
    d.pq_public_key.push(1);
    assert_eq!(d.validate(), invalid);
    d = definition(1, 1, 11);
    d.pq_public_key = vec![0; 1952];
    assert_eq!(d.validate(), invalid);
    d.pq_public_key[1951] = 1;
    assert_eq!(d.validate(), Ok(()));
    d = definition(1, 1, 11);
    d.supported_subjects = SubjectKinds::new();
    assert_eq!(d.validate(), invalid);
    d = definition(1, 1, 11);
    d.valid_from = 0;
    assert_eq!(d.validate(), invalid);
    d = definition(1, 1, 11);
    d.valid_from = 1_001;
    assert_eq!(d.validate(), invalid);
    d.valid_from = 1_000;
    assert_eq!(d.validate(), Ok(()));
    // Bytes that are no point of the curve are no key.
    let no_key = (1..=255u8)
        .map(id)
        .find(|bytes| VerifyingKey::from_bytes(bytes).is_err())
        .unwrap();
    d.public_key = no_key;
    assert_eq!(d.validate(), Err(DeKyxError::InvalidIssuerKey));
}

#[test]
fn issuer_epochs_are_active_for_their_kinds_within_their_time() {
    let mut d = definition(1, 1, 11);
    assert!(d.active_for(SubjectKind::Device, 100));
    assert!(d.active_for(SubjectKind::LegalEntity, 1_000));
    assert!(!d.active_for(SubjectKind::Person, 500));
    assert!(!d.active_for(SubjectKind::Device, 99));
    assert!(!d.active_for(SubjectKind::Device, 1_001));
    d.status = IssuerStatus::Suspended;
    assert!(!d.active_for(SubjectKind::Device, 500));
    let mut key = classical_key(11).to_vec();
    key.extend_from_slice(&[11; 1952]);
    assert_eq!(d.hybrid_public_key(), key);
}

#[test]
fn issuers_sign_with_the_key_of_their_definition() {
    let d = definition(1, 1, 11);
    let mut other = d.hybrid_public_key();
    assert!(CredentialIssuer::new(d.clone(), &other).is_ok());
    other[40] ^= 1;
    assert_eq!(
        CredentialIssuer::new(d.clone(), &other).map(|_| ()),
        Err(DeKyxError::InvalidIssuerKey)
    );
    assert_eq!(
        CredentialIssuer::new(definition(0, 1, 11), &d.hybrid_public_key()).map(|_| ()),
        Err(DeKyxError::InvalidIssuer)
    );
}

#[test]
fn registry_lists_epochs_in_key_order_and_finds_the_highest() {
    let mut registry = IssuerRegistry::default();
    assert!(registry.is_empty());
    for (epoch, seed) in [(9, 11), (10, 12), (2, 13)] {
        registry.register(definition(1, epoch, seed)).unwrap();
    }
    registry.register(definition(3, 40, 14)).unwrap();
    assert!(!registry.is_empty());
    // Keys are text, so epoch 10 comes before epoch 2.
    let epochs: Vec<u64> = registry.definitions().iter().map(|d| d.key_epoch).collect();
    assert_eq!(epochs, vec![10, 2, 9, 40]);
    assert_eq!(registry.latest_epoch(&id(1)), Some(10));
    assert_eq!(registry.latest_epoch(&id(2)), None);
    assert_eq!(registry.current_epoch(&id(1), SubjectKind::Device, 500), Some(10));
    assert_eq!(registry.current_epoch(&id(1), SubjectKind::Person, 500), None);
    assert_eq!(registry.current_epoch(&id(1), SubjectKind::Device, 5_000), None);
    assert_eq!(
        registry.issuer(&id(1), 3).map(|_| ()),
        Err(DeKyxError::UnknownIssuer)
    );
    assert_eq!(registry.clone(), registry);
}

#[test]
fn rotation_needs_a_known_issuer_and_a_higher_epoch() {
    let mut directory = IssuerDirectory::default();
    assert!(directory.is_empty());
    assert_eq!(
        directory.rotate_key(definition(1, 2, 12), 300),
        Err(DeKyxError::UnknownIssuer)
    );
    directory.register_issuer(definition(1, 5, 11)).unwrap();
    directory.register_issuer(definition(3, 1, 13)).unwrap();
    assert!(!directory.is_empty());
    assert_eq!(
        directory.rotate_key(definition(1, 5, 12), 300),
        Err(DeKyxError::InvalidKeyRotation)
    );
    assert_eq!(
        directory.rotate_key(definition(1, 0, 12), 300),
        Err(DeKyxError::InvalidIssuer)
    );
    directory.rotate_key(definition(1, 7, 12), 300).unwrap();
    directory.rotate_key(definition(1, 8, 14), 2_000).unwrap();
    // A later rotation does not extend an epoch, and other issuers are not touched.
    assert_eq!(directory.issuer(&id(1), 5).unwrap().valid_until, 300);
    assert_eq!(directory.issuer(&id(1), 7).unwrap().valid_until, 1_000);
    assert_eq!(directory.issuer(&id(3), 1).unwrap(), &definition(3, 1, 13));
    assert_eq!(directory.current_epoch(&id(1), SubjectKind::Device, 200), Some(8));
    assert_eq!(directory.registry().definitions().len(), 4);
}

#[test]
fn status_can_be_set_for_known_epochs_only() {
    let mut directory = IssuerDirectory::default();
    directory.register_issuer(definition(1, 1, 11)).unwrap();
    assert_eq!(
        directory.set_status(&id(1), 2, IssuerStatus::Revoked),
        Err(DeKyxError::UnknownIssuer)
    );
    directory.set_status(&id(1), 1, IssuerStatus::Suspended).unwrap();
    assert_eq!(directory.issuer(&id(1), 1).unwrap().status, IssuerStatus::Suspended);
    assert_eq!(directory.current_epoch(&id(1), SubjectKind::Device, 200), None);
    directory.set_status(&id(1), 1, IssuerStatus::Active).unwrap();
    assert_eq!(directory.current_epoch(&id(1), SubjectKind::Device, 200), Some(1));
}

#[test]
fn status_lists_are_published_by_registered_epochs() {
    let mut directory = IssuerDirectory::default();
    let d = definition(1, 1, 11);
    let list = status_list(3, vec![]);
    let reports = accepting(list.signature_check(&d));
    assert_eq!(
        directory.publish_status_list(list.clone(), &reports),
        Err(DeKyxError::UnknownIssuer)
    );
    directory.register_issuer(d.clone()).unwrap();
    assert_eq!(
        directory.verifier_for(&id(2), 1, &reports).map(|_| ()),
        Err(DeKyxError::UnknownIssuer)
    );
    assert_eq!(
        directory.publish_status_list(list.clone(), &SignatureReports::new()),
        Err(DeKyxError::InvalidStatusListSignature)
    );
    let mut incomplete = list.clone();
    incomplete.effective_at = 0;
    assert_eq!(
        directory.publish_status_list(incomplete, &reports),
        Err(DeKyxError::InvalidStatusList)
    );
    assert_eq!(directory.publish_status_list(list.clone(), &reports), Ok(()));
    assert_eq!(
        directory.publish_status_list(list.clone(), &reports),
        Err(DeKyxError::StaleStatusList)
    );
    assert!(directory.verifier_for(&id(1), 1, &reports).is_ok());
    // The list belongs to its own issuer epoch.
    assert_eq!(
        list.verify_signature(&definition(1, 2, 11), &reports),
        Err(DeKyxError::InvalidStatusList)
    );
}

#[test]
fn records_are_refused_for_the_first_entry_at_fault() {
    let mut directory = IssuerDirectory::default();
    directory.register_issuer(definition(1, 1, 11)).unwrap();
    directory.rotate_key(definition(1, 10, 12), 300).unwrap();
    directory.register_issuer(definition(3, 1, 13)).unwrap();
    let list = status_list(3, vec![id(62)]);
    let reports = accepting(list.signature_check(directory.issuer(&id(1), 1).unwrap()));
    directory.publish_status_list(list.clone(), &reports).unwrap();
    let record = || IssuerDirectoryRecord::from(directory.clone());
    assert_eq!(IssuerDirectory::try_from(record(), &reports), Ok(directory.clone()));

    // Epoch 10 comes first in the order of keys, but epoch 1 is loaded first.
    let no_key = (1..=255u8)
        .map(id)
        .find(|bytes| VerifyingKey::from_bytes(bytes).is_err())
        .unwrap();
    let mut two_faults = record();
    let key_of = |record: &IssuerDirectoryRecord, epoch: u64| {
        (0..record.issuers.len())
            .map(|i| record.issuers.key_at(i).clone())
            .find(|key| key.ends_with(&format!(":{epoch}")))
            .unwrap()
    };
    let (first, tenth) = (key_of(&two_faults, 1), key_of(&two_faults, 10));
    let mut bad_key = definition(1, 1, 11);
    bad_key.public_key = no_key;
    let mut bad_epoch = definition(1, 10, 12);
    bad_epoch.valid_from = 0;
    two_faults.issuers.insert(first, bad_key);
    two_faults.issuers.insert(tenth, bad_epoch);
    assert_eq!(
        IssuerDirectory::try_from(two_faults, &reports),
        Err(DeKyxError::InvalidIssuerKey)
    );

    let mut stranger = record();
    let mut orphan = list.clone();
    orphan.issuer_key_epoch = 2;
    let mut key = stranger.status_lists.key_at(0).clone();
    key.pop();
    key.push('2');
    stranger.status_lists.insert(key, orphan);
    assert_eq!(
        IssuerDirectory::try_from(stranger, &reports),
        Err(DeKyxError::UnknownIssuer)
    );

    let mut misfiled = record();
    misfiled.status_lists.insert("00:1".into(), list);
    assert_eq!(
        IssuerDirectory::try_from(misfiled, &reports),
        Err(DeKyxError::InvalidStatusList)
    );
    assert_eq!(
        IssuerDirectory::try_from(record(), &SignatureReports::new()),
        Err(DeKyxError::InvalidStatusListSignature)
    );
}

#[test]
fn issuance_is_refused_outside_the_authority_of_the_epoch() {
    let w = witness(1);
    let refused = Err(DeKyxError::IssuerNotAuthorized);
    let proof = proof_of(&w, &request_of(&w));
    let mut r = request_of(&w);
    r.issuer_id = id(2);
    assert_eq!(issue(r, proof.clone()), refused);
    r = request_of(&w);
    r.issuer_key_epoch = 2;
    assert_eq!(issue(r, proof.clone()), refused);
    r = request_of(&w);
    r.subject_kind = SubjectKind::Person;
    assert_eq!(issue(r, proof.clone()), refused);
    r = request_of(&w);
    r.valid_from = 99;
    assert_eq!(issue(r, proof.clone()), refused);
    r = request_of(&w);
    r.valid_until = 1_001;
    assert_eq!(issue(r, proof), refused);
}

#[test]
fn issuance_needs_a_proof_that_holds() {
    let w = witness(1);
    let request = request_of(&w);
    let proof = proof_of(&w, &request);
    assert!(issue(request.clone(), proof.clone()).is_ok());
    // A backend that did not verify the holder's signature vouches for nothing.
    assert_eq!(
        issuer()
            .issue(request.clone(), proof.clone(), &SignatureReports::new())
            .map(|_| ()),
        Err(DeKyxError::InvalidIssuanceProof)
    );
    let mut p = proof.clone();
    p.response_subject = id(255);
    assert_eq!(issue(request.clone(), p), Err(DeKyxError::NonCanonicalScalar));
    p = proof.clone();
    p.announcement_commitment = id(255);
    assert_eq!(issue(request.clone(), p), Err(DeKyxError::NonCanonicalPoint));
    p = proof.clone();
    p.response_blinding = id(1);
    assert_eq!(issue(request.clone(), p), Err(DeKyxError::InvalidIssuanceProof));
    let mut incomplete = request.clone();
    incomplete.credential_id = id(0);
    assert_eq!(issue(incomplete, proof), Err(DeKyxError::InvalidCredential));
    let unsigned = w.prove_issuance(&request, &[1; 64], &[2; 64]).unwrap();
    assert_eq!(unsigned.signed(None), Err(DeKyxError::InvalidIssuanceProof));
}

#[test]
fn witnesses_prove_their_own_requests_only() {
    let w = witness(1);
    let proven = |request: &CredentialRequest| {
        w.prove_issuance(request, &[1; 64], &[2; 64]).map(|_| ())
    };
    let mismatch = Err(DeKyxError::MismatchedWitnessOrContext);
    let mut reordered = request_of(&w);
    reordered.qualifications.reverse();
    assert_eq!(proven(&reordered), Ok(()));
    assert_eq!(proven(&request_of(&witness(2))), mismatch);
    let mut r = request_of(&w);
    r.holder_public_key[0] ^= 1;
    assert_eq!(proven(&r), mismatch);
    r = request_of(&w);
    r.holder_suite.encoding.push(1);
    assert_eq!(proven(&r), mismatch);
    r = request_of(&w);
    r.qualifications.pop();
    assert_eq!(proven(&r), mismatch);
    r.qualifications.clear();
    assert_eq!(proven(&r), Err(DeKyxError::InvalidQualification));
    r = request_of(&w);
    r.status_epoch = 0;
    assert_eq!(proven(&r), Err(DeKyxError::InvalidCredential));
}

#[test]
fn what_the_backend_could_not_sign_is_not_issued() {
    let w = witness(1);
    let request = request_of(&w);
    let proof = proof_of(&w, &request);
    let reports = accepting(proof.signature_check(&request));
    let unsigned = issuer().issue(request, proof, &reports).unwrap();
    assert_eq!(unsigned.signed(None), Err(DeKyxError::InvalidCredentialSignature));
    let list = issuer().issue_status_list(1, 1, 2, vec![]).unwrap();
    assert_eq!(list.signed(None), Err(DeKyxError::InvalidStatusListSignature));
    assert_eq!(
        issuer().issue_status_list(1, 3, 2, vec![]).map(|_| ()),
        Err(DeKyxError::InvalidStatusList)
    );
    assert_eq!(
        issuer().issue_status_list(1, 1, 2, vec![id(1), id(1)]).map(|_| ()),
        Err(DeKyxError::InvalidStatusList)
    );
    assert_eq!(
        status_list(1, vec![id(9), id(3)]).revoked_credentials,
        vec![id(3), id(9)]
    );
    let credential = credential_of(&w);
    let unsigned = AnonymousPresentation::create(
        credential.clone(),
        &w,
        context(),
        &[],
        &[1; 64],
        &[2; 64],
        &encoding(&credential),
    )
    .unwrap();
    assert_eq!(unsigned.signed(None), Err(DeKyxError::InvalidAnonymousProof));
}

#[test]
fn presentations_are_refused_where_they_cannot_be_made() {
    let w = witness(1);
    let credential = credential_of(&w);
    let made = |credential: &Credential, context: PresentationContext, required: &[Qualification]| {
        AnonymousPresentation::create(
            credential.clone(),
            &w,
            context,
            required,
            &[1; 64],
            &[2; 64],
            &encoding(credential),
        )
        .map(|_| ())
    };
    assert_eq!(made(&credential, context(), &required()), Ok(()));
    let mut c = context();
    c.scope_digest = id(70);
    assert_eq!(
        made(&credential, c, &[]),
        Err(DeKyxError::MismatchedWitnessOrContext)
    );
    c = context();
    c.valid_until = 901;
    assert_eq!(
        made(&credential, c, &[]),
        Err(DeKyxError::MismatchedWitnessOrContext)
    );
    assert_eq!(
        made(&credential, context(), &[qualification("none", 1)]),
        Err(DeKyxError::MissingQualification)
    );
    c = context();
    c.audience_digest = id(0);
    assert_eq!(
        made(&credential, c, &[]),
        Err(DeKyxError::InvalidPresentationContext)
    );
    let mut incomplete = credential.clone();
    incomplete.policy_digest = id(0);
    assert_eq!(
        made(&incomplete, context(), &[]),
        Err(DeKyxError::InvalidCredential)
    );
}

#[test]
fn honest_holder_is_eligible_and_what_is_learnt_is_exact() {
    let w = witness(1);
    let presentation = present_with(&w, &required(), 40);
    let list = status_list(2, vec![id(99)]);
    let reports = reports_on(&definition(1, 1, 11), &list, &presentation);
    let mut asked = required();
    asked.reverse();
    let verified = judge(definition(1, 1, 11), &list, &requirement(asked), &presentation, 200)
        .unwrap();
    assert_eq!(
        verified,
        VerifiedEligibility {
            issuer_id: id(1),
            issuer_key_epoch: 1,
            issuer_namespace_digest: id(2),
            subject_kind: SubjectKind::LegalEntity,
            subject_commitment: w.subject_commitment(),
            subject_nullifier: w.scope_nullifier(&id(7)),
            subject_line_id: presentation.subject_line_id().unwrap(),
            policy_digest: id(8),
            proof_digest: presentation.digest(&reports).unwrap(),
            valid_until: 800,
        }
    );
    // Another run of the same holder shows the same pseudonym and another proof.
    let again = present_with(&w, &required(), 50);
    assert_eq!(again.nullifier, presentation.nullifier);
    assert_eq!(again.subject_line_id(), presentation.subject_line_id());
    assert_ne!(again.announcement_commitment, presentation.announcement_commitment);
}

#[test]
fn evidence_has_to_be_what_was_asked_for() {
    let w = witness(1);
    let presentation = present_with(&w, &required(), 40);
    let list = status_list(2, vec![]);
    let d = || definition(1, 1, 11);
    let mismatch = Err(DeKyxError::RequirementMismatch);
    let good = requirement(required());
    assert!(judge(d(), &list, &good, &presentation, 200).is_ok());
    // Before the credential starts and after the context ends.
    assert_eq!(judge(d(), &list, &good, &presentation, 149), mismatch);
    assert_eq!(judge(d(), &list, &good, &presentation, 801), mismatch);
    let mut r = requirement(required());
    r.policy_digest = id(80);
    assert_eq!(judge(d(), &list, &r, &presentation, 200), mismatch);
    r = requirement(required());
    r.scope_digest = id(80);
    assert_eq!(judge(d(), &list, &r, &presentation, 200), mismatch);
    r = requirement(required());
    r.subject_kind = SubjectKind::Device;
    assert_eq!(judge(d(), &list, &r, &presentation, 200), mismatch);
    r = requirement(required());
    r.issuer_namespace_digest = id(0);
    assert_eq!(judge(d(), &list, &r, &presentation, 200), mismatch);
    let mut other_context = presentation.clone();
    other_context.context.action_digest = id(100);
    assert_eq!(judge(d(), &list, &good, &other_context, 200), mismatch);
    // Fewer or other qualifications than required, or one shown twice.
    assert_eq!(
        judge(d(), &list, &requirement(qualifications()), &presentation, 200),
        mismatch
    );
    assert_eq!(
        judge(d(), &list, &requirement(vec![required()[0].clone()]), &presentation, 200),
        mismatch
    );
    let twice = present_with(&w, &[required()[0].clone(), required()[0].clone()], 40);
    assert_eq!(
        judge(d(), &list, &requirement(vec![required()[0].clone()]), &twice, 200),
        mismatch
    );
    // A requirement that lists a qualification twice asks for it once.
    let once = present_with(&w, &[required()[0].clone()], 40);
    let doubled = requirement(vec![required()[0].clone(), required()[0].clone()]);
    assert!(judge(d(), &list, &doubled, &once, 200).is_ok());
    let many = requirement(vec![required()[0].clone(); 257]);
    assert_eq!(judge(d(), &list, &many, &once, 200), mismatch);
}

#[test]
fn evidence_rests_on_an_authorized_issuer_and_a_current_list() {
    let w = witness(1);
    let presentation = present_with(&w, &required(), 40);
    let list = status_list(2, vec![]);
    let good = requirement(required());
    assert_eq!(
        judge(definition(1, 3, 12), &list, &good, &presentation, 200),
        Err(DeKyxError::UnknownIssuer)
    );
    let mut d = definition(1, 1, 11);
    d.status = IssuerStatus::Suspended;
    assert_eq!(
        judge(d, &list, &good, &presentation, 200),
        Err(DeKyxError::IssuerNotAuthorized)
    );
    d = definition(1, 1, 11);
    d.namespace_digest = id(3);
    assert_eq!(
        judge(d, &list, &good, &presentation, 200),
        Err(DeKyxError::IssuerNotAuthorized)
    );
    assert_eq!(
        judge(definition(1, 1, 11), &status_list(1, vec![]), &good, &presentation, 200),
        Err(DeKyxError::StaleStatusList)
    );
    let digest = presentation.credential.digest(&encoding(&presentation.credential)).unwrap();
    let revoking = status_list(2, vec![id(1), digest, id(255)]);
    assert_eq!(
        judge(definition(1, 1, 11), &revoking, &good, &presentation, 200),
        Err(DeKyxError::RevokedCredential)
    );
    let expired = issuer()
        .issue_status_list(2, 100, 199, vec![])
        .unwrap()
        .signed(Some(hybrid(32)))
        .unwrap();
    assert_eq!(
        judge(definition(1, 1, 11), &expired, &good, &presentation, 200),
        Err(DeKyxError::InvalidStatusList)
    );
    // Without a word from the backend nothing is accepted.
    let mut registry = IssuerRegistry::default();
    registry.register(definition(1, 1, 11)).unwrap();
    let silent = SignatureReports::new();
    assert_eq!(
        DeKyxVerifier { issuers: &registry, status_list: &list, signatures: &silent }
            .verify_eligibility(&good, &context(), &presentation, 200),
        Err(DeKyxError::InvalidCredentialSignature)
    );
}

#[test]
fn evidence_has_to_prove_what_it_shows() {
    let w = witness(1);
    let good = present_with(&w, &required(), 40);
    let list = status_list(2, vec![]);
    let judged = |presentation: &AnonymousPresentation| {
        judge(definition(1, 1, 11), &list, &requirement(required()), presentation, 200)
            .map(|_| ())
    };
    assert_eq!(judged(&good), Ok(()));
    let mut p = good.clone();
    p.qualifications[0].siblings[0][0] ^= 1;
    assert_eq!(judged(&p), Err(DeKyxError::InvalidQualificationProof));
    p = good.clone();
    p.response_subject = id(255);
    assert_eq!(judged(&p), Err(DeKyxError::NonCanonicalScalar));
    p = good.clone();
    p.response_blinding = id(1);
    assert_eq!(judged(&p), Err(DeKyxError::InvalidAnonymousProof));
    p = good.clone();
    p.nullifier = id(0);
    assert_eq!(judged(&p), Err(DeKyxError::NonCanonicalPoint));
    p = good.clone();
    p.nullifier = witness(2).scope_nullifier(&id(7));
    assert_eq!(judged(&p), Err(DeKyxError::InvalidAnonymousProof));
    p = good.clone();
    p.announcement_nullifier = id(255);
    assert_eq!(judged(&p), Err(DeKyxError::NonCanonicalPoint));
    p = good.clone();
    p.holder_signature.pop();
    assert_eq!(judged(&p), Err(DeKyxError::InvalidAnonymousProof));
}

#[test]
fn custody_gives_back_the_witness_it_was_given() {
    let w = witness(1);
    let credential = credential_of(&w);
    let reports = encoding(&credential);
    let noted = vec![8, 9];
    let sealing = w
        .seal_custody(&credential, id(55), Some(noted.clone()), &reports)
        .unwrap();
    let clear = sealing.clear();
    let mut expected = scalar(1).to_bytes().to_vec();
    expected.extend_from_slice(&scalar(90).to_bytes());
    expected.extend_from_slice(&id(91));
    expected.extend_from_slice(&noted);
    assert_eq!(clear, expected);
    let context = sealing.context();
    // The sealing of these tests turns every byte around.
    let ciphertext: Vec<u8> = clear.iter().map(|byte| byte ^ 0xff).collect();
    let custody = sealing
        .sealed(Some(SealedMessage { ciphertext, header: vec![1] }))
        .unwrap();
    assert_eq!(custody.version, 1);
    assert_eq!(custody.opening(&credential, &id(55), &reports), Ok(context));
    let opened = |qualifications: Option<Vec<Qualification>>| {
        let clear: Vec<u8> = custody.sealed.ciphertext.iter().map(|byte| byte ^ 0xff).collect();
        let parts = CustodyParts::split(&clear);
        assert_eq!(parts.qualifications, vec![8, 9]);
        let key = holder_key(parts.seed[0]);
        Some(OpenedCustody {
            parts,
            qualifications,
            holder_public_key: key.public_key,
            holder_suite: key.suite,
        })
    };
    let restored = custody
        .restore(&credential, &id(55), opened(Some(qualifications())), &reports)
        .unwrap();
    assert_eq!(restored.subject_commitment(), w.subject_commitment());
    assert_eq!(restored.scope_nullifier(&id(7)), w.scope_nullifier(&id(7)));
    assert_eq!(restored.holder_seed(), w.holder_seed());
    assert_eq!(restored.qualifications(), w.qualifications());

    let refused = Err(DeKyxError::InvalidWitness);
    let restore = |opened: Option<OpenedCustody>| {
        custody.restore(&credential, &id(55), opened, &reports).map(|_| ())
    };
    assert_eq!(restore(None), refused);
    assert_eq!(restore(opened(None)), refused);
    assert_eq!(restore(opened(Some(vec![]))), Err(DeKyxError::InvalidQualification));
    assert_eq!(restore(opened(Some(required()))), refused);
    let mut tampered = opened(Some(qualifications())).unwrap();
    tampered.parts.subject_secret = id(255);
    assert_eq!(restore(Some(tampered)), refused);
    tampered = opened(Some(qualifications())).unwrap();
    tampered.parts.blinding[0] ^= 1;
    assert_eq!(restore(Some(tampered)), refused);
    tampered = opened(Some(qualifications())).unwrap();
    tampered.holder_public_key[0] ^= 1;
    assert_eq!(restore(Some(tampered)), refused);
    assert_eq!(
        custody
            .restore(&credential, &id(56), opened(Some(qualifications())), &reports)
            .map(|_| ()),
        refused
    );
}

#[test]
fn only_issued_witnesses_are_sealed() {
    let w = witness(1);
    let credential = credential_of(&w);
    let reports = encoding(&credential);
    let refused = Err(DeKyxError::InvalidWitness);
    let sealed = |witness: &CredentialWitness, context: u8, noted: Option<Vec<u8>>| {
        witness
            .seal_custody(&credential, id(context), noted, &reports)
            .map(|_| ())
    };
    assert_eq!(sealed(&w, 55, Some(vec![])), Ok(()));
    assert_eq!(sealed(&witness(2), 55, Some(vec![])), refused);
    assert_eq!(sealed(&w, 0, Some(vec![])), refused);
    assert_eq!(sealed(&w, 55, None), refused);
    assert_eq!(
        w.seal_custody(&credential, id(55), Some(vec![]), &SignatureReports::new())
            .map(|_| ()),
        Err(DeKyxError::InvalidCredentialSignature)
    );
    let sealing = w.seal_custody(&credential, id(55), Some(vec![]), &reports).unwrap();
    assert_eq!(sealing.sealed(None).map(|_| ()), refused);
}

#[test]
fn maps_and_records_copy_whole_and_start_empty() {
    let empty: TextMap<Qualification> = TextMap::default();
    assert!(empty.is_empty());
    assert_eq!(empty, TextMap::new());
    let mut map: TextMap<Qualification> = TextMap::new();
    map.insert("b".into(), qualification("second", 2));
    map.insert("a".into(), qualification("first", 1));
    let mut copy = map.clone();
    assert_eq!(copy, map);
    copy.insert("c".into(), qualification("third", 3));
    assert_eq!((copy.len(), map.len()), (3, 2));

    let nothing = IssuerDirectoryRecord::default();
    assert!(nothing.issuers.is_empty() && nothing.status_lists.is_empty());
    assert_eq!(nothing, IssuerDirectoryRecord::from(IssuerDirectory::default()));
    assert_eq!(
        IssuerDirectory::try_from(nothing, &SignatureReports::new()),
        Ok(IssuerDirectory::default())
    );
    let mut directory = IssuerDirectory::default();
    directory.register_issuer(definition(1, 1, 11)).unwrap();
    directory.rotate_key(definition(1, 10, 12), 300).unwrap();
    let list = status_list(3, vec![id(62)]);
    let reports = accepting(list.signature_check(directory.issuer(&id(1), 1).unwrap()));
    directory.publish_status_list(list, &reports).unwrap();
    let record = IssuerDirectoryRecord::from(directory.clone());
    let copied = record.clone();
    assert_eq!(copied, record);
    assert_eq!((copied.issuers.len(), copied.status_lists.len()), (2, 1));
    assert_eq!(IssuerDirectory::try_from(copied, &reports), Ok(directory));
}

#[test]
fn changed_signatures_are_refused_by_name() {
    let w = witness(1);
    let presentation = present_with(&w, &required(), 40);
    let list = status_list(2, vec![]);
    let definition = definition(1, 1, 11);
    let reports = reports_on(&definition, &list, &presentation);
    let mut registry = IssuerRegistry::default();
    registry.register(definition).unwrap();
    let judged = |list: &RevocationStatusList, presentation: &AnonymousPresentation| {
        DeKyxVerifier { issuers: &registry, status_list: list, signatures: &reports }
            .verify_eligibility(&requirement(required()), &context(), presentation, 200)
            .map(|_| ())
    };
    assert_eq!(judged(&list, &presentation), Ok(()));
    let changes: [fn(&mut SignatureBytes); 3] =
        [|s| s.first[0] ^= 1, |s| s.second[31] ^= 1, |s| s.pq[100] ^= 1];
    for change in changes {
        let mut p = presentation.clone();
        change(&mut p.credential.signature);
        assert_eq!(judged(&list, &p), Err(DeKyxError::InvalidCredentialSignature));
        let mut l = list.clone();
        change(&mut l.signature);
        assert_eq!(judged(&l, &presentation), Err(DeKyxError::InvalidStatusListSignature));
    }
}

#[test]
fn another_holder_key_cannot_present() {
    let w = witness(1);
    let credential = credential_of(&w);
    let stranger = CredentialWitness::from_scalars_with_holder(
        scalar(1),
        scalar(90),
        qualifications(),
        holder_key(92),
    )
    .unwrap();
    assert_eq!(stranger.subject_commitment(), w.subject_commitment());
    let reports = encoding(&credential);
    let shown = AnonymousPresentation::create(
        credential,
        &stranger,
        context(),
        &required(),
        &[1; 64],
        &[2; 64],
        &reports,
    );
    assert_eq!(shown.map(|_| ()), Err(DeKyxError::MismatchedWitnessOrContext));
}

#[test]
fn requests_read_the_same_in_any_order() {
    let w = witness(1);
    let request = request_of(&w);
    let proof = proof_of(&w, &request);
    let mut reordered = request.clone();
    reordered.qualifications.reverse();
    assert_ne!(reordered.qualifications, request.qualifications);
    let reports = accepting(proof.signature_check(&request));
    assert_eq!(proof.verify(&request, &reports), Ok(()));
    assert_eq!(proof.verify(&reordered, &reports), Ok(()));
    assert_eq!(issue(reordered, proof.clone()), issue(request, proof));
}

#[test]
fn substituted_commitments_are_not_granted() {
    let w = witness(1);
    let request = request_of(&w);
    let proof = proof_of(&w, &request);
    let mut substituted = request.clone();
    substituted.subject_commitment = witness(2).subject_commitment();
    // Not by a report on the original request, and not by one on the substituted request.
    let reports = accepting(proof.signature_check(&request));
    assert_eq!(
        issuer().issue(substituted.clone(), proof.clone(), &reports).map(|_| ()),
        Err(DeKyxError::InvalidIssuanceProof)
    );
    assert_eq!(issue(substituted, proof), Err(DeKyxError::InvalidIssuanceProof));
}

#[test]
fn other_draws_give_other_commitments_and_digests() {
    let w = witness(1);
    let fresh = w.rerandomize(&[77; 64], holder_key(92));
    assert_ne!(fresh.subject_commitment(), w.subject_commitment());
    assert_eq!(fresh.scope_nullifier(&id(7)), w.scope_nullifier(&id(7)));
    assert_eq!(fresh.qualifications(), w.qualifications());
    let (a, b) = (present_with(&w, &required(), 40), present_with(&w, &required(), 50));
    let reports = encoding(&a.credential);
    assert_ne!(a.digest(&reports).unwrap(), b.digest(&reports).unwrap());
    assert_eq!(a.digest(&reports), a.clone().digest(&reports));
}

#[test]
fn signing_changes_the_signature_only() {
    let w = witness(1);
    let request = request_of(&w);
    let signed = |byte: u8| {
        w.prove_issuance(&request, &[21; 64], &[22; 64])
            .unwrap()
            .signed(Some(vec![byte; 3309]))
            .unwrap()
    };
    let (a, mut b) = (signed(1), signed(2));
    assert_ne!(a, b);
    b.holder_signature = a.holder_signature.clone();
    assert_eq!(a, b);
}

#[test]
fn one_secret_looks_different_in_two_scopes() {
    let w = witness(1);
    let shown_in = |w: &CredentialWitness, scope: u8, draw: u8| {
        let mut request = request_of(w);
        request.scope_digest = id(scope);
        let proof = proof_of(w, &request);
        let credential = issue(request, proof).unwrap();
        let mut context = context();
        context.scope_digest = id(scope);
        let reports = encoding(&credential);
        AnonymousPresentation::create(
            credential,
            w,
            context,
            &required(),
            &[draw; 64],
            &[draw + 1; 64],
            &reports,
        )
        .unwrap()
        .signed(Some(vec![2; 3309]))
        .unwrap()
    };
    let fresh = w.rerandomize(&[77; 64], holder_key(92));
    let (a, b) = (shown_in(&w, 7, 40), shown_in(&fresh, 17, 50));
    assert_eq!(a.nullifier, w.scope_nullifier(&id(7)));
    assert_eq!(b.nullifier, w.scope_nullifier(&id(17)));
    assert_ne!(a.nullifier, b.nullifier);
    assert_ne!(a.subject_line_id(), b.subject_line_id());
    assert_ne!(a.credential.subject_commitment, b.credential.subject_commitment);
    assert_ne!(
        a.digest(&encoding(&a.credential)).unwrap(),
        b.digest(&encoding(&b.credential)).unwrap()
    );
    // Other secrets have other pseudonyms in one scope.
    assert_ne!(witness(2).scope_nullifier(&id(7)), a.nullifier);
    // Within a scope the rerandomized witness stays on its line.
    let c = shown_in(&fresh, 7, 60);
    assert_eq!(c.nullifier, a.nullifier);
    assert_eq!(c.subject_line_id(), a.subject_line_id());
}

#[test]
fn subject_lines_differ_with_every_part() {
    let presentation = present_with(&witness(1), &required(), 40);
    let changes: [fn(&mut AnonymousPresentation); 4] = [
        |p| p.credential.issuer_id[0] ^= 1,
        |p| p.credential.scope_digest[31] ^= 1,
        |p| p.credential.policy_digest[0] ^= 1,
        |p| p.nullifier[31] ^= 1,
    ];
    let mut lines = vec![presentation.subject_line_id().unwrap()];
    for change in changes {
        let mut p = presentation.clone();
        change(&mut p);
        let line = p.subject_line_id().unwrap();
        assert!(!lines.contains(&line));
        lines.push(line);
    }
    // Nothing else is part of the line.
    let mut p = presentation.clone();
    p.credential.issuer_key_epoch += 1;
    p.context.challenge_nonce = id(99);
    p.holder_signature.clear();
    assert_eq!(p.subject_line_id().unwrap(), lines[0]);
}

#[test]
fn ledgers_accept_fresh_pairs_and_no_other() {
    let mut ledger = PresentationLedger::default();
    let contexts: Vec<PresentationContext> = (1..=4u8)
        .map(|nonce| {
            let mut c = context();
            c.challenge_nonce = id(nonce);
            c
        })
        .collect();
    let mut incomplete = context();
    incomplete.request_digest = id(0);
    let mut ids: Vec<[u8; 32]> = Vec::new();
    for nullifier in [id(30), id(31), id(32)] {
        for c in &contexts {
            let used = ledger.consume(&nullifier, c).unwrap();
            assert!(!ids.contains(&used));
            ids.push(used);
            assert_eq!(ledger.len(), ids.len());
            assert_eq!(
                ledger.consume(&nullifier, &incomplete),
                Err(DeKyxError::InvalidPresentationContext)
            );
        }
    }
    // Everything that was consumed stays consumed, and a refusal adds nothing.
    for nullifier in [id(32), id(30), id(31)] {
        for c in contexts.iter().rev() {
            assert_eq!(ledger.consume(&nullifier, c), Err(DeKyxError::ReplayedContext));
        }
    }
    ids.sort();
    assert_eq!(ledger.consumed(), &ids);
    // What stands for a pair depends on the pair alone.
    let alone = PresentationLedger::default().consume(&id(31), &contexts[2]).unwrap();
    assert!(ids.contains(&alone));
}

#[test]
fn sealing_contexts_differ_with_credential_and_custody() {
    let w = witness(1);
    let credential = credential_of(&w);
    let context_of = |credential: &Credential, custody: u8| {
        w.seal_custody(credential, id(custody), Some(vec![1]), &encoding(credential))
            .unwrap()
            .context()
    };
    let mut other = credential.clone();
    other.credential_id = id(66);
    let first = context_of(&credential, 55);
    assert_ne!(context_of(&credential, 56), first);
    assert_ne!(context_of(&other, 55), first);
    assert_eq!(context_of(&credential, 55), first);
}
