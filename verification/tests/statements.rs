use dekyx_core::signature::SignatureReports;
use dekyx_core::text::issuer_key;
use dekyx_core::{
    qualification_proof, qualification_root, AnonymousPresentation, Credential,
    CredentialIssuanceProof, CredentialRequest, DeKyxError, EncryptedCredentialWitness,
    PresentationContext, PresentationLedger, Qualification, QualificationProof,
    RevocationStatusList, SealedMessage, SignatureBytes, SubjectKind, Suite, SuiteId,
};

fn id(byte: u8) -> [u8; 32] {
    [byte; 32]
}

fn hex(text: &str) -> [u8; 32] {
    let mut out = [0u8; 32];
    for (i, byte) in out.iter_mut().enumerate() {
        *byte = u8::from_str_radix(&text[2 * i..2 * i + 2], 16).unwrap();
    }
    out
}

fn base_point() -> [u8; 32] {
    hex("e2f2ae0a6abc4e71a884a961c500515f58e30b6aa582dd8db6a65945e08d2d76")
}

fn qualifications() -> Vec<Qualification> {
    vec![
        Qualification { namespace: "market.professional".into(), predicate_digest: id(5) },
        Qualification { namespace: "global.lei".into(), predicate_digest: id(3) },
        Qualification { namespace: "jp.kyb".into(), predicate_digest: id(4) },
    ]
}

fn request() -> CredentialRequest {
    CredentialRequest {
        credential_id: id(6),
        issuer_id: id(1),
        issuer_key_epoch: 1,
        subject_kind: SubjectKind::LegalEntity,
        subject_commitment: base_point(),
        holder_public_key: vec![7; 1952],
        holder_suite: Suite { id: SuiteId::MlDsa65, encoding: vec![0, 2, 0, 1] },
        scope_digest: id(7),
        policy_digest: id(8),
        qualifications: qualifications(),
        status_epoch: 2,
        valid_from: 100,
        valid_until: 900,
    }
}

fn credential() -> Credential {
    let request = request();
    Credential {
        credential_id: request.credential_id,
        issuer_id: request.issuer_id,
        issuer_key_epoch: request.issuer_key_epoch,
        subject_kind: request.subject_kind,
        subject_commitment: request.subject_commitment,
        holder_public_key: request.holder_public_key,
        holder_suite: request.holder_suite,
        scope_digest: request.scope_digest,
        policy_digest: request.policy_digest,
        qualifications_root: qualification_root(&request.qualifications).unwrap(),
        status_epoch: request.status_epoch,
        valid_from: request.valid_from,
        valid_until: request.valid_until,
        signature: SignatureBytes { first: id(61), second: id(62), pq: vec![63; 10] },
    }
}

fn reports() -> SignatureReports {
    let mut reports = SignatureReports::new();
    reports.set_encoding(credential().signature, vec![1, 2, 3]);
    reports
}

fn context() -> PresentationContext {
    PresentationContext {
        scope_digest: id(7),
        audience_digest: id(9),
        action_digest: id(10),
        request_digest: id(11),
        challenge_nonce: id(12),
        valid_until: 800,
    }
}

fn presentation() -> AnonymousPresentation {
    AnonymousPresentation {
        credential: credential(),
        context: context(),
        qualifications: vec![qualification_proof(&qualifications(), &qualifications()[2]).unwrap()],
        nullifier: id(77),
        announcement_commitment: id(41),
        announcement_nullifier: id(42),
        response_subject: id(43),
        response_blinding: id(44),
        holder_signature: vec![5; 3309],
    }
}

#[test]
fn leaf_digest_covers_domain_length_namespace_and_predicate() {
    assert_eq!(
        qualifications()[2].leaf_digest(),
        Ok(hex("02988f613bc0794acbea9bb3ebe35c3663c2966f938b7ee021572cd83a8d14f4"))
    );
    let other = Qualification { namespace: "日本.資格".into(), predicate_digest: id(9) };
    assert_eq!(
        other.leaf_digest(),
        Ok(hex("32c9667eca737044f92226edb8f7340130bf10652d30356e6de79e0edd7c17aa"))
    );
}

#[test]
fn root_repeats_the_last_node_of_an_odd_level_and_ignores_order() {
    let root = hex("49efa7f7b22c102fdc7af370b650764c757b76aa2489e56ed115b5f63313db2d");
    assert_eq!(qualification_root(&qualifications()), Ok(root));
    let mut reversed = qualifications();
    reversed.reverse();
    assert_eq!(qualification_root(&reversed), Ok(root));
    let single = vec![qualifications()[2].clone()];
    assert_eq!(qualification_root(&single), qualifications()[2].leaf_digest());
}

#[test]
fn membership_proof_lists_the_neighbours_up_to_the_root() {
    let proof = qualification_proof(&qualifications(), &qualifications()[2]).unwrap();
    assert_eq!(
        proof,
        QualificationProof {
            qualification: qualifications()[2].clone(),
            index: 1,
            total: 3,
            siblings: vec![
                hex("0b048dd398ed30a49bd8ac3df2b836ecdea95fac7490ff9edfe38fad4f224702"),
                hex("2a356c4bf0adf01f63b720bf0c540a100e853406193730a40a40ceff70b9bd96"),
            ],
        }
    );
    let root = qualification_root(&qualifications()).unwrap();
    assert_eq!(proof.verify(&root), Ok(()));
    assert_eq!(proof.verify(&id(1)), Err(DeKyxError::InvalidQualificationProof));
}

#[test]
fn every_member_of_sets_of_many_sizes_is_proven_and_no_other() {
    for size in 1..=20u8 {
        let set: Vec<Qualification> = (1..=size)
            .map(|i| Qualification { namespace: format!("n{i}"), predicate_digest: id(i) })
            .collect();
        let root = qualification_root(&set).unwrap();
        for member in &set {
            let proof = qualification_proof(&set, member).unwrap();
            assert_eq!(proof.verify(&root), Ok(()));
            let mut moved = proof.clone();
            moved.qualification =
                Qualification { namespace: "other".into(), predicate_digest: id(99) };
            assert_eq!(moved.verify(&root), Err(DeKyxError::InvalidQualificationProof));
        }
        let stranger = Qualification { namespace: "other".into(), predicate_digest: id(99) };
        assert_eq!(
            qualification_proof(&set, &stranger),
            Err(DeKyxError::MissingQualification)
        );
    }
}

#[test]
fn membership_proof_of_a_malformed_shape_is_refused() {
    let root = qualification_root(&qualifications()).unwrap();
    let good = qualification_proof(&qualifications(), &qualifications()[0]).unwrap();
    assert_eq!(good.index, 2);
    let mut empty = good.clone();
    empty.total = 0;
    assert_eq!(empty.verify(&root), Err(DeKyxError::InvalidQualificationProof));
    let mut outside = good.clone();
    outside.index = 3;
    assert_eq!(outside.verify(&root), Err(DeKyxError::InvalidQualificationProof));
    let mut long = good.clone();
    long.siblings = vec![id(1); 33];
    assert_eq!(long.verify(&root), Err(DeKyxError::InvalidQualificationProof));
    let mut short = good.clone();
    short.siblings.pop();
    assert_eq!(short.verify(&root), Err(DeKyxError::InvalidQualificationProof));
    // The last node of an odd level has to be joined with itself.
    let mut joined = good.clone();
    joined.siblings[0] = id(1);
    assert_eq!(joined.verify(&root), Err(DeKyxError::InvalidQualificationProof));
    let mut control = good;
    control.qualification.namespace = "a\u{7}".into();
    assert_eq!(control.verify(&root), Err(DeKyxError::InvalidQualification));
}

#[test]
fn namespaces_are_bounded_in_bytes_and_free_of_control_characters() {
    let valid = |namespace: &str| {
        Qualification { namespace: namespace.into(), predicate_digest: id(1) }.validate()
    };
    assert_eq!(valid(""), Err(DeKyxError::InvalidQualification));
    assert_eq!(valid(&"a".repeat(128)), Ok(()));
    assert_eq!(valid(&"a".repeat(129)), Err(DeKyxError::InvalidQualification));
    assert_eq!(valid(&"é".repeat(64)), Ok(()));
    assert_eq!(valid(&"é".repeat(65)), Err(DeKyxError::InvalidQualification));
    assert_eq!(valid("a\u{1f}"), Err(DeKyxError::InvalidQualification));
    assert_eq!(valid("a\u{7f}"), Err(DeKyxError::InvalidQualification));
    assert_eq!(valid("a\u{9f}"), Err(DeKyxError::InvalidQualification));
    assert_eq!(valid("a\u{a0}"), Ok(()));
    let zero = Qualification { namespace: "a".into(), predicate_digest: id(0) };
    assert_eq!(zero.validate(), Err(DeKyxError::InvalidQualification));
}

#[test]
fn sets_of_qualifications_are_bounded_and_without_repetition() {
    assert_eq!(qualification_root(&[]), Err(DeKyxError::InvalidQualification));
    let many = |count: usize| -> Vec<Qualification> {
        (0..count)
            .map(|i| Qualification { namespace: format!("n{i}"), predicate_digest: id(1) })
            .collect()
    };
    assert!(qualification_root(&many(256)).is_ok());
    assert_eq!(qualification_root(&many(257)), Err(DeKyxError::InvalidQualification));
    let twice = vec![qualifications()[0].clone(), qualifications()[0].clone()];
    assert_eq!(qualification_root(&twice), Err(DeKyxError::InvalidQualification));
    // The same namespace with another predicate is another qualification.
    let mut pair = vec![qualifications()[0].clone(), qualifications()[0].clone()];
    pair[1].predicate_digest = id(6);
    assert!(qualification_root(&pair).is_ok());
}

#[test]
fn issuer_keys_are_hexadecimal_and_decimal() {
    assert_eq!(issuer_key(&id(0xab), 1), format!("{}:1", "ab".repeat(32)));
    assert_eq!(issuer_key(&id(0x07), 1_234_567_890_123), format!("{}:1234567890123", "07".repeat(32)));
    assert_eq!(issuer_key(&id(0xf0), 0), format!("{}:0", "f0".repeat(32)));
    assert_eq!(
        issuer_key(&id(0), u64::MAX),
        format!("{}:18446744073709551615", "00".repeat(32))
    );
}

#[test]
fn subject_kinds_have_their_tags() {
    assert_eq!(SubjectKind::Person.tag(), 1);
    assert_eq!(SubjectKind::LegalEntity.tag(), 2);
    assert_eq!(SubjectKind::Device.tag(), 3);
    assert_eq!(SubjectKind::Service.tag(), 4);
    assert_eq!(SubjectKind::AutonomousAgent.tag(), 5);
}

#[test]
fn request_statement_covers_every_field() {
    assert_eq!(
        request().statement_digest(),
        Ok(hex("cc2875f7148ef6f7c37e2bca89e55f908058e11fd18058b47191ec6346a5ca4b"))
    );
    let mut later = request();
    later.valid_until = 901;
    assert_ne!(later.statement_digest(), request().statement_digest());
}

#[test]
fn request_statement_refusals_come_in_order() {
    let mut zero = request();
    zero.scope_digest = id(0);
    zero.subject_commitment = id(255);
    assert_eq!(zero.statement_digest(), Err(DeKyxError::InvalidCredential));
    let mut point = request();
    point.subject_commitment = id(255);
    point.holder_public_key.pop();
    assert_eq!(point.statement_digest(), Err(DeKyxError::NonCanonicalPoint));
    let mut holder = request();
    holder.holder_public_key.pop();
    holder.qualifications.clear();
    assert_eq!(holder.statement_digest(), Err(DeKyxError::InvalidCredential));
    let mut suite = request();
    suite.holder_suite.id = SuiteId::Ed25519;
    assert_eq!(suite.statement_digest(), Err(DeKyxError::InvalidCredential));
    let mut none = request();
    none.qualifications.clear();
    assert_eq!(none.statement_digest(), Err(DeKyxError::InvalidQualification));
    let mut backwards = request();
    backwards.valid_from = 901;
    assert_eq!(backwards.statement_digest(), Err(DeKyxError::InvalidCredential));
}

#[test]
fn credential_statement_and_digest() {
    assert_eq!(
        credential().statement_digest(),
        Ok(hex("8dfb81f2525b320c74ace28ab2c1434966f845a01f199d753d389bbc792b8a43"))
    );
    assert_eq!(
        credential().digest(&reports()),
        Ok(hex("bd91427b0cc7af68373f5ad58c1a49d5cbb74052bb19adbd008a2bca339ca914"))
    );
    assert_eq!(
        credential().digest(&SignatureReports::new()),
        Err(DeKyxError::InvalidCredentialSignature)
    );
    let mut invalid = credential();
    invalid.status_epoch = 0;
    assert_eq!(invalid.digest(&SignatureReports::new()), Err(DeKyxError::InvalidCredential));
}

#[test]
fn issuance_signing_message() {
    let proof = CredentialIssuanceProof {
        announcement_commitment: id(31),
        response_subject: id(32),
        response_blinding: id(33),
        holder_signature: vec![],
    };
    assert_eq!(
        proof.holder_signing_message(&request()),
        Ok(hex("1911660494e948045b3e0dea517a5e07971a2c8b6eb568581ce26d21034de65f"))
    );
}

#[test]
fn status_list_statement_wants_ascending_digests() {
    let list = |revoked: Vec<[u8; 32]>| RevocationStatusList {
        issuer_id: id(1),
        issuer_key_epoch: 1,
        status_epoch: 3,
        effective_at: 100,
        valid_until: 950,
        revoked_credentials: revoked,
        signature: SignatureBytes { first: id(0), second: id(0), pq: vec![] },
    };
    assert_eq!(
        list(vec![id(20), id(21)]).statement_digest(),
        Ok(hex("6392ddc8b19f2198f0d14b8d6b449587bef17fd3821c9b9cd9409bc23e2e8d4e"))
    );
    assert_eq!(
        list(vec![id(21), id(20)]).statement_digest(),
        Err(DeKyxError::InvalidStatusList)
    );
    assert_eq!(
        list(vec![id(20), id(20)]).statement_digest(),
        Err(DeKyxError::InvalidStatusList)
    );
    assert_eq!(
        list(vec![id(0), id(20)]).statement_digest(),
        Err(DeKyxError::InvalidStatusList)
    );
    let mut sorted = list(vec![id(21), id(20)]);
    assert_eq!(sorted.canonicalize(), Ok(()));
    assert_eq!(sorted.revoked_credentials, vec![id(20), id(21)]);
    let mut twice = list(vec![id(21), id(20), id(21)]);
    assert_eq!(twice.canonicalize(), Err(DeKyxError::InvalidStatusList));
    let mut zero = list(vec![id(21), id(0)]);
    assert_eq!(zero.canonicalize(), Err(DeKyxError::InvalidStatusList));
}

#[test]
fn context_digest_and_its_uses() {
    assert_eq!(
        context().digest(),
        Ok(hex("02b44b331cd5beaaa1d2d0fbffeacc45e124e2a2dd958b8f475845d776c812d8"))
    );
    let mut incomplete = context();
    incomplete.challenge_nonce = id(0);
    assert_eq!(incomplete.digest(), Err(DeKyxError::InvalidPresentationContext));

    let mut ledger = PresentationLedger::default();
    assert!(ledger.is_empty());
    assert_eq!(
        ledger.consume(&id(77), &incomplete),
        Err(DeKyxError::InvalidPresentationContext)
    );
    assert_eq!(
        ledger.consume(&id(77), &context()),
        Ok(hex("228b2881cc7ffc3ee5e9bcf76c54c774c67bd4821a3d09ec51e01b658343009e"))
    );
    assert_eq!(ledger.consume(&id(77), &context()), Err(DeKyxError::ReplayedContext));
    assert!(ledger.consume(&id(78), &context()).is_ok());
    assert_eq!(ledger.len(), 2);
    assert!(!ledger.is_empty());
    let reloaded = PresentationLedger::of_consumed(ledger.consumed());
    assert_eq!(reloaded, ledger);
}

#[test]
fn presentation_digests() {
    let presentation = presentation();
    assert_eq!(
        presentation.holder_signing_message(&reports()),
        Ok(hex("411fd706f2b6615902b02bc6a67c389db5abd30ce3f905abf200f8a0db074df0"))
    );
    assert_eq!(
        presentation.digest(&reports()),
        Ok(hex("a41773cc01c24d03efc320d78944e06d18e639aa5d5444e78d80e7c7ddc578b2"))
    );
    assert_eq!(
        presentation.subject_line_id(),
        Ok(hex("fefc6990ecd98cacd2ccf9176ddcd5f6d600513e7cd246a6102f08b7908b8320"))
    );
    let mut short = presentation.clone();
    short.holder_signature.pop();
    assert_eq!(short.digest(&reports()), Err(DeKyxError::InvalidAnonymousProof));
    let mut invalid = presentation;
    invalid.qualifications[0].qualification.namespace.clear();
    assert_eq!(invalid.digest(&reports()), Err(DeKyxError::InvalidQualification));
}

#[test]
fn custody_is_opened_under_the_digest_of_credential_and_context() {
    let custody = EncryptedCredentialWitness {
        version: 1,
        credential_digest: credential().digest(&reports()).unwrap(),
        custody_context: id(55),
        sealed: SealedMessage { ciphertext: vec![1; 97], header: vec![] },
    };
    assert_eq!(
        custody.opening(&credential(), &id(55), &reports()),
        Ok(hex("671841b82bcf35b1d277e84204f4441da9a0fa06c2b4fcbdb4ce5fb04fefe360"))
    );
    let refused = Err(DeKyxError::InvalidWitness);
    assert_eq!(custody.opening(&credential(), &id(56), &reports()), refused);
    let mut version = custody.clone();
    version.version = 2;
    assert_eq!(version.opening(&credential(), &id(55), &reports()), refused);
    let mut short = custody.clone();
    short.sealed.ciphertext.pop();
    assert_eq!(short.opening(&credential(), &id(55), &reports()), refused);
    let mut other = custody.clone();
    other.credential_digest = id(1);
    assert_eq!(other.opening(&credential(), &id(55), &reports()), refused);
    let mut zero = custody.clone();
    zero.custody_context = id(0);
    assert_eq!(zero.opening(&credential(), &id(0), &reports()), refused);
    assert_eq!(
        custody.opening(&credential(), &id(55), &SignatureReports::new()),
        Err(DeKyxError::InvalidCredentialSignature)
    );
}
