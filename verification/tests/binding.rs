use curve25519_dalek::constants::RISTRETTO_BASEPOINT_POINT;
use curve25519_dalek::ristretto::{CompressedRistretto, RistrettoPoint};
use dekyx_core::text::issuer_key;
use dekyx_core::{
    qualification_proof, qualification_root, AnonymousPresentation, Credential,
    CredentialRequest, CredentialWitness, CustodyParts, HolderKey, PresentationContext,
    Qualification, QualificationProof, RevocationStatusList, Scalar, SignatureBytes,
    SignatureReports, SubjectKind, Suite, SuiteId,
};
use sha2::{Digest, Sha256, Sha512};

type DalekScalar = curve25519_dalek::scalar::Scalar;

fn id(byte: u8) -> [u8; 32] {
    [byte; 32]
}

fn qualifications() -> Vec<Qualification> {
    (1..=5u8)
        .map(|i| Qualification { namespace: format!("n{i}"), predicate_digest: id(i) })
        .collect()
}

fn witness() -> CredentialWitness {
    CredentialWitness::from_scalars_with_holder(
        Scalar::from_wide_bytes(&[3; 64]),
        Scalar::from_wide_bytes(&[4; 64]),
        qualifications(),
        HolderKey {
            seed: id(1),
            public_key: vec![5; 1952],
            suite: Suite { id: SuiteId::MlDsa65, encoding: vec![0, 2] },
        },
    )
    .unwrap()
}

fn request() -> CredentialRequest {
    let witness = witness();
    CredentialRequest {
        credential_id: id(6),
        issuer_id: id(1),
        issuer_key_epoch: 1,
        subject_kind: SubjectKind::LegalEntity,
        subject_commitment: witness.subject_commitment(),
        holder_public_key: witness.holder_public_key(),
        holder_suite: witness.holder_suite(),
        scope_digest: id(7),
        policy_digest: id(8),
        qualifications: qualifications(),
        status_epoch: 2,
        valid_from: 150,
        valid_until: 900,
    }
}

fn credential() -> Credential {
    let request = request();
    Credential {
        credential_id: request.credential_id,
        issuer_id: request.issuer_id,
        issuer_key_epoch: request.issuer_key_epoch,
        subject_kind: request.subject_kind,
        subject_commitment: request.subject_commitment,
        holder_public_key: request.holder_public_key,
        holder_suite: request.holder_suite,
        scope_digest: request.scope_digest,
        policy_digest: request.policy_digest,
        qualifications_root: qualification_root(&request.qualifications).unwrap(),
        status_epoch: request.status_epoch,
        valid_from: request.valid_from,
        valid_until: request.valid_until,
        signature: SignatureBytes { first: id(61), second: id(62), pq: vec![63] },
    }
}

fn all_different(digests: Vec<[u8; 32]>) {
    for (i, a) in digests.iter().enumerate() {
        for b in &digests[i + 1..] {
            assert_ne!(a, b);
        }
    }
}

#[test]
fn keys_of_issuer_epochs_are_distinct() {
    let mut keys = Vec::new();
    for issuer in [0u8, 1, 16, 0x11] {
        for epoch in [0u64, 1, 10, 11, 111] {
            keys.push(issuer_key(&id(issuer), epoch));
        }
    }
    let count = keys.len();
    keys.sort();
    keys.dedup();
    assert_eq!(keys.len(), count);
}

#[test]
fn changing_a_credential_changes_its_statement_unless_it_is_the_signature() {
    let mut variants = vec![credential(); 13];
    variants[1].credential_id = id(60);
    variants[2].issuer_id = id(60);
    variants[3].issuer_key_epoch = 60;
    variants[4].subject_kind = SubjectKind::Device;
    variants[5].subject_commitment = RISTRETTO_BASEPOINT_POINT.compress().to_bytes();
    variants[6].holder_public_key[0] ^= 1;
    variants[7].holder_suite.encoding.push(1);
    variants[8].scope_digest = id(60);
    variants[9].policy_digest = id(60);
    variants[10].qualifications_root = id(60);
    variants[11].status_epoch = 60;
    variants[12].valid_from = 151;
    all_different(variants.iter().map(|c| c.statement_digest().unwrap()).collect());
    let mut resigned = credential();
    resigned.signature.pq.push(1);
    assert_eq!(resigned.statement_digest(), credential().statement_digest());
}

#[test]
fn changing_a_request_changes_its_statement() {
    let mut variants = vec![request(); 9];
    variants[1].credential_id = id(60);
    variants[2].issuer_key_epoch = 60;
    variants[3].subject_kind = SubjectKind::Service;
    variants[4].holder_public_key[1951] ^= 1;
    variants[5].holder_suite.encoding = vec![0, 2, 0];
    variants[6].qualifications.pop();
    variants[7].status_epoch = 60;
    variants[8].valid_until = 901;
    all_different(variants.iter().map(|r| r.statement_digest().unwrap()).collect());
}

#[test]
fn changing_a_status_list_or_a_context_changes_its_digest() {
    let list = RevocationStatusList {
        issuer_id: id(1),
        issuer_key_epoch: 1,
        status_epoch: 3,
        effective_at: 100,
        valid_until: 950,
        revoked_credentials: vec![id(20), id(21)],
        signature: SignatureBytes { first: id(0), second: id(0), pq: vec![] },
    };
    let mut variants = vec![list; 7];
    variants[1].issuer_id = id(2);
    variants[2].issuer_key_epoch = 2;
    variants[3].status_epoch = 4;
    variants[4].effective_at = 101;
    variants[5].valid_until = 951;
    variants[6].revoked_credentials.pop();
    all_different(variants.iter().map(|l| l.statement_digest().unwrap()).collect());

    let context = PresentationContext {
        scope_digest: id(7),
        audience_digest: id(9),
        action_digest: id(10),
        request_digest: id(11),
        challenge_nonce: id(12),
        valid_until: 800,
    };
    let mut variants = vec![context; 7];
    variants[1].scope_digest = id(8);
    variants[2].audience_digest = id(8);
    variants[3].action_digest = id(8);
    variants[4].request_digest = id(8);
    variants[5].challenge_nonce = id(8);
    variants[6].valid_until = 801;
    all_different(variants.iter().map(|c| c.digest().unwrap()).collect());
}

#[test]
fn changing_a_presentation_changes_what_the_holder_signs() {
    let proof = qualification_proof(&qualifications(), &qualifications()[2]).unwrap();
    let presentation = AnonymousPresentation {
        credential: credential(),
        context: PresentationContext {
            scope_digest: id(7),
            audience_digest: id(9),
            action_digest: id(10),
            request_digest: id(11),
            challenge_nonce: id(12),
            valid_until: 800,
        },
        qualifications: vec![proof.clone(), proof],
        nullifier: id(77),
        announcement_commitment: id(41),
        announcement_nullifier: id(42),
        response_subject: id(43),
        response_blinding: id(44),
        holder_signature: vec![],
    };
    let mut variants = vec![presentation; 11];
    variants[1].context.valid_until = 801;
    variants[2].nullifier = id(78);
    variants[3].announcement_commitment = id(78);
    variants[4].announcement_nullifier = id(78);
    variants[5].response_subject = id(78);
    variants[6].response_blinding = id(78);
    variants[7].qualifications.pop();
    variants[8].qualifications[1].index = 0;
    // A sibling that moves from one proof to the other is told apart.
    let moved = variants[9].qualifications[0].siblings.pop().unwrap();
    variants[9].qualifications[1].siblings.insert(0, moved);
    variants[10].qualifications[0].total = 6;
    let mut reports = SignatureReports::new();
    reports.set_encoding(credential().signature, vec![1]);
    all_different(
        variants.iter().map(|p| p.holder_signing_message(&reports).unwrap()).collect(),
    );
}

#[test]
fn an_inner_node_is_no_leaf() {
    // A proof cannot be shortened by starting at an inner node, nor lengthened below a leaf.
    let set = qualifications();
    let root = qualification_root(&set).unwrap();
    for member in &set {
        let proof = qualification_proof(&set, member).unwrap();
        assert_eq!(proof.siblings.len(), 3);
        let mut cut: QualificationProof = proof.clone();
        cut.siblings.remove(0);
        cut.index /= 2;
        cut.total = 3;
        assert!(cut.verify(&root).is_err());
        let mut grown = proof;
        let leaf = member.leaf_digest().unwrap();
        grown.siblings.insert(0, leaf);
        assert!(grown.verify(&root).is_err());
    }
    // The two kinds of node have different domains.
    let leaves: Vec<[u8; 32]> = set.iter().map(|q| q.leaf_digest().unwrap()).collect();
    let mut hash = Sha256::new();
    hash.update(b"DEKYX:QUALIFICATION-NODE:v1");
    hash.update(leaves[0]);
    hash.update(leaves[1]);
    let node: [u8; 32] = hash.finalize().into();
    let pair = qualification_root(&set[..2]).unwrap();
    assert_eq!(pair, node);
}

#[test]
fn custody_parts_split_and_rejoin() {
    let clear: Vec<u8> = (0..100).collect();
    let parts = CustodyParts::split(&clear);
    assert_eq!(parts.subject_secret[..], clear[..32]);
    assert_eq!(parts.blinding[..], clear[32..64]);
    assert_eq!(parts.seed[..], clear[64..96]);
    assert_eq!(parts.qualifications, clear[96..].to_vec());
    assert_eq!(parts.join(), clear);
}

fn challenge(request: &CredentialRequest, announcement: &[u8; 32]) -> DalekScalar {
    let mut hash = Sha512::new();
    hash.update(b"DEKYX:ISSUANCE-PROOF:v2");
    hash.update(request.statement_digest().unwrap());
    hash.update(announcement);
    DalekScalar::from_hash(hash)
}

fn dalek(bytes: [u8; 32]) -> DalekScalar {
    DalekScalar::from_canonical_bytes(bytes).unwrap()
}

#[test]
fn answers_to_two_challenges_give_the_opening_and_one_answer_its_nonce() {
    let witness = witness();
    let first = request();
    let mut second = request();
    second.status_epoch = 3;
    let a = witness.prove_issuance(&first, &[8; 64], &[9; 64]).unwrap().signed(Some(vec![])).unwrap();
    let b = witness.prove_issuance(&second, &[8; 64], &[9; 64]).unwrap().signed(Some(vec![])).unwrap();
    assert_eq!(a.announcement_commitment, b.announcement_commitment);
    let difference = challenge(&first, &a.announcement_commitment)
        - challenge(&second, &b.announcement_commitment);
    let secret = dalek(a.response_subject) - dalek(b.response_subject);
    let blinding = dalek(a.response_blinding) - dalek(b.response_blinding);
    let generator =
        RistrettoPoint::hash_from_bytes::<Sha512>(b"DEKYX:SUBJECT-BLINDING-GENERATOR:v1");
    let commitment = CompressedRistretto(witness.subject_commitment()).decompress().unwrap();
    assert_eq!(
        commitment * difference,
        RISTRETTO_BASEPOINT_POINT * secret + generator * blinding
    );
    assert_eq!(
        secret * difference.invert(),
        DalekScalar::from_bytes_mod_order_wide(&[3; 64])
    );
    // The nonce behind an answer is the answer minus the challenge times the secret.
    let nonce = dalek(a.response_subject)
        - challenge(&first, &a.announcement_commitment)
            * DalekScalar::from_bytes_mod_order_wide(&[3; 64]);
    assert_eq!(nonce, DalekScalar::from_bytes_mod_order_wide(&[8; 64]));
}
