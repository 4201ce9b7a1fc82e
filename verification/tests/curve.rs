use curve25519_dalek::constants::RISTRETTO_BASEPOINT_POINT;
use curve25519_dalek::ristretto::RistrettoPoint;
use dekyx_core::group::Point;
use dekyx_core::{
    CredentialWitness, DeKyxError, HolderKey, Qualification, Scalar, Suite, SuiteId,
};
use sha2::Sha512;

fn hex(text: &str) -> [u8; 32] {
    let mut out = [0u8; 32];
    for (i, byte) in out.iter_mut().enumerate() {
        *byte = u8::from_str_radix(&text[2 * i..2 * i + 2], 16).unwrap();
    }
    out
}

fn small(value: u8) -> Scalar {
    let mut bytes = [0u8; 32];
    bytes[0] = value;
    Scalar::from_canonical_bytes(bytes).unwrap()
}

fn rising() -> [u8; 64] {
    let mut bytes = [0u8; 64];
    for (i, byte) in bytes.iter_mut().enumerate() {
        *byte = i as u8;
    }
    bytes
}

fn falling() -> [u8; 64] {
    let mut bytes = rising();
    bytes.reverse();
    bytes
}

fn holder_key(seed: u8) -> HolderKey {
    HolderKey {
        seed: [seed; 32],
        public_key: vec![seed; 1952],
        suite: Suite { id: SuiteId::MlDsa65, encoding: vec![0, 2] },
    }
}

fn qualifications() -> Vec<Qualification> {
    vec![Qualification { namespace: "jp.kyb".into(), predicate_digest: [4; 32] }]
}

#[test]
fn scalars_are_canonical_below_the_group_order() {
    let order = hex("edd3f55c1a631258d69cf7a2def9de1400000000000000000000000000000010");
    let last = hex("ecd3f55c1a631258d69cf7a2def9de1400000000000000000000000000000010");
    assert!(Scalar::from_canonical_bytes(order).is_none());
    assert_eq!(Scalar::from_canonical_bytes(last).unwrap().to_bytes(), last);
    assert!(Scalar::from_canonical_bytes([255; 32]).is_none());
    assert!(Scalar::from_canonical_bytes([0; 32]).unwrap().is_zero());
    assert!(!small(1).is_zero());
    // One more than the last scalar is zero.
    assert!(Scalar::from_canonical_bytes(last).unwrap().plus(&small(1)).is_zero());
}

#[test]
fn scalar_arithmetic_is_modulo_the_group_order() {
    let a = Scalar::from_wide_bytes(&rising());
    let b = Scalar::from_wide_bytes(&falling());
    assert_eq!(
        a.to_bytes(),
        hex("7a3c6282f02d37a05023b60d5428e6cc5961d4c31221937adae0b574e4d07205")
    );
    assert_eq!(
        a.plus(&b).to_bytes(),
        hex("004fe70417b031d432f4145c295be2aea0c54b66b2310115dfe9f363a09ae300")
    );
    assert_eq!(
        a.times(&b).to_bytes(),
        hex("c102f73e6c7f4c40cdac447ade7c8abc8843d7907739fa81d0291ffb3aa18b0f")
    );
    assert_eq!(
        Scalar::from_message(b"hello").to_bytes(),
        hex("b586c3423482ab97d876ce24cab8bd8ab84e22ac3a52a8dfbb330bbe92a3260f")
    );
}

#[test]
fn points_are_multiples_of_the_base_point() {
    let base = hex("e2f2ae0a6abc4e71a884a961c500515f58e30b6aa582dd8db6a65945e08d2d76");
    let double = hex("6a493210f7499cd17fecb510ae0cea23a110e8d5b901f8acadd3095c73a3b919");
    assert_eq!(Point::base().compress(), base);
    assert_eq!(Point::base().times(&small(2)).compress(), double);
    assert_eq!(Point::base().plus(&Point::base()).compress(), double);
    assert!(Point::base().times(&small(0)).is_identity());
    assert_eq!(Point::base().times(&small(0)).compress(), [0; 32]);
    assert!(!Point::base().is_identity());
    assert!(Point::decompress(&base).unwrap().same(&Point::base()));
    assert!(!Point::decompress(&double).unwrap().same(&Point::base()));
    assert!(Point::decompress(&[255; 32]).is_none());
    assert!(Point::decompress(&[1; 32]).is_none());
}

#[test]
fn points_are_hashed_with_sha_512() {
    assert_eq!(
        Point::hash_of(b"scope").compress(),
        RistrettoPoint::hash_from_bytes::<Sha512>(b"scope").compress().to_bytes()
    );
}

#[test]
fn witness_commits_to_its_secret_and_has_a_pseudonym_per_scope() {
    let witness = CredentialWitness::from_scalars_with_holder(
        small(5),
        small(9),
        qualifications(),
        holder_key(1),
    )
    .unwrap();
    let five = curve25519_dalek::scalar::Scalar::from(5u8);
    let nine = curve25519_dalek::scalar::Scalar::from(9u8);
    let blinding_generator =
        RistrettoPoint::hash_from_bytes::<Sha512>(b"DEKYX:SUBJECT-BLINDING-GENERATOR:v1");
    assert_eq!(
        witness.subject_commitment(),
        (RISTRETTO_BASEPOINT_POINT * five + blinding_generator * nine).compress().to_bytes()
    );
    let mut message = b"DEKYX:SCOPE-NULLIFIER-GENERATOR:v1".to_vec();
    message.extend_from_slice(&[54; 32]);
    let generator = RistrettoPoint::hash_from_bytes::<Sha512>(&message);
    assert_eq!(
        witness.scope_nullifier(&[54; 32]),
        (generator * five).compress().to_bytes()
    );
    assert_eq!(witness.holder_public_key(), vec![1; 1952]);
    assert_eq!(witness.holder_suite(), holder_key(1).suite);
    assert_eq!(witness.holder_seed(), [1; 32]);
    assert_eq!(witness.qualifications(), &qualifications());

    // Rerandomizing keeps the secret, and so the pseudonym, and nothing else that shows.
    let other = witness.rerandomize(&rising(), holder_key(2));
    assert_eq!(other.scope_nullifier(&[54; 32]), witness.scope_nullifier(&[54; 32]));
    assert_ne!(other.scope_nullifier(&[55; 32]), witness.scope_nullifier(&[54; 32]));
    assert_ne!(other.subject_commitment(), witness.subject_commitment());
    assert_ne!(other.holder_public_key(), witness.holder_public_key());
}

#[test]
fn witnesses_without_a_secret_are_refused() {
    let made = |secret: Scalar, qualifications: Vec<Qualification>| {
        CredentialWitness::from_scalars_with_holder(
            secret,
            small(1),
            qualifications,
            holder_key(1),
        )
        .map(|_| ())
    };
    assert_eq!(made(small(1), qualifications()), Ok(()));
    assert_eq!(made(small(0), qualifications()), Err(DeKyxError::InvalidWitness));
    assert_eq!(made(small(1), vec![]), Err(DeKyxError::InvalidQualification));
    assert_eq!(
        CredentialWitness::from_scalars(small(1), small(1), qualifications(), None).map(|_| ()),
        Err(DeKyxError::InvalidWitness)
    );
    assert_eq!(
        CredentialWitness::from_scalars(small(1), small(1), qualifications(), Some(holder_key(1)))
            .map(|_| ()),
        Ok(())
    );
    // A draw that reduces to zero has to be repeated.
    assert!(CredentialWitness::random(qualifications(), &[0; 64], &rising(), holder_key(1))
        .unwrap()
        .is_none());
    assert!(CredentialWitness::random(qualifications(), &rising(), &falling(), holder_key(1))
        .unwrap()
        .is_some());
    assert_eq!(
        CredentialWitness::random(vec![], &rising(), &falling(), holder_key(1)).map(|_| ()),
        Err(DeKyxError::InvalidQualification)
    );
}
