//! Recipient-encrypted holder recovery.
//!
//! A witness is kept in sealed form only. Sealing and signing are not the library's work, so two
//! calls do hand secrets out: [`CustodySealing::clear`] gives the plain bytes that go into the
//! seal, and [`CredentialWitness::holder_seed`] the seed that the signature backend signs with.
//! Neither is to be stored. The library holds secrets as plain values and does not wipe them;
//! wiping a buffer that was handed out is the caller's.
//!
//! The caller pins the recovery public key and retains its independent private
//! key in authenticated custody. Recovery does not override current issuer
//! status, revocation, expiration or replay policy at presentation verification.
//!
//! The library lays out and checks what is sealed; the sealing itself, the derivation of a
//! holder key from its seed, and the notation of qualifications are the caller's.
use vstd::prelude::*;
use vstd::utf8::encode_utf8;

use crate::bytes::{append, append_digest, copy_bytes, same_digest, Digest32, ZERO};
use crate::credential::{Credential, CredentialModel};
use crate::error::DeKyxError;
use crate::group::{group_order, hashed_multiple, le_nat, point_encoding, Scalar};
use crate::hash::{sha256, sha256_digest};
use crate::qualification::{
    admissible, canonical_order, lemma_canonical_order, models, Qualification, QualificationModel,
};
use crate::signature::{take_32, SignatureReports, Suite, SuiteModel};
use crate::tree::{qualification_root, root_of};
use crate::witness::{
    witness_of, witness_refusal, CredentialWitness, HolderKey, HolderKeyModel, WitnessModel,
};

verus! {

/// Domain of the contexts under which witnesses are sealed.
pub const HOLDER_CUSTODY_DOMAIN: &'static str = "DEKYX:HOLDER-CUSTODY:v1";

/// The version of the sealed layout.
pub const CUSTODY_VERSION: u16 = 1;

/// How many bytes the secret scalars and the seed take.
pub const CUSTODY_SECRET_BYTES: usize = 96;

/// A sealed message: the ciphertext, and what else the sealing backend needs to open it.
#[derive(Debug, PartialEq, Eq)]
pub struct SealedMessage {
    pub ciphertext: Vec<u8>,
    pub header: Vec<u8>,
}

/// The contents of a sealed message.
pub struct SealedModel {
    pub ciphertext: Seq<u8>,
    pub header: Seq<u8>,
}

impl View for SealedMessage {
    type V = SealedModel;

    open spec fn view(&self) -> SealedModel {
        SealedModel { ciphertext: self.ciphertext@, header: self.header@ }
    }
}

impl Clone for SealedMessage {
    fn clone(&self) -> (r: Self)
        ensures
            r@ == self@,
    {
        SealedMessage {
            ciphertext: copy_bytes(self.ciphertext.as_slice()),
            header: copy_bytes(self.header.as_slice()),
        }
    }
}

/// A witness in custody.
#[derive(Debug, PartialEq, Eq)]
pub struct EncryptedCredentialWitness {
    pub version: u16,
    pub credential_digest: Digest32,
    pub custody_context: Digest32,
    pub sealed: SealedMessage,
}

/// The contents of a witness in custody.
pub struct EncryptedWitnessModel {
    pub version: u16,
    pub credential_digest: Digest32,
    pub custody_context: Digest32,
    pub sealed: SealedModel,
}

impl View for EncryptedCredentialWitness {
    type V = EncryptedWitnessModel;

    open spec fn view(&self) -> EncryptedWitnessModel {
        EncryptedWitnessModel {
            version: self.version,
            credential_digest: self.credential_digest,
            custody_context: self.custody_context,
            sealed: self.sealed@,
        }
    }
}

impl Clone for EncryptedCredentialWitness {
    fn clone(&self) -> (r: Self)
        ensures
            r@ == self@,
    {
        EncryptedCredentialWitness {
            version: self.version,
            credential_digest: self.credential_digest,
            custody_context: self.custody_context,
            sealed: self.sealed.clone(),
        }
    }
}

/// The bytes that the context of a sealing is hashed from.
pub open spec fn sealing_message(credential_digest: Digest32, custody_context: Digest32) -> Seq<
    u8,
> {
    encode_utf8(HOLDER_CUSTODY_DOMAIN@) + credential_digest@ + custody_context@
}

/// The context under which a witness is sealed, or why there is none.
pub open spec fn sealing_context(
    credential: CredentialModel,
    custody_context: Digest32,
    reports: SignatureReports,
) -> Result<Digest32, DeKyxError> {
    if custody_context == ZERO {
        Err(DeKyxError::InvalidWitness)
    } else {
        match credential.digest(reports) {
            Err(e) => Err(e),
            Ok(digest) => Ok(sha256_digest(sealing_message(digest, custody_context))),
        }
    }
}

/// The context under which a witness is sealed.
fn context(
    credential: &Credential,
    custody_context: &Digest32,
    reports: &SignatureReports,
) -> (r: Result<Digest32, DeKyxError>)
    ensures
        r == sealing_context(credential@, *custody_context, *reports),
{
    if same_digest(custody_context, &ZERO) {
        return Err(DeKyxError::InvalidWitness);
    }
    let digest = credential.digest(reports)?;
    let mut message: Vec<u8> = Vec::new();
    append(&mut message, HOLDER_CUSTODY_DOMAIN.as_bytes());
    append_digest(&mut message, &digest);
    append_digest(&mut message, custody_context);
    assert(message@ =~= sealing_message(digest, *custody_context));
    Ok(sha256(message.as_slice()))
}

/// The credential was issued for this witness: it has its commitment, its holder key, and the
/// root of its qualifications.
pub open spec fn issued_for(witness: WitnessModel, credential: CredentialModel) -> bool {
    &&& witness.matches_holder(
        credential.subject_commitment,
        credential.holder_public_key,
        credential.holder_suite,
    )
    &&& root_of(witness.qualifications) == Ok::<Digest32, DeKyxError>(
        credential.qualifications_root,
    )
}

/// Why a witness cannot be sealed, if it cannot. `noted` says whether the caller could note
/// down the qualifications.
pub open spec fn sealing_refusal(
    witness: WitnessModel,
    credential: CredentialModel,
    custody_context: Digest32,
    noted: bool,
    reports: SignatureReports,
) -> Option<DeKyxError> {
    if !issued_for(witness, credential) || !noted {
        Some(DeKyxError::InvalidWitness)
    } else {
        match sealing_context(credential, custody_context, reports) {
            Err(e) => Some(e),
            Ok(_) => None,
        }
    }
}

/// What a sealed witness consists of: the subject secret, the blinding, the seed of the holder
/// key, and the qualifications as the caller notes them down.
pub struct CustodyParts {
    pub subject_secret: [u8; 32],
    pub blinding: [u8; 32],
    pub seed: [u8; 32],
    pub qualifications: Vec<u8>,
}

/// The contents of the parts.
pub struct CustodyPartsModel {
    pub subject_secret: [u8; 32],
    pub blinding: [u8; 32],
    pub seed: [u8; 32],
    pub qualifications: Seq<u8>,
}

impl View for CustodyParts {
    type V = CustodyPartsModel;

    open spec fn view(&self) -> CustodyPartsModel {
        CustodyPartsModel {
            subject_secret: self.subject_secret,
            blinding: self.blinding,
            seed: self.seed,
            qualifications: self.qualifications@,
        }
    }
}

impl CustodyPartsModel {
    /// The parts, one after the other.
    pub open spec fn clear(self) -> Seq<u8> {
        self.subject_secret@ + self.blinding@ + self.seed@ + self.qualifications
    }

    /// The parts are those of a witness.
    pub open spec fn of_witness(self, witness: WitnessModel, noted: Seq<u8>) -> bool {
        &&& le_nat(self.subject_secret@) == witness.secret
        &&& le_nat(self.blinding@) == witness.blinding
        &&& self.seed == witness.holder.seed
        &&& self.qualifications == noted
    }
}

impl CustodyParts {
    /// Takes the clear text of a sealed witness apart.
    pub fn split(clear: &[u8]) -> (r: CustodyParts)
        requires
            clear@.len() >= CUSTODY_SECRET_BYTES,
        ensures
            r@.clear() == clear@,
    {
        let subject_secret = take_32(clear, 0);
        let blinding = take_32(clear, 32);
        let seed = take_32(clear, 64);
        let mut qualifications: Vec<u8> = Vec::new();
        let mut i: usize = 96;
        while i < clear.len()
            invariant
                96 <= i <= clear.len(),
                qualifications@ == clear@.subrange(96, i as int),
            decreases clear.len() - i,
        {
            qualifications.push(clear[i]);
            assert(clear@.subrange(96, i + 1) =~= clear@.subrange(96, i as int).push(
                clear@[i as int],
            ));
            i += 1;
        }
        let r = CustodyParts { subject_secret, blinding, seed, qualifications };
        assert(r@.clear() =~= clear@);
        r
    }

    /// The clear text of a sealed witness.
    pub fn join(&self) -> (r: Vec<u8>)
        ensures
            r@ == self@.clear(),
    {
        let mut clear: Vec<u8> = Vec::new();
        append_digest(&mut clear, &self.subject_secret);
        append_digest(&mut clear, &self.blinding);
        append_digest(&mut clear, &self.seed);
        append(&mut clear, self.qualifications.as_slice());
        assert(clear@ =~= self@.clear());
        clear
    }
}

/// A witness that is about to be sealed.
pub struct CustodySealing {
    parts: CustodyParts,
    context: Digest32,
    credential_digest: Digest32,
    custody_context: Digest32,
}

impl CustodySealing {
    /// What is sealed, in specifications.
    pub closed spec fn spec_parts(self) -> CustodyPartsModel {
        self.parts@
    }

    /// The context of the sealing, in specifications.
    pub closed spec fn spec_context(self) -> Digest32 {
        self.context
    }

    /// The result of the sealing.
    pub closed spec fn sealed_as(self, sealed: SealedModel) -> EncryptedWitnessModel {
        EncryptedWitnessModel {
            version: CUSTODY_VERSION,
            credential_digest: self.credential_digest,
            custody_context: self.custody_context,
            sealed,
        }
    }

    /// What has to be sealed.
    pub fn clear(&self) -> (r: Vec<u8>)
        ensures
            r@ == self.spec_parts().clear(),
    {
        self.parts.join()
    }

    /// The context under which it has to be sealed.
    pub fn context(&self) -> (r: Digest32)
        ensures
            r == self.spec_context(),
    {
        self.context
    }

    /// The witness in custody; the sealed message is missing where the sealing backend could
    /// not seal.
    pub fn sealed(self, sealed: Option<SealedMessage>) -> (r: Result<
        EncryptedCredentialWitness,
        DeKyxError,
    >)
        ensures
            match sealed {
                Some(message) => r matches Ok(custody) && custody@ == self.sealed_as(message@),
                None => r matches Err(e) && e == DeKyxError::InvalidWitness,
            },
    {
        match sealed {
            None => Err(DeKyxError::InvalidWitness),
            Some(message) => Ok(
                EncryptedCredentialWitness {
                    version: CUSTODY_VERSION,
                    credential_digest: self.credential_digest,
                    custody_context: self.custody_context,
                    sealed: message,
                },
            ),
        }
    }
}

impl CredentialWitness {
    /// Whether the credential was issued for this witness.
    fn is_issued(&self, credential: &Credential) -> (r: bool)
        ensures
            r == issued_for(self@, credential@),
    {
        if !self.is_holder_of(
            &credential.subject_commitment,
            &credential.holder_public_key,
            &credential.holder_suite,
        ) {
            return false;
        }
        match qualification_root(self.qualifications().as_slice()) {
            Ok(root) => same_digest(&credential.qualifications_root, &root),
            Err(_) => false,
        }
    }

    /// Prepares this exact issued witness for sealing, including its independent ML-DSA seed.
    /// A curve-only reconstruction cannot restore an issued holder key. Qualifications are
    /// private too: `noted` is how the caller notes them down, missing where they cannot, and
    /// is sealed with the secret scalars.
    pub fn seal_custody(
        &self,
        credential: &Credential,
        custody_context: Digest32,
        noted: Option<Vec<u8>>,
        reports: &SignatureReports,
    ) -> (r: Result<CustodySealing, DeKyxError>)
        ensures
            match sealing_refusal(self@, credential@, custody_context, noted is Some, *reports) {
                Some(e) => r matches Err(f) && f == e,
                None => r matches Ok(sealing) && sealing.spec_parts().of_witness(
                    self@,
                    noted->0@,
                ) && sealing_context(credential@, custody_context, *reports) == Ok::<
                    Digest32,
                    DeKyxError,
                >(sealing.spec_context()) && forall|sealed: SealedModel|
                    {
                        let custody = #[trigger] sealing.sealed_as(sealed);
                        &&& custody.version == CUSTODY_VERSION
                        &&& credential@.digest(*reports) == Ok::<Digest32, DeKyxError>(
                            custody.credential_digest,
                        )
                        &&& custody.custody_context == custody_context
                        &&& custody.sealed == sealed
                    },
            },
    {
        if !self.is_issued(credential) {
            return Err(DeKyxError::InvalidWitness);
        }
        let qualifications = match noted {
            None => {
                return Err(DeKyxError::InvalidWitness);
            },
            Some(bytes) => bytes,
        };
        let (subject_secret, blinding) = self.scalar_bytes();
        let seed = self.holder_seed();
        let context = context(credential, &custody_context, reports)?;
        let credential_digest = credential.digest(reports)?;
        Ok(
            CustodySealing {
                parts: CustodyParts { subject_secret, blinding, seed, qualifications },
                context,
                credential_digest,
                custody_context,
            },
        )
    }
}

/// What the caller has from opening a sealed witness: its parts, the qualifications read back
/// from how they were noted down, if they could be, and the public key and suite that the
/// signature backend derives from the seed.
pub struct OpenedCustody {
    pub parts: CustodyParts,
    pub qualifications: Option<Vec<Qualification>>,
    pub holder_public_key: Vec<u8>,
    pub holder_suite: Suite,
}

/// The contents of an opened witness.
pub struct OpenedModel {
    pub parts: CustodyPartsModel,
    pub qualifications: Option<Seq<QualificationModel>>,
    pub holder_public_key: Seq<u8>,
    pub holder_suite: SuiteModel,
}

impl View for OpenedCustody {
    type V = OpenedModel;

    open spec fn view(&self) -> OpenedModel {
        OpenedModel {
            parts: self.parts@,
            qualifications: match self.qualifications {
                Some(list) => Some(models(list@)),
                None => None,
            },
            holder_public_key: self.holder_public_key@,
            holder_suite: self.holder_suite@,
        }
    }
}

impl EncryptedWitnessModel {
    /// The context under which the witness has to be opened, or why it is not to be opened.
    pub open spec fn opening(
        self,
        credential: CredentialModel,
        expected_custody_context: Digest32,
        reports: SignatureReports,
    ) -> Result<Digest32, DeKyxError> {
        if self.version != CUSTODY_VERSION {
            Err(DeKyxError::InvalidWitness)
        } else {
            match credential.digest(reports) {
                Err(e) => Err(e),
                Ok(digest) => if self.credential_digest != digest || self.custody_context
                    != expected_custody_context || self.sealed.ciphertext.len()
                    <= CUSTODY_SECRET_BYTES {
                    Err(DeKyxError::InvalidWitness)
                } else {
                    sealing_context(credential, expected_custody_context, reports)
                },
            }
        }
    }

    /// The witness that is restored from what was opened, or why there is none.
    pub open spec fn restored(
        self,
        credential: CredentialModel,
        expected_custody_context: Digest32,
        opened: Option<OpenedModel>,
        reports: SignatureReports,
    ) -> Result<WitnessModel, DeKyxError> {
        match self.opening(credential, expected_custody_context, reports) {
            Err(e) => Err(e),
            Ok(_) => match opened {
                None => Err(DeKyxError::InvalidWitness),
                Some(o) => restored_parts(credential, o),
            },
        }
    }
}

/// The witness of opened parts, or why there is none: the qualifications have to be readable,
/// the scalars canonical, the parts those of a witness, and the witness the one that the
/// credential was issued for.
pub open spec fn restored_parts(credential: CredentialModel, opened: OpenedModel) -> Result<
    WitnessModel,
    DeKyxError,
> {
    let secret = le_nat(opened.parts.subject_secret@);
    let blinding = le_nat(opened.parts.blinding@);
    match opened.qualifications {
        None => Err(DeKyxError::InvalidWitness),
        Some(qualifications) => if secret >= group_order() || blinding >= group_order() {
            Err(DeKyxError::InvalidWitness)
        } else {
            match witness_refusal(secret, qualifications) {
                Some(e) => Err(e),
                None => {
                    let witness = witness_of(
                        secret,
                        blinding,
                        qualifications,
                        HolderKeyModel {
                            seed: opened.parts.seed,
                            public_key: opened.holder_public_key,
                            suite: opened.holder_suite,
                        },
                    );
                    if issued_for(witness, credential) {
                        Ok(witness)
                    } else {
                        Err(DeKyxError::InvalidWitness)
                    }
                },
            }
        },
    }
}

impl EncryptedCredentialWitness {
    /// The context under which the witness has to be opened. A witness that does not belong to
    /// the credential and the custody context is not to be opened.
    pub fn opening(
        &self,
        credential: &Credential,
        expected_custody_context: &Digest32,
        reports: &SignatureReports,
    ) -> (r: Result<Digest32, DeKyxError>)
        ensures
            r == self@.opening(credential@, *expected_custody_context, *reports),
    {
        if self.version != CUSTODY_VERSION {
            return Err(DeKyxError::InvalidWitness);
        }
        let digest = credential.digest(reports)?;
        if !same_digest(&self.credential_digest, &digest) || !same_digest(
            &self.custody_context,
            expected_custody_context,
        ) || self.sealed.ciphertext.len() <= CUSTODY_SECRET_BYTES {
            return Err(DeKyxError::InvalidWitness);
        }
        context(credential, expected_custody_context, reports)
    }

    /// Restores the witness from what was opened, which is missing where the sealing backend
    /// could not open it.
    pub fn restore(
        &self,
        credential: &Credential,
        expected_custody_context: &Digest32,
        opened: Option<OpenedCustody>,
        reports: &SignatureReports,
    ) -> (r: Result<CredentialWitness, DeKyxError>)
        ensures
            match self@.restored(
                credential@,
                *expected_custody_context,
                match opened {
                    Some(o) => Some(o@),
                    None => None,
                },
                *reports,
            ) {
                Err(e) => r matches Err(f) && f == e,
                Ok(witness) => r matches Ok(w) && w@ == witness,
            },
    {
        self.opening(credential, expected_custody_context, reports)?;
        let opened = match opened {
            None => {
                return Err(DeKyxError::InvalidWitness);
            },
            Some(opened) => opened,
        };
        let qualifications = match opened.qualifications {
            None => {
                return Err(DeKyxError::InvalidWitness);
            },
            Some(qualifications) => qualifications,
        };
        let subject_secret = match Scalar::from_canonical_bytes(opened.parts.subject_secret) {
            None => {
                return Err(DeKyxError::InvalidWitness);
            },
            Some(scalar) => scalar,
        };
        let blinding = match Scalar::from_canonical_bytes(opened.parts.blinding) {
            None => {
                return Err(DeKyxError::InvalidWitness);
            },
            Some(scalar) => scalar,
        };
        let holder_key = HolderKey {
            seed: opened.parts.seed,
            public_key: opened.holder_public_key,
            suite: opened.holder_suite,
        };
        let witness = CredentialWitness::from_scalars_with_holder(
            subject_secret,
            blinding,
            qualifications,
            holder_key,
        )?;
        if !witness.is_issued(credential) {
            return Err(DeKyxError::InvalidWitness);
        }
        Ok(witness)
    }
}

/// Custody gives the witness back: where a witness was sealed for a credential, and what is
/// opened is what was sealed, with the qualifications and the holder key of the witness read
/// back from it, the very same witness is restored.
pub proof fn law_custody_restores_witness(
    witness: WitnessModel,
    credential: CredentialModel,
    custody_context: Digest32,
    noted: Seq<u8>,
    custody: EncryptedWitnessModel,
    opened: OpenedModel,
    reports: SignatureReports,
)
    requires
        witness.sound(),
        sealing_refusal(witness, credential, custody_context, true, reports) is None,
        custody.version == CUSTODY_VERSION,
        credential.digest(reports) == Ok::<Digest32, DeKyxError>(custody.credential_digest),
        custody.custody_context == custody_context,
        custody.sealed.ciphertext.len() > CUSTODY_SECRET_BYTES,
        opened.parts.of_witness(witness, noted),
        opened.qualifications == Some(witness.qualifications),
        opened.holder_public_key == witness.holder.public_key,
        opened.holder_suite == witness.holder.suite,
    ensures
        custody.opening(credential, custody_context, reports) == sealing_context(
            credential,
            custody_context,
            reports,
        ),
        custody.restored(credential, custody_context, Some(opened), reports) == Ok::<
            WitnessModel,
            DeKyxError,
        >(witness),
{
}

/// Only the witness that a credential was issued for is ever restored for it.
pub proof fn law_restored_witness_is_issued(
    custody: EncryptedWitnessModel,
    credential: CredentialModel,
    expected_custody_context: Digest32,
    opened: Option<OpenedModel>,
    reports: SignatureReports,
)
    requires
        custody.restored(credential, expected_custody_context, opened, reports) is Ok,
    ensures
        issued_for(
            custody.restored(credential, expected_custody_context, opened, reports)->Ok_0,
            credential,
        ),
        custody.custody_context == expected_custody_context,
        credential.digest(reports) == Ok::<Digest32, DeKyxError>(custody.credential_digest),
{
}

/// The parts of a clear text are determined by it.
pub proof fn law_custody_layout_unambiguous(a: CustodyPartsModel, b: CustodyPartsModel)
    requires
        a.clear() == b.clear(),
    ensures
        a == b,
{
    let (x, y) = (a.clear(), b.clear());
    assert(a.subject_secret@ =~= x.subrange(0, 32));
    assert(b.subject_secret@ =~= y.subrange(0, 32));
    assert(a.blinding@ =~= x.subrange(32, 64));
    assert(b.blinding@ =~= y.subrange(32, 64));
    assert(a.seed@ =~= x.subrange(64, 96));
    assert(b.seed@ =~= y.subrange(64, 96));
    assert(a.qualifications =~= x.skip(96));
    assert(b.qualifications =~= y.skip(96));
    assert(a.subject_secret =~= b.subject_secret);
    assert(a.blinding =~= b.blinding);
    assert(a.seed =~= b.seed);
}

/// What is sealed: the secret, the blinding and the seed of the holder key, 32 bytes each, and
/// then the qualifications as they were noted down. The parts of a witness are its own.
pub proof fn law_clear_text_layout(
    parts: CustodyPartsModel,
    witness: WitnessModel,
    noted: Seq<u8>,
)
    ensures
        parts.clear().subrange(0, 32) == parts.subject_secret@,
        parts.clear().subrange(32, 64) == parts.blinding@,
        parts.clear().subrange(64, 96) == parts.seed@,
        parts.clear().skip(96) == parts.qualifications,
        parts.of_witness(witness, noted) <==> le_nat(parts.subject_secret@) == witness.secret
            && le_nat(parts.blinding@) == witness.blinding && parts.seed == witness.holder.seed
            && parts.qualifications == noted,
{
    assert(parts.clear().subrange(0, 32) =~= parts.subject_secret@);
    assert(parts.clear().subrange(32, 64) =~= parts.blinding@);
    assert(parts.clear().subrange(64, 96) =~= parts.seed@);
    assert(parts.clear().skip(96) =~= parts.qualifications);
}

/// A witness is sealed under the digest of the credential and the custody context, whenever the
/// credential is its own and has a digest, the custody context is not zero, and its
/// qualifications could be noted down; it is refused for nothing else.
pub proof fn law_sealing_refused_only_for_cause(
    witness: WitnessModel,
    credential: CredentialModel,
    custody_context: Digest32,
    noted: bool,
    reports: SignatureReports,
)
    ensures
        ({
            let refusal = sealing_refusal(witness, credential, custody_context, noted, reports);
            let context = sealing_context(credential, custody_context, reports);
            let own = {
                &&& credential.subject_commitment == point_encoding(
                    (witness.secret + hashed_multiple(
                        encode_utf8("DEKYX:SUBJECT-BLINDING-GENERATOR:v1"@),
                    ) * witness.blinding) % group_order(),
                )
                &&& credential.holder_public_key == witness.holder.public_key
                &&& credential.holder_suite == witness.holder.suite
                &&& root_of(witness.qualifications) == Ok::<Digest32, DeKyxError>(
                    credential.qualifications_root,
                )
            };
            &&& !own || !noted || custody_context == ZERO ==> refusal == Some(
                DeKyxError::InvalidWitness,
            )
            &&& own && noted && custody_context != ZERO && credential.digest(reports) is Err
                ==> refusal == Some(credential.digest(reports)->Err_0)
            &&& own && noted && custody_context != ZERO && credential.digest(reports) is Ok
                ==> refusal is None
            &&& custody_context == ZERO ==> context == Err::<Digest32, DeKyxError>(
                DeKyxError::InvalidWitness,
            )
            &&& custody_context != ZERO && credential.digest(reports) is Err ==> context
                == credential.digest(reports)
            &&& custody_context != ZERO && credential.digest(reports) is Ok ==> context == Ok::<
                Digest32,
                DeKyxError,
            >(
                sha256_digest(
                    encode_utf8("DEKYX:HOLDER-CUSTODY:v1"@) + credential.digest(reports)->Ok_0@
                        + custody_context@,
                ),
            )
        }),
{
}

/// A sealed witness is opened just where it is of the known version, belongs to the credential
/// and to the expected custody context, which is not zero, and is long enough to hold the
/// secrets. A credential without a digest is named as such, and everything else is an invalid
/// witness.
pub proof fn law_opening_refused_only_for_cause(
    custody: EncryptedWitnessModel,
    credential: CredentialModel,
    expected: Digest32,
    reports: SignatureReports,
)
    ensures
        ({
            let opening = custody.opening(credential, expected, reports);
            let digest = credential.digest(reports);
            let belongs = {
                &&& custody.version == 1
                &&& digest is Ok
                &&& custody.credential_digest == digest->Ok_0
                &&& custody.custody_context == expected
                &&& expected != ZERO
                &&& custody.sealed.ciphertext.len() > 96
            };
            &&& belongs ==> opening == sealing_context(credential, expected, reports) && opening
                is Ok
            &&& custody.version == 1 && digest is Err ==> opening == digest
            &&& custody.version != 1 || (digest is Ok && !belongs) ==> opening == Err::<
                Digest32,
                DeKyxError,
            >(DeKyxError::InvalidWitness)
        }),
{
}

/// What is restored is what was opened: a witness with just these scalars, this seed and key, and
/// these qualifications, wherever the custody may be opened and was, the qualifications could be
/// read, the scalars are canonical and make a witness, and the credential is that witness's own.
/// Qualifications that cannot be issued are named as such where the secret is not zero, and
/// everything else is an invalid witness.
pub proof fn law_restored_as_opened(
    custody: EncryptedWitnessModel,
    credential: CredentialModel,
    expected: Digest32,
    opened: Option<OpenedModel>,
    reports: SignatureReports,
)
    ensures
        ({
            let result = custody.restored(credential, expected, opened, reports);
            let opening = custody.opening(credential, expected, reports);
            let o = opened->0;
            let secret = le_nat(o.parts.subject_secret@);
            let blinding = le_nat(o.parts.blinding@);
            let readable = opening is Ok && opened is Some && o.qualifications is Some && secret
                < group_order() && blinding < group_order() && secret > 0;
            let qualifications = o.qualifications->0;
            let issuable = readable && admissible(qualifications);
            let own = {
                &&& issuable
                &&& credential.subject_commitment == point_encoding(
                    (secret + hashed_multiple(
                        encode_utf8("DEKYX:SUBJECT-BLINDING-GENERATOR:v1"@),
                    ) * blinding) % group_order(),
                )
                &&& credential.holder_public_key == o.holder_public_key
                &&& credential.holder_suite == o.holder_suite
                &&& root_of(qualifications) == Ok::<Digest32, DeKyxError>(
                    credential.qualifications_root,
                )
            };
            &&& own <==> result is Ok
            &&& opening is Err ==> result == Err::<WitnessModel, DeKyxError>(opening->Err_0)
            &&& opening is Ok && !readable ==> result == Err::<WitnessModel, DeKyxError>(
                DeKyxError::InvalidWitness,
            )
            &&& readable && !issuable ==> result == Err::<WitnessModel, DeKyxError>(
                DeKyxError::InvalidQualification,
            )
            &&& issuable && !own ==> result == Err::<WitnessModel, DeKyxError>(
                DeKyxError::InvalidWitness,
            )
            &&& result matches Ok(witness) ==> {
                &&& witness.secret == secret
                &&& witness.blinding == blinding
                &&& witness.holder.seed == o.parts.seed
                &&& witness.holder.public_key == o.holder_public_key
                &&& witness.holder.suite == o.holder_suite
                &&& witness.qualifications.to_multiset() == qualifications.to_multiset()
            }
        }),
{
    let qualifications = opened->0.qualifications->0;
    lemma_canonical_order(qualifications);
    crate::tree::law_root_ignores_order(canonical_order(qualifications), qualifications);
}

/// The contents of a witness in custody, of its parts and of what was opened are what they hold.
pub proof fn law_custody_contents(
    custody: EncryptedCredentialWitness,
    parts: CustodyParts,
    opened: OpenedCustody,
)
    ensures
        custody@.version == custody.version,
        custody@.credential_digest == custody.credential_digest,
        custody@.custody_context == custody.custody_context,
        custody@.sealed.ciphertext == custody.sealed.ciphertext@,
        custody@.sealed.header == custody.sealed.header@,
        parts@.subject_secret == parts.subject_secret,
        parts@.blinding == parts.blinding,
        parts@.seed == parts.seed,
        parts@.qualifications == parts.qualifications@,
        opened@.parts == opened.parts@,
        opened@.qualifications is Some <==> opened.qualifications is Some,
        opened.qualifications is Some ==> opened@.qualifications == Some(
            models(opened.qualifications->0@),
        ),
        opened@.holder_public_key == opened.holder_public_key@,
        opened@.holder_suite.id == opened.holder_suite.id,
        opened@.holder_suite.encoding == opened.holder_suite.encoding@,
{
}

} // verus!
