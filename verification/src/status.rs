//! Signed lists of revoked credentials.
use vstd::prelude::*;
use vstd::utf8::encode_utf8;

use crate::bytes::{
    append, append_digest, append_digests, append_u32, append_u64, be_bytes, digest_order,
    holds_digest, is_strictly_ascending, joined, lemma_sorted_distinct, lex_less, same_digest,
    sort_digests, strictly_ascending, Digest32, Identifier, ZERO,
};
use crate::error::DeKyxError;
use crate::hash::{sha256, sha256_digest};
use crate::issuer::{IssuerDefinition, IssuerDefinitionModel};
use crate::signature::{
    hybrid_check, KeyPurpose, SignatureBytes, SignatureCheck, SignatureCheckModel, SignatureModel,
    SignatureReports, SignatureScheme,
};
use crate::text::issuer_key_text;
use crate::tree::copy_digests;

verus! {

/// Domain of status list statements.
pub const STATUS_DOMAIN: &'static str = "DEKYX:STATUS-LIST:v2";

/// The longest list of revoked credentials.
pub const MAX_REVOKED: usize = 1_000_000;

/// The credentials that an issuer key epoch has revoked, as of one status epoch.
#[derive(Debug, PartialEq, Eq)]
pub struct RevocationStatusList {
    pub issuer_id: Identifier,
    pub issuer_key_epoch: u64,
    pub status_epoch: u64,
    pub effective_at: u64,
    pub valid_until: u64,
    pub revoked_credentials: Vec<Digest32>,
    pub signature: SignatureBytes,
}

/// The contents of a status list.
pub struct StatusListModel {
    pub issuer_id: Identifier,
    pub issuer_key_epoch: u64,
    pub status_epoch: u64,
    pub effective_at: u64,
    pub valid_until: u64,
    pub revoked_credentials: Seq<Digest32>,
    pub signature: SignatureModel,
}

impl View for RevocationStatusList {
    type V = StatusListModel;

    open spec fn view(&self) -> StatusListModel {
        StatusListModel {
            issuer_id: self.issuer_id,
            issuer_key_epoch: self.issuer_key_epoch,
            status_epoch: self.status_epoch,
            effective_at: self.effective_at,
            valid_until: self.valid_until,
            revoked_credentials: self.revoked_credentials@,
            signature: self.signature@,
        }
    }
}

impl Clone for RevocationStatusList {
    fn clone(&self) -> (r: Self)
        ensures
            r@ == self@,
    {
        RevocationStatusList {
            issuer_id: self.issuer_id,
            issuer_key_epoch: self.issuer_key_epoch,
            status_epoch: self.status_epoch,
            effective_at: self.effective_at,
            valid_until: self.valid_until,
            revoked_credentials: copy_digests(&self.revoked_credentials),
            signature: self.signature.clone(),
        }
    }
}

/// A list of revoked credentials is admissible: not too long, and without the zero digest.
pub open spec fn revocations_admissible(revoked: Seq<Digest32>) -> bool {
    revoked.len() <= MAX_REVOKED && !revoked.contains(ZERO)
}

impl StatusListModel {
    /// The list is complete: no identifier, epoch or time is zero, the list does not end
    /// before it takes effect, and the revoked credentials are admissible and strictly
    /// ascending.
    pub open spec fn complete(self) -> bool {
        &&& self.issuer_id != ZERO
        &&& self.issuer_key_epoch != 0
        &&& self.status_epoch != 0
        &&& self.effective_at != 0
        &&& self.effective_at <= self.valid_until
        &&& revocations_admissible(self.revoked_credentials)
        &&& strictly_ascending(self.revoked_credentials)
    }

    /// The bytes that the statement digest covers.
    pub open spec fn statement_message(self) -> Seq<u8> {
        encode_utf8(STATUS_DOMAIN@) + self.issuer_id@ + be_bytes(self.issuer_key_epoch as nat, 8)
            + be_bytes(self.status_epoch as nat, 8) + be_bytes(self.effective_at as nat, 8)
            + be_bytes(self.valid_until as nat, 8) + be_bytes(self.revoked_credentials.len(), 4)
            + joined(self.revoked_credentials)
    }

    /// The digest that the issuer signs, or why there is none.
    pub open spec fn statement(self) -> Result<Digest32, DeKyxError> {
        if self.complete() {
            Ok(sha256_digest(self.statement_message()))
        } else {
            Err(DeKyxError::InvalidStatusList)
        }
    }

    /// What checking the issuer and the signature gives.
    pub open spec fn check_signature(
        self,
        issuer: IssuerDefinitionModel,
        reports: SignatureReports,
    ) -> Result<(), DeKyxError> {
        if self.issuer_id != issuer.issuer_id || self.issuer_key_epoch != issuer.key_epoch {
            Err(DeKyxError::InvalidStatusList)
        } else {
            match issuer.check() {
                Err(e) => Err(e),
                Ok(()) => match self.statement() {
                    Err(e) => Err(e),
                    Ok(message) => if reports.accepted(
                        hybrid_check(issuer.hybrid_key(), message, self.signature),
                    ) {
                        Ok(())
                    } else {
                        Err(DeKyxError::InvalidStatusListSignature)
                    },
                },
            }
        }
    }

    /// What checking the list at a time gives.
    pub open spec fn check(
        self,
        issuer: IssuerDefinitionModel,
        now: u64,
        reports: SignatureReports,
    ) -> Result<(), DeKyxError> {
        if now < self.effective_at || now > self.valid_until {
            Err(DeKyxError::InvalidStatusList)
        } else {
            self.check_signature(issuer, reports)
        }
    }

    /// The key of the issuer epoch that the list belongs to.
    pub open spec fn key(self) -> Seq<char> {
        issuer_key_text(self.issuer_id, self.issuer_key_epoch)
    }
}

impl RevocationStatusList {
    /// Puts the revoked credentials in order. A list that is too long, holds the zero digest,
    /// or holds a digest twice is refused.
    pub fn canonicalize(&mut self) -> (r: Result<(), DeKyxError>)
        ensures
            final(self)@ == (StatusListModel {
                revoked_credentials: old(self).revoked_credentials@.sort_by(digest_order()),
                ..old(self)@
            }),
            r == (if revocations_admissible(old(self).revoked_credentials@)
                && old(self).revoked_credentials@.no_duplicates() {
                Ok(())
            } else {
                Err(DeKyxError::InvalidStatusList)
            }),
            r is Ok ==> strictly_ascending(final(self).revoked_credentials@),
    {
        let ghost before = self.revoked_credentials@;
        let sorted = sort_digests(&self.revoked_credentials);
        self.revoked_credentials = sorted;
        proof {
            lemma_sorted_revocations(before);
            lemma_sorted_distinct(self.revoked_credentials@);
        }
        if self.revoked_credentials.len() > MAX_REVOKED || holds_digest(
            &self.revoked_credentials,
            &ZERO,
        ) || !is_strictly_ascending(&self.revoked_credentials) {
            return Err(DeKyxError::InvalidStatusList);
        }
        Ok(())
    }

    /// The digest that the issuer signs.
    pub fn statement_digest(&self) -> (r: Result<Digest32, DeKyxError>)
        ensures
            r == self@.statement(),
    {
        if same_digest(&self.issuer_id, &ZERO) || self.issuer_key_epoch == 0 || self.status_epoch
            == 0 || self.effective_at == 0 || self.effective_at > self.valid_until
            || self.revoked_credentials.len() > MAX_REVOKED || holds_digest(
            &self.revoked_credentials,
            &ZERO,
        ) || !is_strictly_ascending(&self.revoked_credentials) {
            return Err(DeKyxError::InvalidStatusList);
        }
        let mut message: Vec<u8> = Vec::new();
        append(&mut message, STATUS_DOMAIN.as_bytes());
        append_digest(&mut message, &self.issuer_id);
        append_u64(&mut message, self.issuer_key_epoch);
        append_u64(&mut message, self.status_epoch);
        append_u64(&mut message, self.effective_at);
        append_u64(&mut message, self.valid_until);
        append_u32(&mut message, self.revoked_credentials.len() as u32);
        append_digests(&mut message, &self.revoked_credentials);
        assert(message@ =~= self@.statement_message());
        Ok(sha256(message.as_slice()))
    }

    /// The signature that has to hold for the list to be accepted from `issuer`.
    pub fn signature_check(&self, issuer: &IssuerDefinition) -> (r: Result<
        SignatureCheck,
        DeKyxError,
    >)
        ensures
            match r {
                Ok(check) => {
                    &&& self.issuer_id == issuer.issuer_id
                    &&& self.issuer_key_epoch == issuer.key_epoch
                    &&& issuer@.check() is Ok
                    &&& self@.statement() matches Ok(message)
                    &&& check@ == hybrid_check(issuer@.hybrid_key(), message, self.signature@)
                },
                Err(e) => forall|reports: SignatureReports| #[trigger]
                    self@.check_signature(issuer@, reports) == Err::<(), DeKyxError>(e),
            },
    {
        if !same_digest(&self.issuer_id, &issuer.issuer_id) || self.issuer_key_epoch
            != issuer.key_epoch {
            return Err(DeKyxError::InvalidStatusList);
        }
        issuer.validate()?;
        let message = self.statement_digest()?;
        Ok(SignatureCheck::hybrid(issuer.hybrid_public_key(), message, &self.signature))
    }

    /// Checks issuer identity, signature and the effective window.
    pub fn verify(&self, issuer: &IssuerDefinition, now: u64, reports: &SignatureReports) -> (r:
        Result<(), DeKyxError>)
        ensures
            r == self@.check(issuer@, now, *reports),
    {
        if now < self.effective_at || now > self.valid_until {
            return Err(DeKyxError::InvalidStatusList);
        }
        self.verify_signature(issuer, reports)
    }

    /// Checks issuer identity and signature without the effective window.
    pub fn verify_signature(&self, issuer: &IssuerDefinition, reports: &SignatureReports) -> (r:
        Result<(), DeKyxError>)
        ensures
            r == self@.check_signature(issuer@, *reports),
    {
        match self.signature_check(issuer) {
            Err(e) => {
                assert(self@.check_signature(issuer@, *reports) == Err::<(), DeKyxError>(e));
                Err(e)
            },
            Ok(check) => if reports.accepts(&check) {
                Ok(())
            } else {
                Err(DeKyxError::InvalidStatusListSignature)
            },
        }
    }
}

/// Putting digests in order keeps how many there are, which they are, and whether one occurs
/// twice.
pub proof fn lemma_sorted_revocations(revoked: Seq<Digest32>)
    ensures
        vstd::relations::sorted_by(revoked.sort_by(digest_order()), digest_order()),
        revoked.sort_by(digest_order()).len() == revoked.len(),
        forall|d: Digest32|
            revoked.sort_by(digest_order()).contains(d) <==> revoked.contains(d),
        revoked.sort_by(digest_order()).no_duplicates() <==> revoked.no_duplicates(),
{
    broadcast use vstd::seq_lib::group_to_multiset_ensures;
    broadcast use vstd::multiset::group_multiset_axioms;

    let sorted = revoked.sort_by(digest_order());
    crate::bytes::lemma_digest_order_total();
    revoked.lemma_sort_by_ensures(digest_order());
    assert(sorted.to_multiset() == revoked.to_multiset());
    assert(sorted.len() == sorted.to_multiset().len());
    assert(revoked.len() == revoked.to_multiset().len());
    assert forall|d: Digest32| sorted.contains(d) <==> revoked.contains(d) by {
        assert(sorted.contains(d) <==> sorted.to_multiset().count(d) > 0);
        assert(revoked.contains(d) <==> revoked.to_multiset().count(d) > 0);
    }
    if sorted.no_duplicates() {
        sorted.lemma_multiset_has_no_duplicates();
        revoked.lemma_multiset_has_no_duplicates_conv();
    }
    if revoked.no_duplicates() {
        revoked.lemma_multiset_has_no_duplicates();
        sorted.lemma_multiset_has_no_duplicates_conv();
    }
}

/// What makes a status list fit to be signed: an issuer epoch and a status epoch, a time that
/// does not end before it starts, and revoked credentials in ascending order, not too many and
/// none of them the zero digest. Anything else is an invalid list.
pub proof fn law_status_list_fit_to_sign(list: StatusListModel)
    ensures
        ({
            let fit = {
                &&& list.issuer_id != ZERO
                &&& list.issuer_key_epoch > 0
                &&& list.status_epoch > 0
                &&& 0 < list.effective_at <= list.valid_until
                &&& list.revoked_credentials.len() <= 1_000_000
                &&& !list.revoked_credentials.contains(ZERO)
                &&& forall|i: int, j: int|
                    0 <= i < j < list.revoked_credentials.len() ==> lex_less(
                        (#[trigger] list.revoked_credentials[i])@,
                        (#[trigger] list.revoked_credentials[j])@,
                    )
            };
            &&& fit ==> list.statement() == Ok::<Digest32, DeKyxError>(
                sha256_digest(
                    encode_utf8("DEKYX:STATUS-LIST:v2"@) + list.issuer_id@ + be_bytes(
                        list.issuer_key_epoch as nat,
                        8,
                    ) + be_bytes(list.status_epoch as nat, 8) + be_bytes(
                        list.effective_at as nat,
                        8,
                    ) + be_bytes(list.valid_until as nat, 8) + be_bytes(
                        list.revoked_credentials.len(),
                        4,
                    ) + joined(list.revoked_credentials),
                ),
            )
            &&& !fit ==> list.statement() == Err::<Digest32, DeKyxError>(
                DeKyxError::InvalidStatusList,
            )
        }),
{
}

/// A status list is accepted from the epoch that it names, if that epoch is valid and the backend
/// accepted its hybrid attestation of the list under both keys of the epoch, and, at a time,
/// within the time of the list. What is amiss is named in this order: the time and the epoch, the
/// definition of the epoch, the list, and the signature.
pub proof fn law_status_list_checked_against_its_epoch(
    list: StatusListModel,
    issuer: IssuerDefinitionModel,
    now: u64,
    reports: SignatureReports,
)
    ensures
        ({
            let result = list.check_signature(issuer, reports);
            let named = list.issuer_id == issuer.issuer_id && list.issuer_key_epoch
                == issuer.key_epoch;
            let valid = named && issuer.check() is Ok;
            let stated = valid && list.statement() is Ok;
            let attested = stated && reports.accepted(
                SignatureCheckModel {
                    scheme: SignatureScheme::Hybrid,
                    purpose: KeyPurpose::Attestation,
                    public_key: issuer.public_key@ + issuer.pq_public_key,
                    message: list.statement()->Ok_0,
                    classical: list.signature.first@ + list.signature.second@,
                    pq: list.signature.pq,
                },
            );
            &&& attested <==> result is Ok
            &&& !named ==> result == Err::<(), DeKyxError>(DeKyxError::InvalidStatusList)
            &&& named && !valid ==> result == issuer.check()
            &&& valid && !stated ==> result == Err::<(), DeKyxError>(DeKyxError::InvalidStatusList)
            &&& stated && !attested ==> result == Err::<(), DeKyxError>(
                DeKyxError::InvalidStatusListSignature,
            )
        }),
        list.effective_at <= now && now <= list.valid_until ==> list.check(issuer, now, reports)
            == list.check_signature(issuer, reports),
        now < list.effective_at || list.valid_until < now ==> list.check(issuer, now, reports)
            == Err::<(), DeKyxError>(DeKyxError::InvalidStatusList),
{
}

/// The contents of a status list are its parts.
pub proof fn law_status_list_contents(list: RevocationStatusList)
    ensures
        list@.issuer_id == list.issuer_id,
        list@.issuer_key_epoch == list.issuer_key_epoch,
        list@.status_epoch == list.status_epoch,
        list@.effective_at == list.effective_at,
        list@.valid_until == list.valid_until,
        list@.revoked_credentials == list.revoked_credentials@,
        list@.signature.first == list.signature.first,
        list@.signature.second == list.signature.second,
        list@.signature.pq == list.signature.pq@,
{
}

} // verus!
