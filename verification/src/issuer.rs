//! Issuers: what an issuer key epoch is trusted for, and the registry of trust anchors.
use vstd::prelude::*;

use crate::bytes::{append, lemma_take_push, same_digest, Digest32, Identifier, ZERO};
use crate::error::DeKyxError;
use crate::hash::{accepts_ed25519_key, ed25519_key_accepted};
use crate::signature::{Suite, SuiteId, SuiteModel, ML_DSA_65_PK_BYTES};
use crate::store::{text_ascending, TextMap};
use crate::text::{issuer_key, issuer_key_text, law_issuer_key_injective};

verus! {

/// What kind of subject a credential is about.
#[derive(Clone, Copy, Debug, PartialEq, Eq, PartialOrd, Ord, Structural)]
pub enum SubjectKind {
    Person,
    LegalEntity,
    Device,
    Service,
    AutonomousAgent,
}

impl SubjectKind {
    /// The byte by which statements name this kind.
    pub open spec fn tag_byte(self) -> u8 {
        match self {
            SubjectKind::Person => 1,
            SubjectKind::LegalEntity => 2,
            SubjectKind::Device => 3,
            SubjectKind::Service => 4,
            SubjectKind::AutonomousAgent => 5,
        }
    }

    /// The byte by which statements name this kind.
    pub fn tag(self) -> (r: u8)
        ensures
            r == self.tag_byte(),
    {
        match self {
            SubjectKind::Person => 1,
            SubjectKind::LegalEntity => 2,
            SubjectKind::Device => 3,
            SubjectKind::Service => 4,
            SubjectKind::AutonomousAgent => 5,
        }
    }
}

/// A set of subject kinds.
#[derive(Clone, Copy, Debug, PartialEq, Eq, Structural)]
pub struct SubjectKinds {
    person: bool,
    legal_entity: bool,
    device: bool,
    service: bool,
    autonomous_agent: bool,
}

impl SubjectKinds {
    /// The kind belongs to the set.
    pub closed spec fn has(self, kind: SubjectKind) -> bool {
        match kind {
            SubjectKind::Person => self.person,
            SubjectKind::LegalEntity => self.legal_entity,
            SubjectKind::Device => self.device,
            SubjectKind::Service => self.service,
            SubjectKind::AutonomousAgent => self.autonomous_agent,
        }
    }

    /// The empty set.
    pub fn new() -> (r: Self)
        ensures
            forall|kind: SubjectKind| !(#[trigger] r.has(kind)),
    {
        SubjectKinds {
            person: false,
            legal_entity: false,
            device: false,
            service: false,
            autonomous_agent: false,
        }
    }

    /// The set of the kinds in a list.
    pub fn of(kinds: &[SubjectKind]) -> (r: Self)
        ensures
            forall|kind: SubjectKind| #[trigger] r.has(kind) <==> kinds@.contains(kind),
    {
        let mut set = SubjectKinds::new();
        let mut i: usize = 0;
        while i < kinds.len()
            invariant
                i <= kinds.len(),
                forall|kind: SubjectKind| #[trigger]
                    set.has(kind) <==> kinds@.take(i as int).contains(kind),
            decreases kinds.len() - i,
        {
            set.insert(kinds[i]);
            proof {
                lemma_take_push(kinds@, i as int);
            }
            i += 1;
        }
        assert(kinds@.take(i as int) =~= kinds@);
        set
    }

    /// Adds a kind.
    pub fn insert(&mut self, kind: SubjectKind)
        ensures
            forall|other: SubjectKind| #[trigger]
                final(self).has(other) <==> old(self).has(other) || other == kind,
    {
        match kind {
            SubjectKind::Person => {
                self.person = true;
            },
            SubjectKind::LegalEntity => {
                self.legal_entity = true;
            },
            SubjectKind::Device => {
                self.device = true;
            },
            SubjectKind::Service => {
                self.service = true;
            },
            SubjectKind::AutonomousAgent => {
                self.autonomous_agent = true;
            },
        }
    }

    /// Whether the kind belongs to the set.
    pub fn contains(&self, kind: SubjectKind) -> (r: bool)
        ensures
            r == self.has(kind),
    {
        match kind {
            SubjectKind::Person => self.person,
            SubjectKind::LegalEntity => self.legal_entity,
            SubjectKind::Device => self.device,
            SubjectKind::Service => self.service,
            SubjectKind::AutonomousAgent => self.autonomous_agent,
        }
    }

    /// Whether the set is empty.
    pub fn is_empty(&self) -> (r: bool)
        ensures
            r == (forall|kind: SubjectKind| !(#[trigger] self.has(kind))),
    {
        let r = !(self.person || self.legal_entity || self.device || self.service
            || self.autonomous_agent);
        proof {
            if !r {
                assert(self.has(SubjectKind::Person) || self.has(SubjectKind::LegalEntity)
                    || self.has(SubjectKind::Device) || self.has(SubjectKind::Service) || self.has(
                    SubjectKind::AutonomousAgent,
                ));
            }
        }
        r
    }

    /// Two sets with the same members are equal.
    pub proof fn law_same_members_same_set(a: SubjectKinds, b: SubjectKinds)
        requires
            forall|kind: SubjectKind| #[trigger] a.has(kind) <==> b.has(kind),
        ensures
            a == b,
    {
        assert(a.has(SubjectKind::Person) == b.has(SubjectKind::Person));
        assert(a.has(SubjectKind::LegalEntity) == b.has(SubjectKind::LegalEntity));
        assert(a.has(SubjectKind::Device) == b.has(SubjectKind::Device));
        assert(a.has(SubjectKind::Service) == b.has(SubjectKind::Service));
        assert(a.has(SubjectKind::AutonomousAgent) == b.has(SubjectKind::AutonomousAgent));
    }
}

/// Whether an issuer key epoch may be relied on.
#[derive(Clone, Copy, Debug, PartialEq, Eq, Structural)]
pub enum IssuerStatus {
    Active,
    Suspended,
    Revoked,
}

/// One key epoch of an issuer.
#[derive(Debug, PartialEq, Eq)]
pub struct IssuerDefinition {
    pub issuer_id: Identifier,
    pub key_epoch: u64,
    pub public_key: [u8; 32],
    pub pq_public_key: Vec<u8>,
    pub signature_suite: Suite,
    pub supported_subjects: SubjectKinds,
    pub namespace_digest: Digest32,
    pub valid_from: u64,
    pub valid_until: u64,
    pub status: IssuerStatus,
}

/// The contents of an issuer definition.
pub struct IssuerDefinitionModel {
    pub issuer_id: Identifier,
    pub key_epoch: u64,
    pub public_key: [u8; 32],
    pub pq_public_key: Seq<u8>,
    pub signature_suite: SuiteModel,
    pub supported_subjects: SubjectKinds,
    pub namespace_digest: Digest32,
    pub valid_from: u64,
    pub valid_until: u64,
    pub status: IssuerStatus,
}

impl View for IssuerDefinition {
    type V = IssuerDefinitionModel;

    open spec fn view(&self) -> IssuerDefinitionModel {
        IssuerDefinitionModel {
            issuer_id: self.issuer_id,
            key_epoch: self.key_epoch,
            public_key: self.public_key,
            pq_public_key: self.pq_public_key@,
            signature_suite: self.signature_suite@,
            supported_subjects: self.supported_subjects,
            namespace_digest: self.namespace_digest,
            valid_from: self.valid_from,
            valid_until: self.valid_until,
            status: self.status,
        }
    }
}

impl Clone for IssuerDefinition {
    fn clone(&self) -> (r: Self)
        ensures
            r@ == self@,
    {
        IssuerDefinition {
            issuer_id: self.issuer_id,
            key_epoch: self.key_epoch,
            public_key: self.public_key,
            pq_public_key: crate::bytes::copy_bytes(self.pq_public_key.as_slice()),
            signature_suite: self.signature_suite.clone(),
            supported_subjects: self.supported_subjects,
            namespace_digest: self.namespace_digest,
            valid_from: self.valid_from,
            valid_until: self.valid_until,
            status: self.status,
        }
    }
}

impl IssuerDefinitionModel {
    /// The definition is complete: identifier, keys and namespace are not zero, the epoch and
    /// the start of validity are not zero, the suite is the hybrid one with a key of its
    /// length, some subject kind is supported, and validity does not end before it starts.
    pub open spec fn complete(self) -> bool {
        &&& self.issuer_id != ZERO
        &&& self.public_key != ZERO
        &&& self.namespace_digest != ZERO
        &&& self.key_epoch != 0
        &&& self.signature_suite.id == SuiteId::Ed25519MlDsa65
        &&& self.pq_public_key.len() == ML_DSA_65_PK_BYTES
        &&& exists|i: int| 0 <= i < self.pq_public_key.len() && #[trigger] self.pq_public_key[i] != 0
        &&& exists|kind: SubjectKind| #[trigger] self.supported_subjects.has(kind)
        &&& self.valid_from != 0
        &&& self.valid_from <= self.valid_until
    }

    /// What validating the definition gives.
    pub open spec fn check(self) -> Result<(), DeKyxError> {
        if !self.complete() {
            Err(DeKyxError::InvalidIssuer)
        } else if !ed25519_key_accepted(self.public_key@) {
            Err(DeKyxError::InvalidIssuerKey)
        } else {
            Ok(())
        }
    }

    /// The key under which hybrid signatures of this epoch are verified.
    pub open spec fn hybrid_key(self) -> Seq<u8> {
        self.public_key@ + self.pq_public_key
    }

    /// The epoch may be relied on for `kind` at `now`.
    pub open spec fn is_active_for(self, kind: SubjectKind, now: u64) -> bool {
        &&& self.status == IssuerStatus::Active
        &&& self.valid_from <= now <= self.valid_until
        &&& self.supported_subjects.has(kind)
    }

    /// The epoch after it was given an end: validity ends at `until` at the latest, and an
    /// epoch that would end before it starts is revoked.
    pub open spec fn bounded(self, until: u64) -> Self {
        if until < self.valid_from {
            IssuerDefinitionModel { status: IssuerStatus::Revoked, ..self }
        } else if until < self.valid_until {
            IssuerDefinitionModel { valid_until: until, ..self }
        } else {
            self
        }
    }

    /// The key under which this epoch is filed.
    pub open spec fn key(self) -> Seq<char> {
        issuer_key_text(self.issuer_id, self.key_epoch)
    }
}

/// Whether every byte is zero.
fn all_zero(bytes: &Vec<u8>) -> (r: bool)
    ensures
        r == !(exists|i: int| 0 <= i < bytes@.len() && #[trigger] bytes@[i] != 0),
{
    let mut i: usize = 0;
    while i < bytes.len()
        invariant
            i <= bytes.len(),
            forall|k: int| 0 <= k < i ==> #[trigger] bytes@[k] == 0,
        decreases bytes.len() - i,
    {
        if bytes[i] != 0 {
            return false;
        }
        i += 1;
    }
    true
}

impl IssuerDefinition {
    /// Checks the definition and its classical key.
    pub fn validate(&self) -> (r: Result<(), DeKyxError>)
        ensures
            r == self@.check(),
    {
        if same_digest(&self.issuer_id, &ZERO) || same_digest(&self.public_key, &ZERO)
            || same_digest(&self.namespace_digest, &ZERO) || self.key_epoch == 0
            || self.signature_suite.id != SuiteId::Ed25519MlDsa65 || self.pq_public_key.len()
            != ML_DSA_65_PK_BYTES || all_zero(&self.pq_public_key)
            || self.supported_subjects.is_empty() || self.valid_from == 0 || self.valid_from
            > self.valid_until {
            return Err(DeKyxError::InvalidIssuer);
        }
        proof {
            let bytes = self.pq_public_key@;
            let i = choose|i: int| 0 <= i < bytes.len() && #[trigger] bytes[i] != 0;
            assert(self@.pq_public_key[i] != 0);
            let kind = choose|kind: SubjectKind| #[trigger] self.supported_subjects.has(kind);
            assert(self@.supported_subjects.has(kind));
        }
        if !accepts_ed25519_key(&self.public_key) {
            return Err(DeKyxError::InvalidIssuerKey);
        }
        Ok(())
    }

    /// The key under which hybrid signatures of this epoch are verified: the classical key
    /// and then the post-quantum one.
    pub fn hybrid_public_key(&self) -> (r: Vec<u8>)
        ensures
            r@ == self@.hybrid_key(),
    {
        let mut key: Vec<u8> = Vec::new();
        append(&mut key, self.public_key.as_slice());
        append(&mut key, self.pq_public_key.as_slice());
        assert(key@ =~= self@.hybrid_key());
        key
    }

    /// Whether the epoch may be relied on for `kind` at `now`.
    pub fn active_for(&self, kind: SubjectKind, now: u64) -> (r: bool)
        ensures
            r == self@.is_active_for(kind, now),
    {
        self.status == IssuerStatus::Active && self.valid_from <= now && now <= self.valid_until
            && self.supported_subjects.contains(kind)
    }
}

// ---------------------------------------------------------------------------
// The registry
// ---------------------------------------------------------------------------
/// Issuer epochs by their keys.
pub type Issuers = Map<Seq<char>, IssuerDefinitionModel>;

/// Every epoch is filed under its own key and has been validated.
pub open spec fn issuers_sound(issuers: Issuers) -> bool {
    forall|key: Seq<char>| #[trigger]
        issuers.contains_key(key) ==> key == issuers[key].key() && issuers[key].check() is Ok
}

/// The definition of an issuer epoch.
pub open spec fn definition_of(
    issuers: Issuers,
    issuer_id: Identifier,
    key_epoch: u64,
) -> Option<IssuerDefinitionModel> {
    let key = issuer_key_text(issuer_id, key_epoch);
    if issuers.contains_key(key) {
        Some(issuers[key])
    } else {
        None
    }
}

/// `epoch` is the greatest member of `epochs`.
pub open spec fn is_highest(epochs: Set<u64>, epoch: u64) -> bool {
    &&& epochs.contains(epoch)
    &&& forall|other: u64| #[trigger] epochs.contains(other) ==> other <= epoch
}

/// The greatest member of `epochs`, if there is any.
pub open spec fn highest(epochs: Set<u64>) -> Option<u64> {
    if exists|epoch: u64| is_highest(epochs, epoch) {
        Some(choose|epoch: u64| is_highest(epochs, epoch))
    } else {
        None
    }
}

/// The registered epochs of an issuer.
pub open spec fn epochs_of(issuers: Issuers, issuer_id: Identifier) -> Set<u64> {
    Set::new(|epoch: u64| definition_of(issuers, issuer_id, epoch) is Some)
}

/// The epochs of an issuer that are active for `kind` at `now`.
pub open spec fn active_epochs_of(
    issuers: Issuers,
    issuer_id: Identifier,
    kind: SubjectKind,
    now: u64,
) -> Set<u64> {
    Set::new(
        |epoch: u64|
            definition_of(issuers, issuer_id, epoch) matches Some(d) && d.is_active_for(kind, now),
    )
}

/// `highest` gives exactly the greatest member, and nothing exactly where there is no member.
pub proof fn lemma_highest(epochs: Set<u64>)
    ensures
        forall|epoch: u64| #[trigger] is_highest(epochs, epoch) <==> highest(epochs) == Some(epoch),
        highest(epochs) is None <==> (forall|epoch: u64| !(#[trigger] epochs.contains(epoch))),
{
    assert forall|epoch: u64| #[trigger] is_highest(epochs, epoch) <==> highest(epochs) == Some(
        epoch,
    ) by {
        if is_highest(epochs, epoch) {
            let chosen = choose|e: u64| is_highest(epochs, e);
            assert(is_highest(epochs, chosen));
        }
    }
    if exists|epoch: u64| #[trigger] epochs.contains(epoch) {
        let member = choose|epoch: u64| #[trigger] epochs.contains(epoch);
        lemma_highest_exists(epochs, member);
    }
}

proof fn lemma_highest_exists(epochs: Set<u64>, member: u64)
    requires
        epochs.contains(member),
    ensures
        exists|epoch: u64| is_highest(epochs, epoch),
    decreases u64::MAX - member,
{
    if !is_highest(epochs, member) {
        let other = choose|other: u64| #[trigger] epochs.contains(other) && other > member;
        lemma_highest_exists(epochs, other);
    }
}

/// The trust anchors: every accepted issuer key epoch, each validated before it was filed.
/// An epoch that is registered is never replaced.
#[derive(Debug, PartialEq, Eq)]
pub struct IssuerRegistry {
    issuers: TextMap<IssuerDefinition>,
}

impl View for IssuerRegistry {
    type V = Issuers;

    closed spec fn view(&self) -> Issuers {
        self.issuers@
    }
}

impl Default for IssuerRegistry {
    fn default() -> (r: Self)
        ensures
            r@ == Issuers::empty(),
    {
        IssuerRegistry { issuers: TextMap::new() }
    }
}

impl Clone for IssuerRegistry {
    fn clone(&self) -> (r: Self)
        ensures
            r@ == self@,
    {
        proof {
            use_type_invariant(self);
        }
        let issuers = self.issuers.clone();
        proof {
            issuers.lemma_same_entries(self.issuers);
        }
        IssuerRegistry { issuers }
    }
}

impl IssuerRegistry {
    #[verifier::type_invariant]
    spec fn sound(self) -> bool {
        issuers_sound(self.issuers@)
    }

    /// The keys of the epochs, in order.
    pub closed spec fn keys(self) -> Seq<Seq<char>> {
        self.issuers.keys()
    }

    /// What every registry satisfies: epochs are filed under their own keys and validated.
    pub(crate) fn reveal_sound(&self)
        ensures
            issuers_sound(self@),
    {
        proof {
            use_type_invariant(self);
        }
    }

    /// The epochs by their keys.
    pub(crate) fn into_issuers(self) -> (r: TextMap<IssuerDefinition>)
        ensures
            r@ == self@,
            issuers_sound(r@),
    {
        proof {
            use_type_invariant(&self);
        }
        self.issuers
    }

    /// Whether no epoch is registered.
    pub fn is_empty(&self) -> (r: bool)
        ensures
            r == (self@ == Issuers::empty()),
    {
        self.issuers.is_empty()
    }

    /// The registered epochs, in the order of their keys.
    pub fn definitions(&self) -> (r: Vec<&IssuerDefinition>)
        ensures
            r.len() == self.keys().len(),
            text_ascending(self.keys()),
            forall|key: Seq<char>| #[trigger] self@.contains_key(key) <==> self.keys().contains(key),
            forall|i: int|
                0 <= i < r.len() ==> (#[trigger] r@[i])@ == self@[self.keys()[i]],
    {
        let mut out: Vec<&IssuerDefinition> = Vec::new();
        let count = self.issuers.len();
        let mut i: usize = 0;
        while i < count
            invariant
                i <= count,
                count == self.issuers.keys().len(),
                out.len() == i,
                forall|k: int|
                    0 <= k < i ==> (#[trigger] out@[k])@ == self@[self.keys()[k]],
            decreases count - i,
        {
            out.push(self.issuers.value_at(i));
            i += 1;
        }
        proof {
            self.issuers.lemma_keys();
        }
        out
    }

    /// Highest key epoch of `issuer_id` that is active for `kind` at `now`.
    pub fn current_epoch(&self, issuer_id: &Identifier, kind: SubjectKind, now: u64) -> (r: Option<
        u64,
    >)
        ensures
            r == highest(active_epochs_of(self@, *issuer_id, kind, now)),
    {
        let count = self.issuers.len();
        let mut best: Option<u64> = None;
        let mut i: usize = 0;
        while i < count
            invariant
                i <= count,
                count == self.issuers.keys().len(),
                forall|k: int|
                    #![trigger self.keys()[k]]
                    0 <= k < i && self@[self.keys()[k]].issuer_id == *issuer_id
                        && self@[self.keys()[k]].is_active_for(kind, now) ==> best is Some
                        && self@[self.keys()[k]].key_epoch <= best->0,
                best is Some ==> exists|k: int|
                    #![trigger self.keys()[k]]
                    0 <= k < i && self@[self.keys()[k]].issuer_id == *issuer_id
                        && self@[self.keys()[k]].is_active_for(kind, now)
                        && self@[self.keys()[k]].key_epoch == best->0,
            decreases count - i,
        {
            let issuer = self.issuers.value_at(i);
            assert(issuer@ == self@[self.keys()[i as int]]);
            if same_digest(&issuer.issuer_id, issuer_id) && issuer.active_for(kind, now) {
                best = match best {
                    Some(epoch) if epoch >= issuer.key_epoch => Some(epoch),
                    _ => Some(issuer.key_epoch),
                };
            }
            i += 1;
        }
        proof {
            use_type_invariant(self);
            self.lemma_best(
                *issuer_id,
                |d: IssuerDefinitionModel| d.is_active_for(kind, now),
                active_epochs_of(self@, *issuer_id, kind, now),
                best,
            );
        }
        best
    }

    /// Highest registered key epoch of `issuer_id`.
    pub fn latest_epoch(&self, issuer_id: &Identifier) -> (r: Option<u64>)
        ensures
            r == highest(epochs_of(self@, *issuer_id)),
    {
        let count = self.issuers.len();
        let mut best: Option<u64> = None;
        let mut i: usize = 0;
        while i < count
            invariant
                i <= count,
                count == self.issuers.keys().len(),
                forall|k: int|
                    #![trigger self.keys()[k]]
                    0 <= k < i && self@[self.keys()[k]].issuer_id == *issuer_id ==> best is Some
                        && self@[self.keys()[k]].key_epoch <= best->0,
                best is Some ==> exists|k: int|
                    #![trigger self.keys()[k]]
                    0 <= k < i && self@[self.keys()[k]].issuer_id == *issuer_id
                        && self@[self.keys()[k]].key_epoch == best->0,
            decreases count - i,
        {
            let issuer = self.issuers.value_at(i);
            assert(issuer@ == self@[self.keys()[i as int]]);
            if same_digest(&issuer.issuer_id, issuer_id) {
                best = match best {
                    Some(epoch) if epoch >= issuer.key_epoch => Some(epoch),
                    _ => Some(issuer.key_epoch),
                };
            }
            i += 1;
        }
        proof {
            use_type_invariant(self);
            self.lemma_best(
                *issuer_id,
                |d: IssuerDefinitionModel| true,
                epochs_of(self@, *issuer_id),
                best,
            );
        }
        best
    }

    /// The best epoch of a scan over all keys is the greatest member of the set it looks for.
    proof fn lemma_best(
        self,
        issuer_id: Identifier,
        wanted: spec_fn(IssuerDefinitionModel) -> bool,
        epochs: Set<u64>,
        best: Option<u64>,
    )
        requires
            issuers_sound(self@),
            forall|epoch: u64| #[trigger]
                epochs.contains(epoch) <==> (definition_of(self@, issuer_id, epoch) matches Some(d)
                    && wanted(d)),
            forall|k: int|
                #![trigger self.keys()[k]]
                0 <= k < self.keys().len() && self@[self.keys()[k]].issuer_id == issuer_id
                    && wanted(self@[self.keys()[k]]) ==> best is Some
                    && self@[self.keys()[k]].key_epoch <= best->0,
            best is Some ==> exists|k: int|
                #![trigger self.keys()[k]]
                0 <= k < self.keys().len() && self@[self.keys()[k]].issuer_id == issuer_id
                    && wanted(self@[self.keys()[k]]) && self@[self.keys()[k]].key_epoch == best->0,
        ensures
            best == highest(epochs),
    {
        self.issuers.lemma_keys();
        lemma_highest(epochs);
        assert forall|epoch: u64| #[trigger] epochs.contains(epoch) implies best is Some && epoch
            <= best->0 by {
            let key = issuer_key_text(issuer_id, epoch);
            assert(self@.contains_key(key));
            let k = self.keys().index_of(key);
            assert(self.keys()[k] == key);
            let d = self@[key];
            law_issuer_key_injective(issuer_id, epoch, d.issuer_id, d.key_epoch);
        }
        if best is Some {
            let k = choose|k: int|
                #![trigger self.keys()[k]]
                0 <= k < self.keys().len() && self@[self.keys()[k]].issuer_id == issuer_id
                    && wanted(self@[self.keys()[k]]) && self@[self.keys()[k]].key_epoch == best->0;
            assert(self.keys().contains(self.keys()[k]));
            assert(self@.contains_key(self.keys()[k]));
            assert(epochs.contains(best->0));
            assert(is_highest(epochs, best->0));
        }
    }

    /// Files a validated epoch. An epoch that is already registered is not replaced.
    pub fn register(&mut self, issuer: IssuerDefinition) -> (r: Result<(), DeKyxError>)
        ensures
            r == registration(old(self)@, issuer@),
            final(self)@ == (if r is Ok {
                old(self)@.insert(issuer@.key(), issuer@)
            } else {
                old(self)@
            }),
    {
        issuer.validate()?;
        let key = issuer_key(&issuer.issuer_id, issuer.key_epoch);
        if self.issuers.get(key.as_str()).is_some() {
            return Err(DeKyxError::DuplicateIssuerEpoch);
        }
        proof {
            use_type_invariant(&*self);
        }
        let mut issuers = TextMap::new();
        std::mem::swap(&mut issuers, &mut self.issuers);
        issuers.insert(key, issuer);
        self.issuers = issuers;
        Ok(())
    }

    /// The definition of an issuer epoch.
    pub fn issuer(&self, issuer_id: &Identifier, key_epoch: u64) -> (r: Result<
        &IssuerDefinition,
        DeKyxError,
    >)
        ensures
            match definition_of(self@, *issuer_id, key_epoch) {
                Some(d) => r matches Ok(found) && found@ == d,
                None => r matches Err(e) && e == DeKyxError::UnknownIssuer,
            },
    {
        let key = issuer_key(issuer_id, key_epoch);
        match self.issuers.get(key.as_str()) {
            Some(issuer) => Ok(issuer),
            None => Err(DeKyxError::UnknownIssuer),
        }
    }
}

/// Every epoch of an issuer before `next_epoch` is bounded; all others stay.
pub open spec fn bounded_before(
    issuers: Issuers,
    issuer_id: Identifier,
    next_epoch: u64,
    until: u64,
) -> Issuers {
    issuers.map_values(
        |d: IssuerDefinitionModel|
            if d.issuer_id == issuer_id && d.key_epoch < next_epoch {
                d.bounded(until)
            } else {
                d
            },
    )
}

impl IssuerRegistry {
    /// Bounds every epoch of an issuer before `next_epoch`.
    pub(crate) fn bound_earlier(&mut self, issuer_id: &Identifier, next_epoch: u64, until: u64)
        ensures
            final(self)@ == bounded_before(old(self)@, *issuer_id, next_epoch, until),
    {
        proof {
            use_type_invariant(&*self);
        }
        let ghost before = self.issuers@;
        let ghost goal = bounded_before(before, *issuer_id, next_epoch, until);
        let mut issuers: TextMap<IssuerDefinition> = TextMap::new();
        std::mem::swap(&mut issuers, &mut self.issuers);
        let ghost keys = issuers.keys();
        let count = issuers.len();
        let mut i: usize = 0;
        proof {
            issuers.lemma_keys();
        }
        while i < count
            invariant
                i <= count,
                count == keys.len(),
                issuers.keys() == keys,
                text_ascending(keys),
                issuers_sound(before),
                goal == bounded_before(before, *issuer_id, next_epoch, until),
                forall|key: Seq<char>| #[trigger] before.contains_key(key) <==> keys.contains(key),
                issuers@.dom() == before.dom(),
                forall|k: int| 0 <= k < i ==> issuers@[#[trigger] keys[k]] == goal[keys[k]],
                forall|k: int| i <= k < count ==> issuers@[#[trigger] keys[k]] == before[keys[k]],
            decreases count - i,
        {
            let held = issuers.value_at(i);
            let mut issuer = held.clone();
            assert(before.contains_key(keys[i as int]));
            if same_digest(&issuer.issuer_id, issuer_id) && issuer.key_epoch < next_epoch {
                if until < issuer.valid_from {
                    issuer.status = IssuerStatus::Revoked;
                } else if until < issuer.valid_until {
                    issuer.valid_until = until;
                }
            }
            assert(issuer@ == goal[keys[i as int]]);
            let ghost previous = issuers@;
            issuers.set_value_at(i, issuer);
            proof {
                crate::store::lemma_ascending_distinct(keys);
                assert(issuers@.dom() =~= before.dom());
                assert forall|k: int| 0 <= k < i + 1 implies issuers@[#[trigger] keys[k]]
                    == goal[keys[k]] by {
                    if k < i {
                        assert(keys[k] != keys[i as int]);
                    }
                }
                assert forall|k: int| i + 1 <= k < count implies issuers@[#[trigger] keys[k]]
                    == before[keys[k]] by {
                    assert(keys[k] != keys[i as int]);
                }
            }
            i += 1;
        }
        proof {
            assert forall|key: Seq<char>| #[trigger] goal.contains_key(key) implies issuers@[key]
                == goal[key] by {
                let k = keys.index_of(key);
                assert(keys[k] == key);
            }
            assert(issuers@ =~= goal);
            lemma_bounded_sound(before, *issuer_id, next_epoch, until);
        }
        self.issuers = issuers;
    }

    /// Sets the status of an epoch.
    pub(crate) fn set_status(
        &mut self,
        issuer_id: &Identifier,
        key_epoch: u64,
        status: IssuerStatus,
    ) -> (r: Result<(), DeKyxError>)
        ensures
            match definition_of(old(self)@, *issuer_id, key_epoch) {
                None => r == Err::<(), DeKyxError>(DeKyxError::UnknownIssuer) && final(self)@
                    == old(self)@,
                Some(d) => r is Ok && final(self)@ == old(self)@.insert(
                    issuer_key_text(*issuer_id, key_epoch),
                    (IssuerDefinitionModel { status, ..d }),
                ),
            },
    {
        proof {
            use_type_invariant(&*self);
        }
        let key = issuer_key(issuer_id, key_epoch);
        let mut issuer = match self.issuers.get(key.as_str()) {
            None => {
                return Err(DeKyxError::UnknownIssuer);
            },
            Some(issuer) => issuer.clone(),
        };
        let ghost before = issuer@;
        issuer.status = status;
        proof {
            assert(issuer@.complete()) by {
                assert(before.complete());
                assert(issuer@.pq_public_key == before.pq_public_key);
                assert(issuer@.supported_subjects == before.supported_subjects);
            }
        }
        let mut issuers: TextMap<IssuerDefinition> = TextMap::new();
        std::mem::swap(&mut issuers, &mut self.issuers);
        issuers.insert(key, issuer);
        self.issuers = issuers;
        Ok(())
    }
}

/// Bounding epochs keeps them filed under their own keys and valid.
pub proof fn lemma_bounded_sound(
    issuers: Issuers,
    issuer_id: Identifier,
    next_epoch: u64,
    until: u64,
)
    requires
        issuers_sound(issuers),
    ensures
        issuers_sound(bounded_before(issuers, issuer_id, next_epoch, until)),
{
    let after = bounded_before(issuers, issuer_id, next_epoch, until);
    assert forall|key: Seq<char>| #[trigger] after.contains_key(key) implies key == after[key].key()
        && after[key].check() is Ok by {
        assert(issuers.contains_key(key));
        let d = issuers[key];
        let b = after[key];
        assert(d.complete());
        assert(b.pq_public_key == d.pq_public_key);
        assert(b.supported_subjects == d.supported_subjects);
        assert(b.complete());
    }
}

/// What registering an epoch gives.
pub open spec fn registration(issuers: Issuers, issuer: IssuerDefinitionModel) -> Result<
    (),
    DeKyxError,
> {
    match issuer.check() {
        Err(e) => Err(e),
        Ok(()) => if issuers.contains_key(issuer.key()) {
            Err(DeKyxError::DuplicateIssuerEpoch)
        } else {
            Ok(())
        },
    }
}

/// Registering an epoch leaves every epoch that was registered before as it was.
pub proof fn law_registration_keeps_trust_anchors(
    issuers: Issuers,
    issuer: IssuerDefinitionModel,
    issuer_id: Identifier,
    key_epoch: u64,
)
    requires
        registration(issuers, issuer) is Ok,
        definition_of(issuers, issuer_id, key_epoch) is Some,
    ensures
        definition_of(issuers.insert(issuer.key(), issuer), issuer_id, key_epoch)
            == definition_of(issuers, issuer_id, key_epoch),
{
}

/// What makes an issuer definition valid, and which fault is named: a key that is no Ed25519 key
/// where everything else is in order, and the definition in every other case.
pub proof fn law_validation_names_the_fault(d: IssuerDefinitionModel)
    ensures
        ({
            let in_order = {
                &&& d.issuer_id != ZERO
                &&& d.public_key != ZERO
                &&& d.namespace_digest != ZERO
                &&& d.key_epoch > 0
                &&& d.signature_suite.id == SuiteId::Ed25519MlDsa65
                &&& d.pq_public_key.len() == 1952
                &&& exists|i: int|
                    0 <= i < d.pq_public_key.len() && #[trigger] d.pq_public_key[i] != 0
                &&& exists|kind: SubjectKind| #[trigger] d.supported_subjects.has(kind)
                &&& 0 < d.valid_from <= d.valid_until
            };
            &&& d.check() is Ok <==> in_order && ed25519_key_accepted(d.public_key@)
            &&& in_order && !ed25519_key_accepted(d.public_key@) ==> d.check() == Err::<
                (),
                DeKyxError,
            >(DeKyxError::InvalidIssuerKey)
            &&& !in_order ==> d.check() == Err::<(), DeKyxError>(DeKyxError::InvalidIssuer)
        }),
{
}

/// An epoch may be relied on just while it is active, within its time, and for the kinds that
/// it supports.
pub proof fn law_active_within_its_time(d: IssuerDefinitionModel, kind: SubjectKind, now: u64)
    ensures
        d.is_active_for(kind, now) <==> d.status == IssuerStatus::Active && d.valid_from <= now
            && now <= d.valid_until && d.supported_subjects.has(kind),
{
}

/// The hybrid key of an epoch is its classical key and then its post-quantum key.
pub proof fn law_hybrid_key_holds_both(d: IssuerDefinitionModel)
    ensures
        d.hybrid_key().take(32) == d.public_key@,
        d.hybrid_key().skip(32) == d.pq_public_key,
{
    assert(d.hybrid_key().take(32) =~= d.public_key@);
    assert(d.hybrid_key().skip(32) =~= d.pq_public_key);
}

/// Giving an epoch an end changes its end or its status and nothing else: an epoch that starts
/// after the end is revoked, and any other keeps its status and ends at the earlier of the two
/// ends.
pub proof fn law_bounding_changes_the_end_only(d: IssuerDefinitionModel, until: u64)
    ensures
        ({
            let b = d.bounded(until);
            &&& b.issuer_id == d.issuer_id
            &&& b.key_epoch == d.key_epoch
            &&& b.public_key == d.public_key
            &&& b.pq_public_key == d.pq_public_key
            &&& b.signature_suite == d.signature_suite
            &&& b.supported_subjects == d.supported_subjects
            &&& b.namespace_digest == d.namespace_digest
            &&& b.valid_from == d.valid_from
            &&& until < d.valid_from ==> b.status == IssuerStatus::Revoked && b.valid_until
                == d.valid_until
            &&& d.valid_from <= until ==> b.status == d.status && b.valid_until <= until
                && b.valid_until <= d.valid_until && (b.valid_until == until || b.valid_until
                == d.valid_until)
        }),
{
}

/// A valid epoch is registered just where its issuer has none of that number; it is then found
/// under its issuer and number, and every other epoch is found as before.
pub proof fn law_registration_files_one_epoch(
    issuers: Issuers,
    issuer: IssuerDefinitionModel,
    issuer_id: Identifier,
    key_epoch: u64,
)
    ensures
        issuer.check() is Ok && !issuers.contains_key(
            issuer_key_text(issuer.issuer_id, issuer.key_epoch),
        ) ==> registration(issuers, issuer) == Ok::<(), DeKyxError>(()),
        issuer.check() is Ok && issuers.contains_key(
            issuer_key_text(issuer.issuer_id, issuer.key_epoch),
        ) ==> registration(issuers, issuer) == Err::<(), DeKyxError>(
            DeKyxError::DuplicateIssuerEpoch,
        ),
        issuer.check() is Err ==> registration(issuers, issuer) == issuer.check(),
        definition_of(
            issuers.insert(issuer.key(), issuer),
            issuer.issuer_id,
            issuer.key_epoch,
        ) == Some(issuer),
        issuer_id != issuer.issuer_id || key_epoch != issuer.key_epoch ==> definition_of(
            issuers.insert(issuer.key(), issuer),
            issuer_id,
            key_epoch,
        ) == definition_of(issuers, issuer_id, key_epoch),
{
    if issuer_key_text(issuer_id, key_epoch) == issuer.key() {
        law_issuer_key_injective(issuer_id, key_epoch, issuer.issuer_id, issuer.key_epoch);
    }
}

/// An epoch is known just where a definition is filed under the key of its issuer and number.
pub proof fn law_known_epochs_are_filed(issuers: Issuers, issuer_id: Identifier, key_epoch: u64)
    ensures
        issuers.contains_key(issuer_key_text(issuer_id, key_epoch)) ==> definition_of(
            issuers,
            issuer_id,
            key_epoch,
        ) == Some(issuers[issuer_key_text(issuer_id, key_epoch)]),
        !issuers.contains_key(issuer_key_text(issuer_id, key_epoch)) ==> definition_of(
            issuers,
            issuer_id,
            key_epoch,
        ) is None,
{
}

/// The current epoch of an issuer for a kind of subject is the highest of those that are active,
/// within their time, and support the kind; there is none just where no epoch is.
pub proof fn law_current_epoch_is_highest_usable(
    issuers: Issuers,
    issuer_id: Identifier,
    kind: SubjectKind,
    now: u64,
    epoch: u64,
)
    ensures
        ({
            let usable = |e: u64|
                {
                    let key = issuer_key_text(issuer_id, e);
                    &&& issuers.contains_key(key)
                    &&& issuers[key].status == IssuerStatus::Active
                    &&& issuers[key].valid_from <= now <= issuers[key].valid_until
                    &&& issuers[key].supported_subjects.has(kind)
                };
            let current = highest(active_epochs_of(issuers, issuer_id, kind, now));
            &&& current == Some(epoch) <==> usable(epoch) && forall|other: u64| #[trigger]
                usable(other) ==> other <= epoch
            &&& usable(epoch) ==> current is Some
            &&& current is Some ==> usable(current->0)
        }),
{
    let usable = |e: u64|
        {
            let key = issuer_key_text(issuer_id, e);
            &&& issuers.contains_key(key)
            &&& issuers[key].status == IssuerStatus::Active
            &&& issuers[key].valid_from <= now <= issuers[key].valid_until
            &&& issuers[key].supported_subjects.has(kind)
        };
    let epochs = active_epochs_of(issuers, issuer_id, kind, now);
    assert forall|e: u64| #[trigger] epochs.contains(e) <==> usable(e) by {}
    lemma_highest(epochs);
    if usable(epoch) && forall|other: u64| #[trigger] usable(other) ==> other <= epoch {
        assert forall|other: u64| #[trigger] epochs.contains(other) implies other <= epoch by {
            assert(usable(other));
        }
        assert(is_highest(epochs, epoch));
    }
    if highest(epochs) is Some {
        let top = highest(epochs)->0;
        assert(is_highest(epochs, top));
        assert forall|other: u64| #[trigger] usable(other) implies other <= top by {
            assert(epochs.contains(other));
        }
    }
}

/// The latest epoch of an issuer is the highest that is filed for it, in whatever state it is.
pub proof fn law_latest_epoch_is_highest_filed(issuers: Issuers, issuer_id: Identifier, epoch: u64)
    ensures
        highest(epochs_of(issuers, issuer_id)) == Some(epoch) <==> issuers.contains_key(
            issuer_key_text(issuer_id, epoch),
        ) && forall|other: u64| #[trigger]
            issuers.contains_key(issuer_key_text(issuer_id, other)) ==> other <= epoch,
        issuers.contains_key(issuer_key_text(issuer_id, epoch)) ==> highest(
            epochs_of(issuers, issuer_id),
        ) is Some,
        highest(epochs_of(issuers, issuer_id)) is Some ==> issuers.contains_key(
            issuer_key_text(issuer_id, highest(epochs_of(issuers, issuer_id))->0),
        ),
{
    let epochs = epochs_of(issuers, issuer_id);
    assert forall|e: u64| #[trigger] epochs.contains(e) <==> issuers.contains_key(
        issuer_key_text(issuer_id, e),
    ) by {}
    lemma_highest(epochs);
    if issuers.contains_key(issuer_key_text(issuer_id, epoch)) {
        assert(epochs.contains(epoch));
        if forall|other: u64| #[trigger]
            issuers.contains_key(issuer_key_text(issuer_id, other)) ==> other <= epoch {
            assert forall|other: u64| #[trigger] epochs.contains(other) implies other <= epoch by {
                assert(issuers.contains_key(issuer_key_text(issuer_id, other)));
            }
            assert(is_highest(epochs, epoch));
        }
    }
    if highest(epochs) is Some {
        let top = highest(epochs)->0;
        assert(is_highest(epochs, top));
        assert forall|other: u64| #[trigger]
            issuers.contains_key(issuer_key_text(issuer_id, other)) implies other <= top by {
            assert(epochs.contains(other));
        }
    }
}

/// The contents of an issuer definition are its parts.
pub proof fn law_definition_contents(d: IssuerDefinition)
    ensures
        d@.issuer_id == d.issuer_id,
        d@.key_epoch == d.key_epoch,
        d@.public_key == d.public_key,
        d@.pq_public_key == d.pq_public_key@,
        d@.signature_suite.id == d.signature_suite.id,
        d@.signature_suite.encoding == d.signature_suite.encoding@,
        d@.supported_subjects == d.supported_subjects,
        d@.namespace_digest == d.namespace_digest,
        d@.valid_from == d.valid_from,
        d@.valid_until == d.valid_until,
        d@.status == d.status,
{
}

/// Statements name the kinds of subjects by the numbers from one to five.
pub proof fn law_kinds_have_their_tags()
    ensures
        SubjectKind::Person.tag_byte() == 1,
        SubjectKind::LegalEntity.tag_byte() == 2,
        SubjectKind::Device.tag_byte() == 3,
        SubjectKind::Service.tag_byte() == 4,
        SubjectKind::AutonomousAgent.tag_byte() == 5,
{
}

} // verus!
