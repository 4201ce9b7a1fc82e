//! The directory: every accepted issuer key epoch and the latest status list of each.
use vstd::prelude::*;

use crate::bytes::{same_bytes, same_digest, Identifier};
use crate::eligibility::{verdict, DeKyxVerifier, RequirementModel};
use crate::error::DeKyxError;
use crate::issuer::{
    active_epochs_of, bounded_before, definition_of, epochs_of, highest, is_highest, issuers_sound,
    law_latest_epoch_is_highest_filed, lemma_bounded_sound, lemma_highest, registration,
    IssuerDefinition, IssuerDefinitionModel, IssuerRegistry, IssuerStatus, Issuers, SubjectKind,
};
use crate::presentation::{PresentationContext, PresentationModel};
use crate::signature::SignatureReports;
use crate::status::{RevocationStatusList, StatusListModel};
use crate::store::TextMap;
use crate::text::{issuer_key, issuer_key_text, law_issuer_key_injective};

verus! {

/// Status lists by the keys of their issuer epochs.
pub type StatusLists = Map<Seq<char>, StatusListModel>;

/// Every list is filed under its own key, belongs to a registered epoch, and is complete.
pub open spec fn lists_sound(issuers: Issuers, lists: StatusLists) -> bool {
    forall|key: Seq<char>| #[trigger]
        lists.contains_key(key) ==> key == lists[key].key() && issuers.contains_key(key)
            && lists[key].complete()
}

/// The contents of a directory.
pub struct DirectoryModel {
    pub issuers: Issuers,
    pub lists: StatusLists,
}

impl DirectoryModel {
    /// Trust anchors are validated, and lists belong to them.
    pub open spec fn sound(self) -> bool {
        issuers_sound(self.issuers) && lists_sound(self.issuers, self.lists)
    }

    /// What registering the first epoch of an issuer gives.
    pub open spec fn first_registration(self, issuer: IssuerDefinitionModel) -> Result<
        (),
        DeKyxError,
    > {
        match issuer.check() {
            Err(e) => Err(e),
            Ok(()) => if highest(epochs_of(self.issuers, issuer.issuer_id)) is Some {
                Err(DeKyxError::InvalidKeyRotation)
            } else {
                registration(self.issuers, issuer)
            },
        }
    }

    /// What rotating to `next` gives.
    pub open spec fn rotation(self, next: IssuerDefinitionModel) -> Result<(), DeKyxError> {
        match next.check() {
            Err(e) => Err(e),
            Ok(()) => match highest(epochs_of(self.issuers, next.issuer_id)) {
                None => Err(DeKyxError::UnknownIssuer),
                Some(latest) => match definition_of(self.issuers, next.issuer_id, latest) {
                    None => Err(DeKyxError::UnknownIssuer),
                    Some(current) => if next.key_epoch <= latest || next.public_key
                        == current.public_key || next.pq_public_key == current.pq_public_key {
                        Err(DeKyxError::InvalidKeyRotation)
                    } else {
                        registration(self.issuers, next)
                    },
                },
            },
        }
    }

    /// The directory after rotating to `next`.
    pub open spec fn rotated(self, next: IssuerDefinitionModel, previous_valid_until: u64) -> Self {
        DirectoryModel {
            issuers: bounded_before(
                self.issuers.insert(next.key(), next),
                next.issuer_id,
                next.key_epoch,
                previous_valid_until,
            ),
            lists: self.lists,
        }
    }

    /// What publishing a status list gives.
    pub open spec fn publication(self, list: StatusListModel, reports: SignatureReports) -> Result<
        (),
        DeKyxError,
    > {
        match definition_of(self.issuers, list.issuer_id, list.issuer_key_epoch) {
            None => Err(DeKyxError::UnknownIssuer),
            Some(issuer) => match list.check_signature(issuer, reports) {
                Err(e) => Err(e),
                Ok(()) => if self.lists.contains_key(list.key())
                    && self.lists[list.key()].status_epoch >= list.status_epoch {
                    Err(DeKyxError::StaleStatusList)
                } else {
                    Ok(())
                },
            },
        }
    }

    /// The directory after registering the first epoch of an issuer.
    pub open spec fn registered(self, issuer: IssuerDefinitionModel) -> Self {
        DirectoryModel { issuers: self.issuers.insert(issuer.key(), issuer), lists: self.lists }
    }

    /// The directory after setting the status of an epoch.
    pub open spec fn with_status(
        self,
        issuer_id: Identifier,
        key_epoch: u64,
        status: IssuerStatus,
    ) -> Self {
        let key = issuer_key_text(issuer_id, key_epoch);
        DirectoryModel {
            issuers: self.issuers.insert(
                key,
                IssuerDefinitionModel { status, ..self.issuers[key] },
            ),
            lists: self.lists,
        }
    }

    /// The list that evidence resting on an issuer epoch is verified against, or why there is
    /// none.
    pub open spec fn list_for(self, issuer_id: Identifier, key_epoch: u64) -> Result<
        StatusListModel,
        DeKyxError,
    > {
        let key = issuer_key_text(issuer_id, key_epoch);
        if !self.issuers.contains_key(key) {
            Err(DeKyxError::UnknownIssuer)
        } else if !self.lists.contains_key(key) {
            Err(DeKyxError::MissingStatusList)
        } else {
            Ok(self.lists[key])
        }
    }

    /// The directory after publishing a status list.
    pub open spec fn published(self, list: StatusListModel) -> Self {
        DirectoryModel { issuers: self.issuers, lists: self.lists.insert(list.key(), list) }
    }
}

/// Application-neutral trust state: every accepted issuer key epoch and the
/// latest signed revocation status list per epoch.
///
/// Key rotation registers a strictly higher epoch with a different key and
/// bounds the earlier epochs. Verification for an epoch without a published
/// status list fails closed, so an issuer must publish at least an empty list
/// before its credentials can be presented.
#[derive(Debug, PartialEq, Eq)]
pub struct IssuerDirectory {
    registry: IssuerRegistry,
    status_lists: TextMap<RevocationStatusList>,
}

impl View for IssuerDirectory {
    type V = DirectoryModel;

    closed spec fn view(&self) -> DirectoryModel {
        DirectoryModel { issuers: self.registry@, lists: self.status_lists@ }
    }
}

impl Default for IssuerDirectory {
    fn default() -> (r: Self)
        ensures
            r@ == (DirectoryModel { issuers: Issuers::empty(), lists: StatusLists::empty() }),
    {
        IssuerDirectory { registry: IssuerRegistry::default(), status_lists: TextMap::new() }
    }
}

impl Clone for IssuerDirectory {
    fn clone(&self) -> (r: Self)
        ensures
            r@ == self@,
    {
        proof {
            use_type_invariant(self);
        }
        let status_lists = self.status_lists.clone();
        proof {
            status_lists.lemma_same_entries(self.status_lists);
        }
        IssuerDirectory { registry: self.registry.clone(), status_lists }
    }
}

impl IssuerDirectory {
    #[verifier::type_invariant]
    spec fn well_filed(self) -> bool {
        lists_sound(self.registry@, self.status_lists@)
    }

    /// What every directory satisfies.
    pub(crate) fn reveal_sound(&self)
        ensures
            self@.sound(),
    {
        self.registry.reveal_sound();
        proof {
            use_type_invariant(self);
        }
    }

    /// The directory of a registry, without status lists.
    pub(crate) fn of_registry(registry: IssuerRegistry) -> (r: Self)
        ensures
            r@ == (DirectoryModel { issuers: registry@, lists: StatusLists::empty() }),
    {
        IssuerDirectory { registry, status_lists: TextMap::new() }
    }

    /// The epochs and the lists.
    pub(crate) fn into_parts(self) -> (r: (
        TextMap<IssuerDefinition>,
        TextMap<RevocationStatusList>,
    ))
        ensures
            r.0@ == self@.issuers,
            r.1@ == self@.lists,
    {
        (self.registry.into_issuers(), self.status_lists)
    }

    /// Whether neither an epoch nor a list is held.
    pub fn is_empty(&self) -> (r: bool)
        ensures
            r == (self@.issuers == Issuers::empty() && self@.lists == StatusLists::empty()),
    {
        self.registry.is_empty() && self.status_lists.is_empty()
    }

    /// The trust anchors.
    pub fn registry(&self) -> (r: &IssuerRegistry)
        ensures
            r@ == self@.issuers,
            issuers_sound(r@),
    {
        self.registry.reveal_sound();
        &self.registry
    }

    /// The definition of an issuer epoch.
    pub fn issuer(&self, issuer_id: &Identifier, key_epoch: u64) -> (r: Result<
        &IssuerDefinition,
        DeKyxError,
    >)
        ensures
            match definition_of(self@.issuers, *issuer_id, key_epoch) {
                Some(d) => r matches Ok(found) && found@ == d,
                None => r matches Err(e) && e == DeKyxError::UnknownIssuer,
            },
    {
        self.registry.issuer(issuer_id, key_epoch)
    }

    /// The latest status list of an issuer epoch.
    pub fn status_list(&self, issuer_id: &Identifier, key_epoch: u64) -> (r: Option<
        &RevocationStatusList,
    >)
        ensures
            r is Some <==> self@.lists.contains_key(issuer_key_text(*issuer_id, key_epoch)),
            r matches Some(list) ==> list@ == self@.lists[issuer_key_text(*issuer_id, key_epoch)],
    {
        let key = issuer_key(issuer_id, key_epoch);
        self.status_lists.get(key.as_str())
    }

    /// Highest key epoch of `issuer_id` that is active for `kind` at `now`.
    pub fn current_epoch(&self, issuer_id: &Identifier, kind: SubjectKind, now: u64) -> (r: Option<
        u64,
    >)
        ensures
            r == highest(active_epochs_of(self@.issuers, *issuer_id, kind, now)),
    {
        self.registry.current_epoch(issuer_id, kind, now)
    }

    /// Registers the first key epoch of an issuer. Later epochs must arrive
    /// through [`IssuerDirectory::rotate_key`] so the earlier epochs are bounded.
    pub fn register_issuer(&mut self, issuer: IssuerDefinition) -> (r: Result<(), DeKyxError>)
        ensures
            r == old(self)@.first_registration(issuer@),
            final(self)@ == (if r is Ok {
                DirectoryModel {
                    issuers: old(self)@.issuers.insert(issuer@.key(), issuer@),
                    lists: old(self)@.lists,
                }
            } else {
                old(self)@
            }),
            r is Ok ==> final(self)@ == old(self)@.registered(issuer@),
    {
        issuer.validate()?;
        if self.registry.latest_epoch(&issuer.issuer_id).is_some() {
            return Err(DeKyxError::InvalidKeyRotation);
        }
        proof {
            use_type_invariant(&*self);
        }
        let mut registry = self.registry.clone();
        let r = registry.register(issuer);
        self.registry = registry;
        r
    }

    /// Rotates to `next`, whose epoch must exceed every registered epoch of the
    /// same issuer and whose key must differ from the current one. Earlier
    /// epochs stay usable until `previous_valid_until` at the latest; a value
    /// before an epoch's `valid_from` revokes that epoch immediately, which is
    /// the key-compromise path.
    pub fn rotate_key(&mut self, next: IssuerDefinition, previous_valid_until: u64) -> (r: Result<
        (),
        DeKyxError,
    >)
        ensures
            r == old(self)@.rotation(next@),
            final(self)@ == (if r is Ok {
                old(self)@.rotated(next@, previous_valid_until)
            } else {
                old(self)@
            }),
    {
        next.validate()?;
        let latest = match self.registry.latest_epoch(&next.issuer_id) {
            None => {
                return Err(DeKyxError::UnknownIssuer);
            },
            Some(latest) => latest,
        };
        let current = self.registry.issuer(&next.issuer_id, latest)?;
        if next.key_epoch <= latest || same_digest(&next.public_key, &current.public_key)
            || same_bytes(next.pq_public_key.as_slice(), current.pq_public_key.as_slice()) {
            return Err(DeKyxError::InvalidKeyRotation);
        }
        let next_id = next.issuer_id;
        let next_epoch = next.key_epoch;
        proof {
            use_type_invariant(&*self);
        }
        let mut registry = self.registry.clone();
        registry.register(next)?;
        registry.bound_earlier(&next_id, next_epoch, previous_valid_until);
        self.registry = registry;
        Ok(())
    }

    /// Sets the status of an issuer epoch.
    pub fn set_status(
        &mut self,
        issuer_id: &Identifier,
        key_epoch: u64,
        status: IssuerStatus,
    ) -> (r: Result<(), DeKyxError>)
        ensures
            match definition_of(old(self)@.issuers, *issuer_id, key_epoch) {
                None => r == Err::<(), DeKyxError>(DeKyxError::UnknownIssuer) && final(self)@
                    == old(self)@,
                Some(d) => r is Ok && final(self)@ == (DirectoryModel {
                    issuers: old(self)@.issuers.insert(
                        issuer_key_text(*issuer_id, key_epoch),
                        IssuerDefinitionModel { status, ..d },
                    ),
                    lists: old(self)@.lists,
                }),
            },
            r is Ok <==> old(self)@.issuers.contains_key(issuer_key_text(*issuer_id, key_epoch)),
            r is Ok ==> final(self)@ == old(self)@.with_status(*issuer_id, key_epoch, status),
    {
        proof {
            use_type_invariant(&*self);
        }
        let mut registry = self.registry.clone();
        let r = registry.set_status(issuer_id, key_epoch, status);
        self.registry = registry;
        r
    }

    /// Accepts a status list signed by the named issuer key epoch when its
    /// status epoch is newer than the list already held for that epoch.
    pub fn publish_status_list(
        &mut self,
        list: RevocationStatusList,
        reports: &SignatureReports,
    ) -> (r: Result<(), DeKyxError>)
        ensures
            r == old(self)@.publication(list@, *reports),
            final(self)@ == (if r is Ok {
                old(self)@.published(list@)
            } else {
                old(self)@
            }),
    {
        let issuer = self.registry.issuer(&list.issuer_id, list.issuer_key_epoch)?;
        list.verify_signature(issuer, reports)?;
        let key = issuer_key(&list.issuer_id, list.issuer_key_epoch);
        if let Some(existing) = self.status_lists.get(key.as_str()) {
            if existing.status_epoch >= list.status_epoch {
                return Err(DeKyxError::StaleStatusList);
            }
        }
        proof {
            use_type_invariant(&*self);
        }
        let mut lists: TextMap<RevocationStatusList> = TextMap::new();
        std::mem::swap(&mut lists, &mut self.status_lists);
        lists.insert(key, list);
        self.status_lists = lists;
        Ok(())
    }

    /// Verifier for one exact issuer key epoch. Fails closed when that epoch
    /// has no published status list.
    pub fn verifier_for<'a>(
        &'a self,
        issuer_id: &Identifier,
        key_epoch: u64,
        reports: &'a SignatureReports,
    ) -> (r: Result<DeKyxVerifier<'a>, DeKyxError>)
        ensures
            ({
                let key = issuer_key_text(*issuer_id, key_epoch);
                if !self@.issuers.contains_key(key) {
                    r matches Err(e) && e == DeKyxError::UnknownIssuer
                } else if !self@.lists.contains_key(key) {
                    r matches Err(e) && e == DeKyxError::MissingStatusList
                } else {
                    r matches Ok(v) && v.issuers@ == self@.issuers
                        && v.status_list@ == self@.lists[key] && *v.signatures
                        == *reports
                }
            }),
            match self@.list_for(*issuer_id, key_epoch) {
                Err(e) => r matches Err(f) && f == e,
                Ok(list) => r matches Ok(v) && v.issuers@ == self@.issuers && v.status_list@
                    == list && *v.signatures == *reports,
            },
    {
        self.registry.issuer(issuer_id, key_epoch)?;
        match self.status_list(issuer_id, key_epoch) {
            None => Err(DeKyxError::MissingStatusList),
            Some(status_list) => Ok(
                DeKyxVerifier { issuers: &self.registry, status_list, signatures: reports },
            ),
        }
    }
}

/// Every change keeps a directory sound.
pub proof fn law_changes_keep_directory_sound(
    directory: DirectoryModel,
    issuer: IssuerDefinitionModel,
    previous_valid_until: u64,
    list: StatusListModel,
    reports: SignatureReports,
    status: IssuerStatus,
)
    requires
        directory.sound(),
    ensures
        definition_of(directory.issuers, issuer.issuer_id, issuer.key_epoch) matches Some(d) ==> (
        DirectoryModel {
            issuers: directory.issuers.insert(
                issuer.key(),
                IssuerDefinitionModel { status, ..d },
            ),
            lists: directory.lists,
        }).sound(),
        directory.first_registration(issuer) is Ok ==> (DirectoryModel {
            issuers: directory.issuers.insert(issuer.key(), issuer),
            lists: directory.lists,
        }).sound(),
        directory.rotation(issuer) is Ok ==> directory.rotated(
            issuer,
            previous_valid_until,
        ).sound(),
        directory.publication(list, reports) is Ok ==> directory.published(list).sound(),
{
    if let Some(d) = definition_of(directory.issuers, issuer.issuer_id, issuer.key_epoch) {
        let changed = IssuerDefinitionModel { status, ..d };
        assert(d.complete());
        assert(changed.pq_public_key == d.pq_public_key);
        assert(changed.supported_subjects == d.supported_subjects);
        assert(changed.complete());
    }
    if directory.rotation(issuer) is Ok {
        let inserted = directory.issuers.insert(issuer.key(), issuer);
        assert(issuers_sound(inserted));
        lemma_bounded_sound(inserted, issuer.issuer_id, issuer.key_epoch, previous_valid_until);
    }
}

/// Only the first epoch of an issuer is registered without bounding others: once an issuer has
/// an epoch, registering a further one is refused.
pub proof fn law_first_registration_is_the_only_one(
    directory: DirectoryModel,
    issuer: IssuerDefinitionModel,
    key_epoch: u64,
)
    requires
        definition_of(directory.issuers, issuer.issuer_id, key_epoch) is Some,
        issuer.check() is Ok,
    ensures
        directory.first_registration(issuer) == Err::<(), DeKyxError>(
            DeKyxError::InvalidKeyRotation,
        ),
{
    lemma_highest(epochs_of(directory.issuers, issuer.issuer_id));
    assert(epochs_of(directory.issuers, issuer.issuer_id).contains(key_epoch));
}

/// Rotation moves forward: the next epoch is higher than every registered epoch of the issuer,
/// and becomes the highest; its keys differ from those of the epoch that was the highest.
pub proof fn law_rotation_moves_forward(
    directory: DirectoryModel,
    next: IssuerDefinitionModel,
    previous_valid_until: u64,
    epoch: u64,
)
    requires
        directory.sound(),
        directory.rotation(next) is Ok,
        definition_of(directory.issuers, next.issuer_id, epoch) is Some,
    ensures
        epoch < next.key_epoch,
        highest(
            epochs_of(directory.rotated(next, previous_valid_until).issuers, next.issuer_id),
        ) == Some(next.key_epoch),
        highest(epochs_of(directory.issuers, next.issuer_id)) == Some(epoch) ==> (definition_of(
            directory.issuers,
            next.issuer_id,
            epoch,
        ) matches Some(current) && next.public_key != current.public_key && next.pq_public_key
            != current.pq_public_key),
{
    let before = epochs_of(directory.issuers, next.issuer_id);
    let after = epochs_of(
        directory.rotated(next, previous_valid_until).issuers,
        next.issuer_id,
    );
    lemma_highest(before);
    lemma_highest(after);
    let latest = highest(before)->0;
    assert(is_highest(before, latest));
    assert(before.contains(epoch));
    assert forall|other: u64| #[trigger] after.contains(other) implies other <= next.key_epoch by {
        let key = issuer_key_text(next.issuer_id, other);
        if key == next.key() {
            law_issuer_key_injective(next.issuer_id, other, next.issuer_id, next.key_epoch);
        } else {
            assert(before.contains(other));
        }
    }
    assert(after.contains(next.key_epoch));
    assert(is_highest(after, next.key_epoch));
}

/// Rotation bounds the earlier epochs: none of them is active after `previous_valid_until`,
/// one that starts later than that is revoked at once, and until then nothing but its end
/// changes.
pub proof fn law_rotation_bounds_earlier_epochs(
    directory: DirectoryModel,
    next: IssuerDefinitionModel,
    previous_valid_until: u64,
    epoch: u64,
    kind: SubjectKind,
    now: u64,
)
    requires
        directory.sound(),
        directory.rotation(next) is Ok,
        definition_of(directory.issuers, next.issuer_id, epoch) is Some,
    ensures
        ({
            let before = definition_of(directory.issuers, next.issuer_id, epoch)->0;
            let after = definition_of(
                directory.rotated(next, previous_valid_until).issuers,
                next.issuer_id,
                epoch,
            );
            &&& after == Some(before.bounded(previous_valid_until))
            &&& now > previous_valid_until ==> !after->0.is_active_for(kind, now)
            &&& previous_valid_until < before.valid_from ==> after->0.status
                == IssuerStatus::Revoked
            &&& before.valid_from <= previous_valid_until && now <= previous_valid_until ==> (
            after->0.is_active_for(kind, now) <==> before.is_active_for(kind, now))
        }),
{
    law_rotation_moves_forward(directory, next, previous_valid_until, epoch);
    let key = issuer_key_text(next.issuer_id, epoch);
    if key == next.key() {
        law_issuer_key_injective(next.issuer_id, epoch, next.issuer_id, next.key_epoch);
    }
    let d = directory.issuers[key];
    law_issuer_key_injective(next.issuer_id, epoch, d.issuer_id, d.key_epoch);
}

/// Rotation leaves other issuers and all status lists as they are.
pub proof fn law_rotation_keeps_other_issuers(
    directory: DirectoryModel,
    next: IssuerDefinitionModel,
    previous_valid_until: u64,
    issuer_id: Identifier,
    key_epoch: u64,
)
    requires
        directory.sound(),
        directory.rotation(next) is Ok,
        issuer_id != next.issuer_id,
    ensures
        definition_of(
            directory.rotated(next, previous_valid_until).issuers,
            issuer_id,
            key_epoch,
        ) == definition_of(directory.issuers, issuer_id, key_epoch),
        directory.rotated(next, previous_valid_until).lists == directory.lists,
{
    let key = issuer_key_text(issuer_id, key_epoch);
    if key == next.key() {
        law_issuer_key_injective(issuer_id, key_epoch, next.issuer_id, next.key_epoch);
    }
    if directory.issuers.contains_key(key) {
        let d = directory.issuers[key];
        law_issuer_key_injective(issuer_id, key_epoch, d.issuer_id, d.key_epoch);
    }
}

/// The status of an issuer epoch only moves forward: a list that is accepted is newer than the
/// one it replaces, so an older list cannot undo a revocation, and publishing a list a second
/// time is refused.
pub proof fn law_status_moves_forward(
    directory: DirectoryModel,
    list: StatusListModel,
    later: StatusListModel,
    reports: SignatureReports,
)
    requires
        directory.publication(list, reports) is Ok,
        later.key() == list.key(),
    ensures
        directory.lists.contains_key(list.key()) ==> directory.lists[list.key()].status_epoch
            < list.status_epoch,
        directory.published(list).publication(later, reports) is Ok ==> list.status_epoch
            < later.status_epoch,
        directory.published(list).publication(list, reports) == Err::<(), DeKyxError>(
            DeKyxError::StaleStatusList,
        ),
{
}

/// A retired epoch vouches for nobody: once a rotation has bounded an epoch, evidence that
/// rests on it is not found eligible after the bound, and never where the bound comes before
/// the epoch started.
pub proof fn law_retired_epoch_vouches_for_nobody(
    directory: DirectoryModel,
    next: IssuerDefinitionModel,
    previous_valid_until: u64,
    status_list: StatusListModel,
    reports: SignatureReports,
    requirement: RequirementModel,
    context: PresentationContext,
    evidence: PresentationModel,
    now: u64,
)
    requires
        directory.sound(),
        directory.rotation(next) is Ok,
        evidence.credential.issuer_id == next.issuer_id,
        definition_of(
            directory.issuers,
            next.issuer_id,
            evidence.credential.issuer_key_epoch,
        ) matches Some(d) && (now > previous_valid_until || previous_valid_until < d.valid_from),
    ensures
        verdict(
            directory.rotated(next, previous_valid_until).issuers,
            status_list,
            reports,
            requirement,
            context,
            evidence,
            now,
        ) is Err,
{
    law_rotation_bounds_earlier_epochs(
        directory,
        next,
        previous_valid_until,
        evidence.credential.issuer_key_epoch,
        requirement.subject_kind,
        now,
    );
}

/// Rotation succeeds whenever it may, and is refused for nothing but these: a definition that is
/// not valid, an issuer without an epoch, an epoch that is not above all epochs of the issuer,
/// and a classical or a post-quantum key that the latest epoch has already.
pub proof fn law_rotation_refused_only_for_cause(
    directory: DirectoryModel,
    next: IssuerDefinitionModel,
    latest: u64,
)
    ensures
        next.check() is Err ==> directory.rotation(next) == next.check(),
        next.check() is Ok && (forall|epoch: u64|
            !(#[trigger] directory.issuers.contains_key(issuer_key_text(next.issuer_id, epoch))))
            ==> directory.rotation(next) == Err::<(), DeKyxError>(DeKyxError::UnknownIssuer),
        next.check() is Ok && directory.issuers.contains_key(
            issuer_key_text(next.issuer_id, latest),
        ) && (forall|epoch: u64| #[trigger]
            directory.issuers.contains_key(issuer_key_text(next.issuer_id, epoch)) ==> epoch
                <= latest) ==> {
            let current = directory.issuers[issuer_key_text(next.issuer_id, latest)];
            &&& latest < next.key_epoch && next.public_key != current.public_key
                && next.pq_public_key != current.pq_public_key ==> directory.rotation(next) == Ok::<
                (),
                DeKyxError,
            >(())
            &&& next.key_epoch <= latest || next.public_key == current.public_key
                || next.pq_public_key == current.pq_public_key ==> directory.rotation(next)
                == Err::<(), DeKyxError>(DeKyxError::InvalidKeyRotation)
        },
{
    law_latest_epoch_is_highest_filed(directory.issuers, next.issuer_id, latest);
    let epochs = epochs_of(directory.issuers, next.issuer_id);
    lemma_highest(epochs);
    if highest(epochs) is Some {
        assert(is_highest(epochs, highest(epochs)->0));
        assert(directory.issuers.contains_key(
            issuer_key_text(next.issuer_id, highest(epochs)->0),
        ));
    }
}

/// What rotation leaves: the next epoch as it was given; the earlier epochs of the issuer with
/// the end that they were given, one that would end before it starts being revoked instead; and
/// every other epoch and every list as they were.
pub proof fn law_rotation_changes_what_it_should(
    directory: DirectoryModel,
    next: IssuerDefinitionModel,
    previous_valid_until: u64,
    issuer_id: Identifier,
    key_epoch: u64,
)
    requires
        directory.sound(),
    ensures
        ({
            let key = issuer_key_text(issuer_id, key_epoch);
            let rotated = directory.rotated(next, previous_valid_until);
            let before = directory.issuers[key];
            let after = rotated.issuers[key];
            let is_next = issuer_id == next.issuer_id && key_epoch == next.key_epoch;
            let is_earlier = issuer_id == next.issuer_id && key_epoch < next.key_epoch;
            &&& rotated.lists == directory.lists
            &&& rotated.issuers.contains_key(key) <==> is_next || directory.issuers.contains_key(
                key,
            )
            &&& is_next ==> after == next
            &&& directory.issuers.contains_key(key) && !is_next && !is_earlier ==> after == before
            &&& directory.issuers.contains_key(key) && is_earlier ==> {
                &&& previous_valid_until < before.valid_from ==> after == (IssuerDefinitionModel {
                    status: IssuerStatus::Revoked,
                    ..before
                })
                &&& before.valid_from <= previous_valid_until && previous_valid_until
                    < before.valid_until ==> after == (IssuerDefinitionModel {
                    valid_until: previous_valid_until,
                    ..before
                })
                &&& before.valid_from <= previous_valid_until && before.valid_until
                    <= previous_valid_until ==> after == before
            }
        }),
{
    let key = issuer_key_text(issuer_id, key_epoch);
    if key == next.key() {
        law_issuer_key_injective(issuer_id, key_epoch, next.issuer_id, next.key_epoch);
    }
    if directory.issuers.contains_key(key) {
        let d = directory.issuers[key];
        law_issuer_key_injective(issuer_id, key_epoch, d.issuer_id, d.key_epoch);
    }
}

/// The first epoch of an issuer is registered whenever its definition is valid, and no epoch is
/// where the issuer has one already.
pub proof fn law_first_registration_in_full(
    directory: DirectoryModel,
    issuer: IssuerDefinitionModel,
)
    ensures
        issuer.check() is Err ==> directory.first_registration(issuer) == issuer.check(),
        issuer.check() is Ok && (forall|epoch: u64|
            !(#[trigger] directory.issuers.contains_key(
                issuer_key_text(issuer.issuer_id, epoch),
            ))) ==> directory.first_registration(issuer) == Ok::<(), DeKyxError>(()),
        issuer.check() is Ok && (exists|epoch: u64| #[trigger]
            directory.issuers.contains_key(issuer_key_text(issuer.issuer_id, epoch)))
            ==> directory.first_registration(issuer) == Err::<(), DeKyxError>(
            DeKyxError::InvalidKeyRotation,
        ),
{
    let epochs = epochs_of(directory.issuers, issuer.issuer_id);
    lemma_highest(epochs);
    assert forall|epoch: u64| #[trigger] epochs.contains(epoch) <==> directory.issuers.contains_key(
        issuer_key_text(issuer.issuer_id, epoch),
    ) by {}
    if exists|epoch: u64| #[trigger]
        directory.issuers.contains_key(issuer_key_text(issuer.issuer_id, epoch)) {
        let epoch = choose|epoch: u64| #[trigger]
            directory.issuers.contains_key(issuer_key_text(issuer.issuer_id, epoch));
        assert(epochs.contains(epoch));
    }
    if forall|epoch: u64|
        !(#[trigger] directory.issuers.contains_key(issuer_key_text(issuer.issuer_id, epoch))) {
        assert(!directory.issuers.contains_key(
            issuer_key_text(issuer.issuer_id, issuer.key_epoch),
        ));
    }
}

/// A list that its epoch signed is accepted whenever it is newer than the list that is held for
/// the epoch, or none is held, and is stale otherwise. Once accepted it is the list of its epoch,
/// and the lists of all other epochs and the epochs themselves are as they were.
pub proof fn law_newer_list_is_accepted(
    directory: DirectoryModel,
    list: StatusListModel,
    reports: SignatureReports,
    issuer_id: Identifier,
    key_epoch: u64,
)
    ensures
        ({
            let key = issuer_key_text(list.issuer_id, list.issuer_key_epoch);
            let signed = list.check_signature(directory.issuers[key], reports);
            let newer = !directory.lists.contains_key(key) || directory.lists[key].status_epoch
                < list.status_epoch;
            let result = directory.publication(list, reports);
            &&& !directory.issuers.contains_key(key) ==> result == Err::<(), DeKyxError>(
                DeKyxError::UnknownIssuer,
            )
            &&& directory.issuers.contains_key(key) && signed is Err ==> result == signed
            &&& directory.issuers.contains_key(key) && signed is Ok && newer ==> result == Ok::<
                (),
                DeKyxError,
            >(())
            &&& directory.issuers.contains_key(key) && signed is Ok && !newer ==> result == Err::<
                (),
                DeKyxError,
            >(DeKyxError::StaleStatusList)
        }),
        ({
            let after = directory.published(list);
            let key = issuer_key_text(issuer_id, key_epoch);
            &&& after.issuers == directory.issuers
            &&& issuer_id == list.issuer_id && key_epoch == list.issuer_key_epoch
                ==> after.lists.contains_key(key) && after.lists[key] == list
            &&& issuer_id != list.issuer_id || key_epoch != list.issuer_key_epoch ==> (
            after.lists.contains_key(key) <==> directory.lists.contains_key(key))
                && after.lists[key] == directory.lists[key]
        }),
{
    if issuer_key_text(issuer_id, key_epoch) == list.key() {
        law_issuer_key_injective(issuer_id, key_epoch, list.issuer_id, list.issuer_key_epoch);
    }
}

/// Registering the first epoch of an issuer files it as it was given and changes nothing else.
pub proof fn law_registration_changes_one_epoch(
    directory: DirectoryModel,
    issuer: IssuerDefinitionModel,
    issuer_id: Identifier,
    key_epoch: u64,
)
    ensures
        ({
            let key = issuer_key_text(issuer_id, key_epoch);
            let after = directory.registered(issuer);
            let is_new = issuer_id == issuer.issuer_id && key_epoch == issuer.key_epoch;
            &&& after.lists == directory.lists
            &&& is_new ==> after.issuers.contains_key(key) && after.issuers[key] == issuer
            &&& !is_new ==> (after.issuers.contains_key(key) <==> directory.issuers.contains_key(
                key,
            )) && after.issuers[key] == directory.issuers[key]
        }),
{
    if issuer_key_text(issuer_id, key_epoch) == issuer.key() {
        law_issuer_key_injective(issuer_id, key_epoch, issuer.issuer_id, issuer.key_epoch);
    }
}

/// Setting the status of a registered epoch changes its status and nothing else of it, and no
/// other epoch and no list.
pub proof fn law_status_change_is_of_one_epoch(
    directory: DirectoryModel,
    issuer_id: Identifier,
    key_epoch: u64,
    status: IssuerStatus,
    other_id: Identifier,
    other_epoch: u64,
)
    requires
        directory.issuers.contains_key(issuer_key_text(issuer_id, key_epoch)),
    ensures
        ({
            let before = directory.issuers[issuer_key_text(issuer_id, key_epoch)];
            let after = directory.with_status(issuer_id, key_epoch, status);
            let changed = after.issuers[issuer_key_text(issuer_id, key_epoch)];
            let other = issuer_key_text(other_id, other_epoch);
            &&& after.lists == directory.lists
            &&& after.issuers.dom() == directory.issuers.dom()
            &&& changed.status == status
            &&& (IssuerDefinitionModel { status: before.status, ..changed }) == before
            &&& other_id != issuer_id || other_epoch != key_epoch ==> after.issuers[other]
                == directory.issuers[other]
        }),
{
    let key = issuer_key_text(issuer_id, key_epoch);
    assert(directory.with_status(issuer_id, key_epoch, status).issuers.dom()
        =~= directory.issuers.dom());
    if issuer_key_text(other_id, other_epoch) == key {
        law_issuer_key_injective(other_id, other_epoch, issuer_id, key_epoch);
    }
}

/// There is a verifier for an issuer epoch just where the epoch is registered and has a list, and
/// it works with that list: a list that was published for the epoch is the one that counts, and
/// what was published for another epoch makes no difference.
pub proof fn law_verifier_uses_the_published_list(
    directory: DirectoryModel,
    list: StatusListModel,
    issuer_id: Identifier,
    key_epoch: u64,
)
    ensures
        !directory.issuers.contains_key(issuer_key_text(issuer_id, key_epoch))
            ==> directory.list_for(issuer_id, key_epoch) == Err::<StatusListModel, DeKyxError>(
            DeKyxError::UnknownIssuer,
        ),
        directory.issuers.contains_key(issuer_key_text(issuer_id, key_epoch))
            && !directory.lists.contains_key(issuer_key_text(issuer_id, key_epoch))
            ==> directory.list_for(issuer_id, key_epoch) == Err::<StatusListModel, DeKyxError>(
            DeKyxError::MissingStatusList,
        ),
        directory.issuers.contains_key(issuer_key_text(issuer_id, key_epoch))
            && directory.lists.contains_key(issuer_key_text(issuer_id, key_epoch))
            ==> directory.list_for(issuer_id, key_epoch) == Ok::<StatusListModel, DeKyxError>(
            directory.lists[issuer_key_text(issuer_id, key_epoch)],
        ),
        directory.issuers.contains_key(issuer_key_text(list.issuer_id, list.issuer_key_epoch))
            ==> directory.published(list).list_for(list.issuer_id, list.issuer_key_epoch) == Ok::<
            StatusListModel,
            DeKyxError,
        >(list),
        issuer_id != list.issuer_id || key_epoch != list.issuer_key_epoch ==> directory.published(
            list,
        ).list_for(issuer_id, key_epoch) == directory.list_for(issuer_id, key_epoch),
{
    if issuer_key_text(issuer_id, key_epoch) == list.key() {
        law_issuer_key_injective(issuer_id, key_epoch, list.issuer_id, list.issuer_key_epoch);
    }
}

/// Revocation takes hold: once a list that revokes a credential is the list of its epoch, no
/// evidence with that credential is found eligible through the verifier for the epoch.
pub proof fn law_published_revocation_takes_hold(
    directory: DirectoryModel,
    list: StatusListModel,
    reports: SignatureReports,
    requirement: RequirementModel,
    context: PresentationContext,
    evidence: PresentationModel,
    now: u64,
)
    requires
        directory.publication(list, reports) is Ok,
        evidence.credential.digest(reports) matches Ok(digest)
            && list.revoked_credentials.contains(digest),
    ensures
        directory.published(list).list_for(list.issuer_id, list.issuer_key_epoch) matches Ok(held)
            && verdict(
            directory.issuers,
            held,
            reports,
            requirement,
            context,
            evidence,
            now,
        ) is Err,
{
}

/// Lists of one epoch replace one another in the order of their status epochs: after the earlier
/// of two signed lists was published, the later one is accepted and counts from then on; after
/// the later one, the earlier one is stale.
pub proof fn law_later_list_replaces_earlier(
    directory: DirectoryModel,
    earlier: StatusListModel,
    later: StatusListModel,
    reports: SignatureReports,
)
    requires
        earlier.issuer_id == later.issuer_id,
        earlier.issuer_key_epoch == later.issuer_key_epoch,
        earlier.status_epoch < later.status_epoch,
        directory.publication(earlier, reports) is Ok,
        later.check_signature(
            directory.issuers[issuer_key_text(later.issuer_id, later.issuer_key_epoch)],
            reports,
        ) is Ok,
    ensures
        directory.published(earlier).publication(later, reports) == Ok::<(), DeKyxError>(()),
        directory.published(earlier).published(later).list_for(
            later.issuer_id,
            later.issuer_key_epoch,
        ) == Ok::<StatusListModel, DeKyxError>(later),
        directory.publication(later, reports) == Ok::<(), DeKyxError>(()),
        directory.published(later).publication(earlier, reports) == Err::<(), DeKyxError>(
            DeKyxError::StaleStatusList,
        ),
{
}

/// Rotations follow one another: after a rotation, a valid epoch of the issuer with a higher
/// number and other keys than the epoch just rotated to can be rotated to, whatever its times
/// are, and an epoch with a number that is not higher cannot.
pub proof fn law_rotations_follow_one_another(
    directory: DirectoryModel,
    first: IssuerDefinitionModel,
    first_until: u64,
    second: IssuerDefinitionModel,
)
    requires
        directory.sound(),
        directory.rotation(first) is Ok,
        second.check() is Ok,
        second.issuer_id == first.issuer_id,
        second.public_key != first.public_key,
        second.pq_public_key != first.pq_public_key,
    ensures
        second.key_epoch > first.key_epoch ==> directory.rotated(first, first_until).rotation(
            second,
        ) == Ok::<(), DeKyxError>(()),
        second.key_epoch <= first.key_epoch ==> directory.rotated(first, first_until).rotation(
            second,
        ) == Err::<(), DeKyxError>(DeKyxError::InvalidKeyRotation),
{
    let after = directory.rotated(first, first_until);
    let before_epochs = epochs_of(directory.issuers, first.issuer_id);
    lemma_highest(before_epochs);
    let held = highest(before_epochs)->0;
    assert(is_highest(before_epochs, held));
    assert(definition_of(directory.issuers, first.issuer_id, held) is Some);
    law_rotation_moves_forward(directory, first, first_until, held);
    law_rotation_changes_what_it_should(
        directory,
        first,
        first_until,
        first.issuer_id,
        first.key_epoch,
    );
    law_latest_epoch_is_highest_filed(after.issuers, first.issuer_id, first.key_epoch);
    law_rotation_refused_only_for_cause(after, second, first.key_epoch);
}

} // verus!
