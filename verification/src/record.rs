//! The stored form of a directory, and loading it.
use vstd::prelude::*;
use vstd::std_specs::convert::FromSpecImpl;

use crate::bytes::{
    bytes_less, lemma_lex_connected, lemma_lex_irreflexive, lemma_lex_transitive, lex_less,
    same_digest,
};
use crate::directory::{lists_sound, DirectoryModel, IssuerDirectory, StatusLists};
use crate::error::DeKyxError;
use crate::issuer::{
    definition_of, epochs_of, highest, is_highest, issuers_sound, lemma_highest,
    IssuerDefinition, IssuerDefinitionModel, IssuerRegistry, Issuers,
};
use crate::signature::SignatureReports;
use crate::status::{RevocationStatusList, StatusListModel};
use crate::store::{
    lemma_ascending_distinct, lemma_text_connected, same_text, text_ascending, text_less, TextMap,
};
use crate::text::{issuer_key, issuer_key_text, law_issuer_key_injective};

verus! {

/// Stored form of [`IssuerDirectory`]. Loading it re-runs every issuer
/// validation, epoch-ordering, and status-list signature check, so a persisted
/// directory cannot smuggle an unvalidated trust anchor or an unsigned list.
#[derive(Debug, PartialEq, Eq)]
pub struct IssuerDirectoryRecord {
    pub issuers: TextMap<IssuerDefinition>,
    pub status_lists: TextMap<RevocationStatusList>,
}

impl Default for IssuerDirectoryRecord {
    fn default() -> (r: Self)
        ensures
            r.issuers@ == Issuers::empty(),
            r.status_lists@ == StatusLists::empty(),
    {
        IssuerDirectoryRecord { issuers: TextMap::new(), status_lists: TextMap::new() }
    }
}

impl Clone for IssuerDirectoryRecord {
    fn clone(&self) -> (r: Self)
        ensures
            r.issuers@ == self.issuers@,
            r.status_lists@ == self.status_lists@,
    {
        let issuers = self.issuers.clone();
        let status_lists = self.status_lists.clone();
        proof {
            issuers.lemma_same_entries(self.issuers);
            status_lists.lemma_same_entries(self.status_lists);
        }
        IssuerDirectoryRecord { issuers, status_lists }
    }
}

impl From<IssuerDirectory> for IssuerDirectoryRecord {
    fn from(directory: IssuerDirectory) -> (r: Self)
        ensures
            r.issuers@ == directory@.issuers,
            r.status_lists@ == directory@.lists,
    {
        let (issuers, status_lists) = directory.into_parts();
        IssuerDirectoryRecord { issuers, status_lists }
    }
}

impl FromSpecImpl<IssuerDirectory> for IssuerDirectoryRecord {
    open spec fn obeys_from_spec() -> bool {
        false
    }

    open spec fn from_spec(directory: IssuerDirectory) -> Self {
        arbitrary()
    }
}

// ---------------------------------------------------------------------------
// The order of loading
// ---------------------------------------------------------------------------
/// Epochs are loaded issuer by issuer and by rising epoch; entries that claim the same epoch,
/// in the order of their keys.
pub open spec fn loads_before(issuers: Issuers, a: Seq<char>, b: Seq<char>) -> bool {
    let (x, y) = (issuers[a], issuers[b]);
    ||| lex_less(x.issuer_id@, y.issuer_id@)
    ||| x.issuer_id == y.issuer_id && x.key_epoch < y.key_epoch
    ||| x.issuer_id == y.issuer_id && x.key_epoch == y.key_epoch && text_less(a, b)
}

proof fn lemma_loads_transitive(issuers: Issuers, a: Seq<char>, b: Seq<char>, c: Seq<char>)
    requires
        loads_before(issuers, a, b),
        loads_before(issuers, b, c),
    ensures
        loads_before(issuers, a, c),
{
    let (x, y, z) = (issuers[a].issuer_id@, issuers[b].issuer_id@, issuers[c].issuer_id@);
    if lex_less(x, y) && lex_less(y, z) {
        lemma_lex_transitive(x, y, z);
    }
    if text_less(a, b) && text_less(b, c) {
        lemma_lex_transitive(
            vstd::utf8::encode_utf8(a),
            vstd::utf8::encode_utf8(b),
            vstd::utf8::encode_utf8(c),
        );
    }
}

proof fn lemma_loads_irreflexive(issuers: Issuers, a: Seq<char>)
    ensures
        !loads_before(issuers, a, a),
{
    lemma_lex_irreflexive(issuers[a].issuer_id@);
    lemma_lex_irreflexive(vstd::utf8::encode_utf8(a));
}

proof fn lemma_loads_connected(issuers: Issuers, a: Seq<char>, b: Seq<char>)
    ensures
        a == b || loads_before(issuers, a, b) || loads_before(issuers, b, a),
{
    let (x, y) = (issuers[a].issuer_id, issuers[b].issuer_id);
    lemma_lex_connected(x@, y@);
    if x@ == y@ {
        assert(x =~= y);
    }
    lemma_text_connected(a, b);
}

// ---------------------------------------------------------------------------
// What is refused
// ---------------------------------------------------------------------------
/// Why a stored epoch is refused, if it is: it has to be filed under its own key and to be
/// valid.
pub open spec fn issuer_refusal(key: Seq<char>, issuer: IssuerDefinitionModel) -> Option<
    DeKyxError,
> {
    if key != issuer.key() {
        Some(DeKyxError::InvalidIssuer)
    } else {
        match issuer.check() {
            Err(e) => Some(e),
            Ok(()) => None,
        }
    }
}

/// Some stored epoch is refused under `key`.
pub open spec fn issuer_refused(issuers: Issuers, key: Seq<char>) -> bool {
    issuers.contains_key(key) && issuer_refusal(key, issuers[key]) is Some
}

/// The refused epoch under `key` is the first in the order of loading.
pub open spec fn issuer_refused_first(issuers: Issuers, key: Seq<char>) -> bool {
    &&& issuer_refused(issuers, key)
    &&& forall|other: Seq<char>| #[trigger]
        issuer_refused(issuers, other) && other != key ==> loads_before(issuers, key, other)
}

/// Why stored epochs are refused, if they are: for the first one that is.
pub open spec fn issuers_refusal(issuers: Issuers) -> Option<DeKyxError> {
    if exists|key: Seq<char>| issuer_refused_first(issuers, key) {
        let key = choose|key: Seq<char>| issuer_refused_first(issuers, key);
        issuer_refusal(key, issuers[key])
    } else {
        None
    }
}

/// Why a stored status list is refused, if it is: it has to be filed under its own key, to
/// belong to a stored epoch, and to be signed by it.
pub open spec fn list_refusal(
    issuers: Issuers,
    reports: SignatureReports,
    key: Seq<char>,
    list: StatusListModel,
) -> Option<DeKyxError> {
    if key != list.key() {
        Some(DeKyxError::InvalidStatusList)
    } else {
        match definition_of(issuers, list.issuer_id, list.issuer_key_epoch) {
            None => Some(DeKyxError::UnknownIssuer),
            Some(issuer) => match list.check_signature(issuer, reports) {
                Err(e) => Some(e),
                Ok(()) => None,
            },
        }
    }
}

/// Some stored list is refused under `key`.
pub open spec fn list_refused(
    issuers: Issuers,
    reports: SignatureReports,
    lists: StatusLists,
    key: Seq<char>,
) -> bool {
    lists.contains_key(key) && list_refusal(issuers, reports, key, lists[key]) is Some
}

/// The refused list under `key` is the first in the order of keys.
pub open spec fn list_refused_first(
    issuers: Issuers,
    reports: SignatureReports,
    lists: StatusLists,
    key: Seq<char>,
) -> bool {
    &&& list_refused(issuers, reports, lists, key)
    &&& forall|other: Seq<char>| #[trigger]
        list_refused(issuers, reports, lists, other) && other != key ==> text_less(key, other)
}

/// Why stored lists are refused, if they are: for the first one that is.
pub open spec fn lists_refusal(
    issuers: Issuers,
    reports: SignatureReports,
    lists: StatusLists,
) -> Option<DeKyxError> {
    if exists|key: Seq<char>| list_refused_first(issuers, reports, lists, key) {
        let key = choose|key: Seq<char>| list_refused_first(issuers, reports, lists, key);
        list_refusal(issuers, reports, key, lists[key])
    } else {
        None
    }
}

/// Why a record is refused, if it is: first the epochs are looked at, then the lists.
pub open spec fn load_refusal(
    issuers: Issuers,
    lists: StatusLists,
    reports: SignatureReports,
) -> Option<DeKyxError> {
    match issuers_refusal(issuers) {
        Some(e) => Some(e),
        None => lists_refusal(issuers, reports, lists),
    }
}

/// What a record loads as: the directory that it holds, unless it is refused.
pub open spec fn loaded(
    issuers: Issuers,
    lists: StatusLists,
    reports: SignatureReports,
) -> Result<DirectoryModel, DeKyxError> {
    match load_refusal(issuers, lists, reports) {
        Some(e) => Err(e),
        None => Ok(DirectoryModel { issuers, lists }),
    }
}

proof fn lemma_issuers_refused(issuers: Issuers, key: Seq<char>)
    requires
        issuer_refused_first(issuers, key),
    ensures
        issuers_refusal(issuers) == issuer_refusal(key, issuers[key]),
{
    let chosen = choose|k: Seq<char>| issuer_refused_first(issuers, k);
    assert(issuer_refused_first(issuers, chosen));
    if chosen != key {
        assert(loads_before(issuers, key, chosen));
        assert(loads_before(issuers, chosen, key));
        lemma_loads_transitive(issuers, key, chosen, key);
        lemma_loads_irreflexive(issuers, key);
    }
}

proof fn lemma_lists_refused(
    issuers: Issuers,
    reports: SignatureReports,
    lists: StatusLists,
    key: Seq<char>,
)
    requires
        list_refused_first(issuers, reports, lists, key),
    ensures
        lists_refusal(issuers, reports, lists) == list_refusal(issuers, reports, key, lists[key]),
{
    let chosen = choose|k: Seq<char>| list_refused_first(issuers, reports, lists, k);
    assert(list_refused_first(issuers, reports, lists, chosen));
    if chosen != key {
        assert(text_less(key, chosen));
        assert(text_less(chosen, key));
        lemma_lex_transitive(
            vstd::utf8::encode_utf8(key),
            vstd::utf8::encode_utf8(chosen),
            vstd::utf8::encode_utf8(key),
        );
        lemma_lex_irreflexive(vstd::utf8::encode_utf8(key));
    }
}

// ---------------------------------------------------------------------------
// Loading
// ---------------------------------------------------------------------------
/// Whether the entry at `a` is loaded before the one at `b`.
fn is_loaded_before(issuers: &TextMap<IssuerDefinition>, a: usize, b: usize) -> (r: bool)
    requires
        a < issuers.keys().len(),
        b < issuers.keys().len(),
    ensures
        r == loads_before(issuers@, issuers.keys()[a as int], issuers.keys()[b as int]),
{
    let x = issuers.value_at(a);
    let y = issuers.value_at(b);
    if bytes_less(x.issuer_id.as_slice(), y.issuer_id.as_slice()) {
        return true;
    }
    same_digest(&x.issuer_id, &y.issuer_id) && (x.key_epoch < y.key_epoch || (x.key_epoch
        == y.key_epoch && bytes_less(
        issuers.key_at(a).as_str().as_bytes(),
        issuers.key_at(b).as_str().as_bytes(),
    )))
}

/// `order` lists every place below `count` exactly once.
spec fn covers(order: Seq<usize>, count: int) -> bool {
    &&& order.len() == count
    &&& forall|i: int| 0 <= i < order.len() ==> 0 <= #[trigger] order[i] < count
    &&& forall|p: int| 0 <= p < count ==> order.contains(#[trigger] (p as usize))
}

/// The places in `order` are in the order of loading.
spec fn in_loading_order(issuers: Issuers, keys: Seq<Seq<char>>, order: Seq<usize>) -> bool {
    forall|i: int, j: int|
        0 <= i < j < order.len() ==> loads_before(
            issuers,
            keys[#[trigger] order[i] as int],
            keys[#[trigger] order[j] as int],
        )
}

/// The places of the entries in the order of loading.
fn loading_order(issuers: &TextMap<IssuerDefinition>) -> (order: Vec<usize>)
    ensures
        covers(order@, issuers.keys().len() as int),
        in_loading_order(issuers@, issuers.keys(), order@),
{
    let count = issuers.len();
    let ghost keys = issuers.keys();
    let mut order: Vec<usize> = Vec::new();
    let mut next: usize = 0;
    while next < count
        invariant
            next <= count,
            count == keys.len(),
            keys == issuers.keys(),
            text_ascending(keys),
            covers(order@, next as int),
            in_loading_order(issuers@, keys, order@),
        decreases count - next,
    {
        let mut at: usize = 0;
        while at < order.len() && is_loaded_before(issuers, order[at], next)
            invariant
                at <= order.len(),
                next < count,
                count == keys.len(),
                keys == issuers.keys(),
                covers(order@, next as int),
                forall|i: int|
                    0 <= i < at ==> loads_before(
                        issuers@,
                        keys[#[trigger] order@[i] as int],
                        keys[next as int],
                    ),
            ensures
                at <= order.len(),
                forall|i: int|
                    0 <= i < at ==> loads_before(
                        issuers@,
                        keys[#[trigger] order@[i] as int],
                        keys[next as int],
                    ),
                at < order.len() ==> !loads_before(
                    issuers@,
                    keys[order@[at as int] as int],
                    keys[next as int],
                ),
            decreases order.len() - at,
        {
            at += 1;
        }
        let ghost before = order@;
        order.insert(at, next);
        proof {
            let after = order@;
            lemma_ascending_distinct(keys);
            assert forall|i: int, j: int| 0 <= i < j < after.len() implies loads_before(
                issuers@,
                keys[#[trigger] after[i] as int],
                keys[#[trigger] after[j] as int],
            ) by {
                let p = if i < at { i } else { i - 1 };
                let q = if j < at { j } else { j - 1 };
                if i != at && j != at {
                    assert(after[i] == before[p] && after[j] == before[q]);
                } else if j == at {
                    assert(after[i] == before[i]);
                } else {
                    assert(after[j] == before[q]);
                    let pivot = keys[before[at as int] as int];
                    lemma_loads_connected(issuers@, pivot, keys[next as int]);
                    assert(loads_before(issuers@, keys[next as int], pivot));
                    if q > at {
                        assert(loads_before(issuers@, pivot, keys[before[q] as int]));
                        lemma_loads_transitive(
                            issuers@,
                            keys[next as int],
                            pivot,
                            keys[before[q] as int],
                        );
                    }
                }
            }
            assert forall|p: int| 0 <= p < next + 1 implies after.contains(
                #[trigger] (p as usize),
            ) by {
                if p == next {
                    assert(after[at as int] == next);
                } else {
                    let k = before.index_of(p as usize);
                    assert(before.contains(p as usize));
                    let l = if k < at { k } else { k + 1 };
                    assert(after[l] == p as usize);
                }
            }
            assert forall|i: int| 0 <= i < after.len() implies 0 <= #[trigger] after[i] < next
                + 1 by {
                let p = if i < at { i } else { i - 1 };
                assert(i != at ==> after[i] == before[p]);
            }
        }
        next += 1;
    }
    order
}

/// The registry of stored epochs. Every one is checked, in the order of loading.
fn load_issuers(issuers: &TextMap<IssuerDefinition>) -> (r: Result<IssuerRegistry, DeKyxError>)
    ensures
        match issuers_refusal(issuers@) {
            Some(e) => r matches Err(f) && f == e,
            None => r matches Ok(registry) && registry@ == issuers@ && issuers_sound(issuers@),
        },
{
    let order = loading_order(issuers);
    let count = issuers.len();
    let ghost keys = issuers.keys();
    proof {
        issuers.lemma_keys();
    }
    let mut registry = IssuerRegistry::default();
    let mut i: usize = 0;
    while i < count
        invariant
            i <= count,
            count == keys.len(),
            keys == issuers.keys(),
            text_ascending(keys),
            covers(order@, count as int),
            in_loading_order(issuers@, keys, order@),
            forall|key: Seq<char>| #[trigger] issuers@.contains_key(key) <==> keys.contains(key),
            forall|key: Seq<char>| #[trigger]
                registry@.contains_key(key) <==> (exists|j: int|
                    0 <= j < i && keys[#[trigger] order@[j] as int] == key),
            forall|key: Seq<char>| #[trigger]
                registry@.contains_key(key) ==> registry@[key] == issuers@[key],
            forall|j: int|
                0 <= j < i ==> issuer_refusal(
                    keys[#[trigger] order@[j] as int],
                    issuers@[keys[order@[j] as int]],
                ) is None,
        decreases count - i,
    {
        let place = order[i];
        let key = issuers.key_at(place);
        let issuer = issuers.value_at(place);
        let ghost text = keys[place as int];
        let ghost loaded = issuer@;
        let own = issuer_key(&issuer.issuer_id, issuer.key_epoch);
        if !same_text(key.as_str(), own.as_str()) {
            proof {
                lemma_first_refused(issuers@, keys, order@, i as int);
            }
            return Err(DeKyxError::InvalidIssuer);
        }
        match issuer.validate() {
            Err(e) => {
                proof {
                    lemma_first_refused(issuers@, keys, order@, i as int);
                }
                return Err(e);
            },
            Ok(()) => {},
        }
        let latest = registry.latest_epoch(&issuer.issuer_id);
        proof {
            lemma_epochs_rise(issuers@, keys, order@, i as int, registry@);
        }
        if let Some(epoch) = latest {
            if epoch >= issuer.key_epoch {
                return Err(DeKyxError::InvalidKeyRotation);
            }
        }
        let ghost before = registry@;
        registry.register(issuer.clone())?;
        proof {
            assert(registry@ == before.insert(text, loaded));
            assert forall|k: Seq<char>| #[trigger] registry@.contains_key(k) <==> (exists|j: int|
                0 <= j < i + 1 && keys[#[trigger] order@[j] as int] == k) by {
                if before.contains_key(k) {
                    let j = choose|j: int| 0 <= j < i && keys[#[trigger] order@[j] as int] == k;
                    assert(0 <= j < i + 1 && keys[order@[j] as int] == k);
                }
                if k == text {
                    assert(keys[order@[i as int] as int] == k);
                }
                if exists|j: int| 0 <= j < i + 1 && keys[#[trigger] order@[j] as int] == k {
                    let j = choose|j: int|
                        0 <= j < i + 1 && keys[#[trigger] order@[j] as int] == k;
                    if j < i {
                        assert(before.contains_key(k));
                    }
                }
            }
        }
        i += 1;
    }
    proof {
        assert forall|key: Seq<char>| #[trigger] issuers@.contains_key(key) implies registry@.contains_key(
            key,
        ) && issuer_refusal(key, issuers@[key]) is None by {
            let p = keys.index_of(key);
            assert(keys[p] == key);
            assert(order@.contains(p as usize));
            let j = order@.index_of(p as usize);
            assert(keys[order@[j] as int] == key);
        }
        assert forall|key: Seq<char>| #[trigger] registry@.contains_key(key) implies issuers@.contains_key(
            key,
        ) by {
            let j = choose|j: int| 0 <= j < i && keys[#[trigger] order@[j] as int] == key;
            assert(keys.contains(keys[order@[j] as int]));
        }
        assert(registry@ =~= issuers@);
        assert(!(exists|key: Seq<char>| issuer_refused_first(issuers@, key)));
    }
    Ok(registry)
}

/// A refused entry after entries that were not is the first that is.
proof fn lemma_first_refused(
    issuers: Issuers,
    keys: Seq<Seq<char>>,
    order: Seq<usize>,
    i: int,
)
    requires
        keys.len() <= usize::MAX,
        covers(order, keys.len() as int),
        in_loading_order(issuers, keys, order),
        forall|key: Seq<char>| #[trigger] issuers.contains_key(key) <==> keys.contains(key),
        forall|j: int|
            0 <= j < i ==> issuer_refusal(
                keys[#[trigger] order[j] as int],
                issuers[keys[order[j] as int]],
            ) is None,
        0 <= i < order.len(),
        issuer_refusal(keys[order[i] as int], issuers[keys[order[i] as int]]) is Some,
    ensures
        issuers_refusal(issuers) == issuer_refusal(
            keys[order[i] as int],
            issuers[keys[order[i] as int]],
        ),
{
    let key = keys[order[i] as int];
    assert(keys.contains(key));
    assert forall|other: Seq<char>| #[trigger]
        issuer_refused(issuers, other) && other != key implies loads_before(issuers, key, other) by {
        let p = keys.index_of(other);
        assert(keys[p] == other);
        assert(order.contains(p as usize));
        let j = order.index_of(p as usize);
        assert(keys[order[j] as int] == other);
        assert(j >= i);
        assert(j != i);
        assert(loads_before(issuers, keys[order[i] as int], keys[order[j] as int]));
    }
    assert(issuer_refused_first(issuers, key));
    lemma_issuers_refused(issuers, key);
}

/// Where every entry so far was accepted, the next accepted entry has a higher epoch than all
/// those of its issuer before it, and is not registered yet.
proof fn lemma_epochs_rise(
    issuers: Issuers,
    keys: Seq<Seq<char>>,
    order: Seq<usize>,
    i: int,
    registered: Issuers,
)
    requires
        covers(order, keys.len() as int),
        in_loading_order(issuers, keys, order),
        forall|key: Seq<char>| #[trigger] issuers.contains_key(key) <==> keys.contains(key),
        forall|j: int|
            0 <= j <= i ==> issuer_refusal(
                keys[#[trigger] order[j] as int],
                issuers[keys[order[j] as int]],
            ) is None,
        0 <= i < order.len(),
        forall|key: Seq<char>| #[trigger]
            registered.contains_key(key) <==> (exists|j: int|
                0 <= j < i && keys[#[trigger] order[j] as int] == key),
        forall|key: Seq<char>| #[trigger]
            registered.contains_key(key) ==> registered[key] == issuers[key],
    ensures
        ({
            let issuer = issuers[keys[order[i] as int]];
            &&& highest(epochs_of(registered, issuer.issuer_id)) matches Some(epoch) ==> epoch
                < issuer.key_epoch
            &&& !registered.contains_key(issuer.key())
        }),
{
    let text = keys[order[i] as int];
    let issuer = issuers[text];
    let epochs = epochs_of(registered, issuer.issuer_id);
    assert(issuer_refusal(text, issuer) is None);
    assert(text == issuer.key());
    if registered.contains_key(text) {
        let j = choose|j: int| 0 <= j < i && keys[#[trigger] order[j] as int] == text;
        assert(loads_before(issuers, keys[order[j] as int], keys[order[i] as int]));
        lemma_loads_irreflexive(issuers, text);
    }
    lemma_highest(epochs);
    if highest(epochs) is Some {
        let epoch = highest(epochs)->0;
        assert(is_highest(epochs, epoch));
        let key = issuer_key_text(issuer.issuer_id, epoch);
        assert(registered.contains_key(key));
        let j = choose|j: int| 0 <= j < i && keys[#[trigger] order[j] as int] == key;
        let earlier = issuers[key];
        assert(issuer_refusal(keys[order[j] as int], issuers[keys[order[j] as int]]) is None);
        law_issuer_key_injective(
            issuer.issuer_id,
            epoch,
            earlier.issuer_id,
            earlier.key_epoch,
        );
        assert(loads_before(issuers, keys[order[j] as int], keys[order[i] as int]));
        lemma_lex_irreflexive(issuer.issuer_id@);
        if epoch == issuer.key_epoch {
            assert(key == text);
        }
    }
}

impl IssuerDirectory {
    /// Loads a stored directory. Every epoch has to be filed under its own key, to be valid,
    /// and to follow the epochs of its issuer before it; every list has to be filed under its
    /// own key and to be signed by its epoch.
    pub fn try_from(record: IssuerDirectoryRecord, reports: &SignatureReports) -> (r: Result<
        Self,
        DeKyxError,
    >)
        ensures
            match loaded(record.issuers@, record.status_lists@, *reports) {
                Err(e) => r matches Err(f) && f == e,
                Ok(model) => r matches Ok(directory) && directory@ == model,
            },
    {
        let registry = load_issuers(&record.issuers)?;
        let ghost issuers = record.issuers@;
        let ghost lists = record.status_lists@;
        let mut directory = IssuerDirectory::of_registry(registry);
        let count = record.status_lists.len();
        let ghost keys = record.status_lists.keys();
        proof {
            record.status_lists.lemma_keys();
            lemma_ascending_distinct(keys);
        }
        let mut i: usize = 0;
        while i < count
            invariant
                i <= count,
                count == keys.len(),
                keys == record.status_lists.keys(),
                lists == record.status_lists@,
                issuers == record.issuers@,
                issuers_refusal(issuers) is None,
                text_ascending(keys),
                keys.no_duplicates(),
                forall|key: Seq<char>| #[trigger] lists.contains_key(key) <==> keys.contains(key),
                directory@.issuers == issuers,
                forall|key: Seq<char>| #[trigger]
                    directory@.lists.contains_key(key) <==> (exists|j: int|
                        0 <= j < i && #[trigger] keys[j] == key),
                forall|key: Seq<char>| #[trigger]
                    directory@.lists.contains_key(key) ==> directory@.lists[key] == lists[key],
                forall|j: int|
                    0 <= j < i ==> list_refusal(
                        issuers,
                        *reports,
                        #[trigger] keys[j],
                        lists[keys[j]],
                    ) is None,
            decreases count - i,
        {
            let key = record.status_lists.key_at(i);
            let list = record.status_lists.value_at(i);
            let ghost text = keys[i as int];
            let own = issuer_key(&list.issuer_id, list.issuer_key_epoch);
            if !same_text(key.as_str(), own.as_str()) {
                proof {
                    lemma_first_list_refused(issuers, *reports, lists, keys, i as int);
                }
                return Err(DeKyxError::InvalidStatusList);
            }
            let ghost before = directory@;
            match directory.publish_status_list(list.clone(), reports) {
                Err(e) => {
                    proof {
                        if before.lists.contains_key(text) {
                            let j = choose|j: int| 0 <= j < i && #[trigger] keys[j] == text;
                            assert(keys[j] != keys[i as int]);
                        }
                        lemma_first_list_refused(issuers, *reports, lists, keys, i as int);
                    }
                    return Err(e);
                },
                Ok(()) => {},
            }
            proof {
                assert(directory@.lists == before.lists.insert(text, lists[text]));
                assert forall|k: Seq<char>| #[trigger] directory@.lists.contains_key(k) <==> (
                exists|j: int| 0 <= j < i + 1 && #[trigger] keys[j] == k) by {
                    if before.lists.contains_key(k) {
                        let j = choose|j: int| 0 <= j < i && #[trigger] keys[j] == k;
                        assert(0 <= j < i + 1 && keys[j] == k);
                    }
                    if k == text {
                        assert(keys[i as int] == k);
                    }
                    if exists|j: int| 0 <= j < i + 1 && #[trigger] keys[j] == k {
                        let j = choose|j: int| 0 <= j < i + 1 && #[trigger] keys[j] == k;
                        if j < i {
                            assert(before.lists.contains_key(k));
                        }
                    }
                }
            }
            i += 1;
        }
        proof {
            assert forall|key: Seq<char>| #[trigger] lists.contains_key(key) implies directory@.lists.contains_key(
                key,
            ) && list_refusal(issuers, *reports, key, lists[key]) is None by {
                let j = keys.index_of(key);
                assert(keys[j] == key);
            }
            assert forall|key: Seq<char>| #[trigger]
                directory@.lists.contains_key(key) implies lists.contains_key(key) by {
                let j = choose|j: int| 0 <= j < i && #[trigger] keys[j] == key;
                assert(keys.contains(keys[j]));
            }
            assert(directory@.lists =~= lists);
            assert(!(exists|key: Seq<char>| list_refused_first(issuers, *reports, lists, key)));
        }
        Ok(directory)
    }
}

/// A refused list after lists that were not is the first that is.
proof fn lemma_first_list_refused(
    issuers: Issuers,
    reports: SignatureReports,
    lists: StatusLists,
    keys: Seq<Seq<char>>,
    i: int,
)
    requires
        text_ascending(keys),
        forall|key: Seq<char>| #[trigger] lists.contains_key(key) <==> keys.contains(key),
        forall|j: int|
            0 <= j < i ==> list_refusal(issuers, reports, #[trigger] keys[j], lists[keys[j]]) is None,
        0 <= i < keys.len(),
        list_refusal(issuers, reports, keys[i], lists[keys[i]]) is Some,
    ensures
        lists_refusal(issuers, reports, lists) == list_refusal(
            issuers,
            reports,
            keys[i],
            lists[keys[i]],
        ),
{
    let key = keys[i];
    assert(keys.contains(key));
    assert forall|other: Seq<char>| #[trigger]
        list_refused(issuers, reports, lists, other) && other != key implies text_less(key, other) by {
        let j = keys.index_of(other);
        assert(keys[j] == other);
        assert(j > i);
    }
    assert(list_refused_first(issuers, reports, lists, key));
    lemma_lists_refused(issuers, reports, lists, key);
}

/// A stored directory loads back: where the signature backend accepts the signatures of its
/// lists, loading the record of a directory gives that directory.
pub proof fn law_record_loads_back(directory: DirectoryModel, reports: SignatureReports)
    requires
        directory.sound(),
        forall|key: Seq<char>| #[trigger]
            directory.lists.contains_key(key) ==> directory.lists[key].check_signature(
                directory.issuers[key],
                reports,
            ) is Ok,
    ensures
        loaded(directory.issuers, directory.lists, reports) == Ok::<DirectoryModel, DeKyxError>(
            directory,
        ),
{
    assert forall|key: Seq<char>| !(#[trigger] issuer_refused(directory.issuers, key)) by {
        if directory.issuers.contains_key(key) {
            assert(issuer_refusal(key, directory.issuers[key]) is None);
        }
    }
    assert forall|key: Seq<char>|
        !(#[trigger] list_refused(directory.issuers, reports, directory.lists, key)) by {
        if directory.lists.contains_key(key) {
            let list = directory.lists[key];
            assert(key == list.key());
            assert(directory.issuers.contains_key(key));
        }
    }
}

/// Loading lets nothing through unchecked: in a record that is not refused, every epoch is
/// filed under its own key and valid, and every list is filed under the key of a stored epoch,
/// complete, and signed by that epoch.
pub proof fn law_loaded_state_is_checked(
    issuers: Issuers,
    lists: StatusLists,
    reports: SignatureReports,
)
    requires
        load_refusal(issuers, lists, reports) is None,
        issuers.dom().finite(),
        lists.dom().finite(),
    ensures
        issuers_sound(issuers),
        lists_sound(issuers, lists),
        forall|key: Seq<char>| #[trigger]
            lists.contains_key(key) ==> lists[key].check_signature(issuers[key], reports) is Ok,
{
    assert(issuers_sound(issuers)) by {
        assert forall|key: Seq<char>| #[trigger] issuers.contains_key(key) implies key
            == issuers[key].key() && issuers[key].check() is Ok by {
            if issuer_refused(issuers, key) {
                lemma_first_refused_exists(issuers, key, issuers.dom());
            }
        }
    }
    assert forall|key: Seq<char>| #[trigger] lists.contains_key(key) implies list_refusal(
        issuers,
        reports,
        key,
        lists[key],
    ) is None by {
        if list_refused(issuers, reports, lists, key) {
            lemma_first_list_exists(issuers, reports, lists, key, lists.dom());
        }
    }
    assert forall|key: Seq<char>| #[trigger] lists.contains_key(key) implies lists[key].check_signature(
        issuers[key],
        reports,
    ) is Ok && lists[key].complete() && issuers.contains_key(key) && key == lists[key].key() by {
        assert(list_refusal(issuers, reports, key, lists[key]) is None);
    }
}

/// Where some entry is refused, one is refused first.
proof fn lemma_first_refused_exists(issuers: Issuers, key: Seq<char>, left: Set<Seq<char>>)
    requires
        left.finite(),
        issuer_refused(issuers, key),
        left.contains(key),
        forall|other: Seq<char>| #[trigger]
            issuer_refused(issuers, other) && !left.contains(other) ==> loads_before(
                issuers,
                key,
                other,
            ),
    ensures
        exists|first: Seq<char>| issuer_refused_first(issuers, first),
    decreases left.len(),
{
    if !issuer_refused_first(issuers, key) {
        let other = choose|other: Seq<char>| #[trigger]
            issuer_refused(issuers, other) && other != key && !loads_before(issuers, key, other);
        lemma_loads_connected(issuers, key, other);
        assert(left.contains(other));
        let rest = left.remove(key);
        assert forall|third: Seq<char>| #[trigger]
            issuer_refused(issuers, third) && !rest.contains(third) implies loads_before(
            issuers,
            other,
            third,
        ) by {
            if third != key {
                assert(loads_before(issuers, key, third));
                lemma_loads_transitive(issuers, other, key, third);
            }
        }
        lemma_first_refused_exists(issuers, other, rest);
    }
}

/// Where some list is refused, one is refused first.
proof fn lemma_first_list_exists(
    issuers: Issuers,
    reports: SignatureReports,
    lists: StatusLists,
    key: Seq<char>,
    left: Set<Seq<char>>,
)
    requires
        left.finite(),
        list_refused(issuers, reports, lists, key),
        left.contains(key),
        forall|other: Seq<char>| #[trigger]
            list_refused(issuers, reports, lists, other) && !left.contains(other) ==> text_less(
                key,
                other,
            ),
    ensures
        exists|first: Seq<char>| list_refused_first(issuers, reports, lists, first),
    decreases left.len(),
{
    if !list_refused_first(issuers, reports, lists, key) {
        let other = choose|other: Seq<char>| #[trigger]
            list_refused(issuers, reports, lists, other) && other != key && !text_less(key, other);
        lemma_text_connected(key, other);
        assert(left.contains(other));
        let rest = left.remove(key);
        assert forall|third: Seq<char>| #[trigger]
            list_refused(issuers, reports, lists, third) && !rest.contains(third) implies text_less(
            other,
            third,
        ) by {
            if third != key {
                assert(text_less(key, third));
                lemma_lex_transitive(
                    vstd::utf8::encode_utf8(other),
                    vstd::utf8::encode_utf8(key),
                    vstd::utf8::encode_utf8(third),
                );
            }
        }
        lemma_first_list_exists(issuers, reports, lists, other, rest);
    }
}

/// A record loads just where every epoch is filed under the key of its issuer and number and is
/// valid, and every list is filed under the key of its epoch, which is stored too, and signed by
/// it. It then loads as what it holds.
pub proof fn law_record_loads_just_where_all_is_in_order(
    issuers: Issuers,
    lists: StatusLists,
    reports: SignatureReports,
)
    requires
        issuers.dom().finite(),
        lists.dom().finite(),
    ensures
        loaded(issuers, lists, reports) is Ok <==> {
            &&& forall|key: Seq<char>| #[trigger]
                issuers.contains_key(key) ==> key == issuer_key_text(
                    issuers[key].issuer_id,
                    issuers[key].key_epoch,
                ) && issuers[key].check() is Ok
            &&& forall|key: Seq<char>| #[trigger]
                lists.contains_key(key) ==> key == issuer_key_text(
                    lists[key].issuer_id,
                    lists[key].issuer_key_epoch,
                ) && issuers.contains_key(key) && lists[key].check_signature(
                    issuers[key],
                    reports,
                ) is Ok
        },
        loaded(issuers, lists, reports) matches Ok(directory) ==> directory.issuers == issuers
            && directory.lists == lists,
{
    if loaded(issuers, lists, reports) is Ok {
        law_loaded_state_is_checked(issuers, lists, reports);
    }
    let issuers_fine = forall|key: Seq<char>| #[trigger]
        issuers.contains_key(key) ==> key == issuer_key_text(
            issuers[key].issuer_id,
            issuers[key].key_epoch,
        ) && issuers[key].check() is Ok;
    let lists_fine = forall|key: Seq<char>| #[trigger]
        lists.contains_key(key) ==> key == issuer_key_text(
            lists[key].issuer_id,
            lists[key].issuer_key_epoch,
        ) && issuers.contains_key(key) && lists[key].check_signature(issuers[key], reports) is Ok;
    if issuers_fine && lists_fine {
        assert forall|key: Seq<char>| !(#[trigger] issuer_refused(issuers, key)) by {}
        assert forall|key: Seq<char>| !(#[trigger] list_refused(issuers, reports, lists, key)) by {}
    }
}

/// A record that does not load is refused for its first fault. Epochs come first, by their issuer
/// and their number, and then by the keys under which they are filed: an epoch under a wrong key
/// is an invalid issuer, and one that is not valid is refused for what makes it so.
pub proof fn law_record_refused_for_its_first_epoch_at_fault(
    issuers: Issuers,
    lists: StatusLists,
    reports: SignatureReports,
    key: Seq<char>,
)
    requires
        issuers.contains_key(key),
        key != issuer_key_text(issuers[key].issuer_id, issuers[key].key_epoch)
            || issuers[key].check() is Err,
        forall|other: Seq<char>| #[trigger]
            issuers.contains_key(other) && other != key && (other != issuer_key_text(
                issuers[other].issuer_id,
                issuers[other].key_epoch,
            ) || issuers[other].check() is Err) ==> {
                ||| lex_less(issuers[key].issuer_id@, issuers[other].issuer_id@)
                ||| issuers[key].issuer_id == issuers[other].issuer_id && issuers[key].key_epoch
                    < issuers[other].key_epoch
                ||| issuers[key].issuer_id == issuers[other].issuer_id && issuers[key].key_epoch
                    == issuers[other].key_epoch && lex_less(
                    vstd::utf8::encode_utf8(key),
                    vstd::utf8::encode_utf8(other),
                )
            },
    ensures
        key != issuer_key_text(issuers[key].issuer_id, issuers[key].key_epoch) ==> loaded(
            issuers,
            lists,
            reports,
        ) == Err::<DirectoryModel, DeKyxError>(DeKyxError::InvalidIssuer),
        key == issuer_key_text(issuers[key].issuer_id, issuers[key].key_epoch) ==> loaded(
            issuers,
            lists,
            reports,
        ) == Err::<DirectoryModel, DeKyxError>(issuers[key].check()->Err_0),
{
    assert forall|other: Seq<char>| #[trigger]
        issuer_refused(issuers, other) && other != key implies loads_before(issuers, key, other) by {
        assert(issuers.contains_key(other));
    }
    assert(issuer_refused_first(issuers, key));
    lemma_issuers_refused(issuers, key);
}

/// Where all epochs of a record are in order, it is refused for the first list at fault in the
/// order of keys: a list under a wrong key is invalid, one of an epoch that is not stored has no
/// known issuer, and one that its epoch did not sign is refused for what its check gives.
pub proof fn law_record_refused_for_its_first_list_at_fault(
    issuers: Issuers,
    lists: StatusLists,
    reports: SignatureReports,
    key: Seq<char>,
)
    requires
        forall|k: Seq<char>| #[trigger]
            issuers.contains_key(k) ==> k == issuer_key_text(
                issuers[k].issuer_id,
                issuers[k].key_epoch,
            ) && issuers[k].check() is Ok,
        lists.contains_key(key),
        key != issuer_key_text(lists[key].issuer_id, lists[key].issuer_key_epoch)
            || !issuers.contains_key(key) || lists[key].check_signature(
            issuers[key],
            reports,
        ) is Err,
        forall|other: Seq<char>| #[trigger]
            lists.contains_key(other) && other != key && (other != issuer_key_text(
                lists[other].issuer_id,
                lists[other].issuer_key_epoch,
            ) || !issuers.contains_key(other) || lists[other].check_signature(
                issuers[other],
                reports,
            ) is Err) ==> lex_less(
                vstd::utf8::encode_utf8(key),
                vstd::utf8::encode_utf8(other),
            ),
    ensures
        ({
            let result = loaded(issuers, lists, reports);
            let own = key == issuer_key_text(lists[key].issuer_id, lists[key].issuer_key_epoch);
            &&& !own ==> result == Err::<DirectoryModel, DeKyxError>(DeKyxError::InvalidStatusList)
            &&& own && !issuers.contains_key(key) ==> result == Err::<DirectoryModel, DeKyxError>(
                DeKyxError::UnknownIssuer,
            )
            &&& own && issuers.contains_key(key) ==> result == Err::<DirectoryModel, DeKyxError>(
                lists[key].check_signature(issuers[key], reports)->Err_0,
            )
        }),
{
    assert forall|k: Seq<char>| !(#[trigger] issuer_refused(issuers, k)) by {}
    assert forall|other: Seq<char>| #[trigger]
        list_refused(issuers, reports, lists, other) && other != key implies text_less(
        key,
        other,
    ) by {
        assert(lists.contains_key(other));
    }
    assert(list_refused_first(issuers, reports, lists, key));
    lemma_lists_refused(issuers, reports, lists, key);
}

} // verus!
