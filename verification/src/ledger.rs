//! The ledger of consumed contexts, which refuses replays.
use vstd::prelude::*;
use vstd::utf8::encode_utf8;

use crate::binding::{law_context_binds, law_context_use_binds};
use crate::bytes::{
    append, append_digest, lemma_lex_connected, lemma_lex_irreflexive, lemma_take_push, lex_less,
    position_in, same_digest, strictly_ascending, Digest32,
};
use crate::error::DeKyxError;
use crate::group::encodes;
use crate::hash::{sha256, sha256_digest};
use crate::membership::told_apart;
use crate::pedersen::pseudonym;
use crate::presentation::{PresentationContext, PresentationModel};
use crate::tree::copy_digests;

verus! {

/// Domain of consumed uses of a context.
pub const CONTEXT_USE_DOMAIN: &'static str = "DEKYX:CONTEXT-USE:v1";

/// The bytes that the use of a context by a pseudonym is hashed from.
pub open spec fn use_message(subject_nullifier: [u8; 32], context_digest: Digest32) -> Seq<u8> {
    encode_utf8(CONTEXT_USE_DOMAIN@) + subject_nullifier@ + context_digest@
}

/// The digest that stands for the use of a context by a pseudonym.
pub open spec fn context_use(subject_nullifier: [u8; 32], context_digest: Digest32) -> Digest32 {
    sha256_digest(use_message(subject_nullifier, context_digest))
}

/// The uses of contexts that were consumed, in ascending order.
#[derive(Debug, PartialEq, Eq)]
pub struct PresentationLedger {
    consumed_contexts: Vec<Digest32>,
}

impl View for PresentationLedger {
    type V = Set<Digest32>;

    closed spec fn view(&self) -> Set<Digest32> {
        self.consumed_contexts@.to_set()
    }
}

impl Default for PresentationLedger {
    fn default() -> (r: Self)
        ensures
            r@ == Set::<Digest32>::empty(),
    {
        let r = PresentationLedger { consumed_contexts: Vec::new() };
        assert(r@ =~= Set::<Digest32>::empty());
        r
    }
}

impl Clone for PresentationLedger {
    fn clone(&self) -> (r: Self)
        ensures
            r@ == self@,
    {
        proof {
            use_type_invariant(self);
        }
        PresentationLedger { consumed_contexts: copy_digests(&self.consumed_contexts) }
    }
}

proof fn lemma_ascending_no_duplicates(digests: Seq<Digest32>)
    requires
        strictly_ascending(digests),
    ensures
        digests.no_duplicates(),
{
    assert forall|i: int, j: int| 0 <= i < j < digests.len() implies digests[i] != digests[j] by {
        assert(lex_less(digests[i]@, digests[j]@));
        lemma_lex_irreflexive(digests[i]@);
    }
}

impl PresentationLedger {
    #[verifier::type_invariant]
    spec fn ordered(self) -> bool {
        strictly_ascending(self.consumed_contexts@)
    }

    /// Whether nothing was consumed.
    pub fn is_empty(&self) -> (r: bool)
        ensures
            r == (self@ == Set::<Digest32>::empty()),
    {
        proof {
            if self.consumed_contexts@.len() > 0 {
                assert(self@.contains(self.consumed_contexts@[0]));
            } else {
                assert(self@ =~= Set::<Digest32>::empty());
            }
        }
        self.consumed_contexts.len() == 0
    }

    /// How many uses were consumed.
    pub fn len(&self) -> (r: usize)
        ensures
            self@.finite(),
            r == self@.len(),
    {
        proof {
            use_type_invariant(self);
            lemma_ascending_no_duplicates(self.consumed_contexts@);
            self.consumed_contexts@.unique_seq_to_set();
            vstd::seq_lib::seq_to_set_is_finite(self.consumed_contexts@);
        }
        self.consumed_contexts.len()
    }

    /// The consumed uses, in ascending order.
    pub fn consumed(&self) -> (r: &Vec<Digest32>)
        ensures
            strictly_ascending(r@),
            r@.to_set() == self@,
    {
        proof {
            use_type_invariant(self);
        }
        &self.consumed_contexts
    }

    /// The ledger that holds the uses in a list.
    pub fn of_consumed(uses: &Vec<Digest32>) -> (r: Self)
        ensures
            r@ == uses@.to_set(),
    {
        let mut ledger = PresentationLedger::default();
        let mut i: usize = 0;
        assert(uses@.take(0).to_set() =~= Set::<Digest32>::empty());
        while i < uses.len()
            invariant
                i <= uses.len(),
                ledger@ == uses@.take(i as int).to_set(),
            decreases uses.len() - i,
        {
            ledger.add(uses[i]);
            proof {
                lemma_take_push(uses@, i as int);
            }
            i += 1;
        }
        assert(uses@.take(i as int) =~= uses@);
        ledger
    }

    /// Adds a use, and says whether it is new.
    fn add(&mut self, id: Digest32) -> (r: bool)
        ensures
            r == !old(self)@.contains(id),
            final(self)@ == old(self)@.insert(id),
    {
        proof {
            use_type_invariant(&*self);
        }
        let ghost before = self.consumed_contexts@;
        let at = position_in(&self.consumed_contexts, &id);
        if at < self.consumed_contexts.len() && same_digest(&self.consumed_contexts[at], &id) {
            proof {
                assert(before.contains(before[at as int]));
                assert(self@ =~= old(self)@.insert(id));
            }
            return false;
        }
        let mut consumed: Vec<Digest32> = Vec::new();
        std::mem::swap(&mut consumed, &mut self.consumed_contexts);
        consumed.insert(at, id);
        proof {
            let after = consumed@;
            assert forall|i: int, j: int| 0 <= i < j < after.len() implies lex_less(
                (#[trigger] after[i])@,
                (#[trigger] after[j])@,
            ) by {
                let p = if i < at { i } else { i - 1 };
                let q = if j < at { j } else { j - 1 };
                if i != at && j != at {
                    assert(after[i] == before[p] && after[j] == before[q]);
                } else if j == at {
                    assert(after[i] == before[i]);
                } else {
                    assert(after[j] == before[q]);
                    lemma_lex_connected(id@, before[q]@);
                    if id@ == before[q]@ {
                        assert(id =~= before[q]);
                        if q > at {
                            assert(lex_less(before[at as int]@, before[q]@));
                        }
                    }
                }
            }
            if before.contains(id) {
                let k = before.index_of(id);
                lemma_lex_irreflexive(id@);
                assert(k >= at);
                if k > at {
                    assert(lex_less(before[at as int]@, before[k]@));
                }
            }
            assert forall|d: Digest32| after.contains(d) <==> before.contains(d) || d == id by {
                if before.contains(d) {
                    let k = before.index_of(d);
                    let l = if k < at { k } else { k + 1 };
                    assert(after[l] == d);
                }
                if d == id {
                    assert(after[at as int] == d);
                }
                if after.contains(d) {
                    let l = after.index_of(d);
                    let k = if l < at { l } else { l - 1 };
                    assert(l != at ==> before[k] == d);
                }
            }
            assert(after.to_set() =~= before.to_set().insert(id));
        }
        self.consumed_contexts = consumed;
        true
    }

    /// Consumes one (scope pseudonym, context) pair. A re-randomized proof of
    /// the same credential for the same context is therefore a replay.
    pub fn consume(&mut self, subject_nullifier: &[u8; 32], context: &PresentationContext) -> (r:
        Result<Digest32, DeKyxError>)
        ensures
            r == consumption(old(self)@, *subject_nullifier, *context),
            final(self)@ == (match r {
                Ok(id) => old(self)@.insert(id),
                Err(_) => old(self)@,
            }),
            final(self)@ == consumed_after(old(self)@, *subject_nullifier, *context),
    {
        let context_digest = context.digest()?;
        let mut message: Vec<u8> = Vec::new();
        append(&mut message, CONTEXT_USE_DOMAIN.as_bytes());
        append_digest(&mut message, subject_nullifier);
        append_digest(&mut message, &context_digest);
        assert(message@ =~= use_message(*subject_nullifier, context_digest));
        let id = sha256(message.as_slice());
        if !self.add(id) {
            assert(old(self)@.insert(id) =~= old(self)@);
            return Err(DeKyxError::ReplayedContext);
        }
        Ok(id)
    }
}

/// What consuming a context gives.
pub open spec fn consumption(
    consumed: Set<Digest32>,
    subject_nullifier: [u8; 32],
    context: PresentationContext,
) -> Result<Digest32, DeKyxError> {
    match context.identity() {
        Err(e) => Err(e),
        Ok(context_digest) => {
            let id = context_use(subject_nullifier, context_digest);
            if consumed.contains(id) {
                Err(DeKyxError::ReplayedContext)
            } else {
                Ok(id)
            }
        },
    }
}

/// What a ledger holds after it was asked to consume a context.
pub open spec fn consumed_after(
    consumed: Set<Digest32>,
    subject_nullifier: [u8; 32],
    context: PresentationContext,
) -> Set<Digest32> {
    match consumption(consumed, subject_nullifier, context) {
        Ok(id) => consumed.insert(id),
        Err(_) => consumed,
    }
}

/// A context is consumed at most once: after a pseudonym has consumed it, and whatever else
/// was consumed since, consuming it again is a replay.
pub proof fn law_context_consumed_once(
    consumed: Set<Digest32>,
    since: Set<Digest32>,
    subject_nullifier: [u8; 32],
    context: PresentationContext,
)
    requires
        consumption(consumed, subject_nullifier, context) is Ok,
    ensures
        consumption(
            consumed.insert(consumption(consumed, subject_nullifier, context)->Ok_0).union(since),
            subject_nullifier,
            context,
        ) == Err::<Digest32, DeKyxError>(DeKyxError::ReplayedContext),
{
}

/// A pseudonym and a context that it asks to consume.
pub struct ContextUse {
    pub subject_nullifier: [u8; 32],
    pub context: PresentationContext,
}

impl ContextUse {
    /// The messages that are hashed in consuming the context.
    pub open spec fn messages(self) -> Set<Seq<u8>> {
        set![
            self.context.message(),
            use_message(self.subject_nullifier, sha256_digest(self.context.message())),
        ]
    }

    /// The digest that stands for the use.
    pub open spec fn id(self) -> Digest32 {
        context_use(self.subject_nullifier, sha256_digest(self.context.message()))
    }

    /// What consuming the context gives.
    pub open spec fn consumption(self, consumed: Set<Digest32>) -> Result<Digest32, DeKyxError> {
        consumption(consumed, self.subject_nullifier, self.context)
    }
}

/// What a ledger holds that was empty at first and was then asked to consume one use after the
/// other, whether it did or refused.
pub open spec fn consumed_by(history: Seq<ContextUse>) -> Set<Digest32>
    decreases history.len(),
{
    if history.len() == 0 {
        Set::empty()
    } else {
        let before = consumed_by(history.drop_last());
        match history.last().consumption(before) {
            Ok(id) => before.insert(id),
            Err(_) => before,
        }
    }
}

/// The messages that are hashed in consuming uses.
pub open spec fn use_messages(history: Seq<ContextUse>) -> Set<Seq<u8>> {
    Set::new(
        |message: Seq<u8>|
            exists|i: int|
                0 <= i < history.len() && (#[trigger] history[i]).messages().contains(message),
    )
}

/// What was asked for at `i` has the digest `id`, and its context is complete.
spec fn asked_at(history: Seq<ContextUse>, i: int, id: Digest32) -> bool {
    0 <= i < history.len() && history[i].context.complete() && history[i].id() == id
}

/// A ledger holds just the uses of complete contexts that it was asked to consume.
proof fn lemma_consumed_by(history: Seq<ContextUse>, id: Digest32)
    ensures
        consumed_by(history).finite(),
        consumed_by(history).contains(id) <==> exists|i: int| asked_at(history, i, id),
    decreases history.len(),
{
    if history.len() > 0 {
        let rest = history.drop_last();
        lemma_consumed_by(rest, id);
        if consumed_by(rest).contains(id) {
            let i = choose|i: int| asked_at(rest, i, id);
            assert(asked_at(history, i, id));
        }
        if exists|i: int| asked_at(history, i, id) {
            let i = choose|i: int| asked_at(history, i, id);
            if i < rest.len() {
                assert(asked_at(rest, i, id));
            }
        }
        if history.last().context.complete() && history.last().id() == id {
            assert(asked_at(history, history.len() - 1, id));
        }
    }
}

/// A ledger decides by what it was asked before, and by nothing else: an incomplete context is
/// refused as such; a pair of a pseudonym and a context that it was asked to consume before is
/// a replay; and every other pair is accepted, as long as SHA-256 tells the messages that are
/// hashed in consuming the pairs apart. A pair that is accepted adds one use to the ledger, one
/// that is refused adds none, and every use that was consumed stays consumed.
pub proof fn law_ledger_follows_its_history(history: Seq<ContextUse>, next: ContextUse)
    ensures
        consumed_by(history).finite(),
        consumed_by(history).subset_of(consumed_by(history.push(next))),
        !next.context.complete() ==> {
            &&& next.consumption(consumed_by(history)) == Err::<Digest32, DeKyxError>(
                DeKyxError::InvalidPresentationContext,
            )
            &&& consumed_by(history.push(next)) == consumed_by(history)
        },
        next.context.complete() && history.contains(next) ==> {
            &&& next.consumption(consumed_by(history)) == Err::<Digest32, DeKyxError>(
                DeKyxError::ReplayedContext,
            )
            &&& consumed_by(history.push(next)) == consumed_by(history)
        },
        next.context.complete() && !history.contains(next) && told_apart(
            use_messages(history.push(next)),
        ) ==> {
            &&& next.consumption(consumed_by(history)) == Ok::<Digest32, DeKyxError>(next.id())
            &&& consumed_by(history.push(next)) == consumed_by(history).insert(next.id())
            &&& consumed_by(history.push(next)).len() == consumed_by(history).len() + 1
        },
{
    let all = history.push(next);
    assert(all.drop_last() =~= history);
    lemma_consumed_by(history, next.id());
    if next.context.complete() && history.contains(next) {
        let i = history.index_of(next);
        assert(asked_at(history, i, next.id()));
    }
    if next.context.complete() && !history.contains(next) && told_apart(use_messages(all))
        && consumed_by(history).contains(next.id()) {
        let i = choose|i: int| asked_at(history, i, next.id());
        law_same_use_same_pair(all, i, history.len() as int);
        assert(history[i] == next);
    }
}

/// Uses with one digest are of one pair, where SHA-256 tells the messages that are hashed in
/// consuming them apart.
pub proof fn law_same_use_same_pair(history: Seq<ContextUse>, i: int, j: int)
    requires
        0 <= i < history.len(),
        0 <= j < history.len(),
        history[i].id() == history[j].id(),
        told_apart(use_messages(history)),
    ensures
        history[i] == history[j],
{
    let (a, b) = (history[i], history[j]);
    let (x, y) = (sha256_digest(a.context.message()), sha256_digest(b.context.message()));
    let messages = use_messages(history);
    assert(a.messages().contains(use_message(a.subject_nullifier, x)));
    assert(b.messages().contains(use_message(b.subject_nullifier, y)));
    assert(a.messages().contains(a.context.message()));
    assert(b.messages().contains(b.context.message()));
    assert(messages.contains(use_message(a.subject_nullifier, x)));
    assert(messages.contains(use_message(b.subject_nullifier, y)));
    law_context_use_binds(a.subject_nullifier, x, b.subject_nullifier, y);
    assert(messages.contains(a.context.message()) && messages.contains(b.context.message()));
    law_context_binds(a.context, b.context);
}

/// A re-randomized presentation is a replay: presentations under one subject secret in one
/// scope have one pseudonym, so after one of them consumed a context, no other can.
pub proof fn law_rerandomized_presentation_is_replay(
    consumed: Set<Digest32>,
    first: PresentationModel,
    second: PresentationModel,
    context: PresentationContext,
    secret: nat,
)
    requires
        encodes(first.nullifier, pseudonym(context.scope_digest, secret)),
        encodes(second.nullifier, pseudonym(context.scope_digest, secret)),
        consumption(consumed, first.nullifier, context) is Ok,
    ensures
        consumption(
            consumed.insert(consumption(consumed, first.nullifier, context)->Ok_0),
            second.nullifier,
            context,
        ) == Err::<Digest32, DeKyxError>(DeKyxError::ReplayedContext),
{
}

/// What consuming a context gives: a context without a digest is refused as such; the use is the
/// digest of the pseudonym and of that of the context; and it is consumed just where it was not
/// before.
pub proof fn law_consumption_in_full(
    consumed: Set<Digest32>,
    subject_nullifier: [u8; 32],
    context: PresentationContext,
)
    ensures
        ({
            let result = consumption(consumed, subject_nullifier, context);
            let id = sha256_digest(
                encode_utf8("DEKYX:CONTEXT-USE:v1"@) + subject_nullifier@
                    + context.identity()->Ok_0@,
            );
            &&& context.identity() is Err ==> result == context.identity()
            &&& context.identity() is Ok && !consumed.contains(id) ==> result == Ok::<
                Digest32,
                DeKyxError,
            >(id)
            &&& context.identity() is Ok && consumed.contains(id) ==> result == Err::<
                Digest32,
                DeKyxError,
            >(DeKyxError::ReplayedContext)
        }),
{
}

/// Asking a second time is a replay and changes nothing, and no asking makes a ledger forget.
pub proof fn law_second_use_is_a_replay(
    consumed: Set<Digest32>,
    subject_nullifier: [u8; 32],
    context: PresentationContext,
)
    ensures
        ({
            let after = consumed_after(consumed, subject_nullifier, context);
            &&& consumed.subset_of(after)
            &&& consumption(consumed, subject_nullifier, context) is Err ==> after == consumed
            &&& consumption(consumed, subject_nullifier, context) matches Ok(id) ==> {
                &&& !consumed.contains(id)
                &&& after.contains(id)
                &&& after.remove(id) == consumed
            }
            &&& context.identity() is Ok ==> consumption(after, subject_nullifier, context)
                == Err::<Digest32, DeKyxError>(DeKyxError::ReplayedContext)
            &&& consumed_after(after, subject_nullifier, context) == after
        }),
{
    let after = consumed_after(consumed, subject_nullifier, context);
    if let Ok(id) = consumption(consumed, subject_nullifier, context) {
        assert(after.remove(id) =~= consumed);
    }
}

} // verus!
