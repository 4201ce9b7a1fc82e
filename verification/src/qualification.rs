//! Qualifications, the commitment to a set of them, and proofs that one belongs to it.
//!
//! A set of qualifications is put in canonical order and committed to by the root of a
//! binary hash tree over the leaf digests. A level of odd width repeats its last node.
use vstd::prelude::*;
use vstd::relations::{sorted_by, total_ordering};
use vstd::utf8::encode_utf8;

use crate::bytes::{
    append, append_digest, append_u32, be_bytes, bytes_less, lex_less, same_digest, Digest32, ZERO,
};
use crate::error::DeKyxError;
use crate::hash::{sha256, sha256_digest};

verus! {

/// Domain of leaf digests.
pub const QUALIFICATION_LEAF_DOMAIN: &'static str = "DEKYX:QUALIFICATION-LEAF:v1";

/// Domain of inner nodes.
pub const QUALIFICATION_NODE_DOMAIN: &'static str = "DEKYX:QUALIFICATION-NODE:v1";

/// The longest namespace, in UTF-8 bytes.
pub const MAX_NAMESPACE_BYTES: usize = 128;

/// The largest set of qualifications.
pub const MAX_QUALIFICATIONS: usize = 256;

/// One attribute that an issuer vouches for.
#[derive(Debug, PartialEq, Eq, PartialOrd, Ord)]
pub struct Qualification {
    /// Human-readable namespace such as `jp.kyb` or `market.qomm`.
    pub namespace: String,
    /// Digest of the exact predicate, schema, and accepted value.
    pub predicate_digest: Digest32,
}

/// The contents of a qualification.
pub struct QualificationModel {
    pub namespace: Seq<char>,
    pub predicate_digest: Digest32,
}

impl View for Qualification {
    type V = QualificationModel;

    open spec fn view(&self) -> QualificationModel {
        QualificationModel {
            namespace: self.namespace@,
            predicate_digest: self.predicate_digest,
        }
    }
}

impl Clone for Qualification {
    fn clone(&self) -> (r: Self)
        ensures
            r == *self,
    {
        Qualification {
            namespace: self.namespace.clone(),
            predicate_digest: self.predicate_digest,
        }
    }
}

/// The contents of a list of qualifications.
pub open spec fn models(qualifications: Seq<Qualification>) -> Seq<QualificationModel> {
    qualifications.map_values(|q: Qualification| q@)
}

/// The Unicode control characters.
pub open spec fn is_control(c: char) -> bool {
    c as u32 <= 0x1f || 0x7f <= c as u32 <= 0x9f
}

impl QualificationModel {
    /// The namespace is neither empty nor too long nor holds a control character, and the
    /// predicate digest is not zero.
    pub open spec fn valid(self) -> bool {
        &&& self.namespace.len() > 0
        &&& encode_utf8(self.namespace).len() <= MAX_NAMESPACE_BYTES
        &&& forall|i: int| 0 <= i < self.namespace.len() ==> !is_control(#[trigger] self.namespace[i])
        &&& self.predicate_digest != ZERO
    }

    /// The bytes that the leaf digest covers.
    pub open spec fn leaf_message(self) -> Seq<u8> {
        encode_utf8(QUALIFICATION_LEAF_DOMAIN@) + be_bytes(
            encode_utf8(self.namespace).len(),
            4,
        ) + encode_utf8(self.namespace) + self.predicate_digest@
    }

    /// The leaf digest.
    pub open spec fn leaf(self) -> Digest32 {
        sha256_digest(self.leaf_message())
    }

    /// The order of qualifications: by the bytes of the namespace, then by the digest.
    pub open spec fn before(self, other: Self) -> bool {
        ||| lex_less(encode_utf8(self.namespace), encode_utf8(other.namespace))
        ||| self.namespace == other.namespace && lex_less(
            self.predicate_digest@,
            other.predicate_digest@,
        )
    }
}

/// The order of qualifications as a relation.
pub open spec fn qualification_order() -> spec_fn(QualificationModel, QualificationModel) -> bool {
    |a: QualificationModel, b: QualificationModel| a == b || a.before(b)
}

proof fn lemma_utf8_injective(a: Seq<char>, b: Seq<char>)
    requires
        encode_utf8(a) == encode_utf8(b),
    ensures
        a == b,
{
    vstd::utf8::encode_utf8_decode_utf8(a);
    vstd::utf8::encode_utf8_decode_utf8(b);
}

proof fn lemma_before_irreflexive(a: QualificationModel)
    ensures
        !a.before(a),
{
    crate::bytes::lemma_lex_irreflexive(encode_utf8(a.namespace));
    crate::bytes::lemma_lex_irreflexive(a.predicate_digest@);
}

proof fn lemma_before_transitive(
    a: QualificationModel,
    b: QualificationModel,
    c: QualificationModel,
)
    requires
        a.before(b),
        b.before(c),
    ensures
        a.before(c),
{
    let (x, y, z) = (encode_utf8(a.namespace), encode_utf8(b.namespace), encode_utf8(c.namespace));
    if lex_less(x, y) && lex_less(y, z) {
        crate::bytes::lemma_lex_transitive(x, y, z);
    }
    if a.namespace == b.namespace && b.namespace == c.namespace && !lex_less(x, z) {
        crate::bytes::lemma_lex_transitive(
            a.predicate_digest@,
            b.predicate_digest@,
            c.predicate_digest@,
        );
    }
}

/// Qualifications are totally ordered.
pub proof fn lemma_qualification_order_total()
    ensures
        total_ordering(qualification_order()),
{
    let r = qualification_order();
    assert forall|a: QualificationModel, b: QualificationModel|
        #[trigger] r(a, b) && #[trigger] r(b, a) implies a == b by {
        if a != b {
            lemma_before_transitive(a, b, a);
            lemma_before_irreflexive(a);
        }
    }
    assert forall|a: QualificationModel, b: QualificationModel, c: QualificationModel|
        #[trigger] r(a, b) && #[trigger] r(b, c) implies r(a, c) by {
        if a != b && b != c {
            lemma_before_transitive(a, b, c);
        }
    }
    assert forall|a: QualificationModel, b: QualificationModel|
        #[trigger] r(a, b) || #[trigger] r(b, a) by {
        crate::bytes::lemma_lex_connected(encode_utf8(a.namespace), encode_utf8(b.namespace));
        crate::bytes::lemma_lex_connected(a.predicate_digest@, b.predicate_digest@);
        if encode_utf8(a.namespace) == encode_utf8(b.namespace) {
            lemma_utf8_injective(a.namespace, b.namespace);
        }
        if a.predicate_digest@ == b.predicate_digest@ {
            assert(a.predicate_digest =~= b.predicate_digest);
        }
    }
}

impl Qualification {
    /// Checks the namespace and the predicate digest.
    pub fn validate(&self) -> (r: Result<(), DeKyxError>)
        ensures
            r == (if self@.valid() {
                Ok(())
            } else {
                Err(DeKyxError::InvalidQualification)
            }),
    {
        if self.namespace.as_str().is_empty() || self.namespace.as_str().as_bytes().len()
            > MAX_NAMESPACE_BYTES || has_control(self.namespace.as_str()) || same_digest(
            &self.predicate_digest,
            &ZERO,
        ) {
            return Err(DeKyxError::InvalidQualification);
        }
        Ok(())
    }

    /// The digest that stands for this qualification in the hash tree.
    pub fn leaf_digest(&self) -> (r: Result<Digest32, DeKyxError>)
        ensures
            r == (if self@.valid() {
                Ok(self@.leaf())
            } else {
                Err(DeKyxError::InvalidQualification)
            }),
    {
        self.validate()?;
        let namespace = self.namespace.as_str().as_bytes();
        let mut message: Vec<u8> = Vec::new();
        append(&mut message, QUALIFICATION_LEAF_DOMAIN.as_bytes());
        append_u32(&mut message, namespace.len() as u32);
        append(&mut message, namespace);
        append_digest(&mut message, &self.predicate_digest);
        assert(message@ =~= self@.leaf_message());
        Ok(sha256(message.as_slice()))
    }

    /// Whether two qualifications have the same contents.
    pub fn same(&self, other: &Qualification) -> (r: bool)
        ensures
            r == (self@ == other@),
    {
        same_digest(&self.predicate_digest, &other.predicate_digest) && self.namespace
            == other.namespace
    }

    /// Whether this qualification comes strictly before `other`.
    pub fn is_before(&self, other: &Qualification) -> (r: bool)
        ensures
            r == self@.before(other@),
    {
        let mine = self.namespace.as_str().as_bytes();
        let theirs = other.namespace.as_str().as_bytes();
        bytes_less(mine, theirs) || (self.namespace == other.namespace && bytes_less(
            self.predicate_digest.as_slice(),
            other.predicate_digest.as_slice(),
        ))
    }
}

/// Whether a string holds a control character.
fn has_control(text: &str) -> (r: bool)
    ensures
        r == (exists|i: int| 0 <= i < text@.len() && is_control(#[trigger] text@[i])),
{
    for c in iter: text.chars()
        invariant
            iter.seq() == text@,
            forall|i: int| 0 <= i < iter.index() ==> !is_control(#[trigger] text@[i]),
    {
        let code: u32 = c as u32;
        if code <= 0x1f || (0x7f <= code && code <= 0x9f) {
            assert(is_control(text@[iter.index()]));
            return true;
        }
    }
    false
}

// ---------------------------------------------------------------------------
// Canonical sets
// ---------------------------------------------------------------------------
/// A list of qualifications can be issued: it is neither empty nor too long, every member is
/// valid, and none occurs twice.
pub open spec fn admissible(qualifications: Seq<QualificationModel>) -> bool {
    &&& 0 < qualifications.len() <= MAX_QUALIFICATIONS
    &&& forall|i: int| 0 <= i < qualifications.len() ==> (#[trigger] qualifications[i]).valid()
    &&& qualifications.no_duplicates()
}

/// The canonical order of a list of qualifications.
pub open spec fn canonical_order(qualifications: Seq<QualificationModel>) -> Seq<
    QualificationModel,
> {
    qualifications.sort_by(qualification_order())
}

/// Every member comes strictly before the ones after it.
pub open spec fn strictly_ordered(qualifications: Seq<QualificationModel>) -> bool {
    forall|i: int, j: int|
        0 <= i < j < qualifications.len() ==> (#[trigger] qualifications[i]).before(
            #[trigger] qualifications[j],
        )
}

/// What putting a list in order keeps.
pub proof fn lemma_canonical_order(qualifications: Seq<QualificationModel>)
    ensures
        sorted_by(canonical_order(qualifications), qualification_order()),
        canonical_order(qualifications).len() == qualifications.len(),
        canonical_order(qualifications).to_multiset() == qualifications.to_multiset(),
        forall|q: QualificationModel|
            canonical_order(qualifications).contains(q) <==> qualifications.contains(q),
        canonical_order(qualifications).no_duplicates() <==> qualifications.no_duplicates(),
        admissible(canonical_order(qualifications)) <==> admissible(qualifications),
{
    broadcast use vstd::seq_lib::group_to_multiset_ensures;
    broadcast use vstd::multiset::group_multiset_axioms;

    let order = qualification_order();
    let sorted = canonical_order(qualifications);
    lemma_qualification_order_total();
    qualifications.lemma_sort_by_ensures(order);
    assert(sorted.to_multiset() == qualifications.to_multiset());
    assert(sorted.len() == sorted.to_multiset().len());
    assert(qualifications.len() == qualifications.to_multiset().len());
    assert forall|q: QualificationModel| sorted.contains(q) <==> qualifications.contains(q) by {
        assert(sorted.contains(q) <==> sorted.to_multiset().count(q) > 0);
        assert(qualifications.contains(q) <==> qualifications.to_multiset().count(q) > 0);
    }
    if sorted.no_duplicates() {
        sorted.lemma_multiset_has_no_duplicates();
        qualifications.lemma_multiset_has_no_duplicates_conv();
    }
    if qualifications.no_duplicates() {
        qualifications.lemma_multiset_has_no_duplicates();
        sorted.lemma_multiset_has_no_duplicates_conv();
    }
    if admissible(sorted) {
        assert forall|i: int| 0 <= i < qualifications.len() implies (
            #[trigger] qualifications[i]).valid() by {
            assert(qualifications.contains(qualifications[i]));
            assert(sorted.contains(qualifications[i]));
        }
    }
    if admissible(qualifications) {
        assert forall|i: int| 0 <= i < sorted.len() implies (#[trigger] sorted[i]).valid() by {
            assert(sorted.contains(sorted[i]));
            assert(qualifications.contains(sorted[i]));
        }
    }
}

/// An ordered list is strictly ordered exactly when nothing occurs twice.
pub proof fn lemma_strictly_ordered(qualifications: Seq<QualificationModel>)
    requires
        sorted_by(qualifications, qualification_order()),
    ensures
        strictly_ordered(qualifications) <==> qualifications.no_duplicates(),
{
    let order = qualification_order();
    if qualifications.no_duplicates() {
        assert forall|i: int, j: int| 0 <= i < j < qualifications.len() implies (
        #[trigger] qualifications[i]).before(#[trigger] qualifications[j]) by {
            assert(order(qualifications[i], qualifications[j]));
        }
    }
    if strictly_ordered(qualifications) {
        assert forall|i: int, j: int|
            0 <= i < qualifications.len() && 0 <= j < qualifications.len() && i
                != j implies qualifications[i] != qualifications[j] by {
            lemma_before_irreflexive(qualifications[i]);
            if i < j {
                assert(qualifications[i].before(qualifications[j]));
            } else {
                assert(qualifications[j].before(qualifications[i]));
            }
        }
    }
}

/// A list that is already in canonical order stays as it is.
pub proof fn lemma_canonical_order_idempotent(qualifications: Seq<QualificationModel>)
    requires
        sorted_by(qualifications, qualification_order()),
    ensures
        canonical_order(qualifications) == qualifications,
{
    lemma_qualification_order_total();
    lemma_canonical_order(qualifications);
    vstd::seq_lib::lemma_sorted_unique(
        canonical_order(qualifications),
        qualifications,
        qualification_order(),
    );
}

/// A copy of a list of qualifications.
pub(crate) fn copy_qualifications(qualifications: &[Qualification]) -> (r: Vec<Qualification>)
    ensures
        r@ == qualifications@,
{
    let mut out: Vec<Qualification> = Vec::new();
    let mut i: usize = 0;
    while i < qualifications.len()
        invariant
            i <= qualifications.len(),
            out@ == qualifications@.take(i as int),
        decreases qualifications.len() - i,
    {
        out.push(qualifications[i].clone());
        assert(qualifications@.take(i + 1) =~= qualifications@.take(i as int).push(
            qualifications@[i as int],
        ));
        i += 1;
    }
    assert(qualifications@.take(i as int) =~= qualifications@);
    out
}

/// Puts one more qualification at its place in an ordered list.
fn insert_qualification(list: &mut Vec<Qualification>, item: Qualification)
    requires
        sorted_by(models(old(list)@), qualification_order()),
    ensures
        sorted_by(models(final(list)@), qualification_order()),
        models(final(list)@).to_multiset() == models(old(list)@).to_multiset().insert(item@),
{
    let ghost order = qualification_order();
    let ghost before = models(list@);
    let mut at: usize = 0;
    while at < list.len() && !item.is_before(&list[at])
        invariant
            at <= list.len(),
            forall|k: int| 0 <= k < at ==> !item@.before(#[trigger] list@[k]@),
        ensures
            at <= list.len(),
            forall|k: int| 0 <= k < at ==> !item@.before(#[trigger] list@[k]@),
            at < list.len() ==> item@.before(list@[at as int]@),
        decreases list.len() - at,
    {
        at += 1;
    }
    proof {
        lemma_qualification_order_total();
        let after = before.insert(at as int, item@);
        assert(models(list@.insert(at as int, item)) =~= after);
        vstd::seq_lib::to_multiset_insert(before, at as int, item@);
        assert forall|i: int, j: int| 0 <= i < j < after.len() implies #[trigger] order(
            after[i],
            after[j],
        ) by {
            let x = if i < at {
                before[i]
            } else if i == at {
                item@
            } else {
                before[i - 1]
            };
            let y = if j < at {
                before[j]
            } else if j == at {
                item@
            } else {
                before[j - 1]
            };
            assert(after[i] == x && after[j] == y);
            if j == at {
                assert(!item@.before(list@[i]@));
                assert(order(x, y) || order(y, x));
            } else if i == at {
                assert(before[at as int] == list@[at as int]@);
                assert(order(item@, before[at as int]));
                if j - 1 > at {
                    assert(order(before[at as int], before[j - 1]));
                }
            } else if i < at && j > at {
                assert(order(before[i], before[j - 1]));
            } else if i > at {
                assert(order(before[i - 1], before[j - 1]));
            } else {
                assert(order(before[i], before[j]));
            }
        }
    }
    list.insert(at, item);
}

/// The canonical form of a list of qualifications. A list that is empty, too long, holds an
/// invalid member, or holds a member twice is refused.
pub fn canonical_qualifications(qualifications: &[Qualification]) -> (r: Result<
    Vec<Qualification>,
    DeKyxError,
>)
    ensures
        r is Ok <==> admissible(models(qualifications@)),
        r matches Ok(list) ==> models(list@) == canonical_order(models(qualifications@)),
        r matches Err(e) ==> e == DeKyxError::InvalidQualification,
{
    if qualifications.is_empty() || qualifications.len() > MAX_QUALIFICATIONS {
        return Err(DeKyxError::InvalidQualification);
    }
    let ghost given = models(qualifications@);
    let mut i: usize = 0;
    while i < qualifications.len()
        invariant
            i <= qualifications.len(),
            given == models(qualifications@),
            forall|k: int| 0 <= k < i ==> (#[trigger] given[k]).valid(),
        decreases qualifications.len() - i,
    {
        if qualifications[i].validate().is_err() {
            assert(!given[i as int].valid());
            return Err(DeKyxError::InvalidQualification);
        }
        i += 1;
    }
    let mut canonical: Vec<Qualification> = Vec::new();
    let mut n: usize = 0;
    assert(models(canonical@) =~= given.take(0));
    while n < qualifications.len()
        invariant
            n <= qualifications.len(),
            given == models(qualifications@),
            sorted_by(models(canonical@), qualification_order()),
            models(canonical@).to_multiset() == given.take(n as int).to_multiset(),
        decreases qualifications.len() - n,
    {
        insert_qualification(&mut canonical, qualifications[n].clone());
        proof {
            assert(given.take(n + 1) =~= given.take(n as int).push(given[n as int]));
            vstd::seq_lib::to_multiset_build(given.take(n as int), given[n as int]);
        }
        n += 1;
    }
    proof {
        assert(given.take(n as int) =~= given);
        lemma_qualification_order_total();
        lemma_canonical_order(given);
        vstd::seq_lib::lemma_sorted_unique(
            models(canonical@),
            canonical_order(given),
            qualification_order(),
        );
        lemma_strictly_ordered(models(canonical@));
    }
    let mut m: usize = 1;
    while m < canonical.len()
        invariant
            1 <= m,
            m <= canonical.len() || canonical.len() == 0,
            given == models(qualifications@),
            strictly_ordered(models(canonical@)) <==> given.no_duplicates(),
            forall|k: int|
                0 <= k && k + 1 < m ==> (#[trigger] models(canonical@)[k]).before(
                    models(canonical@)[k + 1],
                ),
        decreases canonical.len() - m,
    {
        if !canonical[m - 1].is_before(&canonical[m]) {
            assert(!models(canonical@)[m - 1].before(models(canonical@)[m as int]));
            return Err(DeKyxError::InvalidQualification);
        }
        m += 1;
    }
    proof {
        lemma_adjacent_ordered(models(canonical@));
    }
    Ok(canonical)
}

proof fn lemma_adjacent_ordered(qualifications: Seq<QualificationModel>)
    requires
        forall|i: int|
            0 <= i && i + 1 < qualifications.len() ==> (#[trigger] qualifications[i]).before(
                qualifications[i + 1],
            ),
    ensures
        strictly_ordered(qualifications),
{
    assert forall|i: int, j: int| 0 <= i < j < qualifications.len() implies (
    #[trigger] qualifications[i]).before(#[trigger] qualifications[j]) by {
        lemma_ordered_step(qualifications, i, j);
    }
}

proof fn lemma_ordered_step(qualifications: Seq<QualificationModel>, i: int, j: int)
    requires
        0 <= i < j < qualifications.len(),
        forall|k: int|
            0 <= k && k + 1 < qualifications.len() ==> (#[trigger] qualifications[k]).before(
                qualifications[k + 1],
            ),
    ensures
        qualifications[i].before(qualifications[j]),
    decreases j - i,
{
    if i + 1 < j {
        lemma_ordered_step(qualifications, i, j - 1);
        assert(qualifications[j - 1].before(qualifications[j - 1 + 1]));
        lemma_before_transitive(qualifications[i], qualifications[j - 1], qualifications[j]);
    }
}

/// Whether two lists hold the same qualifications in the same order.
pub(crate) fn same_qualifications(a: &Vec<Qualification>, b: &Vec<Qualification>) -> (r: bool)
    ensures
        r == (models(a@) == models(b@)),
{
    if a.len() != b.len() {
        assert(models(a@).len() != models(b@).len());
        return false;
    }
    let mut i: usize = 0;
    while i < a.len()
        invariant
            i <= a.len(),
            a.len() == b.len(),
            forall|k: int| 0 <= k < i ==> models(a@)[k] == models(b@)[k],
        decreases a.len() - i,
    {
        if !a[i].same(&b[i]) {
            assert(models(a@)[i as int] != models(b@)[i as int]);
            return false;
        }
        i += 1;
    }
    assert(models(a@) =~= models(b@));
    true
}

/// What makes a qualification valid: a namespace that is not empty, takes at most 128 bytes and
/// holds no control character, and a predicate.
pub proof fn law_valid_qualification(q: QualificationModel)
    ensures
        q.valid() <==> {
            &&& q.namespace.len() > 0
            &&& encode_utf8(q.namespace).len() <= 128
            &&& forall|i: int|
                0 <= i < q.namespace.len() ==> 0x20 <= (#[trigger] q.namespace[i]) as u32 && !(0x7f
                    <= q.namespace[i] as u32 && q.namespace[i] as u32 <= 0x9f)
            &&& q.predicate_digest != ZERO
        },
{
    if q.valid() {
        assert forall|i: int| 0 <= i < q.namespace.len() implies 0x20 <= (
        #[trigger] q.namespace[i]) as u32 && !(0x7f <= q.namespace[i] as u32 && q.namespace[i]
            as u32 <= 0x9f) by {
            assert(!is_control(q.namespace[i]));
        }
    }
    if forall|i: int|
        0 <= i < q.namespace.len() ==> 0x20 <= (#[trigger] q.namespace[i]) as u32 && !(0x7f
            <= q.namespace[i] as u32 && q.namespace[i] as u32 <= 0x9f) {
        assert forall|i: int| 0 <= i < q.namespace.len() implies !is_control(
            #[trigger] q.namespace[i],
        ) by {}
    }
}

/// A leaf is hashed from the length of the namespace, the namespace and the predicate.
pub proof fn law_leaf_covers_qualification(q: QualificationModel)
    ensures
        q.leaf() == sha256_digest(
            encode_utf8("DEKYX:QUALIFICATION-LEAF:v1"@) + be_bytes(
                encode_utf8(q.namespace).len(),
                4,
            ) + encode_utf8(q.namespace) + q.predicate_digest@,
        ),
{
}

/// Qualifications are ordered by the bytes of their namespaces, and within a namespace by their
/// predicates.
pub proof fn law_order_of_qualifications(a: QualificationModel, b: QualificationModel)
    ensures
        a.namespace == b.namespace ==> (a.before(b) <==> lex_less(
            a.predicate_digest@,
            b.predicate_digest@,
        )),
        a.namespace != b.namespace ==> (a.before(b) <==> lex_less(
            encode_utf8(a.namespace),
            encode_utf8(b.namespace),
        )),
{
    if a.namespace == b.namespace {
        crate::bytes::lemma_lex_irreflexive(encode_utf8(a.namespace));
    }
}

/// A set of qualifications can be issued just where it has between one and 256 members, all
/// valid, and none twice; its canonical order has the same members, each before the next.
pub proof fn law_canonical_set(qualifications: Seq<QualificationModel>)
    ensures
        admissible(qualifications) <==> {
            &&& 1 <= qualifications.len() <= 256
            &&& forall|i: int|
                0 <= i < qualifications.len() ==> (#[trigger] qualifications[i]).valid()
            &&& forall|i: int, j: int|
                0 <= i < j < qualifications.len() ==> (#[trigger] qualifications[i]) != (
                #[trigger] qualifications[j])
        },
        canonical_order(qualifications).to_multiset() == qualifications.to_multiset(),
        canonical_order(qualifications).len() == qualifications.len(),
        admissible(qualifications) ==> forall|i: int, j: int|
            0 <= i < j < qualifications.len() ==> (
            #[trigger] canonical_order(qualifications)[i]).before(
                #[trigger] canonical_order(qualifications)[j],
            ),
{
    lemma_canonical_order(qualifications);
    lemma_strictly_ordered(canonical_order(qualifications));
    if forall|i: int, j: int|
        0 <= i < j < qualifications.len() ==> (#[trigger] qualifications[i]) != (
        #[trigger] qualifications[j]) {
        assert forall|i: int, j: int|
            0 <= i < qualifications.len() && 0 <= j < qualifications.len() && i
                != j implies qualifications[i] != qualifications[j] by {
            if i < j {
                assert(qualifications[i] != qualifications[j]);
            } else {
                assert(qualifications[j] != qualifications[i]);
            }
        }
        assert(qualifications.no_duplicates());
    }
}

/// Contents hold what is contained: a list has as many contents as members, in their order, and
/// the contents of a qualification are its namespace and its predicate.
pub proof fn law_qualification_contents(qualifications: Seq<Qualification>, i: int)
    requires
        0 <= i < qualifications.len(),
    ensures
        models(qualifications).len() == qualifications.len(),
        models(qualifications)[i].namespace == qualifications[i].namespace@,
        models(qualifications)[i].predicate_digest == qualifications[i].predicate_digest,
{
}

} // verus!
