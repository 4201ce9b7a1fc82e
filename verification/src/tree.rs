//! The hash tree over a set of qualifications: its root, membership proofs, and the laws
//! that tie them together.
use vstd::arithmetic::power2::pow2;
use vstd::prelude::*;
use vstd::utf8::encode_utf8;

use crate::bytes::{append, append_digest, same_digest, Digest32};
use crate::error::DeKyxError;
use crate::hash::{sha256, sha256_digest};
use crate::qualification::{
    admissible, canonical_order, canonical_qualifications, lemma_canonical_order, models,
    Qualification, QualificationModel, QUALIFICATION_LEAF_DOMAIN, QUALIFICATION_NODE_DOMAIN,
};

verus! {

/// The longest membership proof that is looked at.
pub const MAX_SIBLINGS: usize = 32;

/// The bytes that the digest of an inner node covers.
pub open spec fn node_message(left: Digest32, right: Digest32) -> Seq<u8> {
    encode_utf8(QUALIFICATION_NODE_DOMAIN@) + left@ + right@
}

/// The digest of an inner node.
pub open spec fn tree_node(left: Digest32, right: Digest32) -> Digest32 {
    sha256_digest(node_message(left, right))
}

/// The leaf digests of a list of qualifications.
pub open spec fn leaves(qualifications: Seq<QualificationModel>) -> Seq<Digest32> {
    qualifications.map_values(|q: QualificationModel| q.leaf())
}

/// The node of `level` at `i`, or the last one where the level ends before it.
pub open spec fn node_or_last(level: Seq<Digest32>, i: int) -> Digest32 {
    if i < level.len() {
        level[i]
    } else {
        level.last()
    }
}

/// The level above `level`: neighbours are joined, and a last node without a neighbour is
/// joined with itself.
pub open spec fn parents(level: Seq<Digest32>) -> Seq<Digest32> {
    Seq::new(
        ((level.len() + 1) / 2) as nat,
        |i: int| tree_node(level[2 * i], node_or_last(level, 2 * i + 1)),
    )
}

/// The root above a non-empty level.
pub open spec fn tree_root(level: Seq<Digest32>) -> Digest32
    decreases level.len(),
{
    if level.len() <= 1 {
        level[0]
    } else {
        tree_root(parents(level))
    }
}

/// The neighbour that the node at `position` is joined with.
pub open spec fn sibling(level: Seq<Digest32>, position: int) -> Digest32 {
    if position % 2 == 0 {
        node_or_last(level, position + 1)
    } else {
        level[position - 1]
    }
}

/// The neighbours on the way from the node at `position` to the root.
pub open spec fn siblings_to_root(level: Seq<Digest32>, position: int) -> Seq<Digest32>
    decreases level.len(),
{
    if level.len() <= 1 {
        Seq::empty()
    } else {
        seq![sibling(level, position)] + siblings_to_root(parents(level), position / 2)
    }
}

/// The root that `siblings` lead to from `node` at `position` of a level of `width` nodes.
/// There is none where the siblings end before the root, or where the last node of an odd
/// level is joined with anything but itself.
pub open spec fn climb(
    node: Digest32,
    position: nat,
    width: nat,
    siblings: Seq<Digest32>,
) -> Option<Digest32>
    decreases siblings.len(),
{
    if siblings.len() == 0 {
        if width == 1 {
            Some(node)
        } else {
            None
        }
    } else if position + 1 == width && width % 2 == 1 && siblings[0] != node {
        None
    } else {
        let above = if position % 2 == 0 {
            tree_node(node, siblings[0])
        } else {
            tree_node(siblings[0], node)
        };
        climb(above, position / 2, (width + 1) / 2, siblings.drop_first())
    }
}

/// The commitment to a list of qualifications, or why it is refused.
pub open spec fn root_of(qualifications: Seq<QualificationModel>) -> Result<Digest32, DeKyxError> {
    if admissible(qualifications) {
        Ok(tree_root(leaves(canonical_order(qualifications))))
    } else {
        Err(DeKyxError::InvalidQualification)
    }
}

/// A proof that one qualification belongs to a committed set.
#[derive(Debug, PartialEq, Eq)]
pub struct QualificationProof {
    /// The qualification that is shown.
    pub qualification: Qualification,
    /// Its place in the canonical order.
    pub index: u32,
    /// The size of the set.
    pub total: u32,
    /// The neighbours on the way to the root.
    pub siblings: Vec<Digest32>,
}

/// The contents of a membership proof.
pub struct QualificationProofModel {
    pub qualification: QualificationModel,
    pub index: u32,
    pub total: u32,
    pub siblings: Seq<Digest32>,
}

impl View for QualificationProof {
    type V = QualificationProofModel;

    open spec fn view(&self) -> QualificationProofModel {
        QualificationProofModel {
            qualification: self.qualification@,
            index: self.index,
            total: self.total,
            siblings: self.siblings@,
        }
    }
}

/// The contents of a list of membership proofs.
pub open spec fn proof_models(proofs: Seq<QualificationProof>) -> Seq<QualificationProofModel> {
    proofs.map_values(|p: QualificationProof| p@)
}

/// A copy of a list of digests.
pub(crate) fn copy_digests(digests: &Vec<Digest32>) -> (r: Vec<Digest32>)
    ensures
        r@ == digests@,
{
    let mut out: Vec<Digest32> = Vec::new();
    let mut i: usize = 0;
    while i < digests.len()
        invariant
            i <= digests.len(),
            out@ == digests@.take(i as int),
        decreases digests.len() - i,
    {
        out.push(digests[i]);
        assert(digests@.take(i + 1) =~= digests@.take(i as int).push(digests@[i as int]));
        i += 1;
    }
    assert(digests@.take(i as int) =~= digests@);
    out
}

impl Clone for QualificationProof {
    fn clone(&self) -> (r: Self)
        ensures
            r@ == self@,
    {
        QualificationProof {
            qualification: self.qualification.clone(),
            index: self.index,
            total: self.total,
            siblings: copy_digests(&self.siblings),
        }
    }
}

impl QualificationProofModel {
    /// What checking this proof against a root gives.
    pub open spec fn check(self, root: Digest32) -> Result<(), DeKyxError> {
        if self.total == 0 || self.index >= self.total || self.siblings.len() > MAX_SIBLINGS {
            Err(DeKyxError::InvalidQualificationProof)
        } else if !self.qualification.valid() {
            Err(DeKyxError::InvalidQualification)
        } else if climb(
            self.qualification.leaf(),
            self.index as nat,
            self.total as nat,
            self.siblings,
        ) == Some(root) {
            Ok(())
        } else {
            Err(DeKyxError::InvalidQualificationProof)
        }
    }
}

impl QualificationProof {
    /// Checks that the qualification belongs to the set committed to by `expected_root`.
    pub fn verify(&self, expected_root: &Digest32) -> (r: Result<(), DeKyxError>)
        ensures
            r == self@.check(*expected_root),
    {
        if self.total == 0 || self.index >= self.total || self.siblings.len() > MAX_SIBLINGS {
            return Err(DeKyxError::InvalidQualificationProof);
        }
        let mut node = self.qualification.leaf_digest()?;
        let mut position: u32 = self.index;
        let mut width: u32 = self.total;
        let ghost goal = climb(node, position as nat, width as nat, self.siblings@);
        let mut i: usize = 0;
        assert(self.siblings@.skip(0) =~= self.siblings@);
        while i < self.siblings.len()
            invariant
                i <= self.siblings.len(),
                self.total != 0,
                self.index < self.total,
                self.siblings.len() <= MAX_SIBLINGS,
                self@.qualification.valid(),
                position < width,
                goal == climb(
                    self@.qualification.leaf(),
                    self.index as nat,
                    self.total as nat,
                    self.siblings@,
                ),
                goal == climb(node, position as nat, width as nat, self.siblings@.skip(i as int)),
            decreases self.siblings.len() - i,
        {
            let ghost rest = self.siblings@.skip(i as int);
            assert(rest[0] == self.siblings@[i as int]);
            assert(rest.drop_first() =~= self.siblings@.skip(i + 1));
            let neighbour = self.siblings[i];
            if position == width - 1 && width % 2 == 1 && !same_digest(&neighbour, &node) {
                return Err(DeKyxError::InvalidQualificationProof);
            }
            node = if position % 2 == 0 {
                qualification_node(&node, &neighbour)
            } else {
                qualification_node(&neighbour, &node)
            };
            assert((width + 1) / 2 == width / 2 + width % 2);
            position = position / 2;
            width = width / 2 + width % 2;
            i += 1;
        }
        if width != 1 || !same_digest(&node, expected_root) {
            return Err(DeKyxError::InvalidQualificationProof);
        }
        Ok(())
    }
}

/// The digest of an inner node.
fn qualification_node(left: &Digest32, right: &Digest32) -> (r: Digest32)
    ensures
        r == tree_node(*left, *right),
{
    let mut message: Vec<u8> = Vec::new();
    append(&mut message, QUALIFICATION_NODE_DOMAIN.as_bytes());
    append_digest(&mut message, left);
    append_digest(&mut message, right);
    assert(message@ =~= node_message(*left, *right));
    sha256(message.as_slice())
}

/// The leaf digests of valid qualifications.
fn leaf_level(qualifications: &Vec<Qualification>) -> (level: Vec<Digest32>)
    requires
        forall|i: int|
            0 <= i < qualifications.len() ==> (#[trigger] models(qualifications@)[i]).valid(),
    ensures
        level@ == leaves(models(qualifications@)),
{
    let mut level: Vec<Digest32> = Vec::new();
    let mut i: usize = 0;
    while i < qualifications.len()
        invariant
            i <= qualifications.len(),
            level@ == leaves(models(qualifications@)).take(i as int),
            forall|k: int|
                0 <= k < qualifications.len() ==> (#[trigger] models(qualifications@)[k]).valid(),
        decreases qualifications.len() - i,
    {
        assert(models(qualifications@)[i as int].valid());
        if let Ok(leaf) = qualifications[i].leaf_digest() {
            level.push(leaf);
        }
        assert(leaves(models(qualifications@)).take(i + 1) =~= leaves(
            models(qualifications@),
        ).take(i as int).push(qualifications@[i as int]@.leaf()));
        i += 1;
    }
    assert(leaves(models(qualifications@)).take(i as int) =~= leaves(models(qualifications@)));
    level
}

/// The level above a non-empty level.
fn parent_level(level: &Vec<Digest32>) -> (above: Vec<Digest32>)
    requires
        level.len() > 0,
    ensures
        above@ == parents(level@),
{
    let mut above: Vec<Digest32> = Vec::new();
    let mut i: usize = 0;
    let half = level.len() / 2 + level.len() % 2;
    while i < half
        invariant
            i <= half,
            half == (level.len() + 1) / 2,
            level.len() > 0,
            above@ == parents(level@).take(i as int),
        decreases half - i,
    {
        let left = level[2 * i];
        let right = if level.len() - 2 * i > 1 {
            level[2 * i + 1]
        } else {
            left
        };
        above.push(qualification_node(&left, &right));
        assert(parents(level@).take(i + 1) =~= parents(level@).take(i as int).push(
            parents(level@)[i as int],
        ));
        i += 1;
    }
    assert(parents(level@).take(i as int) =~= parents(level@));
    above
}

/// The commitment to a set of qualifications.
pub fn qualification_root(qualifications: &[Qualification]) -> (r: Result<Digest32, DeKyxError>)
    ensures
        r == root_of(models(qualifications@)),
{
    let canonical = canonical_qualifications(qualifications)?;
    proof {
        lemma_canonical_order(models(qualifications@));
    }
    let mut level = leaf_level(&canonical);
    let ghost root = tree_root(level@);
    while level.len() > 1
        invariant
            level.len() > 0,
            tree_root(level@) == root,
        decreases level.len(),
    {
        level = parent_level(&level);
    }
    Ok(level[0])
}

/// What the membership proof of `target` is, or why there is none.
pub open spec fn proof_of(
    qualifications: Seq<QualificationModel>,
    target: QualificationModel,
) -> Result<QualificationProofModel, DeKyxError> {
    if !admissible(qualifications) {
        Err(DeKyxError::InvalidQualification)
    } else if !qualifications.contains(target) {
        Err(DeKyxError::MissingQualification)
    } else {
        let canonical = canonical_order(qualifications);
        let index = canonical.index_of(target);
        Ok(
            QualificationProofModel {
                qualification: target,
                index: index as u32,
                total: canonical.len() as u32,
                siblings: siblings_to_root(leaves(canonical), index),
            },
        )
    }
}

/// A result, its proof taken by its contents.
pub open spec fn proof_result(r: Result<QualificationProof, DeKyxError>) -> Result<
    QualificationProofModel,
    DeKyxError,
> {
    match r {
        Ok(p) => Ok(p@),
        Err(e) => Err(e),
    }
}

/// The membership proof of `target` in a set of qualifications.
pub fn qualification_proof(qualifications: &[Qualification], target: &Qualification) -> (r: Result<
    QualificationProof,
    DeKyxError,
>)
    ensures
        proof_result(r) == proof_of(models(qualifications@), target@),
{
    let canonical = canonical_qualifications(qualifications)?;
    let ghost given = models(qualifications@);
    let ghost order = models(canonical@);
    proof {
        lemma_canonical_order(given);
    }
    let mut index: usize = 0;
    while index < canonical.len() && !canonical[index].same(target)
        invariant
            index <= canonical.len(),
            order == models(canonical@),
            forall|k: int| 0 <= k < index ==> order[k] != target@,
        ensures
            index <= canonical.len(),
            forall|k: int| 0 <= k < index ==> order[k] != target@,
            index < canonical.len() ==> order[index as int] == target@,
        decreases canonical.len() - index,
    {
        index += 1;
    }
    if index == canonical.len() {
        assert(!order.contains(target@));
        return Err(DeKyxError::MissingQualification);
    }
    assert(order.contains(target@));
    assert(order.index_of(target@) == index);
    let mut level = leaf_level(&canonical);
    let mut position: usize = index;
    let mut siblings: Vec<Digest32> = Vec::new();
    let ghost path = siblings_to_root(level@, index as int);
    assert(siblings@ + siblings_to_root(level@, index as int) =~= path);
    while level.len() > 1
        invariant
            level.len() > 0,
            position < level.len(),
            siblings@ + siblings_to_root(level@, position as int) == path,
        decreases level.len(),
    {
        let neighbour = if position % 2 == 1 {
            level[position - 1]
        } else if level.len() - position > 1 {
            level[position + 1]
        } else {
            level[position]
        };
        assert(neighbour == sibling(level@, position as int));
        let ghost rest = siblings_to_root(parents(level@), position as int / 2);
        assert(siblings@ + (seq![neighbour] + rest) =~= siblings@.push(neighbour) + rest);
        siblings.push(neighbour);
        level = parent_level(&level);
        position = position / 2;
    }
    assert(siblings@ =~= path);
    Ok(
        QualificationProof {
            qualification: target.clone(),
            index: index as u32,
            total: canonical.len() as u32,
            siblings,
        },
    )
}

// ---------------------------------------------------------------------------
// Laws
// ---------------------------------------------------------------------------
proof fn lemma_climb_reaches_root(level: Seq<Digest32>, position: int)
    requires
        0 <= position < level.len(),
    ensures
        climb(
            level[position],
            position as nat,
            level.len(),
            siblings_to_root(level, position),
        ) == Some(tree_root(level)),
    decreases level.len(),
{
    if level.len() > 1 {
        let path = siblings_to_root(level, position);
        let rest = siblings_to_root(parents(level), position / 2);
        assert(path[0] == sibling(level, position));
        assert(path.drop_first() =~= rest);
        lemma_climb_reaches_root(parents(level), position / 2);
        if position % 2 == 0 {
            assert(2 * (position / 2) == position);
        } else {
            assert(2 * (position / 2) + 1 == position);
        }
    }
}

proof fn lemma_path_short(level: Seq<Digest32>, position: int, height: nat)
    requires
        0 < level.len() <= pow2(height),
    ensures
        siblings_to_root(level, position).len() <= height,
    decreases height,
{
    if level.len() > 1 {
        if height == 0 {
            vstd::arithmetic::power2::lemma2_to64();
        } else {
            vstd::arithmetic::power2::lemma_pow2_unfold(height);
            lemma_path_short(parents(level), position / 2, (height - 1) as nat);
        }
    }
}

/// Every proof that is made for a member of a set verifies against the commitment to the set.
pub proof fn law_qualification_proof_verifies(
    qualifications: Seq<QualificationModel>,
    target: QualificationModel,
)
    requires
        admissible(qualifications),
        qualifications.contains(target),
    ensures
        proof_of(qualifications, target) matches Ok(p) && root_of(qualifications) matches Ok(root)
            && p.check(root) == Ok::<(), DeKyxError>(()),
{
    let canonical = canonical_order(qualifications);
    lemma_canonical_order(qualifications);
    assert(canonical.contains(target));
    let index = canonical.index_of(target);
    assert(0 <= index < canonical.len() && canonical[index] == target);
    let level = leaves(canonical);
    assert(level[index] == target.leaf());
    lemma_climb_reaches_root(level, index);
    vstd::arithmetic::power2::lemma2_to64();
    lemma_path_short(level, index, 8);
    assert(canonical[index].valid());
}

/// The bytes that a leaf digest covers determine the qualification.
pub proof fn law_leaf_message_injective(a: QualificationModel, b: QualificationModel)
    requires
        a.valid(),
        b.valid(),
        a.leaf_message() == b.leaf_message(),
    ensures
        a == b,
{
    let domain = encode_utf8(QUALIFICATION_LEAF_DOMAIN@);
    let d = domain.len() as int;
    let (m, n) = (encode_utf8(a.namespace), encode_utf8(b.namespace));
    crate::bytes::lemma_be_bytes_len(m.len(), 4);
    crate::bytes::lemma_be_bytes_len(n.len(), 4);
    let (x, y) = (a.leaf_message(), b.leaf_message());
    assert(x.len() == d + 4 + m.len() + 32);
    assert(y.len() == d + 4 + n.len() + 32);
    assert(m =~= x.subrange(d + 4, d + 4 + m.len()));
    assert(n =~= y.subrange(d + 4, d + 4 + n.len()));
    vstd::utf8::encode_utf8_decode_utf8(a.namespace);
    vstd::utf8::encode_utf8_decode_utf8(b.namespace);
    assert(a.predicate_digest@ =~= x.subrange(d + 4 + m.len(), d + 4 + m.len() + 32));
    assert(b.predicate_digest@ =~= y.subrange(d + 4 + n.len(), d + 4 + n.len() + 32));
    assert(a.predicate_digest =~= b.predicate_digest);
}

/// The commitment does not depend on the order in which the qualifications are listed.
pub proof fn law_root_ignores_order(a: Seq<QualificationModel>, b: Seq<QualificationModel>)
    requires
        a.to_multiset() == b.to_multiset(),
    ensures
        root_of(a) == root_of(b),
{
    lemma_canonical_order(a);
    lemma_canonical_order(b);
    crate::qualification::lemma_qualification_order_total();
    vstd::seq_lib::lemma_sorted_unique(
        canonical_order(a),
        canonical_order(b),
        crate::qualification::qualification_order(),
    );
}

/// What a membership proof has to satisfy. `nodes`, `positions` and `widths` are the way up: it
/// starts at the leaf, at the place and in the width that the proof claims; a node at an even
/// place is joined with its sibling on the right, one at an odd place with its sibling on the
/// left; and places and widths are halved, widths upwards. The proof checks just where it is of
/// an allowed shape, the qualification is valid, the last node of an odd width is its own
/// sibling, and the way ends at the root, alone in its width.
pub proof fn law_membership_proof_climbs_to_root(
    p: QualificationProofModel,
    root: Digest32,
    nodes: Seq<Digest32>,
    positions: Seq<nat>,
    widths: Seq<nat>,
)
    requires
        nodes.len() == p.siblings.len() + 1,
        positions.len() == nodes.len(),
        widths.len() == nodes.len(),
        nodes[0] == p.qualification.leaf(),
        positions[0] == p.index,
        widths[0] == p.total,
        forall|i: int|
            #![trigger p.siblings[i]]
            0 <= i < p.siblings.len() ==> {
                &&& positions[i + 1] == positions[i] / 2
                &&& widths[i + 1] == (widths[i] + 1) / 2
                &&& positions[i] % 2 == 0 ==> nodes[i + 1] == sha256_digest(
                    encode_utf8("DEKYX:QUALIFICATION-NODE:v1"@) + nodes[i]@ + p.siblings[i]@,
                )
                &&& positions[i] % 2 == 1 ==> nodes[i + 1] == sha256_digest(
                    encode_utf8("DEKYX:QUALIFICATION-NODE:v1"@) + p.siblings[i]@ + nodes[i]@,
                )
            },
    ensures
        ({
            let shaped = 0 < p.total && p.index < p.total && p.siblings.len() <= 32;
            let valid = p.qualification.valid();
            let climbs = {
                &&& widths.last() == 1
                &&& nodes.last() == root
                &&& forall|i: int|
                    #![trigger p.siblings[i]]
                    0 <= i < p.siblings.len() && positions[i] + 1 == widths[i] && widths[i] % 2
                        == 1 ==> p.siblings[i] == nodes[i]
            };
            &&& p.check(root) is Ok <==> shaped && valid && climbs
            &&& !shaped ==> p.check(root) == Err::<(), DeKyxError>(
                DeKyxError::InvalidQualificationProof,
            )
            &&& shaped && !valid ==> p.check(root) == Err::<(), DeKyxError>(
                DeKyxError::InvalidQualification,
            )
            &&& shaped && valid && !climbs ==> p.check(root) == Err::<(), DeKyxError>(
                DeKyxError::InvalidQualificationProof,
            )
        }),
{
    assert forall|i: int| 0 <= i < p.siblings.len() implies #[trigger] steps_up(
        p.siblings,
        nodes,
        positions,
        widths,
        i,
    ) by {
        assert(p.siblings[i] == p.siblings[i]);
    }
    lemma_climb_follows(p.siblings, root, nodes, positions, widths, 0);
    assert(p.siblings.skip(0) =~= p.siblings);
}

/// The way up takes one step at `i`.
spec fn steps_up(
    siblings: Seq<Digest32>,
    nodes: Seq<Digest32>,
    positions: Seq<nat>,
    widths: Seq<nat>,
    i: int,
) -> bool {
    &&& positions[i + 1] == positions[i] / 2
    &&& widths[i + 1] == (widths[i] + 1) / 2
    &&& positions[i] % 2 == 0 ==> nodes[i + 1] == tree_node(nodes[i], siblings[i])
    &&& positions[i] % 2 == 1 ==> nodes[i + 1] == tree_node(siblings[i], nodes[i])
}

proof fn lemma_climb_follows(
    siblings: Seq<Digest32>,
    root: Digest32,
    nodes: Seq<Digest32>,
    positions: Seq<nat>,
    widths: Seq<nat>,
    k: int,
)
    requires
        0 <= k <= siblings.len(),
        nodes.len() == siblings.len() + 1,
        positions.len() == nodes.len(),
        widths.len() == nodes.len(),
        forall|i: int|
            0 <= i < siblings.len() ==> #[trigger] steps_up(siblings, nodes, positions, widths, i),
    ensures
        climb(nodes[k], positions[k], widths[k], siblings.skip(k)) == Some(root) <==> {
            &&& widths.last() == 1
            &&& nodes.last() == root
            &&& forall|i: int|
                #![trigger siblings[i]]
                k <= i < siblings.len() && positions[i] + 1 == widths[i] && widths[i] % 2 == 1
                    ==> siblings[i] == nodes[i]
        },
    decreases siblings.len() - k,
{
    if k < siblings.len() {
        let rest = siblings.skip(k);
        assert(rest[0] == siblings[k]);
        assert(rest.drop_first() =~= siblings.skip(k + 1));
        lemma_climb_follows(siblings, root, nodes, positions, widths, k + 1);
        assert(steps_up(siblings, nodes, positions, widths, k));
    } else {
        assert(siblings.skip(k).len() == 0);
    }
}

/// The root of a level: of one node, that node; of more, the root of the level above, in which
/// neighbours are joined and a last node without a neighbour is joined with itself.
pub proof fn law_root_joins_neighbours(level: Seq<Digest32>, above: Seq<Digest32>)
    requires
        level.len() > 0,
        above.len() == (level.len() + 1) / 2,
        forall|i: int|
            0 <= i < above.len() ==> (#[trigger] above[i]) == sha256_digest(
                encode_utf8("DEKYX:QUALIFICATION-NODE:v1"@) + level[2 * i]@ + (if 2 * i + 1
                    < level.len() {
                    level[2 * i + 1]
                } else {
                    level[2 * i]
                })@,
            ),
    ensures
        level.len() == 1 ==> tree_root(level) == level[0],
        level.len() > 1 ==> tree_root(level) == tree_root(above),
        parents(level) == above,
{
    assert forall|i: int| 0 <= i < above.len() implies above[i] == parents(level)[i] by {
        if 2 * i + 1 >= level.len() {
            assert(level.last() == level[2 * i]);
        }
    }
    assert(parents(level) =~= above);
}

/// The commitment to a set of qualifications is the root above the leaves of its canonical order;
/// a set that cannot be issued has none.
pub proof fn law_root_is_over_canonical_leaves(
    qualifications: Seq<QualificationModel>,
    level: Seq<Digest32>,
)
    requires
        level.len() == qualifications.len(),
        forall|i: int|
            0 <= i < level.len() ==> (#[trigger] level[i]) == canonical_order(
                qualifications,
            )[i].leaf(),
    ensures
        admissible(qualifications) ==> root_of(qualifications) == Ok::<Digest32, DeKyxError>(
            tree_root(level),
        ),
        !admissible(qualifications) ==> root_of(qualifications) == Err::<Digest32, DeKyxError>(
            DeKyxError::InvalidQualification,
        ),
{
    lemma_canonical_order(qualifications);
    assert(leaves(canonical_order(qualifications)) =~= level);
}

/// A membership proof is made for every member of a set that can be issued and for nothing else:
/// it shows that member, at its place in the canonical order, in a set of this size, and its
/// siblings are the neighbours on the way up, the first of them the neighbouring leaf.
pub proof fn law_membership_proof_made_for_members(
    qualifications: Seq<QualificationModel>,
    target: QualificationModel,
)
    ensures
        ({
            let made = proof_of(qualifications, target);
            let canonical = canonical_order(qualifications);
            &&& !admissible(qualifications) ==> made == Err::<QualificationProofModel, DeKyxError>(
                DeKyxError::InvalidQualification,
            )
            &&& admissible(qualifications) && !qualifications.contains(target) ==> made == Err::<
                QualificationProofModel,
                DeKyxError,
            >(DeKyxError::MissingQualification)
            &&& admissible(qualifications) && qualifications.contains(target) ==> made is Ok
            &&& made matches Ok(p) ==> {
                &&& p.qualification == target
                &&& p.total == qualifications.len()
                &&& p.index < p.total
                &&& canonical[p.index as int] == target
                &&& p.total == 1 <==> p.siblings.len() == 0
                &&& p.total > 1 && p.index % 2 == 1 ==> p.siblings[0] == canonical[p.index
                    - 1].leaf()
                &&& p.total > 1 && p.index % 2 == 0 && p.index + 1 < p.total ==> p.siblings[0]
                    == canonical[p.index + 1].leaf()
                &&& p.total > 1 && p.index % 2 == 0 && p.index + 1 == p.total ==> p.siblings[0]
                    == target.leaf()
            }
        }),
{
    lemma_canonical_order(qualifications);
    let canonical = canonical_order(qualifications);
    if admissible(qualifications) && qualifications.contains(target) {
        assert(canonical.contains(target));
        let index = canonical.index_of(target);
        assert(0 <= index < canonical.len() && canonical[index] == target);
        assert(canonical.len() <= 256);
        let level = leaves(canonical);
        assert(level.len() == canonical.len());
        assert(forall|i: int| 0 <= i < level.len() ==> level[i] == canonical[i].leaf());
        if level.len() > 1 {
            assert(siblings_to_root(level, index)[0] == sibling(level, index));
        }
    }
}

/// The siblings of a node are its neighbour and then the siblings of the node above.
pub proof fn law_siblings_lead_upwards(level: Seq<Digest32>, position: int)
    requires
        0 <= position < level.len(),
        level.len() > 1,
    ensures
        ({
            let path = siblings_to_root(level, position);
            &&& path.len() > 0
            &&& position % 2 == 1 ==> path[0] == level[position - 1]
            &&& position % 2 == 0 && position + 1 < level.len() ==> path[0] == level[position + 1]
            &&& position % 2 == 0 && position + 1 == level.len() ==> path[0] == level[position]
            &&& path.drop_first() == siblings_to_root(parents(level), position / 2)
        }),
{
    let path = siblings_to_root(level, position);
    assert(path.drop_first() =~= siblings_to_root(parents(level), position / 2));
}

/// The contents of a membership proof are its parts.
pub proof fn law_proof_contents(proofs: Seq<QualificationProof>, i: int)
    requires
        0 <= i < proofs.len(),
    ensures
        proof_models(proofs).len() == proofs.len(),
        proof_models(proofs)[i].qualification.namespace == proofs[i].qualification.namespace@,
        proof_models(proofs)[i].qualification.predicate_digest
            == proofs[i].qualification.predicate_digest,
        proof_models(proofs)[i].index == proofs[i].index,
        proof_models(proofs)[i].total == proofs[i].total,
        proof_models(proofs)[i].siblings == proofs[i].siblings@,
{
}

} // verus!
