//! What a membership proof is worth: as long as SHA-256 tells the messages involved apart, a
//! proof that checks against a commitment shows a member of the committed set.
use vstd::prelude::*;
use vstd::utf8::encode_utf8;

use crate::bytes::Digest32;
use crate::error::DeKyxError;
use crate::hash::sha256_digest;
use crate::qualification::{
    canonical_order, lemma_canonical_order, QualificationModel,
    QUALIFICATION_LEAF_DOMAIN, QUALIFICATION_NODE_DOMAIN,
};
use crate::tree::{
    climb, law_leaf_message_injective, leaves, node_message, node_or_last, parents, root_of,
    tree_node, tree_root, QualificationProofModel,
};

verus! {

/// SHA-256 gives different digests for different members of `messages`.
pub open spec fn told_apart(messages: Set<Seq<u8>>) -> bool {
    forall|a: Seq<u8>, b: Seq<u8>|
        #![trigger messages.contains(a), messages.contains(b)]
        messages.contains(a) && messages.contains(b) && sha256_digest(a) == sha256_digest(b) ==> a
            == b
}

/// The message of the parent of the nodes at `2 * i` and after it.
pub open spec fn parent_message(level: Seq<Digest32>, i: int) -> Seq<u8> {
    node_message(level[2 * i], node_or_last(level, 2 * i + 1))
}

/// The messages that are hashed on the way from a level to its root.
pub open spec fn tree_messages(level: Seq<Digest32>) -> Set<Seq<u8>>
    decreases level.len(),
{
    if level.len() <= 1 {
        Set::empty()
    } else {
        Set::new(
            |m: Seq<u8>|
                exists|i: int| 0 <= i < parents(level).len() && m == #[trigger] parent_message(level, i),
        ).union(tree_messages(parents(level)))
    }
}

/// The messages that are hashed in committing to a set of qualifications.
pub open spec fn committed_messages(qualifications: Seq<QualificationModel>) -> Set<Seq<u8>> {
    Set::new(
        |m: Seq<u8>|
            exists|q: QualificationModel| #[trigger]
                qualifications.contains(q) && m == q.leaf_message(),
    ).union(tree_messages(leaves(canonical_order(qualifications))))
}

/// The messages that are hashed in climbing from a node.
pub open spec fn climb_messages(
    node: Digest32,
    position: nat,
    siblings: Seq<Digest32>,
) -> Set<Seq<u8>>
    decreases siblings.len(),
{
    if siblings.len() == 0 {
        Set::empty()
    } else if position % 2 == 0 {
        climb_messages(tree_node(node, siblings[0]), position / 2, siblings.drop_first()).insert(
            node_message(node, siblings[0]),
        )
    } else {
        climb_messages(tree_node(siblings[0], node), position / 2, siblings.drop_first()).insert(
            node_message(siblings[0], node),
        )
    }
}

/// The messages that are hashed in checking a membership proof.
pub open spec fn checked_messages(p: QualificationProofModel) -> Set<Seq<u8>> {
    climb_messages(p.qualification.leaf(), p.index as nat, p.siblings).insert(
        p.qualification.leaf_message(),
    )
}

/// Leaves and inner nodes are never hashed from the same bytes.
pub proof fn law_leaf_is_no_node(q: QualificationModel, left: Digest32, right: Digest32)
    ensures
        q.leaf_message() != node_message(left, right),
{
    reveal_strlit("DEKYX:QUALIFICATION-LEAF:v1");
    reveal_strlit("DEKYX:QUALIFICATION-NODE:v1");
    let (a, b) = (QUALIFICATION_LEAF_DOMAIN@, QUALIFICATION_NODE_DOMAIN@);
    assert(vstd::utf8::is_ascii_chars(a));
    assert(vstd::utf8::is_ascii_chars(b));
    vstd::utf8::is_ascii_chars_encode_utf8(a);
    vstd::utf8::is_ascii_chars_encode_utf8(b);
    assert(a[20] == 'L' && b[20] == 'N');
    assert(encode_utf8(a)[20] == 'L' as u8);
    assert(encode_utf8(b)[20] == 'N' as u8);
    assert(q.leaf_message()[20] == encode_utf8(a)[20]);
    assert(node_message(left, right)[20] == encode_utf8(b)[20]);
}

/// The bytes that an inner node is hashed from determine its children.
pub proof fn law_node_message_injective(
    left: Digest32,
    right: Digest32,
    other_left: Digest32,
    other_right: Digest32,
)
    requires
        node_message(left, right) == node_message(other_left, other_right),
    ensures
        left == other_left,
        right == other_right,
{
    let d = encode_utf8(QUALIFICATION_NODE_DOMAIN@).len() as int;
    let (x, y) = (node_message(left, right), node_message(other_left, other_right));
    assert(left@ =~= x.subrange(d, d + 32));
    assert(other_left@ =~= y.subrange(d, d + 32));
    assert(right@ =~= x.subrange(d + 32, d + 64));
    assert(other_right@ =~= y.subrange(d + 32, d + 64));
    assert(left =~= other_left);
    assert(right =~= other_right);
}

/// A leaf whose message is among `messages`.
spec fn is_leaf(d: Digest32, messages: Set<Seq<u8>>) -> bool {
    exists|q: QualificationModel|
        d == #[trigger] q.leaf() && messages.contains(q.leaf_message())
}

/// A node with these children whose message is among `messages`.
spec fn is_node(d: Digest32, left: Digest32, right: Digest32, messages: Set<Seq<u8>>) -> bool {
    d == tree_node(left, right) && messages.contains(node_message(left, right))
}

/// Every way down from `d` meets a leaf after `height` steps.
spec fn all_at(d: Digest32, height: nat, messages: Set<Seq<u8>>) -> bool
    decreases height,
{
    if height == 0 {
        is_leaf(d, messages)
    } else {
        exists|l: Digest32, r: Digest32| #[trigger]
            is_node(d, l, r, messages) && all_at(l, (height - 1) as nat, messages) && all_at(
                r,
                (height - 1) as nat,
                messages,
            )
    }
}

/// Some way down from `d` meets a leaf after `height` steps.
spec fn some_at(d: Digest32, height: nat, messages: Set<Seq<u8>>) -> bool
    decreases height,
{
    if height == 0 {
        is_leaf(d, messages)
    } else {
        exists|l: Digest32, r: Digest32| #[trigger]
            is_node(d, l, r, messages) && (some_at(l, (height - 1) as nat, messages) || some_at(
                r,
                (height - 1) as nat,
                messages,
            ))
    }
}

/// How many levels lie above a level.
spec fn levels_above(level: Seq<Digest32>) -> nat
    decreases level.len(),
{
    if level.len() <= 1 {
        0
    } else {
        1 + levels_above(parents(level))
    }
}

proof fn lemma_root_height(level: Seq<Digest32>, height: nat, messages: Set<Seq<u8>>)
    requires
        level.len() > 0,
        forall|i: int| 0 <= i < level.len() ==> all_at(#[trigger] level[i], height, messages),
        tree_messages(level).subset_of(messages),
    ensures
        all_at(tree_root(level), height + levels_above(level), messages),
    decreases level.len(),
{
    if level.len() > 1 {
        let above = parents(level);
        assert forall|i: int| 0 <= i < above.len() implies all_at(
            #[trigger] above[i],
            height + 1,
            messages,
        ) by {
            let l = level[2 * i];
            let r = node_or_last(level, 2 * i + 1);
            assert(tree_messages(level).contains(parent_message(level, i)));
            assert(is_node(above[i], l, r, messages));
            assert(all_at(l, height, messages));
            assert(all_at(r, height, messages)) by {
                if 2 * i + 1 < level.len() {
                    assert(all_at(level[2 * i + 1], height, messages));
                } else {
                    assert(all_at(level[level.len() - 1], height, messages));
                }
            }
        }
        assert(tree_messages(above).subset_of(messages)) by {
            assert forall|m: Seq<u8>| tree_messages(above).contains(m) implies messages.contains(
                m,
            ) by {
                assert(tree_messages(level).contains(m));
            }
        }
        lemma_root_height(above, height + 1, messages);
    } else {
        assert(all_at(level[0], height, messages));
    }
}

proof fn lemma_climb_height(
    node: Digest32,
    position: nat,
    width: nat,
    siblings: Seq<Digest32>,
    height: nat,
    root: Digest32,
    messages: Set<Seq<u8>>,
)
    requires
        some_at(node, height, messages),
        climb(node, position, width, siblings) == Some(root),
        climb_messages(node, position, siblings).subset_of(messages),
    ensures
        some_at(root, height + siblings.len(), messages),
    decreases siblings.len(),
{
    if siblings.len() > 0 {
        let (l, r) = if position % 2 == 0 {
            (node, siblings[0])
        } else {
            (siblings[0], node)
        };
        let above = tree_node(l, r);
        let rest = climb_messages(above, position / 2, siblings.drop_first());
        assert(climb_messages(node, position, siblings) == rest.insert(node_message(l, r)));
        assert(messages.contains(node_message(l, r))) by {
            assert(climb_messages(node, position, siblings).contains(node_message(l, r)));
        }
        assert(is_node(above, l, r, messages));
        assert(rest.subset_of(messages)) by {
            assert forall|m: Seq<u8>| rest.contains(m) implies messages.contains(m) by {
                assert(climb_messages(node, position, siblings).contains(m));
            }
        }
        lemma_climb_height(
            above,
            position / 2,
            (width + 1) / 2,
            siblings.drop_first(),
            height + 1,
            root,
            messages,
        );
    }
}

proof fn lemma_heights_agree(d: Digest32, a: nat, b: nat, messages: Set<Seq<u8>>)
    requires
        all_at(d, a, messages),
        some_at(d, b, messages),
        told_apart(messages),
    ensures
        a == b,
    decreases a,
{
    if a == 0 && b > 0 {
        let q = choose|q: QualificationModel|
            d == #[trigger] q.leaf() && messages.contains(q.leaf_message());
        let (l, r) = choose|l: Digest32, r: Digest32| #[trigger]
            is_node(d, l, r, messages) && (some_at(l, (b - 1) as nat, messages) || some_at(
                r,
                (b - 1) as nat,
                messages,
            ));
        law_leaf_is_no_node(q, l, r);
    } else if a > 0 && b == 0 {
        let q = choose|q: QualificationModel|
            d == #[trigger] q.leaf() && messages.contains(q.leaf_message());
        let (l, r) = choose|l: Digest32, r: Digest32| #[trigger]
            is_node(d, l, r, messages) && all_at(l, (a - 1) as nat, messages) && all_at(
                r,
                (a - 1) as nat,
                messages,
            );
        law_leaf_is_no_node(q, l, r);
    } else if a > 0 && b > 0 {
        let (l, r) = choose|l: Digest32, r: Digest32| #[trigger]
            is_node(d, l, r, messages) && all_at(l, (a - 1) as nat, messages) && all_at(
                r,
                (a - 1) as nat,
                messages,
            );
        let (x, y) = choose|x: Digest32, y: Digest32| #[trigger]
            is_node(d, x, y, messages) && (some_at(x, (b - 1) as nat, messages) || some_at(
                y,
                (b - 1) as nat,
                messages,
            ));
        law_node_message_injective(l, r, x, y);
        if some_at(x, (b - 1) as nat, messages) {
            lemma_heights_agree(l, (a - 1) as nat, (b - 1) as nat, messages);
        } else {
            lemma_heights_agree(r, (a - 1) as nat, (b - 1) as nat, messages);
        }
    }
}

proof fn lemma_climb_stays_in_tree(
    level: Seq<Digest32>,
    node: Digest32,
    position: nat,
    width: nat,
    siblings: Seq<Digest32>,
    messages: Set<Seq<u8>>,
)
    requires
        level.len() > 0,
        siblings.len() == levels_above(level),
        climb(node, position, width, siblings) == Some(tree_root(level)),
        tree_messages(level).subset_of(messages),
        climb_messages(node, position, siblings).subset_of(messages),
        told_apart(messages),
    ensures
        level.contains(node),
    decreases siblings.len(),
{
    if siblings.len() == 0 {
        assert(level[0] == node);
    } else {
        let above_level = parents(level);
        let (l, r) = if position % 2 == 0 {
            (node, siblings[0])
        } else {
            (siblings[0], node)
        };
        let above = tree_node(l, r);
        let rest = climb_messages(above, position / 2, siblings.drop_first());
        assert(climb_messages(node, position, siblings) == rest.insert(node_message(l, r)));
        assert(messages.contains(node_message(l, r))) by {
            assert(climb_messages(node, position, siblings).contains(node_message(l, r)));
        }
        assert(rest.subset_of(messages)) by {
            assert forall|m: Seq<u8>| rest.contains(m) implies messages.contains(m) by {
                assert(climb_messages(node, position, siblings).contains(m));
            }
        }
        assert(tree_messages(above_level).subset_of(messages)) by {
            assert forall|m: Seq<u8>| tree_messages(above_level).contains(
                m,
            ) implies messages.contains(m) by {
                assert(tree_messages(level).contains(m));
            }
        }
        lemma_climb_stays_in_tree(
            above_level,
            above,
            position / 2,
            (width + 1) / 2,
            siblings.drop_first(),
            messages,
        );
        let i = above_level.index_of(above);
        assert(above_level[i] == above);
        assert(tree_messages(level).contains(parent_message(level, i)));
        assert(messages.contains(parent_message(level, i)));
        assert(sha256_digest(parent_message(level, i)) == sha256_digest(node_message(l, r)));
        law_node_message_injective(level[2 * i], node_or_last(level, 2 * i + 1), l, r);
        assert(level.contains(level[2 * i]));
        if 2 * i + 1 < level.len() {
            assert(level.contains(level[2 * i + 1]));
        } else {
            assert(level.contains(level[level.len() - 1]));
        }
    }
}

/// A membership proof that checks against the commitment to a set shows a member of the set,
/// whatever place and size it claims, as long as SHA-256 tells the messages that are hashed in
/// committing and in checking apart.
pub proof fn law_membership_proof_sound(
    qualifications: Seq<QualificationModel>,
    p: QualificationProofModel,
    root: Digest32,
)
    requires
        root_of(qualifications) == Ok::<Digest32, DeKyxError>(root),
        p.check(root) == Ok::<(), DeKyxError>(()),
        told_apart(committed_messages(qualifications).union(checked_messages(p))),
    ensures
        qualifications.contains(p.qualification),
{
    let messages = committed_messages(qualifications).union(checked_messages(p));
    let canonical = canonical_order(qualifications);
    let level = leaves(canonical);
    lemma_canonical_order(qualifications);
    assert(tree_messages(level).subset_of(messages));
    assert(climb_messages(p.qualification.leaf(), p.index as nat, p.siblings).subset_of(messages));
    assert(checked_messages(p).contains(p.qualification.leaf_message()));
    assert forall|i: int| 0 <= i < level.len() implies all_at(#[trigger] level[i], 0, messages) by {
        let q = canonical[i];
        assert(canonical.contains(q));
        assert(qualifications.contains(q));
        assert(committed_messages(qualifications).contains(q.leaf_message()));
        assert(level[i] == q.leaf());
    }
    assert(is_leaf(p.qualification.leaf(), messages));
    lemma_root_height(level, 0, messages);
    lemma_climb_height(
        p.qualification.leaf(),
        p.index as nat,
        p.total as nat,
        p.siblings,
        0,
        root,
        messages,
    );
    lemma_heights_agree(root, levels_above(level), p.siblings.len(), messages);
    lemma_climb_stays_in_tree(
        level,
        p.qualification.leaf(),
        p.index as nat,
        p.total as nat,
        p.siblings,
        messages,
    );
    let i = level.index_of(p.qualification.leaf());
    assert(level[i] == p.qualification.leaf());
    let q = canonical[i];
    assert(canonical.contains(q));
    assert(qualifications.contains(q));
    assert(committed_messages(qualifications).contains(q.leaf_message()));
    assert(canonical[i].valid());
    assert(messages.contains(q.leaf_message()));
    assert(messages.contains(p.qualification.leaf_message()));
    assert(sha256_digest(q.leaf_message()) == sha256_digest(p.qualification.leaf_message()));
    law_leaf_message_injective(p.qualification, q);
}

} // verus!
