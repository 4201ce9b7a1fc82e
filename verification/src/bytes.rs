//! Fixed-width byte strings: equality, lexicographic order, big-endian integers,
//! and the ordered digest lists that status lists and the replay ledger keep.
use vstd::prelude::*;
use vstd::relations::{sorted_by, total_ordering};
use vstd::slice::slice_subrange;

verus! {

/// The digest of a statement.
pub type Digest32 = [u8; 32];

/// An identifier chosen by an issuer or an application.
pub type Identifier = [u8; 32];

/// The all-zero value, which no identifier and no digest may take.
pub const ZERO: [u8; 32] = [
    0, 0, 0, 0, 0, 0, 0, 0, 0, 0, 0, 0, 0, 0, 0, 0, 0, 0, 0, 0, 0, 0, 0, 0, 0, 0, 0, 0, 0, 0, 0, 0,
];

/// Compares two 32-byte values.
pub fn same_digest(a: &Digest32, b: &Digest32) -> (r: bool)
    ensures
        r == (*a == *b),
{
    let mut i: usize = 0;
    while i < 32
        invariant
            i <= 32,
            forall|j: int| 0 <= j < i ==> a[j] == b[j],
        decreases 32 - i,
    {
        if a[i] != b[i] {
            return false;
        }
        i += 1;
    }
    assert(*a =~= *b);
    true
}

/// Compares two byte strings.
pub fn same_bytes(a: &[u8], b: &[u8]) -> (r: bool)
    ensures
        r == (a@ == b@),
{
    if a.len() != b.len() {
        return false;
    }
    let mut i: usize = 0;
    while i < a.len()
        invariant
            i <= a.len(),
            a.len() == b.len(),
            forall|j: int| 0 <= j < i ==> a[j] == b[j],
        decreases a.len() - i,
    {
        if a[i] != b[i] {
            return false;
        }
        i += 1;
    }
    assert(a@ =~= b@);
    true
}

/// Appends `bytes` to `out`.
pub fn append(out: &mut Vec<u8>, bytes: &[u8])
    ensures
        final(out)@ == old(out)@ + bytes@,
{
    out.extend_from_slice(bytes);
    assert(out@ =~= old(out)@ + bytes@);
}

/// Appends a 32-byte value to `out`.
pub fn append_digest(out: &mut Vec<u8>, digest: &Digest32)
    ensures
        final(out)@ == old(out)@ + digest@,
{
    append(out, digest.as_slice());
}

/// A copy of `bytes`.
pub fn copy_bytes(bytes: &[u8]) -> (r: Vec<u8>)
    ensures
        r@ == bytes@,
{
    let mut out: Vec<u8> = Vec::new();
    append(&mut out, bytes);
    assert(out@ =~= bytes@);
    out
}

// ---------------------------------------------------------------------------
// Big-endian integers
// ---------------------------------------------------------------------------
/// The `width` low bytes of `value`, the most significant byte first.
pub open spec fn be_bytes(value: nat, width: nat) -> Seq<u8>
    decreases width,
{
    if width == 0 {
        Seq::empty()
    } else {
        be_bytes(value / 256, (width - 1) as nat).push((value % 256) as u8)
    }
}

/// `be_bytes(value, width)` holds `width` bytes.
pub proof fn lemma_be_bytes_len(value: nat, width: nat)
    ensures
        be_bytes(value, width).len() == width,
    decreases width,
{
    if width > 0 {
        lemma_be_bytes_len(value / 256, (width - 1) as nat);
    }
}

/// A fixed-width big-endian encoding determines the integer.
pub proof fn lemma_be_bytes_injective(a: nat, b: nat, width: nat)
    requires
        a < vstd::arithmetic::power::pow(256, width),
        b < vstd::arithmetic::power::pow(256, width),
        be_bytes(a, width) == be_bytes(b, width),
    ensures
        a == b,
    decreases width,
{
    reveal(vstd::arithmetic::power::pow);
    if width > 0 {
        let shorter = (width - 1) as nat;
        lemma_be_bytes_len(a / 256, shorter);
        lemma_be_bytes_len(b / 256, shorter);
        assert(be_bytes(a, width).last() == (a % 256) as u8);
        assert(be_bytes(b, width).last() == (b % 256) as u8);
        assert(be_bytes(a, width).drop_last() =~= be_bytes(a / 256, shorter));
        assert(be_bytes(b, width).drop_last() =~= be_bytes(b / 256, shorter));
        let p = vstd::arithmetic::power::pow(256, shorter);
        assert(a / 256 < p) by (nonlinear_arith)
            requires
                a < 256 * p,
        ;
        assert(b / 256 < p) by (nonlinear_arith)
            requires
                b < 256 * p,
        ;
        lemma_be_bytes_injective(a / 256, b / 256, shorter);
    }
}

/// Appends the four big-endian bytes of `value`.
pub fn append_u32(out: &mut Vec<u8>, value: u32)
    ensures
        final(out)@ == old(out)@ + be_bytes(value as nat, 4),
{
    let q1: u32 = value / 256;
    let q2: u32 = q1 / 256;
    let q3: u32 = q2 / 256;
    out.push((q3 % 256) as u8);
    out.push((q2 % 256) as u8);
    out.push((q1 % 256) as u8);
    out.push((value % 256) as u8);
    assert(be_bytes(value as nat, 4) =~= seq![
        (q3 % 256) as u8,
        (q2 % 256) as u8,
        (q1 % 256) as u8,
        (value % 256) as u8,
    ]) by {
        reveal_with_fuel(be_bytes, 5);
    }
    assert(out@ =~= old(out)@ + be_bytes(value as nat, 4));
}

/// Appends the eight big-endian bytes of `value`.
pub fn append_u64(out: &mut Vec<u8>, value: u64)
    ensures
        final(out)@ == old(out)@ + be_bytes(value as nat, 8),
{
    let q1: u64 = value / 256;
    let q2: u64 = q1 / 256;
    let q3: u64 = q2 / 256;
    let q4: u64 = q3 / 256;
    let q5: u64 = q4 / 256;
    let q6: u64 = q5 / 256;
    let q7: u64 = q6 / 256;
    out.push((q7 % 256) as u8);
    out.push((q6 % 256) as u8);
    out.push((q5 % 256) as u8);
    out.push((q4 % 256) as u8);
    out.push((q3 % 256) as u8);
    out.push((q2 % 256) as u8);
    out.push((q1 % 256) as u8);
    out.push((value % 256) as u8);
    assert(be_bytes(value as nat, 8) =~= seq![
        (q7 % 256) as u8,
        (q6 % 256) as u8,
        (q5 % 256) as u8,
        (q4 % 256) as u8,
        (q3 % 256) as u8,
        (q2 % 256) as u8,
        (q1 % 256) as u8,
        (value % 256) as u8,
    ]) by {
        reveal_with_fuel(be_bytes, 9);
    }
    assert(out@ =~= old(out)@ + be_bytes(value as nat, 8));
}

// ---------------------------------------------------------------------------
// Lexicographic order
// ---------------------------------------------------------------------------
/// `a` comes strictly before `b` in byte-wise lexicographic order.
pub open spec fn lex_less(a: Seq<u8>, b: Seq<u8>) -> bool
    decreases a.len(),
{
    if b.len() == 0 {
        false
    } else if a.len() == 0 {
        true
    } else if a[0] != b[0] {
        a[0] < b[0]
    } else {
        lex_less(a.drop_first(), b.drop_first())
    }
}

/// No byte string comes before itself.
pub proof fn lemma_lex_irreflexive(a: Seq<u8>)
    ensures
        !lex_less(a, a),
    decreases a.len(),
{
    if a.len() > 0 {
        lemma_lex_irreflexive(a.drop_first());
    }
}

/// The lexicographic order is transitive.
pub proof fn lemma_lex_transitive(a: Seq<u8>, b: Seq<u8>, c: Seq<u8>)
    requires
        lex_less(a, b),
        lex_less(b, c),
    ensures
        lex_less(a, c),
    decreases a.len(),
{
    if a.len() > 0 && a[0] == b[0] && b[0] == c[0] {
        lemma_lex_transitive(a.drop_first(), b.drop_first(), c.drop_first());
    }
}

/// Of two different byte strings one comes before the other.
pub proof fn lemma_lex_connected(a: Seq<u8>, b: Seq<u8>)
    ensures
        a == b || lex_less(a, b) || lex_less(b, a),
    decreases a.len(),
{
    if a.len() > 0 && b.len() > 0 {
        if a[0] == b[0] {
            lemma_lex_connected(a.drop_first(), b.drop_first());
            if a.drop_first() == b.drop_first() {
                assert(a =~= seq![a[0]] + a.drop_first());
                assert(b =~= seq![b[0]] + b.drop_first());
            }
        }
    } else if a.len() == 0 && b.len() == 0 {
        assert(a =~= b);
    }
}

/// Decides the lexicographic order.
pub fn bytes_less(a: &[u8], b: &[u8]) -> (r: bool)
    ensures
        r == lex_less(a@, b@),
{
    let mut i: usize = 0;
    assert(a@.skip(0) =~= a@);
    assert(b@.skip(0) =~= b@);
    while i < a.len() && i < b.len()
        invariant
            i <= a.len(),
            i <= b.len(),
            lex_less(a@, b@) == lex_less(a@.skip(i as int), b@.skip(i as int)),
        decreases a.len() - i,
    {
        if a[i] != b[i] {
            return a[i] < b[i];
        }
        assert(a@.skip(i as int).drop_first() =~= a@.skip(i + 1));
        assert(b@.skip(i as int).drop_first() =~= b@.skip(i + 1));
        i += 1;
    }
    i < b.len()
}

// ---------------------------------------------------------------------------
// Ordered digest lists
// ---------------------------------------------------------------------------
/// `a` equals `b` or comes before it.
pub open spec fn digest_leq(a: Digest32, b: Digest32) -> bool {
    a == b || lex_less(a@, b@)
}

/// The order of digests as a relation.
pub open spec fn digest_order() -> spec_fn(Digest32, Digest32) -> bool {
    |a: Digest32, b: Digest32| digest_leq(a, b)
}

/// Every digest comes strictly before the ones after it.
pub open spec fn strictly_ascending(digests: Seq<Digest32>) -> bool {
    forall|i: int, j: int|
        0 <= i < j < digests.len() ==> lex_less(#[trigger] digests[i]@, #[trigger] digests[j]@)
}

/// Digests are totally ordered.
pub proof fn lemma_digest_order_total()
    ensures
        total_ordering(digest_order()),
{
    let r = digest_order();
    assert forall|x: Digest32, y: Digest32| #[trigger] r(x, y) && #[trigger] r(y, x) implies x
        == y by {
        if x != y {
            lemma_lex_transitive(x@, y@, x@);
            lemma_lex_irreflexive(x@);
        }
    }
    assert forall|x: Digest32, y: Digest32, z: Digest32|
        #[trigger] r(x, y) && #[trigger] r(y, z) implies r(x, z) by {
        if x != y && y != z {
            lemma_lex_transitive(x@, y@, z@);
        }
    }
    assert forall|x: Digest32, y: Digest32| #[trigger] r(x, y) || #[trigger] r(y, x) by {
        lemma_lex_connected(x@, y@);
        if x@ == y@ {
            assert(x =~= y);
        }
    }
}

/// Neighbours in strict order make the whole list strictly ascending.
pub proof fn lemma_adjacent_ascending(digests: Seq<Digest32>)
    requires
        forall|i: int|
            0 <= i && i + 1 < digests.len() ==> lex_less(
                (#[trigger] digests[i])@,
                digests[i + 1]@,
            ),
    ensures
        strictly_ascending(digests),
{
    assert forall|i: int, j: int| 0 <= i < j < digests.len() implies lex_less(
        #[trigger] digests[i]@,
        #[trigger] digests[j]@,
    ) by {
        lemma_ascending_step(digests, i, j);
    }
}

proof fn lemma_ascending_step(digests: Seq<Digest32>, i: int, j: int)
    requires
        0 <= i < j < digests.len(),
        forall|k: int|
            0 <= k && k + 1 < digests.len() ==> lex_less(
                (#[trigger] digests[k])@,
                digests[k + 1]@,
            ),
    ensures
        lex_less(digests[i]@, digests[j]@),
    decreases j - i,
{
    if i + 1 < j {
        lemma_ascending_step(digests, i, j - 1);
        assert(lex_less(digests[j - 1]@, digests[j - 1 + 1]@));
        lemma_lex_transitive(digests[i]@, digests[j - 1]@, digests[j]@);
    }
}

/// Decides whether a list is strictly ascending.
pub fn is_strictly_ascending(digests: &Vec<Digest32>) -> (r: bool)
    ensures
        r == strictly_ascending(digests@),
{
    let mut i: usize = 1;
    while i < digests.len()
        invariant
            1 <= i,
            i <= digests.len() || digests.len() == 0,
            forall|k: int|
                0 <= k && k + 1 < i ==> lex_less((#[trigger] digests@[k])@, digests@[k + 1]@),
        decreases digests.len() - i,
    {
        if !bytes_less(digests[i - 1].as_slice(), digests[i].as_slice()) {
            assert(!lex_less(digests@[i - 1]@, digests@[i as int]@));
            return false;
        }
        i += 1;
    }
    proof {
        lemma_adjacent_ascending(digests@);
    }
    true
}

/// Decides whether a list holds a digest.
pub fn holds_digest(digests: &Vec<Digest32>, wanted: &Digest32) -> (r: bool)
    ensures
        r == digests@.contains(*wanted),
{
    let mut i: usize = 0;
    while i < digests.len()
        invariant
            i <= digests.len(),
            forall|j: int| 0 <= j < i ==> digests@[j] != *wanted,
        decreases digests.len() - i,
    {
        if same_digest(&digests[i], wanted) {
            assert(digests@[i as int] == *wanted);
            return true;
        }
        i += 1;
    }
    false
}

/// The number of digests of an ascending list that come before `wanted`, found by bisection.
pub fn position_in(digests: &Vec<Digest32>, wanted: &Digest32) -> (at: usize)
    requires
        strictly_ascending(digests@),
    ensures
        at <= digests.len(),
        forall|j: int| 0 <= j < at ==> lex_less((#[trigger] digests@[j])@, wanted@),
        forall|j: int| at <= j < digests.len() ==> !lex_less((#[trigger] digests@[j])@, wanted@),
{
    let mut low: usize = 0;
    let mut high: usize = digests.len();
    while low < high
        invariant
            low <= high <= digests.len(),
            strictly_ascending(digests@),
            forall|j: int| 0 <= j < low ==> lex_less((#[trigger] digests@[j])@, wanted@),
            forall|j: int|
                high <= j < digests.len() ==> !lex_less((#[trigger] digests@[j])@, wanted@),
        decreases high - low,
    {
        let middle: usize = low + (high - low) / 2;
        if bytes_less(digests[middle].as_slice(), wanted.as_slice()) {
            assert forall|j: int| 0 <= j < middle + 1 implies lex_less(
                (#[trigger] digests@[j])@,
                wanted@,
            ) by {
                if j < middle {
                    lemma_lex_transitive(digests@[j]@, digests@[middle as int]@, wanted@);
                }
            }
            low = middle + 1;
        } else {
            assert forall|j: int| middle <= j < digests.len() implies !lex_less(
                (#[trigger] digests@[j])@,
                wanted@,
            ) by {
                if j > middle && lex_less(digests@[j]@, wanted@) {
                    lemma_lex_transitive(digests@[middle as int]@, digests@[j]@, wanted@);
                }
            }
            high = middle;
        }
    }
    low
}

/// Decides by bisection whether an ascending list holds a digest.
pub fn holds_in_ascending(digests: &Vec<Digest32>, wanted: &Digest32) -> (r: bool)
    requires
        strictly_ascending(digests@),
    ensures
        r == digests@.contains(*wanted),
{
    let at = position_in(digests, wanted);
    let found = at < digests.len() && same_digest(&digests[at], wanted);
    proof {
        if digests@.contains(*wanted) {
            let j = choose|j: int| 0 <= j < digests@.len() && digests@[j] == *wanted;
            lemma_lex_irreflexive(wanted@);
            assert(at <= j);
            if at < j {
                assert(lex_less(digests@[at as int]@, digests@[j]@));
            }
        }
    }
    found
}

/// Merges two ordered lists.
fn merge_digests(left: &Vec<Digest32>, right: &Vec<Digest32>) -> (out: Vec<Digest32>)
    requires
        sorted_by(left@, digest_order()),
        sorted_by(right@, digest_order()),
    ensures
        sorted_by(out@, digest_order()),
        out@.to_multiset() == left@.to_multiset().add(right@.to_multiset()),
{
    broadcast use vstd::seq_lib::group_to_multiset_ensures;
    broadcast use vstd::multiset::group_multiset_axioms;

    let mut out: Vec<Digest32> = Vec::new();
    let mut i: usize = 0;
    let mut j: usize = 0;
    let ghost leq = digest_order();
    proof {
        lemma_digest_order_total();
    }
    assert(left@.take(0) =~= Seq::empty());
    assert(right@.take(0) =~= Seq::empty());
    while i < left.len() || j < right.len()
        invariant
            i <= left.len(),
            j <= right.len(),
            leq == digest_order(),
            total_ordering(leq),
            sorted_by(left@, leq),
            sorted_by(right@, leq),
            sorted_by(out@, leq),
            forall|k: int, m: int|
                0 <= k < out.len() && i <= m < left.len() ==> leq(
                    #[trigger] out@[k],
                    #[trigger] left@[m],
                ),
            forall|k: int, m: int|
                0 <= k < out.len() && j <= m < right.len() ==> leq(
                    #[trigger] out@[k],
                    #[trigger] right@[m],
                ),
            out@.to_multiset() == left@.take(i as int).to_multiset().add(
                right@.take(j as int).to_multiset(),
            ),
        decreases (left.len() - i) + (right.len() - j),
    {
        let ghost before = out@;
        let from_left = if i == left.len() {
            false
        } else if j == right.len() {
            true
        } else {
            !bytes_less(right[j].as_slice(), left[i].as_slice())
        };
        if from_left {
            assert(left@.take(i + 1) =~= left@.take(i as int).push(left@[i as int]));
            proof {
                if j < right.len() {
                    assert(leq(left@[i as int], right@[j as int]) || leq(
                        right@[j as int],
                        left@[i as int],
                    ));
                    assert(leq(left@[i as int], right@[j as int]));
                    assert forall|m: int| j <= m < right.len() implies leq(
                        left@[i as int],
                        #[trigger] right@[m],
                    ) by {
                        if m > j {
                            assert(leq(right@[j as int], right@[m]));
                        }
                    }
                }
            }
            out.push(left[i]);
            proof {
                vstd::seq_lib::to_multiset_build(before, left@[i as int]);
                vstd::seq_lib::to_multiset_build(left@.take(i as int), left@[i as int]);
            }
            i += 1;
            assert(out@.to_multiset() =~= left@.take(i as int).to_multiset().add(
                right@.take(j as int).to_multiset(),
            ));
        } else {
            assert(right@.take(j + 1) =~= right@.take(j as int).push(right@[j as int]));
            proof {
                if i < left.len() {
                    assert(leq(right@[j as int], left@[i as int]));
                    assert forall|m: int| i <= m < left.len() implies leq(
                        right@[j as int],
                        #[trigger] left@[m],
                    ) by {
                        if m > i {
                            assert(leq(left@[i as int], left@[m]));
                        }
                    }
                }
            }
            out.push(right[j]);
            proof {
                vstd::seq_lib::to_multiset_build(before, right@[j as int]);
                vstd::seq_lib::to_multiset_build(right@.take(j as int), right@[j as int]);
            }
            j += 1;
            assert(out@.to_multiset() =~= left@.take(i as int).to_multiset().add(
                right@.take(j as int).to_multiset(),
            ));
        }
    }
    assert(left@.take(i as int) =~= left@);
    assert(right@.take(j as int) =~= right@);
    out
}

fn merge_sort_digests(digests: &[Digest32]) -> (out: Vec<Digest32>)
    ensures
        sorted_by(out@, digest_order()),
        out@.to_multiset() == digests@.to_multiset(),
    decreases digests.len(),
{
    let n = digests.len();
    if n <= 1 {
        let mut out: Vec<Digest32> = Vec::new();
        if n == 1 {
            out.push(digests[0]);
        }
        assert(out@ =~= digests@);
        return out;
    }
    let middle = n / 2;
    let left = merge_sort_digests(slice_subrange(digests, 0, middle));
    let right = merge_sort_digests(slice_subrange(digests, middle, n));
    proof {
        let a = digests@.subrange(0, middle as int);
        let b = digests@.subrange(middle as int, n as int);
        assert(digests@ =~= a + b);
        vstd::seq_lib::lemma_multiset_commutative(a, b);
    }
    merge_digests(&left, &right)
}

/// Sorts a list of digests in ascending order.
pub fn sort_digests(digests: &Vec<Digest32>) -> (out: Vec<Digest32>)
    ensures
        out@ == digests@.sort_by(digest_order()),
{
    let out = merge_sort_digests(digests.as_slice());
    proof {
        lemma_digest_order_total();
        digests@.lemma_sort_by_ensures(digest_order());
        vstd::seq_lib::lemma_sorted_unique(
            out@,
            digests@.sort_by(digest_order()),
            digest_order(),
        );
    }
    out
}

/// A sorted list without repetition is strictly ascending, and the other way round.
pub proof fn lemma_sorted_distinct(digests: Seq<Digest32>)
    requires
        sorted_by(digests, digest_order()),
    ensures
        digests.no_duplicates() <==> strictly_ascending(digests),
{
    let leq = digest_order();
    if digests.no_duplicates() {
        assert forall|i: int, j: int| 0 <= i < j < digests.len() implies lex_less(
            #[trigger] digests[i]@,
            #[trigger] digests[j]@,
        ) by {
            assert(leq(digests[i], digests[j]));
        }
    }
    if strictly_ascending(digests) {
        assert forall|i: int, j: int|
            0 <= i < digests.len() && 0 <= j < digests.len() && i != j implies digests[i]
            != digests[j] by {
            lemma_lex_irreflexive(digests[i]@);
            if i < j {
                assert(lex_less(digests[i]@, digests[j]@));
            } else {
                assert(lex_less(digests[j]@, digests[i]@));
            }
        }
    }
}

/// The bytes of a list of digests, one after the other.
pub open spec fn joined(digests: Seq<Digest32>) -> Seq<u8>
    decreases digests.len(),
{
    if digests.len() == 0 {
        Seq::empty()
    } else {
        joined(digests.drop_last()) + digests.last()@
    }
}

/// Appends the bytes of a list of digests.
pub fn append_digests(out: &mut Vec<u8>, digests: &Vec<Digest32>)
    ensures
        final(out)@ == old(out)@ + joined(digests@),
{
    let ghost before = out@;
    let mut i: usize = 0;
    assert(before + joined(digests@.take(0)) =~= before);
    while i < digests.len()
        invariant
            i <= digests.len(),
            out@ == before + joined(digests@.take(i as int)),
        decreases digests.len() - i,
    {
        let ghost next = digests@.take(i + 1);
        assert(next.drop_last() =~= digests@.take(i as int));
        assert(next.last() == digests@[i as int]);
        append_digest(out, &digests[i]);
        assert(out@ =~= before + joined(next));
        i += 1;
    }
    assert(digests@.take(i as int) =~= digests@);
}

/// Every digest takes 32 bytes.
pub proof fn lemma_joined_len(digests: Seq<Digest32>)
    ensures
        joined(digests).len() == 32 * digests.len(),
    decreases digests.len(),
{
    if digests.len() > 0 {
        lemma_joined_len(digests.drop_last());
    }
}

/// Lists of digests with the same bytes are equal.
pub proof fn lemma_joined_injective(a: Seq<Digest32>, b: Seq<Digest32>)
    requires
        joined(a) == joined(b),
    ensures
        a == b,
    decreases a.len(),
{
    lemma_joined_len(a);
    lemma_joined_len(b);
    if a.len() > 0 {
        let (x, y) = (joined(a), joined(b));
        let k = x.len() - 32;
        lemma_joined_len(a.drop_last());
        lemma_joined_len(b.drop_last());
        assert(joined(a.drop_last()) =~= x.take(k));
        assert(joined(b.drop_last()) =~= y.take(k));
        lemma_joined_injective(a.drop_last(), b.drop_last());
        assert(a.last()@ =~= x.skip(k));
        assert(b.last()@ =~= y.skip(k));
        assert(a.last() =~= b.last());
        assert(a =~= a.drop_last().push(a.last()));
        assert(b =~= b.drop_last().push(b.last()));
    } else {
        assert(a =~= b);
    }
}

/// Taking one more member adds just that member.
pub proof fn lemma_take_push<A>(list: Seq<A>, i: int)
    requires
        0 <= i < list.len(),
    ensures
        forall|a: A| #[trigger]
            list.take(i + 1).contains(a) <==> list.take(i).contains(a) || a == list[i],
        list.take(i + 1).to_set() == list.take(i).to_set().insert(list[i]),
{
    let (before, after) = (list.take(i), list.take(i + 1));
    assert forall|a: A| #[trigger] after.contains(a) <==> before.contains(a) || a == list[i] by {
        if before.contains(a) {
            assert(after[before.index_of(a)] == a);
        }
        if a == list[i] {
            assert(after[i] == a);
        }
        if after.contains(a) {
            let k = after.index_of(a);
            assert(k < i ==> before[k] == a);
        }
    }
    assert(after.to_set() =~= before.to_set().insert(list[i]));
}

/// The integer whose big-endian bytes are `bytes`.
pub open spec fn be_nat(bytes: Seq<u8>) -> nat
    decreases bytes.len(),
{
    if bytes.len() == 0 {
        0
    } else {
        256 * be_nat(bytes.drop_last()) + bytes.last() as nat
    }
}

/// The big-endian bytes of a number that fits read back as that number.
pub proof fn law_big_endian_reads_back(value: nat, width: nat)
    requires
        value < vstd::arithmetic::power::pow(256, width),
    ensures
        be_bytes(value, width).len() == width,
        be_nat(be_bytes(value, width)) == value,
    decreases width,
{
    reveal(vstd::arithmetic::power::pow);
    if width > 0 {
        let p = vstd::arithmetic::power::pow(256, (width - 1) as nat);
        assert(value / 256 < p) by (nonlinear_arith)
            requires
                value < 256 * p,
        ;
        law_big_endian_reads_back(value / 256, (width - 1) as nat);
        let bytes = be_bytes(value, width);
        assert(bytes.drop_last() =~= be_bytes(value / 256, (width - 1) as nat));
        assert(bytes.last() == (value % 256) as u8);
    }
}

/// Which of two byte strings comes first: the one that ends where they still agree, or the one
/// with the smaller byte where they first differ.
pub proof fn law_order_is_by_first_difference(a: Seq<u8>, b: Seq<u8>, k: int)
    requires
        0 <= k <= a.len(),
        k <= b.len(),
        a.take(k) == b.take(k),
        k < a.len() && k < b.len() ==> a[k] != b[k],
    ensures
        k < a.len() && k < b.len() ==> (lex_less(a, b) <==> a[k] < b[k]),
        k == a.len() || k == b.len() ==> (lex_less(a, b) <==> a.len() < b.len()),
    decreases k,
{
    if k > 0 {
        assert(a.take(k)[0] == a[0] && b.take(k)[0] == b[0]);
        let (x, y) = (a.drop_first(), b.drop_first());
        assert(x.take(k - 1) =~= a.take(k).drop_first());
        assert(y.take(k - 1) =~= b.take(k).drop_first());
        law_order_is_by_first_difference(x, y, k - 1);
    }
}

/// Joined digests lie one after the other.
pub proof fn law_joined_digests_in_order(digests: Seq<Digest32>, i: int)
    requires
        0 <= i < digests.len(),
    ensures
        joined(digests).len() == 32 * digests.len(),
        joined(digests).subrange(32 * i, 32 * i + 32) == digests[i]@,
    decreases digests.len(),
{
    lemma_joined_len(digests);
    let rest = digests.drop_last();
    lemma_joined_len(rest);
    if i < rest.len() {
        law_joined_digests_in_order(rest, i);
        assert(joined(digests).subrange(32 * i, 32 * i + 32) =~= joined(rest).subrange(
            32 * i,
            32 * i + 32,
        ));
    } else {
        assert(joined(digests).subrange(32 * i, 32 * i + 32) =~= digests[i]@);
    }
}

} // verus!
