//! Commitments to a subject secret, scope pseudonyms, and the arithmetic of proving that one
//! knows what is behind them.
use vstd::arithmetic::div_mod::lemma_add_mod_noop;
use vstd::prelude::*;
use vstd::utf8::encode_utf8;

use crate::bytes::{append, append_digest, Digest32};
use crate::group::{group_order, hashed_multiple, Point, Scalar};

verus! {

/// What the generator for blindings is hashed from.
pub const BLINDING_GENERATOR_DOMAIN: &'static str = "DEKYX:SUBJECT-BLINDING-GENERATOR:v1";

/// What the generator for the pseudonyms of a scope is hashed from, before the scope.
pub const NULLIFIER_GENERATOR_DOMAIN: &'static str = "DEKYX:SCOPE-NULLIFIER-GENERATOR:v1";

/// Which multiple of the base point the generator for blindings is.
pub open spec fn blinding_multiple() -> nat {
    hashed_multiple(encode_utf8(BLINDING_GENERATOR_DOMAIN@))
}

/// Which multiple of the base point the generator for the pseudonyms of a scope is.
pub open spec fn nullifier_multiple(scope: Digest32) -> nat {
    hashed_multiple(encode_utf8(NULLIFIER_GENERATOR_DOMAIN@) + scope@)
}

/// The element that commits to a secret under a blinding.
pub open spec fn committed(secret: nat, blinding: nat) -> nat {
    (secret + blinding_multiple() * blinding) % group_order()
}

/// The element that stands for a secret in a scope.
pub open spec fn pseudonym(scope: Digest32, secret: nat) -> nat {
    (nullifier_multiple(scope) * secret) % group_order()
}

/// The answer to a challenge from a nonce and a secret.
pub open spec fn response(nonce: nat, challenge: nat, secret: nat) -> nat {
    (nonce + challenge * secret) % group_order()
}

/// The element that an answer has to match: the announced one plus the challenged one times
/// the challenge.
pub open spec fn answered(announced: nat, element: nat, challenge: nat) -> nat {
    (announced + element * challenge) % group_order()
}

/// The generator for blindings.
pub(crate) fn blinding_generator() -> (r: Point)
    ensures
        r@ == blinding_multiple(),
{
    Point::hash_of(BLINDING_GENERATOR_DOMAIN.as_bytes())
}

/// The generator for the pseudonyms of a scope.
pub(crate) fn nullifier_generator(scope: &Digest32) -> (r: Point)
    ensures
        r@ == nullifier_multiple(*scope),
{
    let mut message: Vec<u8> = Vec::new();
    append(&mut message, NULLIFIER_GENERATOR_DOMAIN.as_bytes());
    append_digest(&mut message, scope);
    assert(message@ =~= encode_utf8(NULLIFIER_GENERATOR_DOMAIN@) + scope@);
    Point::hash_of(message.as_slice())
}

/// The base point times `secret`, plus the generator for blindings times `blinding`.
pub(crate) fn commit(secret: &Scalar, blinding: &Scalar) -> (r: Point)
    ensures
        r@ == committed(secret@, blinding@),
{
    proof {
        lemma_add_mod_noop(
            (1 * secret@) as int,
            (blinding_multiple() * blinding@) as int,
            group_order() as int,
        );
    }
    Point::base().times(secret).plus(&blinding_generator().times(blinding))
}

/// The generator for the pseudonyms of `scope` times `secret`.
pub(crate) fn pseudonym_point(scope: &Digest32, secret: &Scalar) -> (r: Point)
    ensures
        r@ == pseudonym(*scope, secret@),
{
    nullifier_generator(scope).times(secret)
}

/// The answer to a challenge.
pub(crate) fn respond(nonce: &Scalar, challenge: &Scalar, secret: &Scalar) -> (r: Scalar)
    ensures
        r@ == response(nonce@, challenge@, secret@),
{
    let r = nonce.plus(&challenge.times(secret));
    proof {
        let order = group_order() as int;
        let product = (challenge@ * secret@) as int;
        vstd::arithmetic::div_mod::lemma_add_mod_noop_right(nonce@ as int, product, order);
    }
    r
}

/// The element that an answer has to match.
pub(crate) fn answer(announced: &Point, element: &Point, challenge: &Scalar) -> (r: Point)
    ensures
        r@ == answered(announced@, element@, challenge@),
{
    proof {
        let order = group_order() as int;
        let product = (element@ * challenge@) as int;
        vstd::arithmetic::div_mod::lemma_add_mod_noop_right(announced@ as int, product, order);
    }
    announced.plus(&element.times(challenge))
}

/// An honest answer matches: the answers to a challenge from the nonces and the opening of a
/// commitment open the announced element plus the commitment times the challenge.
pub proof fn law_commitment_answer(
    secret: nat,
    blinding: nat,
    nonce_secret: nat,
    nonce_blinding: nat,
    challenge: nat,
)
    ensures
        committed(
            response(nonce_secret, challenge, secret),
            response(nonce_blinding, challenge, blinding),
        ) == answered(
            committed(nonce_secret, nonce_blinding),
            committed(secret, blinding),
            challenge,
        ),
{
    let o = group_order() as int;
    let h = blinding_multiple() as int;
    let (s, b, n, k, c) = (
        secret as int,
        blinding as int,
        nonce_secret as int,
        nonce_blinding as int,
        challenge as int,
    );
    let x = n + c * s;
    let y = k + c * b;
    // left: (x % o + h * (y % o)) % o == (x + h * y) % o
    lemma_scaled(x, h, y, o);
    // right: ((n + h * k) % o + ((s + h * b) % o) * c) % o == ((n + h * k) + (s + h * b) * c) % o
    let u = n + h * k;
    let v = s + h * b;
    assert(((u % o) + (v % o) * c) % o == (u + v * c) % o) by {
        lemma_scaled(u, c, v, o);
        assert(c * (v % o) == (v % o) * c) by (nonlinear_arith);
        assert(c * v == v * c) by (nonlinear_arith);
    }
    assert(x + h * y == u + v * c) by (nonlinear_arith)
        requires
            x == n + c * s,
            y == k + c * b,
            u == n + h * k,
            v == s + h * b,
    ;
}

/// An honest answer matches in a scope as well: the answer from the nonce and the secret,
/// applied to the generator of the scope, is the announced element plus the pseudonym times
/// the challenge.
pub proof fn law_pseudonym_answer(scope: Digest32, secret: nat, nonce: nat, challenge: nat)
    ensures
        pseudonym(scope, response(nonce, challenge, secret)) == answered(
            pseudonym(scope, nonce),
            pseudonym(scope, secret),
            challenge,
        ),
{
    let o = group_order() as int;
    let g = nullifier_multiple(scope) as int;
    let (s, n, c) = (secret as int, nonce as int, challenge as int);
    let x = n + c * s;
    lemma_scaled(0, g, x, o);
    let u = g * n;
    let v = g * s;
    assert(((u % o) + (v % o) * c) % o == (u + v * c) % o) by {
        lemma_scaled(u, c, v, o);
        assert(c * (v % o) == (v % o) * c) by (nonlinear_arith);
        assert(c * v == v * c) by (nonlinear_arith);
    }
    assert(g * x == u + v * c) by (nonlinear_arith)
        requires
            x == n + c * s,
            u == g * n,
            v == g * s,
    ;
}

/// Answering takes knowing the opening: from matching answers to two challenges for one
/// announcement one can compute, dividing by the difference of the challenges, an opening of
/// the challenged element.
pub proof fn law_two_answers_open_commitment(
    announced: nat,
    element: nat,
    challenge: nat,
    answer_secret: nat,
    answer_blinding: nat,
    other_challenge: nat,
    other_secret: nat,
    other_blinding: nat,
)
    requires
        committed(answer_secret, answer_blinding) == answered(announced, element, challenge),
        committed(other_secret, other_blinding) == answered(announced, element, other_challenge),
    ensures
        (element * (challenge - other_challenge)) % (group_order() as int) == ((answer_secret
            - other_secret) + blinding_multiple() * (answer_blinding - other_blinding)) % (
        group_order() as int),
{
    let o = group_order() as int;
    let h = blinding_multiple() as int;
    let x = answer_secret + h * answer_blinding;
    let y = other_secret + h * other_blinding;
    let u = announced + element * challenge;
    let v = announced + element * other_challenge;
    vstd::arithmetic::div_mod::lemma_sub_mod_noop(x, y, o);
    vstd::arithmetic::div_mod::lemma_sub_mod_noop(u as int, v as int, o);
    assert(u - v == element * (challenge - other_challenge)) by (nonlinear_arith)
        requires
            u == announced + element * challenge,
            v == announced + element * other_challenge,
    ;
    assert(x - y == (answer_secret - other_secret) + h * (answer_blinding - other_blinding))
        by (nonlinear_arith)
        requires
            x == answer_secret + h * answer_blinding,
            y == other_secret + h * other_blinding,
    ;
}

/// The pseudonym belongs to the secret that is behind the commitment: matching answers to two
/// challenges, with the answers for the secret shared, give the pseudonym from the difference
/// of just those answers.
pub proof fn law_two_answers_tie_pseudonym(
    scope: Digest32,
    announced: nat,
    nullifier: nat,
    challenge: nat,
    answer_secret: nat,
    other_challenge: nat,
    other_secret: nat,
)
    requires
        pseudonym(scope, answer_secret) == answered(announced, nullifier, challenge),
        pseudonym(scope, other_secret) == answered(announced, nullifier, other_challenge),
    ensures
        (nullifier * (challenge - other_challenge)) % (group_order() as int) == (
        nullifier_multiple(scope) * (answer_secret - other_secret)) % (group_order() as int),
{
    let o = group_order() as int;
    let g = nullifier_multiple(scope) as int;
    let x = g * answer_secret;
    let y = g * other_secret;
    let u = announced + nullifier * challenge;
    let v = announced + nullifier * other_challenge;
    vstd::arithmetic::div_mod::lemma_sub_mod_noop(x, y, o);
    vstd::arithmetic::div_mod::lemma_sub_mod_noop(u as int, v as int, o);
    assert(u - v == nullifier * (challenge - other_challenge)) by (nonlinear_arith)
        requires
            u == announced + nullifier * challenge,
            v == announced + nullifier * other_challenge,
    ;
    assert(x - y == g * (answer_secret - other_secret)) by (nonlinear_arith)
        requires
            x == g * answer_secret,
            y == g * other_secret,
    ;
}

/// Answers give nothing away: answers that match are answers that every opening of the
/// commitment would have given, from nonces of its own. The nonces are returned.
pub proof fn law_answers_fit_every_opening(
    secret: nat,
    blinding: nat,
    announced: nat,
    challenge: nat,
    answer_secret: nat,
    answer_blinding: nat,
) -> (nonces: (nat, nat))
    requires
        announced < group_order(),
        answer_secret < group_order(),
        answer_blinding < group_order(),
        committed(answer_secret, answer_blinding) == answered(
            announced,
            committed(secret, blinding),
            challenge,
        ),
    ensures
        response(nonces.0, challenge, secret) == answer_secret,
        response(nonces.1, challenge, blinding) == answer_blinding,
        committed(nonces.0, nonces.1) == announced,
        nonces.0 == fitting_nonce(secret, challenge, answer_secret),
{
    let o = group_order() as int;
    let h = blinding_multiple() as int;
    let (s, b, c) = (secret as int, blinding as int, challenge as int);
    let (y, z, a) = (answer_secret as int, answer_blinding as int, announced as int);
    let n = fitting_nonce(secret, challenge, answer_secret);
    let k = fitting_nonce(blinding, challenge, answer_blinding);
    lemma_fitting_nonce(secret, challenge, answer_secret);
    lemma_fitting_nonce(blinding, challenge, answer_blinding);
    let x = y - c * s;
    let w = z - c * b;
    let u = y + h * z;
    let v = s + h * b;
    // The announced element is the opened one minus the commitment times the challenge.
    lemma_scaled(a, c, v, o);
    assert(c * (v % o) == (v % o) * c) by (nonlinear_arith);
    assert(c * v == v * c) by (nonlinear_arith);
    vstd::arithmetic::div_mod::lemma_small_mod(announced, group_order());
    assert((a + c * v) % o == u % o);
    lemma_scaled(x, h, w, o);
    assert(x + h * w == u - c * v) by (nonlinear_arith)
        requires
            x == y - c * s,
            w == z - c * b,
            u == y + h * z,
            v == s + h * b,
    ;
    vstd::arithmetic::div_mod::lemma_sub_mod_noop(a + c * v, c * v, o);
    vstd::arithmetic::div_mod::lemma_sub_mod_noop(u, c * v, o);
    assert((u - c * v) % o == a % o);
    (n, k)
}

/// The same for a pseudonym: an answer that also matches in a scope is one that the secret
/// behind the pseudonym would have given, from the same nonce.
pub proof fn law_answer_fits_pseudonym(
    scope: Digest32,
    secret: nat,
    announced: nat,
    challenge: nat,
    answer_secret: nat,
)
    requires
        announced < group_order(),
        answer_secret < group_order(),
        pseudonym(scope, answer_secret) == answered(announced, pseudonym(scope, secret), challenge),
    ensures
        response(fitting_nonce(secret, challenge, answer_secret), challenge, secret) == answer_secret,
        pseudonym(scope, fitting_nonce(secret, challenge, answer_secret)) == announced,
{
    let o = group_order() as int;
    let g = nullifier_multiple(scope) as int;
    let (s, c, y, a) = (secret as int, challenge as int, answer_secret as int, announced as int);
    lemma_fitting_nonce(secret, challenge, answer_secret);
    let x = y - c * s;
    let u = g * y;
    let v = g * s;
    lemma_scaled(a, c, v, o);
    assert(c * (v % o) == (v % o) * c) by (nonlinear_arith);
    assert(c * v == v * c) by (nonlinear_arith);
    vstd::arithmetic::div_mod::lemma_small_mod(announced, group_order());
    assert((a + c * v) % o == u % o);
    lemma_scaled(0, g, x, o);
    assert(g * x == u - c * v) by (nonlinear_arith)
        requires
            x == y - c * s,
            u == g * y,
            v == g * s,
    ;
    vstd::arithmetic::div_mod::lemma_sub_mod_noop(a + c * v, c * v, o);
    vstd::arithmetic::div_mod::lemma_sub_mod_noop(u, c * v, o);
    assert((u - c * v) % o == a % o);
}

/// The nonce from which a secret answers a challenge in a given way.
pub open spec fn fitting_nonce(secret: nat, challenge: nat, answer_secret: nat) -> nat {
    ((answer_secret - challenge * secret) % (group_order() as int)) as nat
}

proof fn lemma_fitting_nonce(secret: nat, challenge: nat, answer_secret: nat)
    requires
        answer_secret < group_order(),
    ensures
        fitting_nonce(secret, challenge, answer_secret) as int == (answer_secret - challenge * secret)
            % (group_order() as int),
        response(fitting_nonce(secret, challenge, answer_secret), challenge, secret) == answer_secret,
{
    let o = group_order() as int;
    let x = answer_secret - challenge * secret;
    vstd::arithmetic::div_mod::lemma_mod_bound(x, o);
    vstd::arithmetic::div_mod::lemma_add_mod_noop(x, (challenge * secret) as int, o);
    vstd::arithmetic::div_mod::lemma_add_mod_noop(x % o, (challenge * secret) as int, o);
    vstd::arithmetic::div_mod::lemma_mod_twice(x, o);
    vstd::arithmetic::div_mod::lemma_small_mod(answer_secret, group_order());
}

/// A number that can be divided by modulo the group order. An element that is such a multiple
/// of the base point generates the group.
pub open spec fn invertible(multiple: nat) -> bool {
    exists|inverse: nat| (#[trigger] (multiple * inverse)) % group_order() == 1
}

/// No number between one and the group order divides the group order.
pub open spec fn order_is_prime() -> bool {
    forall|d: nat| 1 < d < group_order() ==> #[trigger] (group_order() % d) != 0
}

/// Where the group order is prime, everything below it but zero is invertible: every such
/// multiple of the base point generates the group, and every secret but zero can be divided by.
pub proof fn law_prime_order_inverts(multiple: nat)
    requires
        order_is_prime(),
        0 < multiple < group_order(),
    ensures
        invertible(multiple),
    decreases multiple,
{
    let o = group_order();
    if multiple == 1 {
        assert((multiple * 1nat) % o == 1);
    } else {
        let r = o % multiple;
        let q = o / multiple;
        vstd::arithmetic::div_mod::lemma_fundamental_div_mod(o as int, multiple as int);
        assert(0 < r < multiple);
        law_prime_order_inverts(r);
        let j = choose|j: nat| (#[trigger] (r * j)) % o == 1;
        // The remainder is minus the quotient times the number.
        let x = -(q * j) as int;
        let inverse = (x % (o as int)) as nat;
        vstd::arithmetic::div_mod::lemma_mul_mod_noop_right(multiple as int, x, o as int);
        assert(multiple * x == r * j + (o as int) * (-j)) by (nonlinear_arith)
            requires
                o == multiple * q + r,
                x == -(q * j),
        ;
        vstd::arithmetic::div_mod::lemma_mod_multiples_vanish(-j, (r * j) as int, o as int);
        assert((multiple * inverse) % o == 1);
    }
}

/// What was multiplied by an invertible number is determined by the product.
proof fn lemma_cancel(multiple: nat, a: nat, b: nat)
    requires
        invertible(multiple),
        (multiple * a) % group_order() == (multiple * b) % group_order(),
    ensures
        a % group_order() == b % group_order(),
{
    let o = group_order() as int;
    let inverse = choose|inverse: nat| (#[trigger] (multiple * inverse)) % group_order() == 1;
    lemma_undo(multiple as int, inverse as int, a as int, o);
    lemma_undo(multiple as int, inverse as int, b as int, o);
}

/// Multiplying by the inverse undoes multiplying.
proof fn lemma_undo(multiple: int, inverse: int, a: int, o: int)
    requires
        o > 1,
        (multiple * inverse) % o == 1,
    ensures
        (inverse * ((multiple * a) % o)) % o == a % o,
{
    vstd::arithmetic::div_mod::lemma_mul_mod_noop_right(inverse, multiple * a, o);
    assert(inverse * (multiple * a) == (multiple * inverse) * a) by (nonlinear_arith);
    vstd::arithmetic::div_mod::lemma_mul_mod_noop_left(multiple * inverse, a, o);
    assert(1 * a == a);
}

/// Another blinding gives another commitment, where the generator for blindings generates the
/// group.
pub proof fn law_blinding_changes_commitment(secret: nat, blinding: nat, other: nat)
    requires
        invertible(blinding_multiple()),
        blinding < group_order(),
        other < group_order(),
        blinding != other,
    ensures
        committed(secret, blinding) != committed(secret, other),
{
    if committed(secret, blinding) == committed(secret, other) {
        let h = blinding_multiple();
        lemma_same_sum(secret, h * blinding, h * other);
        lemma_cancel(h, blinding, other);
        vstd::arithmetic::div_mod::lemma_small_mod(blinding, group_order());
        vstd::arithmetic::div_mod::lemma_small_mod(other, group_order());
    }
}

/// A secret has another pseudonym in another scope, where the secret is invertible and the
/// generators for the pseudonyms of the two scopes are different elements.
pub proof fn law_scope_changes_pseudonym(scope: Digest32, other: Digest32, secret: nat)
    requires
        invertible(secret),
        nullifier_multiple(scope) % group_order() != nullifier_multiple(other) % group_order(),
    ensures
        pseudonym(scope, secret) != pseudonym(other, secret),
{
    let (g, h) = (nullifier_multiple(scope), nullifier_multiple(other));
    if pseudonym(scope, secret) == pseudonym(other, secret) {
        assert(g * secret == secret * g && h * secret == secret * h) by (nonlinear_arith);
        lemma_cancel(secret, g, h);
    }
}

/// Another secret has another pseudonym in the same scope, and none but zero has the identity,
/// where the generator for the pseudonyms of the scope generates the group.
pub proof fn law_secret_changes_pseudonym(scope: Digest32, secret: nat, other: nat)
    requires
        invertible(nullifier_multiple(scope)),
        secret < group_order(),
        other < group_order(),
        secret != other,
    ensures
        pseudonym(scope, secret) != pseudonym(scope, other),
        secret != 0 ==> pseudonym(scope, secret) != 0,
{
    let h = nullifier_multiple(scope);
    vstd::arithmetic::div_mod::lemma_small_mod(secret, group_order());
    vstd::arithmetic::div_mod::lemma_small_mod(other, group_order());
    if pseudonym(scope, secret) == pseudonym(scope, other) {
        lemma_cancel(h, secret, other);
    }
    if pseudonym(scope, secret) == 0 {
        assert(h * 0 == 0);
        lemma_cancel(h, secret, 0);
    }
}

/// Another nonce gives another answer to the same challenge.
pub proof fn law_nonce_changes_answer(nonce: nat, other: nat, challenge: nat, secret: nat)
    requires
        nonce < group_order(),
        other < group_order(),
        nonce != other,
    ensures
        response(nonce, challenge, secret) != response(other, challenge, secret),
{
    if response(nonce, challenge, secret) == response(other, challenge, secret) {
        vstd::arithmetic::div_mod::lemma_sub_mod_noop(
            (nonce + challenge * secret) as int,
            (other + challenge * secret) as int,
            group_order() as int,
        );
        lemma_small_difference(nonce, other);
    }
}

/// Reduced numbers whose difference vanishes modulo the order are equal.
proof fn lemma_small_difference(a: nat, b: nat)
    requires
        a < group_order(),
        b < group_order(),
        (a - b) % (group_order() as int) == 0,
    ensures
        a == b,
{
    let o = group_order() as int;
    if a > b {
        vstd::arithmetic::div_mod::lemma_small_mod((a - b) as nat, group_order());
    } else if a < b {
        vstd::arithmetic::div_mod::lemma_small_mod((a - b + o) as nat, group_order());
        vstd::arithmetic::div_mod::lemma_mod_add_multiples_vanish(a - b, o);
    }
}

/// Sums with one element that agree modulo the order have other terms that agree.
pub proof fn lemma_same_sum(a: nat, x: nat, y: nat)
    requires
        (a + x) % group_order() == (a + y) % group_order(),
    ensures
        x % group_order() == y % group_order(),
{
    let o = group_order() as int;
    vstd::arithmetic::div_mod::lemma_sub_mod_noop((a + x) as int, a as int, o);
    vstd::arithmetic::div_mod::lemma_sub_mod_noop((a + y) as int, a as int, o);
}

/// Reducing the terms of `a + k * b` first changes nothing modulo `m`.
proof fn lemma_scaled(a: int, k: int, b: int, m: int)
    requires
        m > 0,
    ensures
        ((a % m) + k * (b % m)) % m == (a + k * b) % m,
{
    vstd::arithmetic::div_mod::lemma_mul_mod_noop_right(k, b, m);
    lemma_add_mod_noop(a, k * (b % m), m);
    lemma_add_mod_noop(a, k * b, m);
    lemma_add_mod_noop(a % m, k * (b % m), m);
    vstd::arithmetic::div_mod::lemma_mod_twice(a, m);
}

} // verus!
