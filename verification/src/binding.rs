//! Statements say what they say: the bytes behind the digest of a credential, a request, a status
//! list, a context, a holder's signature, a subject line, a use of a context or the context of a
//! sealing determine everything that the digest is about.
use vstd::prelude::*;
use vstd::utf8::encode_utf8;

use crate::bytes::{
    be_bytes, joined, lemma_be_bytes_injective, lemma_be_bytes_len, lemma_joined_injective,
    lemma_joined_len, Digest32,
};
use crate::credential::{
    holder_key_admissible, CredentialModel, CredentialRequestModel, IssuanceProofModel,
    CREDENTIAL_DOMAIN,
};
use crate::custody::{sealing_message, HOLDER_CUSTODY_DOMAIN};
use crate::error::DeKyxError;
use crate::fields::{fields_message, law_fields_unambiguous};
use crate::group::{encodes, group_order};
use crate::hash::sha256_digest;
use crate::issuer::SubjectKind;
use crate::ledger::{use_message, CONTEXT_USE_DOMAIN};
use crate::membership::told_apart;
use crate::pedersen::{
    invertible, law_nonce_changes_answer, law_scope_changes_pseudonym, nullifier_multiple,
    pseudonym,
};
use crate::presentation::{
    challenged_proofs, signed_proof, signed_proofs, PresentationContext, PresentationModel, UnsignedPresentation,
    CONTEXT_DOMAIN, HOLDER_PRESENTATION_DOMAIN, PRESENTATION_DOMAIN,
    SUBJECT_LINE_DOMAIN,
};
use crate::qualification::QualificationModel;
use crate::signature::{SignatureReports, ML_DSA_65_SIG_BYTES};
use crate::status::{StatusListModel, STATUS_DOMAIN};
use crate::tree::{proof_of, QualificationProofModel};
use crate::witness::WitnessModel;

verus! {

/// Eight bytes determine a number.
proof fn lemma_u64_bytes_injective(a: u64, b: u64)
    requires
        be_bytes(a as nat, 8) == be_bytes(b as nat, 8),
    ensures
        a == b,
{
    assert(vstd::arithmetic::power::pow(256, 8) == 0x1_0000_0000_0000_0000) by {
        reveal_with_fuel(vstd::arithmetic::power::pow, 9);
    }
    lemma_be_bytes_injective(a as nat, b as nat, 8);
}

proof fn lemma_digest_injective(a: Digest32, b: Digest32)
    requires
        a@ == b@,
    ensures
        a == b,
{
    assert(a =~= b);
}

proof fn lemma_tag_injective(a: SubjectKind, b: SubjectKind)
    requires
        a.tag_byte() == b.tag_byte(),
    ensures
        a == b,
{
}

/// What an issuer signs determines the credential, up to the signature.
pub proof fn law_credential_statement_binds(a: CredentialModel, b: CredentialModel)
    requires
        holder_key_admissible(a.holder_suite, a.holder_public_key),
        holder_key_admissible(b.holder_suite, b.holder_public_key),
        a.statement_message() == b.statement_message(),
    ensures
        (CredentialModel { signature: b.signature, ..a }) == b,
{
    let d = encode_utf8(CREDENTIAL_DOMAIN@).len() as int;
    let (x, y) = (a.statement_message(), b.statement_message());
    lemma_credential_parts(a);
    lemma_credential_parts(b);
    let e = a.holder_suite.encoding.len() as int;
    assert(e == b.holder_suite.encoding.len());
    let k = d + 105 + e;
    lemma_digest_injective(a.credential_id, b.credential_id);
    lemma_digest_injective(a.issuer_id, b.issuer_id);
    lemma_u64_bytes_injective(a.issuer_key_epoch, b.issuer_key_epoch);
    assert(x[d + 72] == y[d + 72]);
    lemma_tag_injective(a.subject_kind, b.subject_kind);
    lemma_digest_injective(a.subject_commitment, b.subject_commitment);
    lemma_digest_injective(a.scope_digest, b.scope_digest);
    lemma_digest_injective(a.policy_digest, b.policy_digest);
    lemma_digest_injective(a.qualifications_root, b.qualifications_root);
    lemma_u64_bytes_injective(a.status_epoch, b.status_epoch);
    lemma_u64_bytes_injective(a.valid_from, b.valid_from);
    lemma_u64_bytes_injective(a.valid_until, b.valid_until);
    assert(a.holder_suite == b.holder_suite);
    assert(a.holder_public_key == b.holder_public_key);
}

/// Where the parts of a credential stand in its statement.
#[verifier::rlimit(40)]
proof fn lemma_credential_parts(c: CredentialModel)
    requires
        c.holder_public_key.len() == 1952,
    ensures
        ({
            let d = encode_utf8(CREDENTIAL_DOMAIN@).len() as int;
            let e = c.holder_suite.encoding.len() as int;
            let k = d + 105 + e;
            let x = c.statement_message();
            &&& x.len() == k + 2072
            &&& c.credential_id@ == x.subrange(d, d + 32)
            &&& c.issuer_id@ == x.subrange(d + 32, d + 64)
            &&& be_bytes(c.issuer_key_epoch as nat, 8) == x.subrange(d + 64, d + 72)
            &&& c.subject_kind.tag_byte() == x[d + 72]
            &&& c.subject_commitment@ == x.subrange(d + 73, d + 105)
            &&& c.holder_suite.encoding == x.subrange(d + 105, k)
            &&& c.holder_public_key == x.subrange(k, k + 1952)
            &&& c.scope_digest@ == x.subrange(k + 1952, k + 1984)
            &&& c.policy_digest@ == x.subrange(k + 1984, k + 2016)
            &&& c.qualifications_root@ == x.subrange(k + 2016, k + 2048)
            &&& be_bytes(c.status_epoch as nat, 8) == x.subrange(k + 2048, k + 2056)
            &&& be_bytes(c.valid_from as nat, 8) == x.subrange(k + 2056, k + 2064)
            &&& be_bytes(c.valid_until as nat, 8) == x.subrange(k + 2064, k + 2072)
        }),
{
    let domain = encode_utf8(CREDENTIAL_DOMAIN@);
    let d = domain.len() as int;
    let e = c.holder_suite.encoding.len() as int;
    let k = d + 105 + e;
    let x = c.statement_message();
    lemma_be_bytes_len(c.issuer_key_epoch as nat, 8);
    lemma_be_bytes_len(c.status_epoch as nat, 8);
    lemma_be_bytes_len(c.valid_from as nat, 8);
    lemma_be_bytes_len(c.valid_until as nat, 8);
    let x1 = domain + c.credential_id@ + c.issuer_id@ + be_bytes(c.issuer_key_epoch as nat, 8)
        + seq![c.subject_kind.tag_byte()] + c.subject_commitment@;
    let x2 = x1 + c.holder_suite.encoding + c.holder_public_key;
    let x3 = x2 + c.scope_digest@ + c.policy_digest@ + c.qualifications_root@;
    assert(x == x3 + be_bytes(c.status_epoch as nat, 8) + be_bytes(c.valid_from as nat, 8)
        + be_bytes(c.valid_until as nat, 8));
    assert(x1.len() == d + 105);
    assert(x2.len() == k + 1952);
    assert(x3.len() == k + 2048);
    assert(x.take(d + 105) =~= x1);
    assert(c.credential_id@ =~= x1.subrange(d, d + 32));
    assert(c.issuer_id@ =~= x1.subrange(d + 32, d + 64));
    assert(be_bytes(c.issuer_key_epoch as nat, 8) =~= x1.subrange(d + 64, d + 72));
    assert(c.subject_kind.tag_byte() == x1[d + 72]);
    assert(c.subject_commitment@ =~= x1.subrange(d + 73, d + 105));
    assert(x.subrange(d, d + 32) =~= x1.subrange(d, d + 32));
    assert(x.subrange(d + 32, d + 64) =~= x1.subrange(d + 32, d + 64));
    assert(x.subrange(d + 64, d + 72) =~= x1.subrange(d + 64, d + 72));
    assert(x.subrange(d + 73, d + 105) =~= x1.subrange(d + 73, d + 105));
    assert(c.holder_suite.encoding =~= x.subrange(d + 105, k));
    assert(c.holder_public_key =~= x.subrange(k, k + 1952));
    assert(c.scope_digest@ =~= x.subrange(k + 1952, k + 1984));
    assert(c.policy_digest@ =~= x.subrange(k + 1984, k + 2016));
    assert(c.qualifications_root@ =~= x.subrange(k + 2016, k + 2048));
    assert(be_bytes(c.status_epoch as nat, 8) =~= x.subrange(k + 2048, k + 2056));
    assert(be_bytes(c.valid_from as nat, 8) =~= x.subrange(k + 2056, k + 2064));
    assert(be_bytes(c.valid_until as nat, 8) =~= x.subrange(k + 2064, k + 2072));
}

/// What stands for a request determines it, its qualifications up to the root of their hash
/// tree.
pub proof fn law_request_statement_binds(
    a: CredentialRequestModel,
    a_root: Digest32,
    b: CredentialRequestModel,
    b_root: Digest32,
)
    requires
        holder_key_admissible(a.holder_suite, a.holder_public_key),
        holder_key_admissible(b.holder_suite, b.holder_public_key),
        a.holder_suite.encoding.len() <= u32::MAX,
        b.holder_suite.encoding.len() <= u32::MAX,
        fields_message(a.statement_fields(a_root)) == fields_message(b.statement_fields(b_root)),
    ensures
        (CredentialRequestModel { qualifications: b.qualifications, ..a }) == b,
        a_root == b_root,
{
    let (x, y) = (a.statement_fields(a_root), b.statement_fields(b_root));
    lemma_request_fields_short(a, a_root);
    lemma_request_fields_short(b, b_root);
    law_fields_unambiguous(x, y);
    assert(x[0] == y[0] && x[1] == y[1] && x[2] == y[2] && x[3] == y[3] && x[4] == y[4]);
    assert(x[5] == y[5] && x[6] == y[6] && x[7] == y[7] && x[8] == y[8] && x[9] == y[9]);
    assert(x[10] == y[10] && x[11] == y[11] && x[12] == y[12]);
    lemma_digest_injective(a.credential_id, b.credential_id);
    lemma_digest_injective(a.issuer_id, b.issuer_id);
    lemma_u64_bytes_injective(a.issuer_key_epoch, b.issuer_key_epoch);
    assert(x[3][0] == y[3][0]);
    lemma_tag_injective(a.subject_kind, b.subject_kind);
    lemma_digest_injective(a.subject_commitment, b.subject_commitment);
    lemma_digest_injective(a.scope_digest, b.scope_digest);
    lemma_digest_injective(a.policy_digest, b.policy_digest);
    lemma_digest_injective(a_root, b_root);
    lemma_u64_bytes_injective(a.status_epoch, b.status_epoch);
    lemma_u64_bytes_injective(a.valid_from, b.valid_from);
    lemma_u64_bytes_injective(a.valid_until, b.valid_until);
}

proof fn lemma_request_fields_short(request: CredentialRequestModel, root: Digest32)
    requires
        holder_key_admissible(request.holder_suite, request.holder_public_key),
        request.holder_suite.encoding.len() <= u32::MAX,
    ensures
        forall|i: int|
            0 <= i < request.statement_fields(root).len() ==> (
            #[trigger] request.statement_fields(root)[i]).len() <= u32::MAX,
{
    lemma_be_bytes_len(request.issuer_key_epoch as nat, 8);
    lemma_be_bytes_len(request.status_epoch as nat, 8);
    lemma_be_bytes_len(request.valid_from as nat, 8);
    lemma_be_bytes_len(request.valid_until as nat, 8);
}

/// What an issuer signs determines the status list, up to the signature.
pub proof fn law_status_statement_binds(a: StatusListModel, b: StatusListModel)
    requires
        a.statement_message() == b.statement_message(),
    ensures
        (StatusListModel { signature: b.signature, ..a }) == b,
{
    lemma_status_parts(a);
    lemma_status_parts(b);
    lemma_digest_injective(a.issuer_id, b.issuer_id);
    lemma_u64_bytes_injective(a.issuer_key_epoch, b.issuer_key_epoch);
    lemma_u64_bytes_injective(a.status_epoch, b.status_epoch);
    lemma_u64_bytes_injective(a.effective_at, b.effective_at);
    lemma_u64_bytes_injective(a.valid_until, b.valid_until);
    lemma_joined_injective(a.revoked_credentials, b.revoked_credentials);
}

/// Where the parts of a status list stand in its statement.
proof fn lemma_status_parts(list: StatusListModel)
    ensures
        ({
            let d = encode_utf8(STATUS_DOMAIN@).len() as int;
            let x = list.statement_message();
            &&& x.len() >= d + 68
            &&& list.issuer_id@ == x.subrange(d, d + 32)
            &&& be_bytes(list.issuer_key_epoch as nat, 8) == x.subrange(d + 32, d + 40)
            &&& be_bytes(list.status_epoch as nat, 8) == x.subrange(d + 40, d + 48)
            &&& be_bytes(list.effective_at as nat, 8) == x.subrange(d + 48, d + 56)
            &&& be_bytes(list.valid_until as nat, 8) == x.subrange(d + 56, d + 64)
            &&& joined(list.revoked_credentials) == x.skip(d + 68)
        }),
{
    let d = encode_utf8(STATUS_DOMAIN@).len() as int;
    let x = list.statement_message();
    lemma_be_bytes_len(list.issuer_key_epoch as nat, 8);
    lemma_be_bytes_len(list.status_epoch as nat, 8);
    lemma_be_bytes_len(list.effective_at as nat, 8);
    lemma_be_bytes_len(list.valid_until as nat, 8);
    lemma_be_bytes_len(list.revoked_credentials.len(), 4);
    assert(list.issuer_id@ =~= x.subrange(d, d + 32));
    assert(be_bytes(list.issuer_key_epoch as nat, 8) =~= x.subrange(d + 32, d + 40));
    assert(be_bytes(list.status_epoch as nat, 8) =~= x.subrange(d + 40, d + 48));
    assert(be_bytes(list.effective_at as nat, 8) =~= x.subrange(d + 48, d + 56));
    assert(be_bytes(list.valid_until as nat, 8) =~= x.subrange(d + 56, d + 64));
    assert(joined(list.revoked_credentials) =~= x.skip(d + 68));
}

/// What a context digest covers determines the context.
pub proof fn law_context_binds(a: PresentationContext, b: PresentationContext)
    requires
        a.message() == b.message(),
    ensures
        a == b,
{
    lemma_context_parts(a);
    lemma_context_parts(b);
    lemma_digest_injective(a.scope_digest, b.scope_digest);
    lemma_digest_injective(a.audience_digest, b.audience_digest);
    lemma_digest_injective(a.action_digest, b.action_digest);
    lemma_digest_injective(a.request_digest, b.request_digest);
    lemma_digest_injective(a.challenge_nonce, b.challenge_nonce);
    lemma_u64_bytes_injective(a.valid_until, b.valid_until);
}

/// Where the parts of a context stand in its message.
proof fn lemma_context_parts(context: PresentationContext)
    ensures
        ({
            let d = encode_utf8(CONTEXT_DOMAIN@).len() as int;
            let x = context.message();
            &&& x.len() == d + 168
            &&& context.scope_digest@ == x.subrange(d, d + 32)
            &&& context.audience_digest@ == x.subrange(d + 32, d + 64)
            &&& context.action_digest@ == x.subrange(d + 64, d + 96)
            &&& context.request_digest@ == x.subrange(d + 96, d + 128)
            &&& context.challenge_nonce@ == x.subrange(d + 128, d + 160)
            &&& be_bytes(context.valid_until as nat, 8) == x.subrange(d + 160, d + 168)
        }),
{
    let d = encode_utf8(CONTEXT_DOMAIN@).len() as int;
    let x = context.message();
    lemma_be_bytes_len(context.valid_until as nat, 8);
    assert(context.scope_digest@ =~= x.subrange(d, d + 32));
    assert(context.audience_digest@ =~= x.subrange(d + 32, d + 64));
    assert(context.action_digest@ =~= x.subrange(d + 64, d + 96));
    assert(context.request_digest@ =~= x.subrange(d + 96, d + 128));
    assert(context.challenge_nonce@ =~= x.subrange(d + 128, d + 160));
    assert(be_bytes(context.valid_until as nat, 8) =~= x.subrange(d + 160, d + 168));
}

/// What a holder signs about a request determines the statement of the request, the
/// announcement and the answers.
pub proof fn law_issuance_signature_binds(
    a: IssuanceProofModel,
    a_statement: Digest32,
    b: IssuanceProofModel,
    b_statement: Digest32,
)
    requires
        fields_message(a.signed_fields(a_statement)) == fields_message(
            b.signed_fields(b_statement),
        ),
    ensures
        a_statement == b_statement,
        (IssuanceProofModel { holder_signature: b.holder_signature, ..a }) == b,
{
    let (x, y) = (a.signed_fields(a_statement), b.signed_fields(b_statement));
    law_fields_unambiguous(x, y);
    assert(x[0] == y[0] && x[1] == y[1] && x[2] == y[2] && x[3] == y[3]);
    lemma_digest_injective(a_statement, b_statement);
    lemma_digest_injective(a.announcement_commitment, b.announcement_commitment);
    lemma_digest_injective(a.response_subject, b.response_subject);
    lemma_digest_injective(a.response_blinding, b.response_blinding);
}

/// What a subject line is hashed from determines the issuer, the scope, the policy and the
/// pseudonym.
pub proof fn law_subject_line_binds(a: PresentationModel, b: PresentationModel)
    requires
        a.line_message() == b.line_message(),
    ensures
        a.credential.issuer_id == b.credential.issuer_id,
        a.credential.scope_digest == b.credential.scope_digest,
        a.credential.policy_digest == b.credential.policy_digest,
        a.nullifier == b.nullifier,
{
    lemma_line_parts(a);
    lemma_line_parts(b);
    lemma_digest_injective(a.credential.issuer_id, b.credential.issuer_id);
    lemma_digest_injective(a.credential.scope_digest, b.credential.scope_digest);
    lemma_digest_injective(a.credential.policy_digest, b.credential.policy_digest);
    lemma_digest_injective(a.nullifier, b.nullifier);
}

/// Where the parts of a subject line stand in its message.
proof fn lemma_line_parts(p: PresentationModel)
    ensures
        ({
            let d = encode_utf8(SUBJECT_LINE_DOMAIN@).len() as int;
            let x = p.line_message();
            &&& x.len() == d + 128
            &&& p.credential.issuer_id@ == x.subrange(d, d + 32)
            &&& p.credential.scope_digest@ == x.subrange(d + 32, d + 64)
            &&& p.credential.policy_digest@ == x.subrange(d + 64, d + 96)
            &&& p.nullifier@ == x.subrange(d + 96, d + 128)
        }),
{
    let d = encode_utf8(SUBJECT_LINE_DOMAIN@).len() as int;
    let x = p.line_message();
    assert(p.credential.issuer_id@ =~= x.subrange(d, d + 32));
    assert(p.credential.scope_digest@ =~= x.subrange(d + 32, d + 64));
    assert(p.credential.policy_digest@ =~= x.subrange(d + 64, d + 96));
    assert(p.nullifier@ =~= x.subrange(d + 96, d + 128));
}

/// What the use of a context is hashed from determines the pseudonym and the digest of the
/// context.
pub proof fn law_context_use_binds(
    a_nullifier: [u8; 32],
    a_context: Digest32,
    b_nullifier: [u8; 32],
    b_context: Digest32,
)
    requires
        use_message(a_nullifier, a_context) == use_message(b_nullifier, b_context),
    ensures
        a_nullifier == b_nullifier,
        a_context == b_context,
{
    lemma_two_parts(encode_utf8(CONTEXT_USE_DOMAIN@), a_nullifier, a_context);
    lemma_two_parts(encode_utf8(CONTEXT_USE_DOMAIN@), b_nullifier, b_context);
    lemma_digest_injective(a_nullifier, b_nullifier);
    lemma_digest_injective(a_context, b_context);
}

/// What the context of a sealing is hashed from determines the digest of the credential and the
/// custody context.
pub proof fn law_sealing_context_binds(
    a_credential: Digest32,
    a_context: Digest32,
    b_credential: Digest32,
    b_context: Digest32,
)
    requires
        sealing_message(a_credential, a_context) == sealing_message(b_credential, b_context),
    ensures
        a_credential == b_credential,
        a_context == b_context,
{
    lemma_two_parts(encode_utf8(HOLDER_CUSTODY_DOMAIN@), a_credential, a_context);
    lemma_two_parts(encode_utf8(HOLDER_CUSTODY_DOMAIN@), b_credential, b_context);
    lemma_digest_injective(a_credential, b_credential);
    lemma_digest_injective(a_context, b_context);
}

/// Where two digests stand behind a domain.
proof fn lemma_two_parts(domain: Seq<u8>, first: Digest32, second: Digest32)
    ensures
        ({
            let d = domain.len() as int;
            let x = domain + first@ + second@;
            &&& first@ == x.subrange(d, d + 32)
            &&& second@ == x.subrange(d + 32, d + 64)
        }),
{
    let d = domain.len() as int;
    let x = domain + first@ + second@;
    assert(first@ =~= x.subrange(d, d + 32));
    assert(second@ =~= x.subrange(d + 32, d + 64));
}

/// A membership proof as far as its signed bytes determine it: a leaf digest stands for the
/// qualification.
pub open spec fn same_signed_proof(
    a: QualificationProofModel,
    b: QualificationProofModel,
) -> bool {
    &&& a.qualification.leaf() == b.qualification.leaf()
    &&& a.index == b.index
    &&& a.total == b.total
    &&& a.siblings == b.siblings
}

/// The number of siblings of every proof fits in eight bytes.
pub open spec fn countable(proofs: Seq<QualificationProofModel>) -> bool {
    forall|i: int| 0 <= i < proofs.len() ==> (#[trigger] proofs[i]).siblings.len() <= u64::MAX
}

/// What a holder signs determines the presentation: the digests of the credential and the
/// context, the pseudonym, the announcements, the answers, and every membership proof, in
/// number and order.
pub proof fn law_presentation_signature_binds(
    a: PresentationModel,
    a_credential: Digest32,
    a_context: Digest32,
    b: PresentationModel,
    b_credential: Digest32,
    b_context: Digest32,
)
    requires
        a.qualifications.len() <= u64::MAX,
        b.qualifications.len() <= u64::MAX,
        countable(a.qualifications),
        countable(b.qualifications),
        a.signed_bytes(a_credential, a_context) == b.signed_bytes(b_credential, b_context),
    ensures
        a_credential == b_credential,
        a_context == b_context,
        a.nullifier == b.nullifier,
        a.announcement_commitment == b.announcement_commitment,
        a.announcement_nullifier == b.announcement_nullifier,
        a.response_subject == b.response_subject,
        a.response_blinding == b.response_blinding,
        a.qualifications.len() == b.qualifications.len(),
        forall|i: int|
            0 <= i < a.qualifications.len() ==> same_signed_proof(
                #[trigger] a.qualifications[i],
                b.qualifications[i],
            ),
{
    lemma_presentation_parts(a, a_credential, a_context);
    lemma_presentation_parts(b, b_credential, b_context);
    lemma_digest_injective(a_credential, b_credential);
    lemma_digest_injective(a_context, b_context);
    lemma_digest_injective(a.nullifier, b.nullifier);
    lemma_digest_injective(a.announcement_commitment, b.announcement_commitment);
    lemma_digest_injective(a.announcement_nullifier, b.announcement_nullifier);
    lemma_digest_injective(a.response_subject, b.response_subject);
    lemma_digest_injective(a.response_blinding, b.response_blinding);
    lemma_u64_bytes_injective(a.qualifications.len() as u64, b.qualifications.len() as u64);
    lemma_signed_proofs_injective(a.qualifications, b.qualifications);
}

/// What a challenge is hashed from determines what was announced: presentations whose challenges
/// are hashed from the same bytes have the same digests of credential and context, the same
/// pseudonym and the same announcements; and where they show as many qualifications, with as many
/// siblings each, their membership proofs are the same, the leaf digests standing for the
/// qualifications.
pub proof fn law_presentation_challenge_binds(
    a: PresentationModel,
    a_credential: Digest32,
    a_context: Digest32,
    b: PresentationModel,
    b_credential: Digest32,
    b_context: Digest32,
)
    requires
        a.challenged_bytes(a_credential, a_context) == b.challenged_bytes(b_credential, b_context),
    ensures
        a_credential == b_credential,
        a_context == b_context,
        a.nullifier == b.nullifier,
        a.announcement_commitment == b.announcement_commitment,
        a.announcement_nullifier == b.announcement_nullifier,
        a.qualifications.len() == b.qualifications.len() && (forall|i: int|
            0 <= i < a.qualifications.len() ==> (#[trigger] a.qualifications[i]).siblings.len()
                == b.qualifications[i].siblings.len()) ==> forall|i: int|
            0 <= i < a.qualifications.len() ==> same_signed_proof(
                #[trigger] a.qualifications[i],
                b.qualifications[i],
            ),
{
    lemma_challenge_parts(a, a_credential, a_context);
    lemma_challenge_parts(b, b_credential, b_context);
    lemma_digest_injective(a_credential, b_credential);
    lemma_digest_injective(a_context, b_context);
    lemma_digest_injective(a.nullifier, b.nullifier);
    lemma_digest_injective(a.announcement_commitment, b.announcement_commitment);
    lemma_digest_injective(a.announcement_nullifier, b.announcement_nullifier);
    if a.qualifications.len() == b.qualifications.len() && (forall|i: int|
        0 <= i < a.qualifications.len() ==> (#[trigger] a.qualifications[i]).siblings.len()
            == b.qualifications[i].siblings.len()) {
        lemma_challenged_proofs_injective(a.qualifications, b.qualifications);
    }
}

/// Where the parts of a presentation stand in what its challenge is hashed from.
proof fn lemma_challenge_parts(
    p: PresentationModel,
    credential_digest: Digest32,
    context_digest: Digest32,
)
    ensures
        ({
            let d = encode_utf8("DEKYX:ANONYMOUS-PRESENTATION:v1"@).len() as int;
            let x = p.challenged_bytes(credential_digest, context_digest);
            &&& credential_digest@ == x.subrange(d, d + 32)
            &&& context_digest@ == x.subrange(d + 32, d + 64)
            &&& p.nullifier@ == x.subrange(d + 64, d + 96)
            &&& p.announcement_commitment@ == x.subrange(d + 96, d + 128)
            &&& p.announcement_nullifier@ == x.subrange(d + 128, d + 160)
            &&& challenged_proofs(p.qualifications) == x.skip(d + 160)
        }),
{
    let d = encode_utf8("DEKYX:ANONYMOUS-PRESENTATION:v1"@).len() as int;
    let x = p.challenged_bytes(credential_digest, context_digest);
    assert(credential_digest@ =~= x.subrange(d, d + 32));
    assert(context_digest@ =~= x.subrange(d + 32, d + 64));
    assert(p.nullifier@ =~= x.subrange(d + 64, d + 96));
    assert(p.announcement_commitment@ =~= x.subrange(d + 96, d + 128));
    assert(p.announcement_nullifier@ =~= x.subrange(d + 128, d + 160));
    assert(challenged_proofs(p.qualifications) =~= x.skip(d + 160));
}

proof fn lemma_challenged_proofs_injective(
    a: Seq<QualificationProofModel>,
    b: Seq<QualificationProofModel>,
)
    requires
        a.len() == b.len(),
        forall|i: int|
            0 <= i < a.len() ==> (#[trigger] a[i]).siblings.len() == b[i].siblings.len(),
        challenged_proofs(a) == challenged_proofs(b),
    ensures
        forall|i: int| 0 <= i < a.len() ==> same_signed_proof(#[trigger] a[i], b[i]),
    decreases a.len(),
{
    if a.len() > 0 {
        let (p, q) = (a.last(), b.last());
        let (ra, rb) = (a.drop_last(), b.drop_last());
        let (x, y) = (challenged_proofs(a), challenged_proofs(b));
        assert(a[a.len() - 1].siblings.len() == b[a.len() - 1].siblings.len());
        let n = p.siblings.len() as int;
        lemma_be_bytes_len(p.index as nat, 4);
        lemma_be_bytes_len(p.total as nat, 4);
        lemma_be_bytes_len(q.index as nat, 4);
        lemma_be_bytes_len(q.total as nat, 4);
        lemma_joined_len(p.siblings);
        lemma_joined_len(q.siblings);
        let k = x.len() - 40 - 32 * n;
        assert(challenged_proofs(ra) =~= x.take(k));
        assert(challenged_proofs(rb) =~= y.take(k));
        assert(p.qualification.leaf()@ =~= x.subrange(k, k + 32));
        assert(q.qualification.leaf()@ =~= y.subrange(k, k + 32));
        assert(be_bytes(p.index as nat, 4) =~= x.subrange(k + 32, k + 36));
        assert(be_bytes(q.index as nat, 4) =~= y.subrange(k + 32, k + 36));
        assert(be_bytes(p.total as nat, 4) =~= x.subrange(k + 36, k + 40));
        assert(be_bytes(q.total as nat, 4) =~= y.subrange(k + 36, k + 40));
        assert(joined(p.siblings) =~= x.skip(k + 40));
        assert(joined(q.siblings) =~= y.skip(k + 40));
        lemma_digest_injective(p.qualification.leaf(), q.qualification.leaf());
        lemma_u32_bytes_injective(p.index, q.index);
        lemma_u32_bytes_injective(p.total, q.total);
        lemma_joined_injective(p.siblings, q.siblings);
        assert forall|i: int| 0 <= i < ra.len() implies (#[trigger] ra[i]).siblings.len()
            == rb[i].siblings.len() by {
            assert(a[i].siblings.len() == b[i].siblings.len());
        }
        lemma_challenged_proofs_injective(ra, rb);
        assert forall|i: int| 0 <= i < a.len() implies same_signed_proof(#[trigger] a[i], b[i]) by {
            if i < a.len() - 1 {
                assert(same_signed_proof(ra[i], rb[i]));
            }
        }
    }
}

/// The digest of a presentation determines what the holder signed and the signature, as long as
/// SHA-256 tells the messages that are hashed in making the two digests apart.
pub proof fn law_presentation_digest_binds(
    a: PresentationModel,
    a_reports: SignatureReports,
    b: PresentationModel,
    b_reports: SignatureReports,
)
    requires
        a.identity(a_reports) is Ok,
        a.identity(a_reports) == b.identity(b_reports),
        told_apart(a.digest_messages(a_reports).union(b.digest_messages(b_reports))),
    ensures
        a.holder_signature == b.holder_signature,
        a.signing_message(a_reports) == b.signing_message(b_reports),
        a.signed_bytes(a.credential.digest(a_reports)->Ok_0, a.context.identity()->Ok_0)
            == b.signed_bytes(b.credential.digest(b_reports)->Ok_0, b.context.identity()->Ok_0),
{
    let domain = encode_utf8(PRESENTATION_DOMAIN@);
    let d = domain.len() as int;
    let x = a.signed_bytes(a.credential.digest(a_reports)->Ok_0, a.context.identity()->Ok_0);
    let y = b.signed_bytes(b.credential.digest(b_reports)->Ok_0, b.context.identity()->Ok_0);
    let f = seq![sha256_digest(x)@, a.holder_signature];
    let g = seq![sha256_digest(y)@, b.holder_signature];
    let (m, n) = (domain + fields_message(f), domain + fields_message(g));
    let messages = a.digest_messages(a_reports).union(b.digest_messages(b_reports));
    assert(messages.contains(x) && messages.contains(y));
    assert(messages.contains(m) && messages.contains(n));
    assert(sha256_digest(m) == sha256_digest(n));
    assert(fields_message(f) =~= m.skip(d));
    assert(fields_message(g) =~= n.skip(d));
    law_fields_unambiguous(f, g);
    assert(f[0] == g[0] && f[1] == g[1]);
    lemma_digest_injective(sha256_digest(x), sha256_digest(y));
}

/// Presenting anew gives another digest under the same pseudonym: two presentations of one
/// credential by one witness in one context, with the same qualifications and from other nonces,
/// have different digests, as long as SHA-256 tells the messages that are hashed in making the
/// digests apart.
pub proof fn law_fresh_nonces_give_fresh_digest(
    first: UnsignedPresentation,
    second: UnsignedPresentation,
    credential: CredentialModel,
    witness: WitnessModel,
    context: PresentationContext,
    required: Seq<QualificationModel>,
    nonces: (nat, nat),
    other_nonces: (nat, nat),
    signature: Seq<u8>,
    other_signature: Seq<u8>,
    reports: SignatureReports,
    other_reports: SignatureReports,
)
    requires
        first.presents(credential, witness, context, required, nonces.0, nonces.1, reports),
        second.presents(
            credential,
            witness,
            context,
            required,
            other_nonces.0,
            other_nonces.1,
            other_reports,
        ),
        nonces.0 < group_order(),
        nonces.1 < group_order(),
        other_nonces.0 < group_order(),
        other_nonces.1 < group_order(),
        nonces != other_nonces,
        signature.len() == ML_DSA_65_SIG_BYTES,
        other_signature.len() == ML_DSA_65_SIG_BYTES,
        told_apart(
            first.presentation_with(signature).digest_messages(reports).union(
                second.presentation_with(other_signature).digest_messages(other_reports),
            ),
        ),
    ensures
        first.presentation_with(signature).nullifier == second.presentation_with(
            other_signature,
        ).nullifier,
        first.presentation_with(signature).identity(reports) is Ok,
        second.presentation_with(other_signature).identity(other_reports) is Ok,
        first.presentation_with(signature).identity(reports) != second.presentation_with(
            other_signature,
        ).identity(other_reports),
{
    let (p, q) = (first.presentation_with(signature), second.presentation_with(other_signature));
    first.lemma_signature_only(signature);
    second.lemma_signature_only(other_signature);
    let (p0, q0) = (
        first.presentation_with(Seq::empty()),
        second.presentation_with(Seq::empty()),
    );
    assert(p.signing_message(reports) == p0.signing_message(reports));
    assert(q.signing_message(other_reports) == q0.signing_message(other_reports));
    if p.identity(reports) == q.identity(other_reports) {
        law_presentation_digest_binds(p, reports, q, other_reports);
        let (pc, qc) = (
            credential.digest(reports)->Ok_0,
            credential.digest(other_reports)->Ok_0,
        );
        let x = context.identity()->Ok_0;
        lemma_presentation_parts(p, pc, x);
        lemma_presentation_parts(q, qc, x);
        lemma_digest_injective(pc, qc);
        lemma_digest_injective(p.announcement_commitment, q.announcement_commitment);
        lemma_digest_injective(p.announcement_nullifier, q.announcement_nullifier);
        lemma_digest_injective(p.response_subject, q.response_subject);
        lemma_digest_injective(p.response_blinding, q.response_blinding);
        assert(p.qualifications =~= q.qualifications) by {
            assert forall|i: int| 0 <= i < required.len() implies p.qualifications[i]
                == q.qualifications[i] by {
                assert(proof_of(witness.qualifications, required[i]) == Ok::<
                    QualificationProofModel,
                    DeKyxError,
                >(p.qualifications[i]));
            }
        }
        assert(p.challenge(reports) == q.challenge(other_reports));
        let challenge = p.challenge(reports)->Ok_0;
        if nonces.0 != other_nonces.0 {
            law_nonce_changes_answer(nonces.0, other_nonces.0, challenge, witness.secret);
        } else {
            law_nonce_changes_answer(nonces.1, other_nonces.1, challenge, witness.blinding);
        }
    }
}

/// What a verifier sees of one secret in two scopes differs: presentations under it have
/// different pseudonyms, different subject lines and different digests. This holds for an
/// invertible secret where the generators for the pseudonyms of the two scopes are different
/// elements, and, of the lines and the digests, as long as SHA-256 tells the messages that are
/// hashed in making them apart.
pub proof fn law_scopes_look_different(
    a: PresentationModel,
    a_reports: SignatureReports,
    b: PresentationModel,
    b_reports: SignatureReports,
    secret: nat,
)
    requires
        encodes(a.nullifier, pseudonym(a.credential.scope_digest, secret)),
        encodes(b.nullifier, pseudonym(b.credential.scope_digest, secret)),
        invertible(secret),
        nullifier_multiple(a.credential.scope_digest) % group_order() != nullifier_multiple(
            b.credential.scope_digest,
        ) % group_order(),
    ensures
        a.nullifier != b.nullifier,
        told_apart(set![a.line_message(), b.line_message()]) ==> a.subject_line()
            != b.subject_line(),
        a.identity(a_reports) is Ok && told_apart(
            a.digest_messages(a_reports).union(b.digest_messages(b_reports)),
        ) ==> a.identity(a_reports) != b.identity(b_reports),
{
    law_scope_changes_pseudonym(a.credential.scope_digest, b.credential.scope_digest, secret);
    let lines = set![a.line_message(), b.line_message()];
    if told_apart(lines) && a.subject_line() == b.subject_line() {
        assert(lines.contains(a.line_message()) && lines.contains(b.line_message()));
        law_subject_line_binds(a, b);
    }
    if a.identity(a_reports) is Ok && told_apart(
        a.digest_messages(a_reports).union(b.digest_messages(b_reports)),
    ) && a.identity(a_reports) == b.identity(b_reports) {
        law_presentation_digest_binds(a, a_reports, b, b_reports);
        let (ac, bc) = (
            a.credential.digest(a_reports)->Ok_0,
            b.credential.digest(b_reports)->Ok_0,
        );
        lemma_presentation_parts(a, ac, a.context.identity()->Ok_0);
        lemma_presentation_parts(b, bc, b.context.identity()->Ok_0);
        lemma_digest_injective(a.nullifier, b.nullifier);
    }
}

/// Where the parts of a presentation stand in what the holder signs.
proof fn lemma_presentation_parts(
    p: PresentationModel,
    credential_digest: Digest32,
    context_digest: Digest32,
)
    ensures
        ({
            let d = encode_utf8(HOLDER_PRESENTATION_DOMAIN@).len() as int;
            let x = p.signed_bytes(credential_digest, context_digest);
            &&& x.len() >= d + 232
            &&& credential_digest@ == x.subrange(d, d + 32)
            &&& context_digest@ == x.subrange(d + 32, d + 64)
            &&& p.nullifier@ == x.subrange(d + 64, d + 96)
            &&& p.announcement_commitment@ == x.subrange(d + 96, d + 128)
            &&& p.announcement_nullifier@ == x.subrange(d + 128, d + 160)
            &&& p.response_subject@ == x.subrange(d + 160, d + 192)
            &&& p.response_blinding@ == x.subrange(d + 192, d + 224)
            &&& be_bytes(p.qualifications.len(), 8) == x.subrange(d + 224, d + 232)
            &&& signed_proofs(p.qualifications) == x.skip(d + 232)
        }),
{
    let d = encode_utf8(HOLDER_PRESENTATION_DOMAIN@).len() as int;
    let x = p.signed_bytes(credential_digest, context_digest);
    lemma_be_bytes_len(p.qualifications.len(), 8);
    assert(credential_digest@ =~= x.subrange(d, d + 32));
    assert(context_digest@ =~= x.subrange(d + 32, d + 64));
    assert(p.nullifier@ =~= x.subrange(d + 64, d + 96));
    assert(p.announcement_commitment@ =~= x.subrange(d + 96, d + 128));
    assert(p.announcement_nullifier@ =~= x.subrange(d + 128, d + 160));
    assert(p.response_subject@ =~= x.subrange(d + 160, d + 192));
    assert(p.response_blinding@ =~= x.subrange(d + 192, d + 224));
    assert(be_bytes(p.qualifications.len(), 8) =~= x.subrange(d + 224, d + 232));
    assert(signed_proofs(p.qualifications) =~= x.skip(d + 232));
}

proof fn lemma_signed_proofs_front(proofs: Seq<QualificationProofModel>)
    requires
        proofs.len() > 0,
    ensures
        signed_proofs(proofs) == signed_proof(proofs[0]) + signed_proofs(proofs.drop_first()),
    decreases proofs.len(),
{
    let rest = proofs.drop_first();
    if proofs.len() == 1 {
        assert(signed_proofs(proofs.drop_last()) =~= Seq::<u8>::empty());
        assert(signed_proofs(rest) =~= Seq::<u8>::empty());
        assert(signed_proofs(proofs) =~= signed_proof(proofs[0]));
        assert(signed_proof(proofs[0]) + signed_proofs(rest) =~= signed_proof(proofs[0]));
    } else {
        let init = proofs.drop_last();
        lemma_signed_proofs_front(init);
        assert(init[0] == proofs[0]);
        assert(init.drop_first() =~= rest.drop_last());
        assert(rest.last() == proofs.last());
        assert(signed_proofs(proofs) =~= signed_proof(proofs[0]) + (signed_proofs(rest.drop_last())
            + signed_proof(rest.last())));
    }
}

proof fn lemma_signed_proofs_injective(
    a: Seq<QualificationProofModel>,
    b: Seq<QualificationProofModel>,
)
    requires
        a.len() == b.len(),
        countable(a),
        countable(b),
        signed_proofs(a) == signed_proofs(b),
    ensures
        forall|i: int| 0 <= i < a.len() ==> same_signed_proof(#[trigger] a[i], b[i]),
    decreases a.len(),
{
    if a.len() > 0 {
        let (p, q) = (a[0], b[0]);
        let (ra, rb) = (a.drop_first(), b.drop_first());
        lemma_signed_proofs_front(a);
        lemma_signed_proofs_front(b);
        lemma_signed_proof_parts(p, signed_proofs(ra));
        lemma_signed_proof_parts(q, signed_proofs(rb));
        lemma_digest_injective(p.qualification.leaf(), q.qualification.leaf());
        lemma_u32_bytes_injective(p.index, q.index);
        lemma_u32_bytes_injective(p.total, q.total);
        lemma_u64_bytes_injective(p.siblings.len() as u64, q.siblings.len() as u64);
        lemma_joined_injective(p.siblings, q.siblings);
        assert forall|i: int| 0 <= i < ra.len() implies (#[trigger] ra[i]).siblings.len()
            <= u64::MAX by {
            assert(ra[i] == a[i + 1]);
        }
        assert forall|i: int| 0 <= i < rb.len() implies (#[trigger] rb[i]).siblings.len()
            <= u64::MAX by {
            assert(rb[i] == b[i + 1]);
        }
        lemma_signed_proofs_injective(ra, rb);
        assert forall|i: int| 0 <= i < a.len() implies same_signed_proof(#[trigger] a[i], b[i]) by {
            if i > 0 {
                assert(same_signed_proof(ra[i - 1], rb[i - 1]));
            }
        }
    }
}

/// Where the parts of a membership proof stand in its signed bytes.
proof fn lemma_signed_proof_parts(p: QualificationProofModel, rest: Seq<u8>)
    ensures
        ({
            let x = signed_proof(p) + rest;
            let n = p.siblings.len() as int;
            &&& x.len() == 48 + 32 * n + rest.len()
            &&& p.qualification.leaf()@ == x.subrange(0, 32)
            &&& be_bytes(p.index as nat, 4) == x.subrange(32, 36)
            &&& be_bytes(p.total as nat, 4) == x.subrange(36, 40)
            &&& be_bytes(p.siblings.len(), 8) == x.subrange(40, 48)
            &&& joined(p.siblings) == x.subrange(48, 48 + 32 * n)
            &&& rest == x.skip(48 + 32 * n)
        }),
{
    let x = signed_proof(p) + rest;
    let n = p.siblings.len() as int;
    lemma_be_bytes_len(p.index as nat, 4);
    lemma_be_bytes_len(p.total as nat, 4);
    lemma_be_bytes_len(p.siblings.len(), 8);
    lemma_joined_len(p.siblings);
    assert(p.qualification.leaf()@ =~= x.subrange(0, 32));
    assert(be_bytes(p.index as nat, 4) =~= x.subrange(32, 36));
    assert(be_bytes(p.total as nat, 4) =~= x.subrange(36, 40));
    assert(be_bytes(p.siblings.len(), 8) =~= x.subrange(40, 48));
    assert(joined(p.siblings) =~= x.subrange(48, 48 + 32 * n));
    assert(rest =~= x.skip(48 + 32 * n));
}

/// Four bytes determine a number.
proof fn lemma_u32_bytes_injective(a: u32, b: u32)
    requires
        be_bytes(a as nat, 4) == be_bytes(b as nat, 4),
    ensures
        a == b,
{
    assert(vstd::arithmetic::power::pow(256, 4) == 0x1_0000_0000) by {
        reveal_with_fuel(vstd::arithmetic::power::pow, 5);
    }
    lemma_be_bytes_injective(a as nat, b as nat, 4);
}

} // verus!
