//! Digests over lists of byte fields, each preceded by its length.
use vstd::prelude::*;
use vstd::utf8::encode_utf8;

use crate::bytes::{
    append, append_u32, be_bytes, lemma_be_bytes_injective, lemma_be_bytes_len, Digest32,
};
use crate::hash::{sha256, sha256_digest};

verus! {

/// A field: its length in four bytes, and then its bytes.
pub open spec fn field_message(field: Seq<u8>) -> Seq<u8> {
    be_bytes((field.len() as u32) as nat, 4) + field
}

/// The fields, one after the other.
pub open spec fn fields_message(fields: Seq<Seq<u8>>) -> Seq<u8>
    decreases fields.len(),
{
    if fields.len() == 0 {
        Seq::empty()
    } else {
        field_message(fields[0]) + fields_message(fields.drop_first())
    }
}

/// The digest of a list of fields under a domain.
pub open spec fn fields_digest(domain: Seq<char>, fields: Seq<Seq<u8>>) -> Digest32 {
    sha256_digest(encode_utf8(domain) + fields_message(fields))
}

/// The contents of a list of fields.
pub open spec fn field_contents(fields: Seq<&[u8]>) -> Seq<Seq<u8>> {
    fields.map_values(|field: &[u8]| field@)
}

/// The digest of a list of fields under a domain.
pub(crate) fn digest_fields(domain: &str, fields: &[&[u8]]) -> (r: Digest32)
    ensures
        r == fields_digest(domain@, field_contents(fields@)),
{
    let ghost contents = field_contents(fields@);
    let ghost goal = encode_utf8(domain@) + fields_message(contents);
    let mut message: Vec<u8> = Vec::new();
    append(&mut message, domain.as_bytes());
    let mut i: usize = 0;
    assert(contents.skip(0) =~= contents);
    assert(message@ =~= encode_utf8(domain@));
    while i < fields.len()
        invariant
            i <= fields.len(),
            contents == field_contents(fields@),
            goal == message@ + fields_message(contents.skip(i as int)),
        decreases fields.len() - i,
    {
        let ghost rest = contents.skip(i as int);
        let ghost before = message@;
        let field = fields[i];
        assert(rest[0] == field@);
        assert(rest.drop_first() =~= contents.skip(i + 1));
        append_u32(&mut message, field.len() as u32);
        append(&mut message, field);
        assert(message@ =~= before + field_message(field@));
        assert(message@ + fields_message(rest.drop_first()) =~= before + fields_message(rest));
        i += 1;
    }
    assert(message@ =~= goal) by {
        assert(contents.skip(i as int) =~= Seq::<Seq<u8>>::empty());
    }
    sha256(message.as_slice())
}

/// The fields can be told apart again: lists of fields with the same bytes are equal, as long
/// as the length of every field fits in four bytes.
pub proof fn law_fields_unambiguous(a: Seq<Seq<u8>>, b: Seq<Seq<u8>>)
    requires
        forall|i: int| 0 <= i < a.len() ==> (#[trigger] a[i]).len() <= u32::MAX,
        forall|i: int| 0 <= i < b.len() ==> (#[trigger] b[i]).len() <= u32::MAX,
        fields_message(a) == fields_message(b),
    ensures
        a == b,
    decreases a.len(),
{
    let (x, y) = (fields_message(a), fields_message(b));
    if a.len() > 0 {
        lemma_be_bytes_len((a[0].len() as u32) as nat, 4);
        assert(x.len() >= 4);
    }
    if b.len() > 0 {
        lemma_be_bytes_len((b[0].len() as u32) as nat, 4);
        assert(y.len() >= 4);
    }
    if a.len() > 0 && b.len() > 0 {
        let (m, n) = (a[0].len(), b[0].len());
        assert((m as u32) as nat == m);
        assert((n as u32) as nat == n);
        assert(be_bytes(m, 4) =~= x.take(4));
        assert(be_bytes(n, 4) =~= y.take(4));
        vstd::arithmetic::power::lemma_pow_positive(256, 4);
        assert(vstd::arithmetic::power::pow(256, 4) == 0x1_0000_0000) by {
            reveal_with_fuel(vstd::arithmetic::power::pow, 5);
        }
        lemma_be_bytes_injective(m, n, 4);
        assert(a[0] =~= x.subrange(4, 4 + m as int));
        assert(b[0] =~= y.subrange(4, 4 + n as int));
        assert(fields_message(a.drop_first()) =~= x.skip(4 + m as int));
        assert(fields_message(b.drop_first()) =~= y.skip(4 + n as int));
        assert forall|i: int| 0 <= i < a.drop_first().len() implies (#[trigger] a.drop_first()[i]).len()
            <= u32::MAX by {
            assert(a.drop_first()[i] == a[i + 1]);
        }
        assert forall|i: int| 0 <= i < b.drop_first().len() implies (#[trigger] b.drop_first()[i]).len()
            <= u32::MAX by {
            assert(b.drop_first()[i] == b[i + 1]);
        }
        law_fields_unambiguous(a.drop_first(), b.drop_first());
        assert(a =~= seq![a[0]] + a.drop_first());
        assert(b =~= seq![b[0]] + b.drop_first());
    } else {
        assert(a =~= b);
    }
}

/// A field is framed by its length in four bytes, and fields follow one another.
pub proof fn law_fields_are_framed(first: Seq<u8>, rest: Seq<Seq<u8>>)
    requires
        first.len() <= u32::MAX,
    ensures
        fields_message(Seq::<Seq<u8>>::empty()) == Seq::<u8>::empty(),
        fields_message(seq![first] + rest) == be_bytes(first.len(), 4) + first + fields_message(rest),
{
    let all = seq![first] + rest;
    assert(all[0] == first);
    assert(all.drop_first() =~= rest);
    assert((first.len() as u32) as nat == first.len());
}

} // verus!
