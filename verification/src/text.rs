//! The text keys under which issuer epochs are filed.
use vstd::prelude::*;

use crate::bytes::Identifier;

verus! {

/// The digits of lowercase hexadecimal.
pub open spec fn digits() -> Seq<char> {
    seq!['0', '1', '2', '3', '4', '5', '6', '7', '8', '9', 'a', 'b', 'c', 'd', 'e', 'f']
}

/// Two lowercase hexadecimal digits for every byte.
pub open spec fn hex_text(bytes: Seq<u8>) -> Seq<char>
    decreases bytes.len(),
{
    if bytes.len() == 0 {
        Seq::empty()
    } else {
        hex_text(bytes.drop_last()).push(digits()[bytes.last() as int / 16]).push(
            digits()[bytes.last() as int % 16],
        )
    }
}

/// A number in decimal, without leading zeros.
pub open spec fn decimal_text(value: nat) -> Seq<char>
    decreases value,
{
    if value < 10 {
        seq![digits()[value as int]]
    } else {
        decimal_text(value / 10).push(digits()[(value % 10) as int])
    }
}

/// The key of an issuer epoch: the identifier in hexadecimal, a colon, and the epoch in
/// decimal.
pub open spec fn issuer_key_text(issuer_id: Identifier, key_epoch: u64) -> Seq<char> {
    hex_text(issuer_id@).push(':') + decimal_text(key_epoch as nat)
}

/// One digit as text.
fn digit(value: u8) -> (r: &'static str)
    requires
        value < 16,
    ensures
        r@ == seq![digits()[value as int]],
{
    proof {
        reveal_strlit("0");
        reveal_strlit("1");
        reveal_strlit("2");
        reveal_strlit("3");
        reveal_strlit("4");
        reveal_strlit("5");
        reveal_strlit("6");
        reveal_strlit("7");
        reveal_strlit("8");
        reveal_strlit("9");
        reveal_strlit("a");
        reveal_strlit("b");
        reveal_strlit("c");
        reveal_strlit("d");
        reveal_strlit("e");
        reveal_strlit("f");
    }
    match value {
        0 => "0",
        1 => "1",
        2 => "2",
        3 => "3",
        4 => "4",
        5 => "5",
        6 => "6",
        7 => "7",
        8 => "8",
        9 => "9",
        10 => "a",
        11 => "b",
        12 => "c",
        13 => "d",
        14 => "e",
        _ => "f",
    }
}

/// Appends a number in decimal.
fn append_decimal(out: &mut String, value: u64)
    ensures
        final(out)@ == old(out)@ + decimal_text(value as nat),
    decreases value,
{
    let ghost before = out@;
    if value >= 10 {
        append_decimal(out, value / 10);
    }
    out.append(digit((value % 10) as u8));
    assert(out@ =~= before + decimal_text(value as nat));
}

/// The key of an issuer epoch.
pub fn issuer_key(issuer_id: &Identifier, key_epoch: u64) -> (r: String)
    ensures
        r@ == issuer_key_text(*issuer_id, key_epoch),
{
    let mut out = String::new();
    let mut i: usize = 0;
    while i < 32
        invariant
            i <= 32,
            out@ == hex_text(issuer_id@.take(i as int)),
        decreases 32 - i,
    {
        let ghost next = issuer_id@.take(i + 1);
        assert(next.drop_last() =~= issuer_id@.take(i as int));
        assert(next.last() == issuer_id@[i as int]);
        let byte = issuer_id[i];
        out.append(digit(byte / 16));
        out.append(digit(byte % 16));
        assert(out@ =~= hex_text(next));
        i += 1;
    }
    assert(issuer_id@.take(32) =~= issuer_id@);
    proof {
        reveal_strlit(":");
    }
    out.append(":");
    assert(out@ =~= hex_text(issuer_id@).push(':'));
    append_decimal(&mut out, key_epoch);
    out
}

proof fn lemma_digits_distinct(a: int, b: int)
    requires
        0 <= a < 16,
        0 <= b < 16,
        digits()[a] == digits()[b],
    ensures
        a == b,
{
}

proof fn lemma_hex_text_len(bytes: Seq<u8>)
    ensures
        hex_text(bytes).len() == 2 * bytes.len(),
    decreases bytes.len(),
{
    if bytes.len() > 0 {
        lemma_hex_text_len(bytes.drop_last());
    }
}

proof fn lemma_hex_text_injective(a: Seq<u8>, b: Seq<u8>)
    requires
        hex_text(a) == hex_text(b),
    ensures
        a == b,
    decreases a.len(),
{
    lemma_hex_text_len(a);
    lemma_hex_text_len(b);
    if a.len() > 0 {
        let (x, y) = (hex_text(a), hex_text(b));
        assert(x.drop_last().drop_last() =~= hex_text(a.drop_last()));
        assert(y.drop_last().drop_last() =~= hex_text(b.drop_last()));
        lemma_hex_text_injective(a.drop_last(), b.drop_last());
        assert(x[x.len() - 1] == digits()[a.last() as int % 16]);
        assert(y[y.len() - 1] == digits()[b.last() as int % 16]);
        assert(x[x.len() - 2] == digits()[a.last() as int / 16]);
        assert(y[y.len() - 2] == digits()[b.last() as int / 16]);
        lemma_digits_distinct(a.last() as int % 16, b.last() as int % 16);
        lemma_digits_distinct(a.last() as int / 16, b.last() as int / 16);
        assert(a.last() == b.last());
        assert(a =~= a.drop_last().push(a.last()));
        assert(b =~= b.drop_last().push(b.last()));
    } else {
        assert(a =~= b);
    }
}

proof fn lemma_decimal_text_injective(a: nat, b: nat)
    requires
        decimal_text(a) == decimal_text(b),
    ensures
        a == b,
    decreases a,
{
    let (x, y) = (decimal_text(a), decimal_text(b));
    assert(x.last() == digits()[(a % 10) as int]);
    assert(y.last() == digits()[(b % 10) as int]);
    lemma_digits_distinct((a % 10) as int, (b % 10) as int);
    if a >= 10 {
        assert(x.drop_last() =~= decimal_text(a / 10));
        assert(decimal_text(a / 10).len() > 0);
        if b < 10 {
            assert(y.len() == 1);
        }
        assert(y.drop_last() =~= decimal_text(b / 10));
        lemma_decimal_text_injective(a / 10, b / 10);
    } else if b >= 10 {
        assert(decimal_text(b / 10).len() > 0);
        assert(y.len() > 1);
    }
}

/// Issuer epochs have distinct keys: a key names one issuer and one epoch.
pub proof fn law_issuer_key_injective(
    a: Identifier,
    a_epoch: u64,
    b: Identifier,
    b_epoch: u64,
)
    requires
        issuer_key_text(a, a_epoch) == issuer_key_text(b, b_epoch),
    ensures
        a == b,
        a_epoch == b_epoch,
{
    let (x, y) = (issuer_key_text(a, a_epoch), issuer_key_text(b, b_epoch));
    lemma_hex_text_len(a@);
    lemma_hex_text_len(b@);
    assert(hex_text(a@) =~= x.take(64));
    assert(hex_text(b@) =~= y.take(64));
    lemma_hex_text_injective(a@, b@);
    assert(a =~= b);
    assert(decimal_text(a_epoch as nat) =~= x.skip(65));
    assert(decimal_text(b_epoch as nat) =~= y.skip(65));
    lemma_decimal_text_injective(a_epoch as nat, b_epoch as nat);
}

/// The number that decimal digits stand for.
pub open spec fn decimal_value(text: Seq<char>) -> nat
    decreases text.len(),
{
    if text.len() == 0 {
        0
    } else {
        10 * decimal_value(text.drop_last()) + (text.last() as nat - '0' as nat) as nat
    }
}

/// A number in decimal reads back as that number, and does not start with a zero unless it is
/// zero.
pub proof fn law_decimal_reads_back(value: nat)
    ensures
        decimal_text(value).len() > 0,
        decimal_value(decimal_text(value)) == value,
        value > 0 ==> decimal_text(value)[0] != '0',
    decreases value,
{
    let text = decimal_text(value);
    let last = digits()[(value % 10) as int];
    assert(last as nat == '0' as nat + value % 10);
    if value < 10 {
        assert(text.drop_last() =~= Seq::<char>::empty());
        assert(decimal_value(text.drop_last()) == 0);
    } else {
        law_decimal_reads_back(value / 10);
        assert(text.drop_last() =~= decimal_text(value / 10));
        assert(text[0] == decimal_text(value / 10)[0]);
    }
}

/// The key of an issuer epoch is 64 hexadecimal digits, two for every byte of the identifier in
/// order, a colon, and the epoch in decimal.
pub proof fn law_issuer_key_format(issuer_id: Identifier, key_epoch: u64, i: int)
    requires
        0 <= i < 32,
    ensures
        ({
            let text = issuer_key_text(issuer_id, key_epoch);
            &&& text.len() > 65
            &&& text[2 * i] == "0123456789abcdef"@[issuer_id[i] as int / 16]
            &&& text[2 * i + 1] == "0123456789abcdef"@[issuer_id[i] as int % 16]
            &&& text[64] == ':'
            &&& decimal_value(text.skip(65)) == key_epoch
        }),
{
    reveal_strlit("0123456789abcdef");
    assert(digits() =~= "0123456789abcdef"@);
    let text = issuer_key_text(issuer_id, key_epoch);
    lemma_hex_text_len(issuer_id@);
    lemma_hex_digits(issuer_id@, i);
    law_decimal_reads_back(key_epoch as nat);
    assert(text.skip(65) =~= decimal_text(key_epoch as nat));
    assert(text[2 * i] == hex_text(issuer_id@)[2 * i]);
    assert(text[2 * i + 1] == hex_text(issuer_id@)[2 * i + 1]);
}

proof fn lemma_hex_digits(bytes: Seq<u8>, i: int)
    requires
        0 <= i < bytes.len(),
    ensures
        hex_text(bytes).len() == 2 * bytes.len(),
        hex_text(bytes)[2 * i] == digits()[bytes[i] as int / 16],
        hex_text(bytes)[2 * i + 1] == digits()[bytes[i] as int % 16],
    decreases bytes.len(),
{
    lemma_hex_text_len(bytes);
    lemma_hex_text_len(bytes.drop_last());
    if i < bytes.len() - 1 {
        lemma_hex_digits(bytes.drop_last(), i);
    }
}

} // verus!
