//! How the hashed keys treat the spelling of an address or a slot: a leading
//! `0x` and the case of the hexadecimal digits make no difference.
use vstd::prelude::*;
use vstd::utf8::{encode_utf8, encode_scalar, has_width_1_encoding, leading_byte_width_1};
use crate::hexcodec::{hex_decoded, hex_digit_value, without_hex_prefixes};
use crate::keys::{access_key_hash, key_hashes, key_texts};

verus! {

/// A hexadecimal digit `a`-`f` in upper case; any other character as it is.
pub open spec fn upper_hex_char(c: char) -> char {
    if c == 'a' {
        'A'
    } else if c == 'b' {
        'B'
    } else if c == 'c' {
        'C'
    } else if c == 'd' {
        'D'
    } else if c == 'e' {
        'E'
    } else if c == 'f' {
        'F'
    } else {
        c
    }
}

/// A text with its hexadecimal digits `a`-`f` in upper case.
pub open spec fn upper_hex_digits(s: Seq<char>) -> Seq<char> {
    s.map_values(|c: char| upper_hex_char(c))
}

/// A byte `a`-`f` in upper case; any other byte as it is.
pub open spec fn upper_hex_byte(b: u8) -> u8 {
    if 97 <= b <= 102 {
        (b - 32) as u8
    } else {
        b
    }
}

pub open spec fn upper_hex_bytes(b: Seq<u8>) -> Seq<u8> {
    b.map_values(|x: u8| upper_hex_byte(x))
}

proof fn lemma_width_1(v: u32)
    requires
        v <= 0x7F,
    ensures
        encode_scalar(v) == seq![v as u8],
{
    assert(has_width_1_encoding(v));
    assert((v & 0x7F) as u8 == v as u8) by (bit_vector)
        requires
            v <= 0x7F,
    ;
    assert(leading_byte_width_1(v) == v as u8);
}

proof fn lemma_encode_scalar_upper(c: char)
    ensures
        encode_scalar(upper_hex_char(c) as u32) == upper_hex_bytes(encode_scalar(c as u32)),
{
    let v = c as u32;
    let u = upper_hex_char(c) as u32;
    if 97 <= v <= 102 {
        assert(u == v - 32);
        lemma_width_1(v);
        lemma_width_1(u);
        assert(upper_hex_bytes(seq![v as u8]) =~= seq![u as u8]);
    } else {
        assert(u == v);
        let e = encode_scalar(v);
        if v <= 0x7F {
            lemma_width_1(v);
            assert(upper_hex_bytes(e) =~= e);
        } else {
            assert forall|i: int| 0 <= i < e.len() implies e[i] >= 0x80 by {
                assert((0xC0u8 | ((v >> 6) & 0x1F) as u8) >= 0x80u8) by (bit_vector);
                assert((0xE0u8 | ((v >> 12) & 0x0F) as u8) >= 0x80u8) by (bit_vector);
                assert((0xF0u8 | ((v >> 18) & 0x7) as u8) >= 0x80u8) by (bit_vector);
                assert((0x80u8 | (v & 0x3F) as u8) >= 0x80u8) by (bit_vector);
                assert((0x80u8 | ((v >> 6) & 0x3F) as u8) >= 0x80u8) by (bit_vector);
                assert((0x80u8 | ((v >> 12) & 0x3F) as u8) >= 0x80u8) by (bit_vector);
            }
            assert(upper_hex_bytes(e) =~= e);
        }
    }
}

/// Upper-casing the digits of a text upper-cases them in its UTF-8 bytes.
pub proof fn lemma_encode_upper_hex_digits(s: Seq<char>)
    ensures
        encode_utf8(upper_hex_digits(s)) == upper_hex_bytes(encode_utf8(s)),
    decreases s.len(),
{
    if s.len() > 0 {
        let u = upper_hex_digits(s);
        assert(u[0] == upper_hex_char(s[0]));
        assert(u.drop_first() =~= upper_hex_digits(s.drop_first()));
        lemma_encode_upper_hex_digits(s.drop_first());
        lemma_encode_scalar_upper(s[0]);
        let a = encode_scalar(s[0] as u32);
        let b = encode_utf8(s.drop_first());
        assert(upper_hex_bytes(a + b) =~= upper_hex_bytes(a) + upper_hex_bytes(b));
    } else {
        assert(upper_hex_digits(s) =~= s);
        assert(upper_hex_bytes(encode_utf8(s)) =~= encode_utf8(s));
    }
}

/// Taking off leading `0x` and upper-casing the digits can be done in either order.
pub proof fn lemma_prefixes_upper_hex_bytes(b: Seq<u8>)
    ensures
        without_hex_prefixes(upper_hex_bytes(b)) == upper_hex_bytes(without_hex_prefixes(b)),
    decreases b.len(),
{
    let u = upper_hex_bytes(b);
    if b.len() >= 2 && b[0] == 48 && b[1] == 120 {
        assert(u.skip(2) =~= upper_hex_bytes(b.skip(2)));
        lemma_prefixes_upper_hex_bytes(b.skip(2));
    } else if b.len() >= 2 {
        assert(u[0] == upper_hex_byte(b[0]) && u[1] == upper_hex_byte(b[1]));
    }
}

/// Hexadecimal text reads the same in either case.
pub proof fn lemma_hex_decoded_upper(b: Seq<u8>)
    ensures
        hex_decoded(upper_hex_bytes(b)) == hex_decoded(b),
{
    let u = upper_hex_bytes(b);
    assert forall|i: int| 0 <= i < b.len() implies #[trigger] hex_digit_value(u[i])
        == hex_digit_value(b[i]) by {
        assert(u[i] == upper_hex_byte(b[i]));
    }
    if exists|i: int| 0 <= i < b.len() && (#[trigger] hex_digit_value(b[i])) is None {
        let i = choose|i: int| 0 <= i < b.len() && (#[trigger] hex_digit_value(b[i])) is None;
        assert(hex_digit_value(u[i]) is None);
    } else if exists|i: int| 0 <= i < u.len() && (#[trigger] hex_digit_value(u[i])) is None {
        let i = choose|i: int| 0 <= i < u.len() && (#[trigger] hex_digit_value(u[i])) is None;
        assert(hex_digit_value(b[i]) is None);
    } else if b.len() % 2 == 0 {
        let n = (b.len() / 2) as int;
        assert(hex_decoded(u)->0 =~= hex_decoded(b)->0);
    }
}

/// The bytes of `0x` followed by a text are `0x` followed by its bytes.
proof fn lemma_encode_prefix(s: Seq<char>)
    ensures
        encode_utf8(seq!['0', 'x'] + s) == seq![48u8, 120u8] + encode_utf8(s),
{
    let t = seq!['0', 'x'] + s;
    lemma_width_1(48);
    lemma_width_1(120);
    assert(t.drop_first() =~= seq!['x'] + s);
    assert((seq!['x'] + s).drop_first() =~= s);
    assert(encode_utf8(seq!['x'] + s) == seq![120u8] + encode_utf8(s));
    assert(encode_utf8(t) =~= seq![48u8, 120u8] + encode_utf8(s));
}

proof fn lemma_strip_one_prefix(b: Seq<u8>)
    ensures
        without_hex_prefixes(seq![48u8, 120u8] + b) == without_hex_prefixes(b),
{
    assert((seq![48u8, 120u8] + b).skip(2) =~= b);
}

/// An address reads the same with a leading `0x` put before it.
pub proof fn law_hash_ignores_address_prefix(address: Seq<char>, slot: Seq<char>)
    ensures
        access_key_hash(seq!['0', 'x'] + address, slot) == access_key_hash(address, slot),
{
    lemma_encode_prefix(address);
    lemma_strip_one_prefix(encode_utf8(address));
}

/// A storage slot reads the same with a leading `0x` put before it (the word
/// `balance` names the balance and is left as it is).
pub proof fn law_hash_ignores_slot_prefix(address: Seq<char>, slot: Seq<char>)
    requires
        slot != "balance"@,
    ensures
        access_key_hash(address, seq!['0', 'x'] + slot) == access_key_hash(address, slot),
{
    reveal_strlit("balance");
    assert((seq!['0', 'x'] + slot)[0] == '0');
    assert(seq!['0', 'x'] + slot != "balance"@);
    lemma_encode_prefix(slot);
    lemma_strip_one_prefix(encode_utf8(slot));
}

/// An address reads the same with its hexadecimal digits in upper case.
pub proof fn law_hash_ignores_address_case(address: Seq<char>, slot: Seq<char>)
    ensures
        access_key_hash(upper_hex_digits(address), slot) == access_key_hash(address, slot),
{
    let b = encode_utf8(address);
    lemma_encode_upper_hex_digits(address);
    lemma_prefixes_upper_hex_bytes(b);
    lemma_hex_decoded_upper(without_hex_prefixes(b));
}

/// A storage slot reads the same with its hexadecimal digits in upper case (the
/// word `balance` names the balance and is left as it is).
pub proof fn law_hash_ignores_slot_case(address: Seq<char>, slot: Seq<char>)
    requires
        slot != "balance"@,
    ensures
        access_key_hash(address, upper_hex_digits(slot)) == access_key_hash(address, slot),
{
    reveal_strlit("balance");
    let u = upper_hex_digits(slot);
    if u.len() == 7 {
        assert(u[1] == upper_hex_char(slot[1]));
        assert(u[1] != 'a');
    }
    assert(u != "balance"@);
    let b = encode_utf8(slot);
    lemma_encode_upper_hex_digits(slot);
    lemma_prefixes_upper_hex_bytes(b);
    lemma_hex_decoded_upper(without_hex_prefixes(b));
}

/// Lists of access keys whose entries hash alike, one by one, give the same
/// hash keys.
pub proof fn lemma_key_hashes_follow_hashes(
    a: Seq<(Seq<char>, Seq<char>)>,
    b: Seq<(Seq<char>, Seq<char>)>,
)
    requires
        a.len() == b.len(),
        forall|i: int|
            0 <= i < a.len() ==> #[trigger] access_key_hash(a[i].0, a[i].1) == access_key_hash(
                b[i].0,
                b[i].1,
            ),
    ensures
        key_hashes(a) == key_hashes(b),
    decreases a.len(),
{
    if a.len() > 0 {
        let n = a.len() - 1;
        assert(access_key_hash(a[n].0, a[n].1) == access_key_hash(b[n].0, b[n].1));
        assert forall|i: int| 0 <= i < a.drop_last().len() implies #[trigger] access_key_hash(
            a.drop_last()[i].0,
            a.drop_last()[i].1,
        ) == access_key_hash(b.drop_last()[i].0, b.drop_last()[i].1) by {
            assert(access_key_hash(a[i].0, a[i].1) == access_key_hash(b[i].0, b[i].1));
        }
        lemma_key_hashes_follow_hashes(a.drop_last(), b.drop_last());
    }
}

/// Lists of access keys whose entries hash alike, one by one, give the same
/// hashed keys as text.  With the laws above: writing an address or slot with or
/// without a leading `0x`, or with its digits in either case, changes nothing.
pub proof fn law_key_texts_follow_hashes(
    a: Seq<(Seq<char>, Seq<char>)>,
    b: Seq<(Seq<char>, Seq<char>)>,
)
    requires
        a.len() == b.len(),
        forall|i: int|
            0 <= i < a.len() ==> #[trigger] access_key_hash(a[i].0, a[i].1) == access_key_hash(
                b[i].0,
                b[i].1,
            ),
    ensures
        key_texts(a) == key_texts(b),
{
    lemma_key_hashes_follow_hashes(a, b);
}

} // verus!
