//! Hexadecimal text: the `hex` crate's encoder and decoder, and the `0x` prefix.
use vstd::prelude::*;
use crate::text::hex_digit;

verus! {

#[verifier::external_type_specification]
#[verifier::external_body]
pub struct ExFromHexError(hex::FromHexError);

/// The value of one hexadecimal digit, upper or lower case.
pub open spec fn hex_digit_value(c: u8) -> Option<nat> {
    if 48 <= c <= 57 {
        Some((c - 48) as nat)
    } else if 65 <= c <= 70 {
        Some((c - 55) as nat)
    } else if 97 <= c <= 102 {
        Some((c - 87) as nat)
    } else {
        None
    }
}

/// The bytes that hexadecimal text stands for: two digits to a byte, high digit
/// first.  `None` for text of odd length or with a character that is no digit.
pub open spec fn hex_decoded(text: Seq<u8>) -> Option<Seq<u8>> {
    if text.len() % 2 != 0 {
        None
    } else if exists|i: int| 0 <= i < text.len() && (#[trigger] hex_digit_value(text[i])) is None {
        None
    } else {
        Some(
            Seq::new(
                text.len() / 2,
                |i: int|
                    (hex_digit_value(text[2 * i])->0 * 16 + hex_digit_value(
                        text[2 * i + 1],
                    )->0) as u8,
            ),
        )
    }
}

/// Bytes as lower-case hexadecimal text: two digits to a byte, high digit first.
pub open spec fn hex_encoded(bytes: Seq<u8>) -> Seq<char> {
    Seq::new(
        bytes.len() * 2,
        |i: int|
            if i % 2 == 0 {
                hex_digit((bytes[i / 2] / 16) as nat)
            } else {
                hex_digit((bytes[i / 2] % 16) as nat)
            },
    )
}

/// The text with every leading `0x` taken off, as many times as it occurs.
pub open spec fn without_hex_prefixes(text: Seq<u8>) -> Seq<u8>
    decreases text.len(),
{
    if text.len() >= 2 && text[0] == 48 && text[1] == 120 {
        without_hex_prefixes(text.skip(2))
    } else {
        text
    }
}

/// `hex::decode`: the bytes that hexadecimal text stands for.  The crate takes
/// digits of either case, two to a byte with the high one first, and refuses
/// text of odd length or with any other character; which error it gives is
/// left unsaid here.
#[verifier::external_body]
pub(crate) fn hex_decode(text: &[u8]) -> (r: Result<Vec<u8>, hex::FromHexError>)
    ensures
        match r {
            Ok(v) => hex_decoded(text@) == Some(v@),
            Err(_) => hex_decoded(text@) is None,
        },
{
    hex::decode(text)
}

/// `hex::encode`: bytes as lower-case hexadecimal text, two digits to a byte.
#[verifier::external_body]
pub(crate) fn hex_encode(bytes: &[u8]) -> (r: String)
    ensures
        r@ == hex_encoded(bytes@),
{
    hex::encode(bytes)
}

/// The text with every leading `0x` taken off (`str::trim_start_matches("0x")`).
pub fn strip_hex_prefixes(text: &[u8]) -> (r: &[u8])
    ensures
        r@ == without_hex_prefixes(text@),
{
    let n = text.len();
    let mut k: usize = 0;
    assert(text@.skip(0) =~= text@);
    while n - k >= 2 && text[k] == 48 && text[k + 1] == 120
        invariant
            k <= n,
            n == text@.len(),
            without_hex_prefixes(text@) == without_hex_prefixes(text@.skip(k as int)),
        decreases n - k,
    {
        assert(text@.skip(k as int).skip(2) =~= text@.skip(k + 2));
        k = k + 2;
    }
    let r = &text[k..n];
    assert(r@ =~= text@.skip(k as int));
    r
}

/// The bytes that hexadecimal text stands for; `None` where the `hex` crate
/// refuses the text.
pub fn decode_hex(text: &[u8]) -> (r: Option<Vec<u8>>)
    ensures
        match r {
            Some(v) => hex_decoded(text@) == Some(v@),
            None => hex_decoded(text@) is None,
        },
{
    match hex_decode(text) {
        Ok(v) => Some(v),
        Err(_) => None,
    }
}

} // verus!
