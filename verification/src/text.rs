//! Numbers written as text: decimal, and `0x`-prefixed lower-case hexadecimal.
use vstd::prelude::*;

verus! {

/// Appends one character to a string (`String::push`).
#[verifier::external_body]
pub(crate) fn push_char(s: &mut String, c: char)
    ensures
        final(s)@ == old(s)@.push(c),
{
    s.push(c);
}

/// The decimal digit for `d < 10`.
pub open spec fn decimal_digit(d: nat) -> char {
    (48 + d) as char
}

/// The lower-case hexadecimal digit for `d < 16`.
pub open spec fn hex_digit(d: nat) -> char {
    if d < 10 {
        (48 + d) as char
    } else {
        (87 + d) as char
    }
}

/// `n` in decimal, without leading zeros (`0` for zero).
pub open spec fn decimal(n: nat) -> Seq<char>
    decreases n,
{
    if n < 10 {
        seq![decimal_digit(n)]
    } else {
        decimal(n / 10).push(decimal_digit(n % 10))
    }
}

/// `n` in lower-case hexadecimal, without leading zeros (`0` for zero).
pub open spec fn lower_hex(n: nat) -> Seq<char>
    decreases n,
{
    if n < 16 {
        seq![hex_digit(n)]
    } else {
        lower_hex(n / 16).push(hex_digit(n % 16))
    }
}

/// `n` as a hexadecimal quantity: `0x` and its lower-case hexadecimal digits.
pub open spec fn hex_quantity(n: nat) -> Seq<char> {
    seq!['0', 'x'] + lower_hex(n)
}

/// The number that four little-endian 64-bit limbs stand for.
pub open spec fn limbs_value(limbs: [u64; 4]) -> nat {
    (limbs[0] + limbs[1] * 0x1_0000_0000_0000_0000nat + limbs[2] * 0x1_0000_0000_0000_0000_0000_0000_0000_0000nat
        + limbs[3] * 0x1_0000_0000_0000_0000_0000_0000_0000_0000_0000_0000_0000_0000nat) as nat
}

fn decimal_digit_char(d: u128) -> (c: char)
    requires
        d < 10,
    ensures
        c == decimal_digit(d as nat),
{
    ((d as u8) + 48) as char
}

fn hex_digit_char(d: u64) -> (c: char)
    requires
        d < 16,
    ensures
        c == hex_digit(d as nat),
{
    if d < 10 {
        ((d as u8) + 48) as char
    } else {
        ((d as u8) + 87) as char
    }
}

/// Appends the characters of `digits` to `s` from the last to the first.
fn push_reversed(s: &mut String, digits: &Vec<char>)
    ensures
        final(s)@ == old(s)@ + digits@.reverse(),
{
    let n = digits.len();
    let ghost start = s@;
    let mut k: usize = 0;
    while k < n
        invariant
            n == digits@.len(),
            k <= n,
            s@ == start + digits@.reverse().take(k as int),
        decreases n - k,
    {
        push_char(s, digits[n - 1 - k]);
        k = k + 1;
        assert(digits@.reverse().take(k as int) =~= digits@.reverse().take(k - 1).push(
            digits@[n - k],
        ));
    }
    assert(digits@.reverse().take(n as int) =~= digits@.reverse());
}

/// Appends `n` in decimal to `s`.
pub fn push_decimal(s: &mut String, n: u128)
    ensures
        final(s)@ == old(s)@ + decimal(n as nat),
{
    let mut digits: Vec<char> = Vec::new();
    digits.push(decimal_digit_char(n % 10));
    let mut m: u128 = n / 10;
    assert(digits@.reverse() =~= seq![decimal_digit((n % 10) as nat)]);
    while m > 0
        invariant
            m == 0 ==> decimal(n as nat) == digits@.reverse(),
            m > 0 ==> decimal(n as nat) == decimal(m as nat) + digits@.reverse(),
        decreases m,
    {
        let ghost before = digits@;
        let d = decimal_digit_char(m % 10);
        digits.push(d);
        assert(digits@.reverse() =~= seq![d] + before.reverse());
        let ghost old_m = m;
        m = m / 10;
        assert(decimal(old_m as nat) == decimal(m as nat).push(d) || (m == 0 && decimal(old_m as nat)
            == seq![d]));
        if m > 0 {
            assert(decimal(m as nat).push(d) + before.reverse() =~= decimal(m as nat) + (seq![d]
                + before.reverse()));
        } else {
            assert(seq![d] + before.reverse() =~= digits@.reverse());
        }
    }
    push_reversed(s, &digits);
}

/// `n` in decimal.
pub fn decimal_string(n: u128) -> (r: String)
    ensures
        r@ == decimal(n as nat),
{
    let mut s = String::new();
    push_decimal(&mut s, n);
    assert(Seq::<char>::empty() + decimal(n as nat) =~= decimal(n as nat));
    s
}

/// Divides a four-limb number by sixteen, giving the quotient and the remainder.
fn limbs_div16(limbs: [u64; 4]) -> (r: ([u64; 4], u64))
    ensures
        limbs_value(limbs) == limbs_value(r.0) * 16 + r.1,
        r.1 < 16,
        limbs_value(limbs) / 16 == limbs_value(r.0),
        limbs_value(limbs) % 16 == r.1,
{
    let d = limbs[0] % 16;
    let l0 = limbs[0] / 16 + (limbs[1] % 16) * 0x1000_0000_0000_0000u64;
    let l1 = limbs[1] / 16 + (limbs[2] % 16) * 0x1000_0000_0000_0000u64;
    let l2 = limbs[2] / 16 + (limbs[3] % 16) * 0x1000_0000_0000_0000u64;
    let l3 = limbs[3] / 16;
    let q = [l0, l1, l2, l3];
    assert(limbs_value(limbs) == limbs_value(q) * 16 + d);
    (q, d)
}

/// Appends `0x` and the lower-case hexadecimal digits of a four-limb number to `s`.
pub fn push_hex_quantity(s: &mut String, limbs: [u64; 4])
    ensures
        final(s)@ == old(s)@ + hex_quantity(limbs_value(limbs)),
{
    let ghost n = limbs_value(limbs);
    let mut digits: Vec<char> = Vec::new();
    let (q0, d0) = limbs_div16(limbs);
    digits.push(hex_digit_char(d0));
    let mut m = q0;
    assert(digits@.reverse() =~= seq![hex_digit(d0 as nat)]);
    while m[0] != 0 || m[1] != 0 || m[2] != 0 || m[3] != 0
        invariant
            limbs_value(m) == 0 ==> lower_hex(n) == digits@.reverse(),
            limbs_value(m) > 0 ==> lower_hex(n) == lower_hex(limbs_value(m)) + digits@.reverse(),
        decreases limbs_value(m),
    {
        let ghost before = digits@;
        let ghost old_v = limbs_value(m);
        let (q, d) = limbs_div16(m);
        let c = hex_digit_char(d);
        digits.push(c);
        assert(digits@.reverse() =~= seq![c] + before.reverse());
        m = q;
        proof {
            if limbs_value(m) > 0 {
                assert(lower_hex(old_v) == lower_hex(limbs_value(m)).push(c));
                assert(lower_hex(limbs_value(m)).push(c) + before.reverse() =~= lower_hex(
                    limbs_value(m),
                ) + (seq![c] + before.reverse()));
            } else {
                assert(lower_hex(old_v) == seq![c]);
                assert(seq![c] + before.reverse() =~= digits@.reverse());
            }
        }
    }
    push_char(s, '0');
    push_char(s, 'x');
    push_reversed(s, &digits);
    assert(old(s)@.push('0').push('x') + lower_hex(n) =~= old(s)@ + hex_quantity(n));
}

/// `0x` and the lower-case hexadecimal digits of a four-limb number.
pub fn hex_quantity_string(limbs: [u64; 4]) -> (r: String)
    ensures
        r@ == hex_quantity(limbs_value(limbs)),
{
    let mut s = String::new();
    push_hex_quantity(&mut s, limbs);
    assert(Seq::<char>::empty() + hex_quantity(limbs_value(limbs)) =~= hex_quantity(
        limbs_value(limbs),
    ));
    s
}

/// `0x` and the lower-case hexadecimal digits of `n`.
pub fn hex_quantity_u64(n: u64) -> (r: String)
    ensures
        r@ == hex_quantity(n as nat),
{
    let limbs: [u64; 4] = [n, 0, 0, 0];
    assert(limbs_value(limbs) == n);
    hex_quantity_string(limbs)
}

} // verus!
