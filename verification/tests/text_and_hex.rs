use prestate_rw::hexcodec::{decode_hex, strip_hex_prefixes};
use prestate_rw::text::{decimal_string, hex_quantity_string, hex_quantity_u64, push_decimal, push_hex_quantity};

#[test]
fn decimal_of_small_and_large_numbers() {
    assert_eq!(decimal_string(0), "0");
    assert_eq!(decimal_string(7), "7");
    assert_eq!(decimal_string(10), "10");
    assert_eq!(decimal_string(18581726), "18581726");
    assert_eq!(decimal_string(u64::MAX as u128), "18446744073709551615");
    assert_eq!(decimal_string(u128::MAX), "340282366920938463463374607431768211455");
}

#[test]
fn push_decimal_appends() {
    let mut s = String::from("block_");
    push_decimal(&mut s, 46147);
    assert_eq!(s, "block_46147");
}

#[test]
fn hex_quantity_of_u64() {
    assert_eq!(hex_quantity_u64(0), "0x0");
    assert_eq!(hex_quantity_u64(15), "0xf");
    assert_eq!(hex_quantity_u64(16), "0x10");
    assert_eq!(hex_quantity_u64(255), "0xff");
    assert_eq!(hex_quantity_u64(46147), "0xb443");
    assert_eq!(hex_quantity_u64(18581726), format!("0x{:x}", 18581726u64));
    assert_eq!(hex_quantity_u64(u64::MAX), "0xffffffffffffffff");
}

#[test]
fn hex_quantity_of_four_limbs() {
    assert_eq!(hex_quantity_string([0, 0, 0, 0]), "0x0");
    assert_eq!(hex_quantity_string([0, 1, 0, 0]), "0x10000000000000000");
    assert_eq!(hex_quantity_string([0xabc, 0, 0, 0]), "0xabc");
    assert_eq!(
        hex_quantity_string([u64::MAX, u64::MAX, u64::MAX, u64::MAX]),
        format!("0x{}", "f".repeat(64))
    );
    assert_eq!(
        hex_quantity_string([1, 0, 0, 1 << 63]),
        format!("0x8{}1", "0".repeat(62))
    );
    // the difficulty of an early block
    let d: u128 = 0x2_5f9e_4c7b_2b3a;
    assert_eq!(hex_quantity_string([d as u64, (d >> 64) as u64, 0, 0]), format!("0x{:x}", d));
}

#[test]
fn push_hex_quantity_appends() {
    let mut s = String::from("tag=");
    push_hex_quantity(&mut s, [0x1234, 0, 0, 0]);
    assert_eq!(s, "tag=0x1234");
}

#[test]
fn decode_hex_takes_either_case() {
    assert_eq!(decode_hex(b"0aFf10"), Some(vec![0x0a, 0xff, 0x10]));
    assert_eq!(decode_hex(b""), Some(vec![]));
}

#[test]
fn decode_hex_refuses_odd_length_and_other_characters() {
    assert_eq!(decode_hex(b"abc"), None);
    assert_eq!(decode_hex(b"0g"), None);
    assert_eq!(decode_hex(b"0x12"), None);
}

#[test]
fn strip_hex_prefixes_takes_every_leading_prefix() {
    assert_eq!(strip_hex_prefixes(b"0x0x12"), b"12");
    assert_eq!(strip_hex_prefixes(b"0x"), b"");
    assert_eq!(strip_hex_prefixes(b"x0ab"), b"x0ab");
    assert_eq!(strip_hex_prefixes(b"00x1"), b"00x1");
    assert_eq!(strip_hex_prefixes(b"0"), b"0");
}
