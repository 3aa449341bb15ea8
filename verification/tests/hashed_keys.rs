use prestate_rw::keys::{access_key_hash_of, hash_access_keys, key_text_string, sorted_key_hashes};
use prestate_rw::rwsets::AccessKey;

fn key(a: &str, slot: &str) -> AccessKey {
    AccessKey { address: a.to_string(), slot: slot.to_string() }
}

const ADDR1: &str = "0x00000000000000000000000000000000000000aa";
const ADDR2: &str = "0x1111111111111111111111111111111111111111";
const SLOT1: &str = "0x0000000000000000000000000000000000000000000000000000000000000001";

fn expected_text(bytes: &[u8]) -> String {
    format!("0x{}", hex::encode(alloy_primitives::keccak256(bytes).as_slice()))
}

fn bytes_of(hex_text: &str) -> Vec<u8> {
    hex::decode(hex_text.trim_start_matches("0x")).unwrap()
}

#[test]
fn balance_key_hashes_the_address() {
    let h = access_key_hash_of(&key(ADDR1, "balance")).unwrap();
    assert_eq!(h.to_vec(), alloy_primitives::keccak256(bytes_of(ADDR1)).to_vec());
    // the digest is not the address handed back
    assert_ne!(h.to_vec()[..20], bytes_of(ADDR1)[..]);
}

#[test]
fn storage_key_hashes_address_then_slot() {
    let h = access_key_hash_of(&key(ADDR1, SLOT1)).unwrap();
    let mut buf = bytes_of(ADDR1);
    buf.extend(bytes_of(SLOT1));
    assert_eq!(buf.len(), 52);
    assert_eq!(h.to_vec(), alloy_primitives::keccak256(&buf).to_vec());
}

#[test]
fn unreadable_keys_have_no_hash() {
    // address of the wrong length
    assert_eq!(access_key_hash_of(&key("0x1234", "balance")), None);
    // address that is not hexadecimal
    assert_eq!(access_key_hash_of(&key("0xzz000000000000000000000000000000000000aa", "balance")), None);
    // slot of the wrong length
    assert_eq!(access_key_hash_of(&key(ADDR1, "0x01")), None);
    // slot that is not hexadecimal
    assert_eq!(access_key_hash_of(&key(ADDR1, "slot")), None);
    // empty address
    assert_eq!(access_key_hash_of(&key("", "balance")), None);
}

#[test]
fn address_without_prefix_or_in_upper_case_is_read() {
    let plain = access_key_hash_of(&key(&ADDR2[2..], "balance"));
    let upper = access_key_hash_of(&key(&ADDR1.to_uppercase().replace("0X", "0x"), "balance"));
    assert_eq!(plain, access_key_hash_of(&key(ADDR2, "balance")));
    assert_eq!(upper, access_key_hash_of(&key(ADDR1, "balance")));
}

#[test]
fn key_text_is_prefixed_lower_hex() {
    let mut k = [0u8; 32];
    k[0] = 0xab;
    k[31] = 0x0f;
    let t = key_text_string(&k);
    assert_eq!(t.len(), 66);
    assert_eq!(t, format!("0xab{}0f", "00".repeat(30)));
}

#[test]
fn hashed_keys_sorted_and_without_repeats() {
    let entries = vec![
        key(ADDR2, "balance"),
        key(ADDR1, SLOT1),
        key(ADDR1, "balance"),
        key(ADDR2, "balance"),
        key("0xbad", "balance"),
        key(ADDR1, SLOT1),
    ];
    let out = hash_access_keys(&entries);
    let mut expected = vec![
        expected_text(&bytes_of(ADDR2)),
        expected_text(&[bytes_of(ADDR1), bytes_of(SLOT1)].concat()),
        expected_text(&bytes_of(ADDR1)),
    ];
    expected.sort();
    expected.dedup();
    assert_eq!(out, expected);
    assert_eq!(out.len(), 3);
    for w in out.windows(2) {
        assert!(w[0] < w[1]);
    }
}

#[test]
fn hashed_keys_depend_on_the_set_of_entries_only() {
    let a = vec![key(ADDR1, "balance"), key(ADDR2, "balance"), key(ADDR1, SLOT1)];
    let b = vec![key(ADDR1, SLOT1), key(ADDR2, "balance"), key(ADDR1, "balance"), key(ADDR1, SLOT1)];
    assert_eq!(hash_access_keys(&a), hash_access_keys(&b));
}

#[test]
fn sorted_key_hashes_ascend() {
    let a = vec![key(ADDR1, "balance"), key(ADDR2, "balance"), key(ADDR2, SLOT1)];
    let ks = sorted_key_hashes(&a);
    assert_eq!(ks.len(), 3);
    assert!(ks[0] < ks[1] && ks[1] < ks[2]);
}

#[test]
fn no_entries_no_keys() {
    assert!(hash_access_keys(&[]).is_empty());
    assert!(hash_access_keys(&[key("", "")]).is_empty());
}

#[test]
fn hashed_key_texts_are_prefixed_64_lower_hex_digits() {
    let out = hash_access_keys(&[key(ADDR1, "balance"), key(ADDR2, SLOT1)]);
    assert_eq!(out.len(), 2);
    for t in &out {
        assert_eq!(t.len(), 66);
        assert!(t.starts_with("0x"));
        assert!(t[2..].chars().all(|c| c.is_ascii_digit() || ('a'..='f').contains(&c)));
    }
}

#[test]
fn prefix_and_case_of_address_and_slot_change_nothing() {
    let plain = vec![key(ADDR1, SLOT1), key(ADDR2, "balance")];
    let respelled = vec![
        key(&ADDR1[2..].to_uppercase(), &format!("0x0x{}", &SLOT1[2..])),
        key(&format!("0x{}", ADDR2[2..].to_uppercase()), "balance"),
    ];
    assert_eq!(hash_access_keys(&plain), hash_access_keys(&respelled));
}

#[test]
fn keys_of_joined_lists_are_the_sorted_union() {
    let a = vec![key(ADDR1, "balance"), key(ADDR2, SLOT1)];
    let b = vec![key(ADDR2, "balance"), key(ADDR1, "balance")];
    let mut union = hash_access_keys(&a);
    union.extend(hash_access_keys(&b));
    union.sort();
    union.dedup();
    let joined: Vec<AccessKey> = a.iter().chain(b.iter()).cloned().collect();
    assert_eq!(hash_access_keys(&joined), union);
}
