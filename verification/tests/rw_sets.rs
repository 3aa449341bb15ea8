use prestate_rw::json::JsonValue;
use prestate_rw::rwsets::{account_access_keys, compute_rw_sets, contains_key, keep_unwritten, state_access_keys, AccessKey};

fn s(x: &str) -> String {
    x.to_string()
}

fn str_v(x: &str) -> JsonValue {
    JsonValue::Str(s(x))
}

fn obj(fields: Vec<(&str, JsonValue)>) -> JsonValue {
    JsonValue::Object(fields.into_iter().map(|(k, v)| (s(k), v)).collect())
}

fn key(a: &str, slot: &str) -> AccessKey {
    AccessKey { address: s(a), slot: s(slot) }
}

/// An account entry with a balance and the given storage slots.
fn account(balance: bool, slots: &[&str]) -> JsonValue {
    let mut fields = vec![];
    if balance {
        fields.push(("balance", str_v("0x1")));
    }
    if !slots.is_empty() {
        fields.push((
            "storage",
            obj(slots.iter().map(|k| (*k, str_v("0x0"))).collect()),
        ));
    }
    obj(fields)
}

#[test]
fn account_keys_balance_then_slots() {
    let acct = account(true, &["0x01", "0x02"]);
    let keys = account_access_keys(&s("0xAA"), &s("0xaa"), &acct, &s("0xbb"));
    assert_eq!(keys, vec![key("0xAA", "balance"), key("0xAA", "0x01"), key("0xAA", "0x02")]);
}

#[test]
fn account_keys_skip_beneficiary_balance() {
    let acct = account(true, &["0x01"]);
    let keys = account_access_keys(&s("0xAA"), &s("0xaa"), &acct, &s("0xaa"));
    assert_eq!(keys, vec![key("0xAA", "0x01")]);
}

#[test]
fn account_keys_without_balance_or_storage_object() {
    let acct = obj(vec![("nonce", JsonValue::Number(s("1"))), ("storage", str_v("none"))]);
    let keys = account_access_keys(&s("0xAA"), &s("0xaa"), &acct, &s("0xbb"));
    assert!(keys.is_empty());
    let not_an_object = JsonValue::Array(vec![]);
    assert!(account_access_keys(&s("0xAA"), &s("0xaa"), &not_an_object, &s("0xbb")).is_empty());
}

#[test]
fn state_keys_lowercase_the_address_for_the_beneficiary() {
    let state = obj(vec![
        ("0xAB", account(true, &["0x05"])),
        ("0xcd", account(true, &[])),
    ]);
    let keys = state_access_keys(&state, &s("0xab"));
    assert_eq!(keys, vec![key("0xAB", "0x05"), key("0xcd", "balance")]);
    assert!(state_access_keys(&JsonValue::Null, &s("0xab")).is_empty());
}

#[test]
fn contains_key_and_keep_unwritten() {
    let written = vec![key("0x1", "0xa"), key("0x2", "balance")];
    assert!(contains_key(&written, &s("0x2"), &s("balance")));
    assert!(!contains_key(&written, &s("0x1"), &s("balance")));
    let kept = keep_unwritten(
        vec![key("0x1", "balance"), key("0x1", "0xa"), key("0x2", "balance"), key("0x3", "0xa")],
        &written,
    );
    assert_eq!(kept, vec![key("0x1", "balance"), key("0x3", "0xa")]);
}

#[test]
fn rw_sets_reads_exclude_writes() {
    let full = JsonValue::Array(vec![obj(vec![
        ("txHash", str_v("0xt1")),
        (
            "result",
            obj(vec![
                ("0xaa", account(true, &["0x01", "0x02"])),
                ("0xbb", account(true, &["0x03"])),
                ("0xcc", account(true, &[])),
            ]),
        ),
    ])]);
    let diff = JsonValue::Array(vec![obj(vec![
        ("txHash", str_v("0xt1")),
        (
            "result",
            obj(vec![
                ("pre", obj(vec![])),
                ("post", obj(vec![("0xaa", account(false, &["0x02"])), ("0xbb", account(true, &[]))])),
            ]),
        ),
    ])]);
    let sets = compute_rw_sets(&full, &diff, &s("0xcc"));
    assert_eq!(sets.len(), 1);
    assert_eq!(sets[0].tx_hash, str_v("0xt1"));
    assert_eq!(sets[0].writes, vec![key("0xaa", "0x02"), key("0xbb", "balance")]);
    assert_eq!(
        sets[0].reads,
        vec![key("0xaa", "balance"), key("0xaa", "0x01"), key("0xbb", "0x03")]
    );
    for r in &sets[0].reads {
        assert!(!sets[0].writes.contains(r));
    }
}

#[test]
fn rw_sets_pair_entries_up_to_the_shorter_trace() {
    let full = JsonValue::Array(vec![
        obj(vec![("0xaa", account(true, &[]))]),
        obj(vec![("0xbb", account(true, &[]))]),
    ]);
    let diff = JsonValue::Array(vec![obj(vec![("post", obj(vec![]))])]);
    let sets = compute_rw_sets(&full, &diff, &s("0x00"));
    assert_eq!(sets.len(), 1);
    // entries without a `result` member are the state themselves; no hash gives null
    assert_eq!(sets[0].tx_hash, JsonValue::Null);
    assert_eq!(sets[0].reads, vec![key("0xaa", "balance")]);
    assert!(sets[0].writes.is_empty());
}

#[test]
fn rw_sets_take_the_hash_from_the_diff_trace() {
    let full = JsonValue::Array(vec![obj(vec![("result", obj(vec![]))])]);
    let diff = JsonValue::Array(vec![obj(vec![("txHash", str_v("0xd1")), ("result", obj(vec![]))])]);
    let sets = compute_rw_sets(&full, &diff, &s("0x00"));
    assert_eq!(sets[0].tx_hash, str_v("0xd1"));
}

#[test]
fn rw_sets_of_values_that_are_not_arrays() {
    assert!(compute_rw_sets(&JsonValue::Null, &JsonValue::Array(vec![]), &s("0x")).is_empty());
    let full = JsonValue::Array(vec![obj(vec![])]);
    assert!(compute_rw_sets(&full, &obj(vec![]), &s("0x")).is_empty());
}

#[test]
fn rw_sets_skip_beneficiary_balance_by_lower_case() {
    let full = JsonValue::Array(vec![obj(vec![("result", obj(vec![("0xABCD", account(true, &[]))]))])]);
    let diff = JsonValue::Array(vec![obj(vec![(
        "result",
        obj(vec![("post", obj(vec![("0xABCD", account(true, &["0x09"]))]))]),
    )])]);
    let sets = compute_rw_sets(&full, &diff, &s("0xabcd"));
    assert_eq!(sets[0].writes, vec![key("0xABCD", "0x09")]);
    assert!(sets[0].reads.is_empty());
}

#[test]
fn storage_slot_named_balance_hides_the_balance_read() {
    let full = JsonValue::Array(vec![obj(vec![("0xaa", account(true, &[]))])]);
    let diff = JsonValue::Array(vec![obj(vec![("post", obj(vec![("0xaa", account(false, &["balance"]))]))])]);
    let sets = compute_rw_sets(&full, &diff, &s("0x00"));
    assert_eq!(sets[0].writes, vec![key("0xaa", "balance")]);
    assert!(sets[0].reads.is_empty());
}

#[test]
fn no_key_repeats_in_reads_or_writes() {
    let full = JsonValue::Array(vec![obj(vec![(
        "result",
        obj(vec![("0xaa", account(true, &["0x01", "0x02"])), ("0xbb", account(true, &["0x01"]))]),
    )])]);
    let diff = JsonValue::Array(vec![obj(vec![(
        "result",
        obj(vec![("post", obj(vec![("0xaa", account(true, &["0x02"])), ("0xbb", account(false, &["0x01"]))]))]),
    )])]);
    let sets = compute_rw_sets(&full, &diff, &s("0x00"));
    for list in [&sets[0].reads, &sets[0].writes] {
        for (i, a) in list.iter().enumerate() {
            for b in &list[i + 1..] {
                assert_ne!(a, b);
            }
        }
    }
    assert_eq!(sets[0].reads, vec![key("0xaa", "0x01"), key("0xbb", "balance")]);
}

#[test]
fn beneficiary_only_changes_balance_keys() {
    let full = JsonValue::Array(vec![obj(vec![(
        "result",
        obj(vec![("0xaa", account(true, &["0x01"])), ("0xbb", account(true, &["0x02", "0x03"]))]),
    )])]);
    let diff = JsonValue::Array(vec![obj(vec![(
        "result",
        obj(vec![("post", obj(vec![("0xaa", account(true, &["0x01"])), ("0xbb", account(true, &["0x03"]))]))]),
    )])]);
    let a = compute_rw_sets(&full, &diff, &s("0xaa"));
    let b = compute_rw_sets(&full, &diff, &s("0xbb"));
    let drop_balance = |v: &Vec<AccessKey>| v.iter().filter(|k| k.slot != "balance").cloned().collect::<Vec<_>>();
    assert_eq!(drop_balance(&a[0].reads), drop_balance(&b[0].reads));
    assert_eq!(drop_balance(&a[0].writes), drop_balance(&b[0].writes));
    assert_ne!(a[0].writes, b[0].writes);
}
