use prestate_rw::document::{
    access_key_value, block_document, block_file_name, block_tag, key_rows_file_name, paired_tx_count, rw_block_file_name,
    rw_outputs, BlockSummary,
};
use prestate_rw::gas::{gas_used_for_tx, gas_used_per_tx, hashed_rows, GasReceipt};
use prestate_rw::json::JsonValue;
use prestate_rw::rwsets::{compute_rw_sets, AccessKey};

fn s(x: &str) -> String {
    x.to_string()
}

fn str_v(x: &str) -> JsonValue {
    JsonValue::Str(s(x))
}

fn obj(fields: Vec<(&str, JsonValue)>) -> JsonValue {
    JsonValue::Object(fields.into_iter().map(|(k, v)| (s(k), v)).collect())
}

fn receipt(h: &str, g: u128) -> GasReceipt {
    GasReceipt { tx_hash: s(h), gas_used: g }
}

const ADDR1: &str = "0x00000000000000000000000000000000000000aa";
const MINER: &str = "0x95222290DD7278Aa3Ddd389Cc1E1d165CC4BAfe5";

fn summary() -> BlockSummary {
    BlockSummary {
        number: 18581726,
        timestamp: 1700000000,
        hash: s("0xh"),
        parent_hash: s("0xp"),
        beneficiary: s(MINER),
        gas_limit: 30_000_000,
        difficulty: [0, 0, 0, 0],
        base_fee_per_gas: Some(26_000_000_000),
        mix_hash: s("0xm"),
        excess_blob_gas: None,
    }
}

fn member<'a>(v: &'a JsonValue, name: &str) -> &'a JsonValue {
    v.get(&s(name)).unwrap()
}

#[test]
fn last_receipt_for_a_hash_wins() {
    let receipts = vec![receipt("0xa", 1), receipt("0xb", 2), receipt("0xa", 3)];
    assert_eq!(gas_used_for_tx(&receipts, &str_v("0xa")), 3);
    assert_eq!(gas_used_for_tx(&receipts, &str_v("0xb")), 2);
    assert_eq!(gas_used_for_tx(&receipts, &str_v("0xc")), 0);
    assert_eq!(gas_used_for_tx(&receipts, &JsonValue::Null), 0);
    assert_eq!(gas_used_for_tx(&[receipt("", 9)], &JsonValue::Number(s("1"))), 9);
}

#[test]
fn gas_per_transaction_and_hashed_rows() {
    let full = JsonValue::Array(vec![
        obj(vec![("txHash", str_v("0xa")), ("result", obj(vec![(ADDR1, obj(vec![("balance", str_v("0x1"))]))]))]),
        obj(vec![("txHash", str_v("0xb")), ("result", obj(vec![]))]),
    ]);
    let diff = JsonValue::Array(vec![obj(vec![("result", obj(vec![]))]), obj(vec![("result", obj(vec![]))])]);
    let sets = compute_rw_sets(&full, &diff, &s("0x00"));
    let gas = gas_used_per_tx(&sets, &[receipt("0xb", 21000)]);
    assert_eq!(gas, vec![0, 21000]);
    let rows = hashed_rows(&sets, &gas);
    assert_eq!(rows.len(), 2);
    assert_eq!(rows[0].tx_hash, str_v("0xa"));
    assert_eq!(rows[0].gas_used, 0);
    assert_eq!(
        rows[0].reads,
        vec![format!(
            "0x{}",
            hex::encode(alloy_primitives::keccak256(hex::decode(&ADDR1[2..]).unwrap()).as_slice())
        )]
    );
    assert!(rows[0].writes.is_empty());
    assert_eq!(rows[1].gas_used, 21000);
    assert!(rows[1].reads.is_empty());
}

#[test]
fn access_key_as_object() {
    let v = access_key_value(&AccessKey { address: s("0x1"), slot: s("balance") });
    assert_eq!(v, obj(vec![("address", str_v("0x1")), ("slot", str_v("balance"))]));
}

#[test]
fn block_document_members() {
    let doc = block_document(&summary(), JsonValue::Array(vec![]), obj(vec![]));
    assert_eq!(member(&doc, "number"), &JsonValue::Number(s("18581726")));
    assert_eq!(member(&doc, "timestamp"), &JsonValue::Number(s("1700000000")));
    assert_eq!(member(&doc, "hash"), &str_v("0xh"));
    assert_eq!(member(&doc, "beneficiary"), &str_v(MINER));
    assert_eq!(member(&doc, "gasLimit"), &str_v("0x1c9c380"));
    assert_eq!(member(&doc, "difficulty"), &str_v("0x0"));
    assert_eq!(member(&doc, "baseFeePerGas"), &str_v("0x60db88400"));
    assert_eq!(member(&doc, "transactions"), &JsonValue::Array(vec![]));
    assert_eq!(member(&doc, "prestate"), &obj(vec![]));
    assert_eq!(doc.member_count(), 9);
    let mut none = summary();
    none.base_fee_per_gas = None;
    let doc = block_document(&none, JsonValue::Null, JsonValue::Null);
    assert_eq!(member(&doc, "baseFeePerGas"), &JsonValue::Null);
}

#[test]
fn rw_outputs_of_a_block() {
    let miner_lower = MINER.to_lowercase();
    let full = JsonValue::Array(vec![obj(vec![
        ("txHash", str_v("0xa")),
        (
            "result",
            obj(vec![
                (ADDR1, obj(vec![("balance", str_v("0x1"))])),
                (MINER, obj(vec![("balance", str_v("0x2"))])),
            ]),
        ),
    ])]);
    let diff = JsonValue::Array(vec![obj(vec![
        ("txHash", str_v("0xa")),
        ("result", obj(vec![("post", obj(vec![(&miner_lower, obj(vec![("balance", str_v("0x3"))]))]))])),
    ])]);
    let out = rw_outputs(&summary(), JsonValue::Array(vec![]), full, &diff, &[receipt("0xa", 50000)]);
    let rw = member(&out.block, "rw_sets");
    let entry = match rw {
        JsonValue::Array(v) => &v[0],
        _ => panic!("rw_sets is an array"),
    };
    assert_eq!(member(entry, "txHash"), &str_v("0xa"));
    assert_eq!(member(entry, "gasUsed"), &JsonValue::Number(s("50000")));
    // the beneficiary's balance is neither read nor written
    assert_eq!(
        member(entry, "reads"),
        &JsonValue::Array(vec![obj(vec![("address", str_v(ADDR1)), ("slot", str_v("balance"))])])
    );
    assert_eq!(member(entry, "writes"), &JsonValue::Array(vec![]));
    assert_eq!(member(&out.block, "mixHash"), &str_v("0xm"));
    assert_eq!(member(&out.block, "excessBlobGas"), &JsonValue::Null);
    assert_eq!(member(&out.block, "parentHash"), &str_v("0xp"));
    assert_eq!(out.block.member_count(), 13);
    let row = match &out.key_rows {
        JsonValue::Array(v) => &v[0],
        _ => panic!("rows are an array"),
    };
    assert_eq!(member(row, "gasUsed"), &JsonValue::Number(s("50000")));
    assert_eq!(member(row, "writes"), &JsonValue::Array(vec![]));
    let expected = format!(
        "0x{}",
        hex::encode(alloy_primitives::keccak256(hex::decode(&ADDR1[2..]).unwrap()).as_slice())
    );
    assert_eq!(member(row, "reads"), &JsonValue::Array(vec![JsonValue::Str(expected)]));
}

#[test]
fn file_names_and_block_tag() {
    assert_eq!(block_file_name(46147), "test_data/blocks/block_46147.json");
    assert_eq!(rw_block_file_name(18581726), "test_data/blocks_rw/block_18581726.json");
    assert_eq!(key_rows_file_name(18581726), "test_data/rw_gas/rw_gas_18581726.json");
    assert_eq!(block_tag(46147), "0xb443");
    assert_eq!(block_tag(0), "0x0");
}

#[test]
fn paired_count_is_the_shorter_trace() {
    let two = JsonValue::Array(vec![JsonValue::Null, JsonValue::Null]);
    let one = JsonValue::Array(vec![JsonValue::Null]);
    assert_eq!(paired_tx_count(&two, &one), 1);
    assert_eq!(paired_tx_count(&two, &two), 2);
    assert_eq!(paired_tx_count(&JsonValue::Null, &two), 0);
}
