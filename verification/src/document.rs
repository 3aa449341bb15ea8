//! The documents that the downloader saves: a block with its pre-state, the
//! block with its read and write sets, and the per-transaction hashed keys.
use vstd::prelude::*;
use crate::json::{JsonValue, JsonModel, elements_or_empty, fields_model, items_model, push_member, object_of, array_of};
use crate::text::{decimal, hex_quantity, limbs_value, push_decimal, decimal_string, hex_quantity_u64, hex_quantity_string};
use crate::rwsets::{AccessKey, TxRwSet, pairs_of, compute_rw_sets, to_lowercase, lowercase, tx_hash_of, read_keys, written_keys};
use crate::gas::{GasReceipt, TxKeyHashes, gas_used_per_tx, gas_used_for, hashed_rows, hash_text, receipt_pairs};
use crate::keys::{key_texts, texts_of};
use crate::json::member;
use crate::doclaws::{hex_text, is_text_array, is_key_objects, law_block_document_members, law_rw_block_document_members, law_key_rows_members, law_rw_sets_members};

verus! {

/// The header fields of a block that the documents hold, as plain values.
/// Hashes and the beneficiary are their `0x`-prefixed lower-case hexadecimal
/// text; the difficulty is four little-endian 64-bit limbs.
#[derive(Debug, Clone)]
pub struct BlockSummary {
    pub number: u64,
    pub timestamp: u64,
    pub hash: String,
    pub parent_hash: String,
    pub beneficiary: String,
    pub gas_limit: u64,
    pub difficulty: [u64; 4],
    pub base_fee_per_gas: Option<u64>,
    pub mix_hash: String,
    pub excess_blob_gas: Option<u64>,
}

pub open spec fn number_model(n: nat) -> JsonModel {
    JsonModel::Number(decimal(n))
}

pub open spec fn quantity_model(n: nat) -> JsonModel {
    JsonModel::Str(hex_quantity(n))
}

pub open spec fn optional_quantity_model(q: Option<u64>) -> JsonModel {
    match q {
        Some(n) => quantity_model(n as nat),
        None => JsonModel::Null,
    }
}

/// An access key as a JSON object: `{"address": .., "slot": ..}`.
pub open spec fn access_key_model(k: (Seq<char>, Seq<char>)) -> JsonModel {
    JsonModel::Object(seq![("address"@, JsonModel::Str(k.0)), ("slot"@, JsonModel::Str(k.1))])
}

pub open spec fn access_keys_model(keys: Seq<(Seq<char>, Seq<char>)>) -> JsonModel {
    JsonModel::Array(keys.map_values(|k: (Seq<char>, Seq<char>)| access_key_model(k)))
}

pub open spec fn texts_model(texts: Seq<Seq<char>>) -> JsonModel {
    JsonModel::Array(texts.map_values(|t: Seq<char>| JsonModel::Str(t)))
}

/// One entry of the read and write sets: the transaction hash, its reads, its
/// writes and the gas that it used.
pub open spec fn rw_entry_model(
    tx_hash: JsonModel,
    reads: Seq<(Seq<char>, Seq<char>)>,
    writes: Seq<(Seq<char>, Seq<char>)>,
    gas_used: u128,
) -> JsonModel {
    JsonModel::Object(
        seq![
            ("txHash"@, tx_hash),
            ("reads"@, access_keys_model(reads)),
            ("writes"@, access_keys_model(writes)),
            ("gasUsed"@, number_model(gas_used as nat)),
        ],
    )
}

/// One row of hashed keys: the transaction hash, the gas that it used, and the
/// hashed keys that it reads and writes.
pub open spec fn key_row_model(
    tx_hash: JsonModel,
    gas_used: u128,
    reads: Seq<Seq<char>>,
    writes: Seq<Seq<char>>,
) -> JsonModel {
    JsonModel::Object(
        seq![
            ("txHash"@, tx_hash),
            ("gasUsed"@, number_model(gas_used as nat)),
            ("reads"@, texts_model(reads)),
            ("writes"@, texts_model(writes)),
        ],
    )
}

/// The number of transactions that both traces cover.
pub open spec fn paired_count(full: JsonModel, diff: JsonModel) -> nat {
    if elements_or_empty(full).len() <= elements_or_empty(diff).len() {
        elements_or_empty(full).len()
    } else {
        elements_or_empty(diff).len()
    }
}

/// The read and write sets of a block as a JSON array, with the gas of each
/// transaction from the receipts.
pub open spec fn rw_sets_document(
    full: JsonModel,
    diff: JsonModel,
    beneficiary: Seq<char>,
    receipts: Seq<(Seq<char>, u128)>,
) -> JsonModel {
    let f = elements_or_empty(full);
    let d = elements_or_empty(diff);
    JsonModel::Array(
        Seq::new(
            paired_count(full, diff),
            |i: int|
                rw_entry_model(
                    tx_hash_of(f[i], d[i]),
                    read_keys(f[i], d[i], beneficiary),
                    written_keys(d[i], beneficiary),
                    gas_used_for(receipts, hash_text(tx_hash_of(f[i], d[i]))),
                ),
        ),
    )
}

/// The hashed keys of a block's transactions as a JSON array.
pub open spec fn key_rows_document(
    full: JsonModel,
    diff: JsonModel,
    beneficiary: Seq<char>,
    receipts: Seq<(Seq<char>, u128)>,
) -> JsonModel {
    let f = elements_or_empty(full);
    let d = elements_or_empty(diff);
    JsonModel::Array(
        Seq::new(
            paired_count(full, diff),
            |i: int|
                key_row_model(
                    tx_hash_of(f[i], d[i]),
                    gas_used_for(receipts, hash_text(tx_hash_of(f[i], d[i]))),
                    key_texts(read_keys(f[i], d[i], beneficiary)),
                    key_texts(written_keys(d[i], beneficiary)),
                ),
        ),
    )
}

/// A block with its transactions and pre-state.
pub open spec fn block_document_model(b: BlockSummary, transactions: JsonModel, prestate: JsonModel) -> JsonModel {
    JsonModel::Object(
        seq![
            ("number"@, number_model(b.number as nat)),
            ("timestamp"@, number_model(b.timestamp as nat)),
            ("hash"@, JsonModel::Str(b.hash@)),
            ("beneficiary"@, JsonModel::Str(b.beneficiary@)),
            ("gasLimit"@, quantity_model(b.gas_limit as nat)),
            ("difficulty"@, quantity_model(limbs_value(b.difficulty))),
            ("baseFeePerGas"@, optional_quantity_model(b.base_fee_per_gas)),
            ("transactions"@, transactions),
            ("prestate"@, prestate),
        ],
    )
}

/// A block with its transactions, pre-state, and read and write sets.
pub open spec fn rw_block_document_model(
    b: BlockSummary,
    transactions: JsonModel,
    prestate: JsonModel,
    rw_sets: JsonModel,
) -> JsonModel {
    JsonModel::Object(
        seq![
            ("number"@, number_model(b.number as nat)),
            ("timestamp"@, number_model(b.timestamp as nat)),
            ("hash"@, JsonModel::Str(b.hash@)),
            ("parentHash"@, JsonModel::Str(b.parent_hash@)),
            ("beneficiary"@, JsonModel::Str(b.beneficiary@)),
            ("gasLimit"@, quantity_model(b.gas_limit as nat)),
            ("difficulty"@, quantity_model(limbs_value(b.difficulty))),
            ("baseFeePerGas"@, optional_quantity_model(b.base_fee_per_gas)),
            ("mixHash"@, JsonModel::Str(b.mix_hash@)),
            ("excessBlobGas"@, optional_quantity_model(b.excess_blob_gas)),
            ("transactions"@, transactions),
            ("prestate"@, prestate),
            ("rw_sets"@, rw_sets),
        ],
    )
}

fn number_value(n: u128) -> (r: JsonValue)
    ensures
        r.model() == number_model(n as nat),
{
    JsonValue::Number(decimal_string(n))
}

fn optional_quantity_value(q: Option<u64>) -> (r: JsonValue)
    ensures
        r.model() == optional_quantity_model(q),
{
    match q {
        Some(n) => JsonValue::Str(hex_quantity_u64(n)),
        None => JsonValue::Null,
    }
}

/// An access key as a JSON object: `{"address": .., "slot": ..}`.
pub fn access_key_value(k: &AccessKey) -> (r: JsonValue)
    ensures
        r.model() == access_key_model(k.pair()),
{
    let mut fields: Vec<(String, JsonValue)> = Vec::new();
    push_member(&mut fields, "address", JsonValue::Str(k.address.clone()));
    push_member(&mut fields, "slot", JsonValue::Str(k.slot.clone()));
    assert(fields_model(fields@) =~= seq![
        ("address"@, JsonModel::Str(k.address@)),
        ("slot"@, JsonModel::Str(k.slot@)),
    ]);
    object_of(fields)
}

/// A list of access keys as a JSON array of `{"address": .., "slot": ..}` objects.
pub fn access_keys_value(keys: &Vec<AccessKey>) -> (r: JsonValue)
    ensures
        r.model() == access_keys_model(pairs_of(keys@)),
{
    let mut items: Vec<JsonValue> = Vec::new();
    let n = keys.len();
    for i in 0..n
        invariant
            n == keys@.len(),
            items@.len() == i,
            forall|t: int|
                0 <= t < i ==> #[trigger] items@[t].model() == access_key_model(keys@[t].pair()),
    {
        items.push(access_key_value(&keys[i]));
    }
    assert(items_model(items@) =~= pairs_of(keys@).map_values(
        |k: (Seq<char>, Seq<char>)| access_key_model(k),
    ));
    array_of(items)
}

/// A list of texts as a JSON array of strings.
pub fn texts_value(texts: &Vec<String>) -> (r: JsonValue)
    ensures
        r.model() == texts_model(texts_of(texts@)),
{
    let mut items: Vec<JsonValue> = Vec::new();
    let n = texts.len();
    for i in 0..n
        invariant
            n == texts@.len(),
            items@.len() == i,
            forall|t: int| 0 <= t < i ==> #[trigger] items@[t].model() == JsonModel::Str(texts@[t]@),
    {
        items.push(JsonValue::Str(texts[i].clone()));
    }
    assert(items_model(items@) =~= texts_of(texts@).map_values(|t: Seq<char>| JsonModel::Str(t)));
    array_of(items)
}

/// The read and write sets as a JSON array of
/// `{"txHash", "reads", "writes", "gasUsed"}` objects.
pub fn rw_sets_value(rw_sets: &[TxRwSet], gas_used: &[u128]) -> (r: JsonValue)
    requires
        gas_used@.len() == rw_sets@.len(),
    ensures
        r.model() == JsonModel::Array(
            Seq::new(
                rw_sets@.len(),
                |i: int|
                    rw_entry_model(
                        rw_sets@[i].tx_hash.model(),
                        pairs_of(rw_sets@[i].reads@),
                        pairs_of(rw_sets@[i].writes@),
                        gas_used@[i],
                    ),
            ),
        ),
{
    let mut items: Vec<JsonValue> = Vec::new();
    let n = rw_sets.len();
    for i in 0..n
        invariant
            n == rw_sets@.len(),
            gas_used@.len() == n,
            items@.len() == i,
            forall|t: int|
                0 <= t < i ==> #[trigger] items@[t].model() == rw_entry_model(
                    rw_sets@[t].tx_hash.model(),
                    pairs_of(rw_sets@[t].reads@),
                    pairs_of(rw_sets@[t].writes@),
                    gas_used@[t],
                ),
    {
        let rw = &rw_sets[i];
        let mut fields: Vec<(String, JsonValue)> = Vec::new();
        push_member(&mut fields, "txHash", rw.tx_hash.copy_value());
        push_member(&mut fields, "reads", access_keys_value(&rw.reads));
        push_member(&mut fields, "writes", access_keys_value(&rw.writes));
        push_member(&mut fields, "gasUsed", number_value(gas_used[i]));
        assert(fields_model(fields@) =~= rw_entry_model(
            rw.tx_hash.model(),
            pairs_of(rw.reads@),
            pairs_of(rw.writes@),
            gas_used@[i as int],
        )->Object_0);
        items.push(object_of(fields));
    }
    assert(items_model(items@) =~= Seq::new(
        rw_sets@.len(),
        |i: int|
            rw_entry_model(
                rw_sets@[i].tx_hash.model(),
                pairs_of(rw_sets@[i].reads@),
                pairs_of(rw_sets@[i].writes@),
                gas_used@[i],
            ),
    ));
    array_of(items)
}

/// The rows of hashed keys as a JSON array of
/// `{"txHash", "gasUsed", "reads", "writes"}` objects.
pub fn key_rows_value(rows: &[TxKeyHashes]) -> (r: JsonValue)
    ensures
        r.model() == JsonModel::Array(
            Seq::new(
                rows@.len(),
                |i: int|
                    key_row_model(
                        rows@[i].tx_hash.model(),
                        rows@[i].gas_used,
                        texts_of(rows@[i].reads@),
                        texts_of(rows@[i].writes@),
                    ),
            ),
        ),
{
    let mut items: Vec<JsonValue> = Vec::new();
    let n = rows.len();
    for i in 0..n
        invariant
            n == rows@.len(),
            items@.len() == i,
            forall|t: int|
                0 <= t < i ==> #[trigger] items@[t].model() == key_row_model(
                    rows@[t].tx_hash.model(),
                    rows@[t].gas_used,
                    texts_of(rows@[t].reads@),
                    texts_of(rows@[t].writes@),
                ),
    {
        let row = &rows[i];
        let mut fields: Vec<(String, JsonValue)> = Vec::new();
        push_member(&mut fields, "txHash", row.tx_hash.copy_value());
        push_member(&mut fields, "gasUsed", number_value(row.gas_used));
        push_member(&mut fields, "reads", texts_value(&row.reads));
        push_member(&mut fields, "writes", texts_value(&row.writes));
        assert(fields_model(fields@) =~= key_row_model(
            row.tx_hash.model(),
            row.gas_used,
            texts_of(row.reads@),
            texts_of(row.writes@),
        )->Object_0);
        items.push(object_of(fields));
    }
    assert(items_model(items@) =~= Seq::new(
        rows@.len(),
        |i: int|
            key_row_model(
                rows@[i].tx_hash.model(),
                rows@[i].gas_used,
                texts_of(rows@[i].reads@),
                texts_of(rows@[i].writes@),
            ),
    ));
    array_of(items)
}

/// The document of a block with its transactions and pre-state.
pub fn block_document(block: &BlockSummary, transactions: JsonValue, prestate: JsonValue) -> (r:
    JsonValue)
    ensures
        r.model() == block_document_model(*block, transactions.model(), prestate.model()),
        member(r.model(), "hash"@) == Some(JsonModel::Str(block.hash@)),
        member(r.model(), "difficulty"@) == Some(hex_text(limbs_value(block.difficulty))),
        member(r.model(), "gasLimit"@) == Some(hex_text(block.gas_limit as nat)),
{
    proof {
        law_block_document_members(*block, transactions.model(), prestate.model());
    }
    let ghost tm = transactions.model();
    let ghost pm = prestate.model();
    let mut fields: Vec<(String, JsonValue)> = Vec::new();
    push_member(&mut fields, "number", number_value(block.number as u128));
    push_member(&mut fields, "timestamp", number_value(block.timestamp as u128));
    push_member(&mut fields, "hash", JsonValue::Str(block.hash.clone()));
    push_member(&mut fields, "beneficiary", JsonValue::Str(block.beneficiary.clone()));
    push_member(&mut fields, "gasLimit", JsonValue::Str(hex_quantity_u64(block.gas_limit)));
    push_member(&mut fields, "difficulty", JsonValue::Str(hex_quantity_string(block.difficulty)));
    push_member(&mut fields, "baseFeePerGas", optional_quantity_value(block.base_fee_per_gas));
    push_member(&mut fields, "transactions", transactions);
    push_member(&mut fields, "prestate", prestate);
    assert(fields_model(fields@) =~= block_document_model(*block, tm, pm)->Object_0);
    object_of(fields)
}

/// The document of a block with its transactions, pre-state, and read and
/// write sets.
pub fn rw_block_document(
    block: &BlockSummary,
    transactions: JsonValue,
    prestate: JsonValue,
    rw_sets: JsonValue,
) -> (r: JsonValue)
    ensures
        r.model() == rw_block_document_model(
            *block,
            transactions.model(),
            prestate.model(),
            rw_sets.model(),
        ),
        member(r.model(), "hash"@) == Some(JsonModel::Str(block.hash@)),
        member(r.model(), "parentHash"@) == Some(JsonModel::Str(block.parent_hash@)),
        member(r.model(), "difficulty"@) == Some(hex_text(limbs_value(block.difficulty))),
{
    proof {
        law_rw_block_document_members(*block, transactions.model(), prestate.model(), rw_sets.model());
    }
    let ghost tm = transactions.model();
    let ghost pm = prestate.model();
    let ghost rm = rw_sets.model();
    let mut fields: Vec<(String, JsonValue)> = Vec::new();
    push_member(&mut fields, "number", number_value(block.number as u128));
    push_member(&mut fields, "timestamp", number_value(block.timestamp as u128));
    push_member(&mut fields, "hash", JsonValue::Str(block.hash.clone()));
    push_member(&mut fields, "parentHash", JsonValue::Str(block.parent_hash.clone()));
    push_member(&mut fields, "beneficiary", JsonValue::Str(block.beneficiary.clone()));
    push_member(&mut fields, "gasLimit", JsonValue::Str(hex_quantity_u64(block.gas_limit)));
    push_member(&mut fields, "difficulty", JsonValue::Str(hex_quantity_string(block.difficulty)));
    push_member(&mut fields, "baseFeePerGas", optional_quantity_value(block.base_fee_per_gas));
    push_member(&mut fields, "mixHash", JsonValue::Str(block.mix_hash.clone()));
    push_member(&mut fields, "excessBlobGas", optional_quantity_value(block.excess_blob_gas));
    push_member(&mut fields, "transactions", transactions);
    push_member(&mut fields, "prestate", prestate);
    push_member(&mut fields, "rw_sets", rw_sets);
    assert(fields_model(fields@) =~= rw_block_document_model(*block, tm, pm, rm)->Object_0);
    object_of(fields)
}

/// What the read-write download of a block saves: the hashed keys per
/// transaction, and the block document.
#[derive(Debug)]
pub struct RwOutputs {
    pub key_rows: JsonValue,
    pub block: JsonValue,
}

/// Everything the read-write download computes for a block, from its header,
/// transactions, two pre-state traces and receipts: the read and write sets
/// (see `compute_rw_sets`, with the beneficiary lower-cased), the gas that each
/// transaction used (see `gas_used_for`), the hashed keys (see
/// `hash_access_keys`), and the two documents.
pub fn rw_outputs(
    block: &BlockSummary,
    transactions: JsonValue,
    prestate_full: JsonValue,
    prestate_diff: &JsonValue,
    receipts: &[GasReceipt],
) -> (r: RwOutputs)
    ensures
        r.key_rows.model() == key_rows_document(
            prestate_full.model(),
            prestate_diff.model(),
            lowercase(block.beneficiary@),
            receipt_pairs(receipts@),
        ),
        r.block.model() == rw_block_document_model(
            *block,
            transactions.model(),
            prestate_full.model(),
            rw_sets_document(
                prestate_full.model(),
                prestate_diff.model(),
                lowercase(block.beneficiary@),
                receipt_pairs(receipts@),
            ),
        ),
        member(r.block.model(), "hash"@) == Some(JsonModel::Str(block.hash@)),
        member(r.block.model(), "parentHash"@) == Some(JsonModel::Str(block.parent_hash@)),
        r.key_rows.model()->Array_0.len() == paired_count(prestate_full.model(), prestate_diff.model()),
        forall|i: int|
            #![trigger r.key_rows.model()->Array_0[i]]
            0 <= i < paired_count(prestate_full.model(), prestate_diff.model()) ==> {
                let f = elements_or_empty(prestate_full.model())[i];
                let d = elements_or_empty(prestate_diff.model())[i];
                let ben = lowercase(block.beneficiary@);
                let row = r.key_rows.model()->Array_0[i];
                let entry = member(r.block.model(), "rw_sets"@)->0->Array_0[i];
                &&& is_text_array(member(row, "reads"@), key_texts(read_keys(f, d, ben)))
                &&& is_text_array(member(row, "writes"@), key_texts(written_keys(d, ben)))
                &&& member(row, "gasUsed"@) == Some(
                    JsonModel::Number(
                        decimal(
                            gas_used_for(receipt_pairs(receipts@), hash_text(tx_hash_of(f, d))) as nat,
                        ),
                    ),
                )
                &&& is_key_objects(member(entry, "reads"@), read_keys(f, d, ben))
                &&& is_key_objects(member(entry, "writes"@), written_keys(d, ben))
            },
{
    let beneficiary = to_lowercase(block.beneficiary.as_str());
    let ghost ben = beneficiary@;
    let ghost fm = prestate_full.model();
    let ghost dm = prestate_diff.model();
    let ghost rp = receipt_pairs(receipts@);
    let ghost tm = transactions.model();
    let rw_sets = compute_rw_sets(&prestate_full, prestate_diff, &beneficiary);
    let gas = gas_used_per_tx(rw_sets.as_slice(), receipts);
    let rows = hashed_rows(rw_sets.as_slice(), gas.as_slice());
    let key_rows = key_rows_value(rows.as_slice());
    let rw_value = rw_sets_value(rw_sets.as_slice(), gas.as_slice());
    proof {
        let f = elements_or_empty(fm);
        let d = elements_or_empty(dm);
        assert(key_rows.model()->Array_0 =~= key_rows_document(fm, dm, ben, rp)->Array_0);
        assert(rw_value.model()->Array_0 =~= rw_sets_document(fm, dm, ben, rp)->Array_0);
    }
    let block_value = rw_block_document(block, transactions, prestate_full, rw_value);
    proof {
        let rwd = rw_sets_document(fm, dm, ben, rp);
        law_rw_block_document_members(*block, tm, fm, rwd);
        assert forall|i: int| #![trigger key_rows.model()->Array_0[i]] 0 <= i < paired_count(fm, dm) implies {
            let f = elements_or_empty(fm)[i];
            let d = elements_or_empty(dm)[i];
            let row = key_rows.model()->Array_0[i];
            let entry = member(block_value.model(), "rw_sets"@)->0->Array_0[i];
            &&& is_text_array(member(row, "reads"@), key_texts(read_keys(f, d, ben)))
            &&& is_text_array(member(row, "writes"@), key_texts(written_keys(d, ben)))
            &&& member(row, "gasUsed"@) == Some(
                JsonModel::Number(decimal(gas_used_for(rp, hash_text(tx_hash_of(f, d))) as nat)),
            )
            &&& is_key_objects(member(entry, "reads"@), read_keys(f, d, ben))
            &&& is_key_objects(member(entry, "writes"@), written_keys(d, ben))
        } by {
            law_key_rows_members(fm, dm, ben, rp, i);
            law_rw_sets_members(fm, dm, ben, rp, i);
        }
    }
    RwOutputs { key_rows, block: block_value }
}

/// The number of transactions that both traces cover: the length of the
/// shorter array (an array stands for none where a trace is not one).
pub fn paired_tx_count(full: &JsonValue, diff: &JsonValue) -> (r: usize)
    ensures
        r == paired_count(full.model(), diff.model()),
{
    let f = match full.as_array() {
        Some(v) => v.len(),
        None => 0,
    };
    let d = match diff.as_array() {
        Some(v) => v.len(),
        None => 0,
    };
    if f <= d {
        f
    } else {
        d
    }
}

/// `test_data/blocks/block_<number>.json`.
pub fn block_file_name(number: u64) -> (r: String)
    ensures
        r@ == "test_data/blocks/block_"@ + decimal(number as nat) + ".json"@,
{
    let mut s = "test_data/blocks/block_".to_owned();
    push_decimal(&mut s, number as u128);
    s.append(".json");
    s
}

/// `test_data/blocks_rw/block_<number>.json`.
pub fn rw_block_file_name(number: u64) -> (r: String)
    ensures
        r@ == "test_data/blocks_rw/block_"@ + decimal(number as nat) + ".json"@,
{
    let mut s = "test_data/blocks_rw/block_".to_owned();
    push_decimal(&mut s, number as u128);
    s.append(".json");
    s
}

/// `test_data/rw_gas/rw_gas_<number>.json`.
pub fn key_rows_file_name(number: u64) -> (r: String)
    ensures
        r@ == "test_data/rw_gas/rw_gas_"@ + decimal(number as nat) + ".json"@,
{
    let mut s = "test_data/rw_gas/rw_gas_".to_owned();
    push_decimal(&mut s, number as u128);
    s.append(".json");
    s
}

/// The block number as the debug API takes it: `0x` and lower-case hexadecimal.
pub fn block_tag(number: u64) -> (r: String)
    ensures
        r@ == hex_quantity(number as nat),
{
    hex_quantity_u64(number)
}

} // verus!
