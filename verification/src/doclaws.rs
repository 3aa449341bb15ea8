//! What each member of the saved documents holds, stated member by member in
//! terms of the block, the traces and the receipts.
use vstd::prelude::*;
use crate::json::{JsonModel, member, member_from, elements_or_empty};
use crate::text::{decimal, lower_hex, limbs_value};
use crate::rwsets::{tx_hash_of, read_keys, written_keys, law_reads_are_accesses_not_written};
use crate::gas::{gas_used_for, hash_text};
use crate::keys::key_texts;
use crate::document::{
    BlockSummary, paired_count, rw_sets_document, key_rows_document, block_document_model,
    rw_block_document_model,
};

verus! {

/// `0x` and the lower-case hexadecimal digits of `n`, as a JSON string.
pub open spec fn hex_text(n: nat) -> JsonModel {
    JsonModel::Str(seq!['0', 'x'] + lower_hex(n))
}

/// An optional quantity: its hexadecimal text, or null.
pub open spec fn optional_hex_text(q: Option<u64>) -> JsonModel {
    match q {
        Some(n) => hex_text(n as nat),
        None => JsonModel::Null,
    }
}

/// The JSON object of an access key, written out.
pub open spec fn key_object(k: (Seq<char>, Seq<char>)) -> JsonModel {
    JsonModel::Object(seq![("address"@, JsonModel::Str(k.0)), ("slot"@, JsonModel::Str(k.1))])
}

/// `items` is the array of `keys` written as access-key objects, in order.
pub open spec fn is_key_objects(m: Option<JsonModel>, keys: Seq<(Seq<char>, Seq<char>)>) -> bool {
    &&& m matches Some(JsonModel::Array(items))
    &&& items.len() == keys.len()
    &&& forall|j: int| 0 <= j < keys.len() ==> #[trigger] items[j] == key_object(keys[j])
}

/// `m` is the array of `texts` as JSON strings, in order.
pub open spec fn is_text_array(m: Option<JsonModel>, texts: Seq<Seq<char>>) -> bool {
    &&& m matches Some(JsonModel::Array(items))
    &&& items.len() == texts.len()
    &&& forall|j: int| 0 <= j < texts.len() ==> #[trigger] items[j] == JsonModel::Str(texts[j])
}

proof fn lemma_member_from_at(fields: Seq<(Seq<char>, JsonModel)>, key: Seq<char>, j: int, i: int)
    requires
        0 <= j <= i < fields.len(),
        fields[i].0 == key,
        forall|t: int| j <= t < i ==> (#[trigger] fields[t]).0 != key,
    ensures
        member_from(fields, key, j) == Some(fields[i].1),
    decreases i - j,
{
    if j < i {
        lemma_member_from_at(fields, key, j + 1, i);
    }
}

/// The member of an object at position `i` whose name no earlier member has.
proof fn lemma_member_at(m: JsonModel, key: Seq<char>, i: int)
    requires
        m is Object,
        0 <= i < m->Object_0.len(),
        m->Object_0[i].0 == key,
        forall|t: int| 0 <= t < i ==> (#[trigger] m->Object_0[t]).0 != key,
    ensures
        member(m, key) == Some(m->Object_0[i].1),
{
    lemma_member_from_at(m->Object_0, key, 0, i);
}

/// Each row of the hashed-keys document belongs to the transaction at its
/// position: its hash, the gas its last receipt gives, and the hashed keys of
/// exactly its read set (keys accessed and not written) and of its write set.
pub proof fn law_key_rows_members(
    full: JsonModel,
    diff: JsonModel,
    beneficiary: Seq<char>,
    receipts: Seq<(Seq<char>, u128)>,
    i: int,
)
    requires
        0 <= i < paired_count(full, diff),
    ensures
        ({
            let doc = key_rows_document(full, diff, beneficiary, receipts);
            let f = elements_or_empty(full)[i];
            let d = elements_or_empty(diff)[i];
            let row = doc->Array_0[i];
            &&& doc is Array
            &&& doc->Array_0.len() == paired_count(full, diff)
            &&& member(row, "txHash"@) == Some(tx_hash_of(f, d))
            &&& member(row, "gasUsed"@) == Some(
                JsonModel::Number(decimal(gas_used_for(receipts, hash_text(tx_hash_of(f, d))) as nat)),
            )
            &&& is_text_array(member(row, "reads"@), key_texts(read_keys(f, d, beneficiary)))
            &&& is_text_array(member(row, "writes"@), key_texts(written_keys(d, beneficiary)))
        }),
{
    reveal_strlit("txHash");
    assert("txHash"@.len() == 6 && "txHash"@[0] == 't');
    reveal_strlit("gasUsed");
    assert("gasUsed"@.len() == 7 && "gasUsed"@[0] == 'g');
    reveal_strlit("reads");
    assert("reads"@.len() == 5 && "reads"@[0] == 'r');
    reveal_strlit("writes");
    assert("writes"@.len() == 6 && "writes"@[0] == 'w');
    let doc = key_rows_document(full, diff, beneficiary, receipts);
    let f = elements_or_empty(full)[i];
    let d = elements_or_empty(diff)[i];
    let row = doc->Array_0[i];
    let fields = row->Object_0;
    assert(fields[0].0 == "txHash"@);
    assert(fields[1].0 == "gasUsed"@);
    assert(fields[2].0 == "reads"@);
    assert(fields[3].0 == "writes"@);
    lemma_member_at(row, "txHash"@, 0);
    lemma_member_at(row, "gasUsed"@, 1);
    lemma_member_at(row, "reads"@, 2);
    lemma_member_at(row, "writes"@, 3);
}

/// Each entry of the saved read and write sets belongs to the transaction at its
/// position: its hash, the gas its last receipt gives, its reads (keys accessed
/// and not written) and its writes, as address-slot objects; no object is both
/// read and written.
pub proof fn law_rw_sets_members(
    full: JsonModel,
    diff: JsonModel,
    beneficiary: Seq<char>,
    receipts: Seq<(Seq<char>, u128)>,
    i: int,
)
    requires
        0 <= i < paired_count(full, diff),
    ensures
        ({
            let doc = rw_sets_document(full, diff, beneficiary, receipts);
            let f = elements_or_empty(full)[i];
            let d = elements_or_empty(diff)[i];
            let entry = doc->Array_0[i];
            &&& doc is Array
            &&& doc->Array_0.len() == paired_count(full, diff)
            &&& member(entry, "txHash"@) == Some(tx_hash_of(f, d))
            &&& member(entry, "gasUsed"@) == Some(
                JsonModel::Number(decimal(gas_used_for(receipts, hash_text(tx_hash_of(f, d))) as nat)),
            )
            &&& is_key_objects(member(entry, "reads"@), read_keys(f, d, beneficiary))
            &&& is_key_objects(member(entry, "writes"@), written_keys(d, beneficiary))
            &&& forall|a: int, b: int|
                0 <= a < read_keys(f, d, beneficiary).len() && 0 <= b < written_keys(
                    d,
                    beneficiary,
                ).len() ==> member(entry, "reads"@)->0->Array_0[a] != member(
                    entry,
                    "writes"@,
                )->0->Array_0[b]
        }),
{
    reveal_strlit("txHash");
    assert("txHash"@.len() == 6 && "txHash"@[0] == 't');
    reveal_strlit("gasUsed");
    assert("gasUsed"@.len() == 7 && "gasUsed"@[0] == 'g');
    reveal_strlit("reads");
    assert("reads"@.len() == 5 && "reads"@[0] == 'r');
    reveal_strlit("writes");
    assert("writes"@.len() == 6 && "writes"@[0] == 'w');
    reveal_strlit("address");
    assert("address"@.len() == 7 && "address"@[0] == 'a');
    reveal_strlit("slot");
    assert("slot"@.len() == 4 && "slot"@[0] == 's');
    let doc = rw_sets_document(full, diff, beneficiary, receipts);
    let f = elements_or_empty(full)[i];
    let d = elements_or_empty(diff)[i];
    let entry = doc->Array_0[i];
    let fields = entry->Object_0;
    let reads = read_keys(f, d, beneficiary);
    let writes = written_keys(d, beneficiary);
    assert(fields[0].0 == "txHash"@);
    assert(fields[1].0 == "reads"@);
    assert(fields[2].0 == "writes"@);
    assert(fields[3].0 == "gasUsed"@);
    lemma_member_at(entry, "txHash"@, 0);
    lemma_member_at(entry, "reads"@, 1);
    lemma_member_at(entry, "writes"@, 2);
    lemma_member_at(entry, "gasUsed"@, 3);
    let ri = fields[1].1->Array_0;
    let wi = fields[2].1->Array_0;
    assert forall|j: int| 0 <= j < reads.len() implies #[trigger] ri[j] == key_object(reads[j]) by {}
    assert forall|j: int| 0 <= j < writes.len() implies #[trigger] wi[j] == key_object(writes[j]) by {}
    assert forall|a: int, b: int| 0 <= a < reads.len() && 0 <= b < writes.len() implies ri[a]
        != wi[b] by {
        law_reads_are_accesses_not_written(f, d, beneficiary, reads[a]);
        if ri[a] == wi[b] {
            let oa = key_object(reads[a])->Object_0;
            let ob = key_object(writes[b])->Object_0;
            assert(oa[0].1 == ob[0].1);
            assert(oa[1].1 == ob[1].1);
            assert(reads[a] == writes[b]);
            assert(reads.contains(reads[a]));
            assert(writes.contains(writes[b]));
        }
    }
}

/// The plain block document holds the block's number and time, its own hash,
/// its beneficiary, its gas limit, difficulty and base fee in hexadecimal, the
/// transactions and the pre-state, and nothing else.
pub proof fn law_block_document_members(
    b: BlockSummary,
    transactions: JsonModel,
    prestate: JsonModel,
)
    ensures
        ({
            let doc = block_document_model(b, transactions, prestate);
            &&& doc is Object
            &&& doc->Object_0.len() == 9
            &&& member(doc, "number"@) == Some(JsonModel::Number(decimal(b.number as nat)))
            &&& member(doc, "timestamp"@) == Some(JsonModel::Number(decimal(b.timestamp as nat)))
            &&& member(doc, "hash"@) == Some(JsonModel::Str(b.hash@))
            &&& member(doc, "beneficiary"@) == Some(JsonModel::Str(b.beneficiary@))
            &&& member(doc, "gasLimit"@) == Some(hex_text(b.gas_limit as nat))
            &&& member(doc, "difficulty"@) == Some(hex_text(limbs_value(b.difficulty)))
            &&& member(doc, "baseFeePerGas"@) == Some(optional_hex_text(b.base_fee_per_gas))
            &&& member(doc, "transactions"@) == Some(transactions)
            &&& member(doc, "prestate"@) == Some(prestate)
        }),
{
    reveal_strlit("number");
    assert("number"@.len() == 6 && "number"@[0] == 'n');
    reveal_strlit("timestamp");
    assert("timestamp"@.len() == 9 && "timestamp"@[0] == 't');
    reveal_strlit("hash");
    assert("hash"@.len() == 4 && "hash"@[0] == 'h');
    reveal_strlit("beneficiary");
    assert("beneficiary"@.len() == 11 && "beneficiary"@[0] == 'b');
    reveal_strlit("gasLimit");
    assert("gasLimit"@.len() == 8 && "gasLimit"@[0] == 'g');
    reveal_strlit("difficulty");
    assert("difficulty"@.len() == 10 && "difficulty"@[0] == 'd');
    reveal_strlit("baseFeePerGas");
    assert("baseFeePerGas"@.len() == 13 && "baseFeePerGas"@[0] == 'b');
    reveal_strlit("transactions");
    assert("transactions"@.len() == 12 && "transactions"@[0] == 't');
    reveal_strlit("prestate");
    assert("prestate"@.len() == 8 && "prestate"@[0] == 'p');
    let doc = block_document_model(b, transactions, prestate);
    let fs = doc->Object_0;
    lemma_member_at(doc, "number"@, 0);
    lemma_member_at(doc, "timestamp"@, 1);
    lemma_member_at(doc, "hash"@, 2);
    lemma_member_at(doc, "beneficiary"@, 3);
    lemma_member_at(doc, "gasLimit"@, 4);
    lemma_member_at(doc, "difficulty"@, 5);
    lemma_member_at(doc, "baseFeePerGas"@, 6);
    lemma_member_at(doc, "transactions"@, 7);
    lemma_member_at(doc, "prestate"@, 8);
}

/// The read-write block document holds the block's number and time, its own
/// hash and its parent's hash, its beneficiary, its gas limit, difficulty, base
/// fee and excess blob gas in hexadecimal, its mix hash, the transactions, the
/// pre-state and the read and write sets, and nothing else.
pub proof fn law_rw_block_document_members(
    b: BlockSummary,
    transactions: JsonModel,
    prestate: JsonModel,
    rw_sets: JsonModel,
)
    ensures
        ({
            let doc = rw_block_document_model(b, transactions, prestate, rw_sets);
            &&& doc is Object
            &&& doc->Object_0.len() == 13
            &&& member(doc, "number"@) == Some(JsonModel::Number(decimal(b.number as nat)))
            &&& member(doc, "timestamp"@) == Some(JsonModel::Number(decimal(b.timestamp as nat)))
            &&& member(doc, "hash"@) == Some(JsonModel::Str(b.hash@))
            &&& member(doc, "parentHash"@) == Some(JsonModel::Str(b.parent_hash@))
            &&& member(doc, "beneficiary"@) == Some(JsonModel::Str(b.beneficiary@))
            &&& member(doc, "gasLimit"@) == Some(hex_text(b.gas_limit as nat))
            &&& member(doc, "difficulty"@) == Some(hex_text(limbs_value(b.difficulty)))
            &&& member(doc, "baseFeePerGas"@) == Some(optional_hex_text(b.base_fee_per_gas))
            &&& member(doc, "mixHash"@) == Some(JsonModel::Str(b.mix_hash@))
            &&& member(doc, "excessBlobGas"@) == Some(optional_hex_text(b.excess_blob_gas))
            &&& member(doc, "transactions"@) == Some(transactions)
            &&& member(doc, "prestate"@) == Some(prestate)
            &&& member(doc, "rw_sets"@) == Some(rw_sets)
        }),
{
    reveal_strlit("number");
    assert("number"@.len() == 6 && "number"@[0] == 'n');
    reveal_strlit("timestamp");
    assert("timestamp"@.len() == 9 && "timestamp"@[0] == 't');
    reveal_strlit("hash");
    assert("hash"@.len() == 4 && "hash"@[0] == 'h');
    reveal_strlit("parentHash");
    assert("parentHash"@.len() == 10 && "parentHash"@[0] == 'p');
    reveal_strlit("beneficiary");
    assert("beneficiary"@.len() == 11 && "beneficiary"@[0] == 'b');
    reveal_strlit("gasLimit");
    assert("gasLimit"@.len() == 8 && "gasLimit"@[0] == 'g');
    reveal_strlit("difficulty");
    assert("difficulty"@.len() == 10 && "difficulty"@[0] == 'd');
    reveal_strlit("baseFeePerGas");
    assert("baseFeePerGas"@.len() == 13 && "baseFeePerGas"@[0] == 'b');
    reveal_strlit("mixHash");
    assert("mixHash"@.len() == 7 && "mixHash"@[0] == 'm');
    reveal_strlit("excessBlobGas");
    assert("excessBlobGas"@.len() == 13 && "excessBlobGas"@[0] == 'e');
    reveal_strlit("transactions");
    assert("transactions"@.len() == 12 && "transactions"@[0] == 't');
    reveal_strlit("prestate");
    assert("prestate"@.len() == 8 && "prestate"@[0] == 'p');
    reveal_strlit("rw_sets");
    assert("rw_sets"@.len() == 7 && "rw_sets"@[0] == 'r');
    let doc = rw_block_document_model(b, transactions, prestate, rw_sets);
    let fs = doc->Object_0;
    lemma_member_at(doc, "number"@, 0);
    lemma_member_at(doc, "timestamp"@, 1);
    lemma_member_at(doc, "hash"@, 2);
    lemma_member_at(doc, "parentHash"@, 3);
    lemma_member_at(doc, "beneficiary"@, 4);
    lemma_member_at(doc, "gasLimit"@, 5);
    lemma_member_at(doc, "difficulty"@, 6);
    lemma_member_at(doc, "baseFeePerGas"@, 7);
    lemma_member_at(doc, "mixHash"@, 8);
    lemma_member_at(doc, "excessBlobGas"@, 9);
    lemma_member_at(doc, "transactions"@, 10);
    lemma_member_at(doc, "prestate"@, 11);
    lemma_member_at(doc, "rw_sets"@, 12);
}

/// The limbs of a difficulty are little-endian: the first is the least
/// significant, so a difficulty that fits in the first limb is written as that
/// limb, and the second limb counts in units of 2^64.
pub proof fn law_difficulty_limbs_little_endian(d: u64)
    ensures
        limbs_value([d, 0, 0, 0]) == d,
        hex_text(limbs_value([d, 0, 0, 0])) == JsonModel::Str(seq!['0', 'x'] + lower_hex(d as nat)),
        limbs_value([0, d, 0, 0]) == d * 0x1_0000_0000_0000_0000nat,
{
}

} // verus!
