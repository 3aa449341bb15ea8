//! Gas used per transaction, looked up among the block's receipts, and the rows
//! of hashed state keys that go with it.
use vstd::prelude::*;
use crate::json::{JsonValue, JsonModel};
use crate::rwsets::{TxRwSet, pairs_of};
use crate::keys::{hash_access_keys, key_texts, texts_of, texts_ascending};

verus! {

/// A receipt as the lookup needs it: the transaction hash as text (`0x` and
/// lower-case hexadecimal digits) and the gas that the transaction used.
#[derive(Debug, Clone, PartialEq)]
pub struct GasReceipt {
    pub tx_hash: String,
    pub gas_used: u128,
}

/// The hashed state keys of one transaction, with the gas that it used.
#[derive(Debug, PartialEq)]
pub struct TxKeyHashes {
    pub tx_hash: JsonValue,
    pub gas_used: u128,
    pub reads: Vec<String>,
    pub writes: Vec<String>,
}

pub open spec fn receipt_pairs(receipts: Seq<GasReceipt>) -> Seq<(Seq<char>, u128)> {
    receipts.map_values(|r: GasReceipt| (r.tx_hash@, r.gas_used))
}

/// The gas of the last receipt whose hash is `tx_hash`; zero where none is.
/// (Receipts are gathered into a map by hash, so a later one replaces an
/// earlier one.)
pub open spec fn gas_used_for(receipts: Seq<(Seq<char>, u128)>, tx_hash: Seq<char>) -> u128
    decreases receipts.len(),
{
    if receipts.len() == 0 {
        0
    } else if receipts.last().0 == tx_hash {
        receipts.last().1
    } else {
        gas_used_for(receipts.drop_last(), tx_hash)
    }
}

/// The gas looked up for a hash is that of the last receipt with that hash,
/// wherever in the list it stands.
pub proof fn law_gas_used_is_last_matching_receipt(
    receipts: Seq<(Seq<char>, u128)>,
    tx_hash: Seq<char>,
    j: int,
)
    requires
        0 <= j < receipts.len(),
        receipts[j].0 == tx_hash,
        forall|k: int| j < k < receipts.len() ==> (#[trigger] receipts[k]).0 != tx_hash,
    ensures
        gas_used_for(receipts, tx_hash) == receipts[j].1,
    decreases receipts.len(),
{
    if j < receipts.len() - 1 {
        let rest = receipts.drop_last();
        assert(receipts[receipts.len() - 1].0 != tx_hash);
        assert forall|k: int| j < k < rest.len() implies (#[trigger] rest[k]).0 != tx_hash by {
            assert(rest[k] == receipts[k]);
        }
        law_gas_used_is_last_matching_receipt(rest, tx_hash, j);
    }
}

/// A hash that no receipt has gets no gas.
pub proof fn law_gas_used_without_receipt(receipts: Seq<(Seq<char>, u128)>, tx_hash: Seq<char>)
    requires
        forall|k: int| 0 <= k < receipts.len() ==> (#[trigger] receipts[k]).0 != tx_hash,
    ensures
        gas_used_for(receipts, tx_hash) == 0,
    decreases receipts.len(),
{
    if receipts.len() > 0 {
        let rest = receipts.drop_last();
        assert(receipts[receipts.len() - 1].0 != tx_hash);
        assert forall|k: int| 0 <= k < rest.len() implies (#[trigger] rest[k]).0 != tx_hash by {
            assert(rest[k] == receipts[k]);
        }
        law_gas_used_without_receipt(rest, tx_hash);
    }
}

/// The text of a transaction hash value; empty where it is not a string.
pub open spec fn hash_text(m: JsonModel) -> Seq<char> {
    match m {
        JsonModel::Str(s) => s,
        _ => Seq::empty(),
    }
}

/// The gas that the receipts give for a transaction hash (see `gas_used_for`).
#[verifier::loop_isolation(false)]
pub fn gas_used_for_tx(receipts: &[GasReceipt], tx_hash: &JsonValue) -> (r: u128)
    ensures
        r == gas_used_for(receipt_pairs(receipts@), hash_text(tx_hash.model())),
        forall|j: int|
            0 <= j < receipts@.len() && (#[trigger] receipts@[j]).tx_hash@ == hash_text(
                tx_hash.model(),
            ) && (forall|k: int|
                j < k < receipts@.len() ==> receipts@[k].tx_hash@ != hash_text(tx_hash.model()))
                ==> r == receipts@[j].gas_used,
        (forall|k: int|
            0 <= k < receipts@.len() ==> (#[trigger] receipts@[k]).tx_hash@ != hash_text(
                tx_hash.model(),
            )) ==> r == 0,
{
    let ghost pairs = receipt_pairs(receipts@);
    proof {
        let h = hash_text(tx_hash.model());
        assert forall|j: int|
            0 <= j < receipts@.len() && (#[trigger] receipts@[j]).tx_hash@ == h && (forall|k: int|
                j < k < receipts@.len() ==> receipts@[k].tx_hash@ != h) implies gas_used_for(
            pairs,
            h,
        ) == receipts@[j].gas_used by {
            assert forall|k: int| j < k < pairs.len() implies (#[trigger] pairs[k]).0 != h by {
                assert(pairs[k].0 == receipts@[k].tx_hash@);
            }
            law_gas_used_is_last_matching_receipt(pairs, h, j);
        }
        if forall|k: int| 0 <= k < receipts@.len() ==> (#[trigger] receipts@[k]).tx_hash@ != h {
            assert forall|k: int| 0 <= k < pairs.len() implies (#[trigger] pairs[k]).0 != h by {
                assert(pairs[k].0 == receipts@[k].tx_hash@);
            }
            law_gas_used_without_receipt(pairs, h);
        }
    }
    let empty = String::new();
    let key: &String = match tx_hash {
        JsonValue::Str(s) => s,
        _ => &empty,
    };
    assert(key@ == hash_text(tx_hash.model()));
    let ghost all = receipt_pairs(receipts@);
    let mut k = receipts.len();
    assert(all.take(k as int) =~= all);
    while k > 0
        invariant
            k <= receipts@.len(),
            all == receipt_pairs(receipts@),
            key@ == hash_text(tx_hash.model()),
            gas_used_for(all, key@) == gas_used_for(all.take(k as int), key@),
        decreases k,
    {
        assert(all.take(k as int).last() == (receipts@[k - 1].tx_hash@, receipts@[k - 1].gas_used));
        assert(all.take(k as int).drop_last() =~= all.take(k - 1));
        if receipts[k - 1].tx_hash == *key {
            return receipts[k - 1].gas_used;
        }
        k = k - 1;
    }
    0
}

/// The gas that each transaction used, by its hash (see `gas_used_for`).
pub fn gas_used_per_tx(rw_sets: &[TxRwSet], receipts: &[GasReceipt]) -> (r: Vec<u128>)
    ensures
        r@.len() == rw_sets@.len(),
        forall|i: int|
            0 <= i < r@.len() ==> #[trigger] r@[i] == gas_used_for(
                receipt_pairs(receipts@),
                hash_text(rw_sets@[i].tx_hash.model()),
            ),
{
    let mut out: Vec<u128> = Vec::new();
    let n = rw_sets.len();
    for i in 0..n
        invariant
            n == rw_sets@.len(),
            out@.len() == i,
            forall|t: int|
                0 <= t < i ==> #[trigger] out@[t] == gas_used_for(
                    receipt_pairs(receipts@),
                    hash_text(rw_sets@[t].tx_hash.model()),
                ),
    {
        let g = gas_used_for_tx(receipts, &rw_sets[i].tx_hash);
        out.push(g);
    }
    out
}

/// The hashed state keys of each transaction (see `hash_access_keys`), with its
/// hash and the gas that it used.
pub fn hashed_rows(rw_sets: &[TxRwSet], gas_used: &[u128]) -> (r: Vec<TxKeyHashes>)
    requires
        gas_used@.len() == rw_sets@.len(),
    ensures
        r@.len() == rw_sets@.len(),
        forall|i: int|
            0 <= i < r@.len() ==> {
                &&& (#[trigger] r@[i]).tx_hash.model() == rw_sets@[i].tx_hash.model()
                &&& r@[i].gas_used == gas_used@[i]
                &&& texts_of(r@[i].reads@) == key_texts(pairs_of(rw_sets@[i].reads@))
                &&& texts_of(r@[i].writes@) == key_texts(pairs_of(rw_sets@[i].writes@))
                &&& texts_ascending(texts_of(r@[i].reads@))
                &&& texts_ascending(texts_of(r@[i].writes@))
            },
{
    let mut out: Vec<TxKeyHashes> = Vec::new();
    let n = rw_sets.len();
    for i in 0..n
        invariant
            n == rw_sets@.len(),
            gas_used@.len() == n,
            out@.len() == i,
            forall|t: int|
                0 <= t < i ==> {
                    &&& (#[trigger] out@[t]).tx_hash.model() == rw_sets@[t].tx_hash.model()
                    &&& out@[t].gas_used == gas_used@[t]
                    &&& texts_of(out@[t].reads@) == key_texts(pairs_of(rw_sets@[t].reads@))
                    &&& texts_of(out@[t].writes@) == key_texts(pairs_of(rw_sets@[t].writes@))
                    &&& texts_ascending(texts_of(out@[t].reads@))
                    &&& texts_ascending(texts_of(out@[t].writes@))
                },
    {
        let rw = &rw_sets[i];
        let reads = hash_access_keys(rw.reads.as_slice());
        let writes = hash_access_keys(rw.writes.as_slice());
        out.push(
            TxKeyHashes { tx_hash: rw.tx_hash.copy_value(), gas_used: gas_used[i], reads, writes },
        );
    }
    out
}

} // verus!
