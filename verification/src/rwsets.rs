//! Per-transaction read and write sets, worked out from two pre-state traces of
//! a block: the full access set (`diffMode: false`) and the changed state
//! (`diffMode: true`).
use vstd::prelude::*;
use crate::json::{JsonValue, JsonModel, member, elements_or_empty};

verus! {

/// One accessed piece of state: a storage slot of an account, or its balance
/// (the slot is then the word `balance`).
#[derive(Debug, Clone, PartialEq, Eq)]
pub struct AccessKey {
    pub address: String,
    pub slot: String,
}

impl AccessKey {
    pub open spec fn pair(self) -> (Seq<char>, Seq<char>) {
        (self.address@, self.slot@)
    }
}

/// The (address, slot) pairs of a list of access keys.
pub open spec fn pairs_of(keys: Seq<AccessKey>) -> Seq<(Seq<char>, Seq<char>)> {
    keys.map_values(|k: AccessKey| k.pair())
}

/// The read and write sets of one transaction.
#[derive(Debug, PartialEq)]
pub struct TxRwSet {
    pub tx_hash: JsonValue,
    pub reads: Vec<AccessKey>,
    pub writes: Vec<AccessKey>,
}

/// What `str::to_lowercase` gives for a text (lower case as Unicode defines it).
pub uninterp spec fn lowercase(s: Seq<char>) -> Seq<char>;

/// `str::to_lowercase`.  The result is named, not described: Unicode's lower-case
/// mapping is left unsaid.
#[verifier::external_body]
pub(crate) fn to_lowercase(s: &str) -> (r: String)
    ensures
        r@ == lowercase(s@),
{
    s.to_lowercase()
}

/// The slot name that stands for an account's balance.
pub open spec fn balance_slot() -> Seq<char> {
    "balance"@
}

/// The storage slots that an account entry of a trace lists, with its address.
pub open spec fn storage_keys(addr: Seq<char>, acct: JsonModel) -> Seq<(Seq<char>, Seq<char>)> {
    match member(acct, "storage"@) {
        Some(JsonModel::Object(slots)) => slots.map_values(
            |m: (Seq<char>, JsonModel)| (addr, m.0),
        ),
        _ => Seq::empty(),
    }
}

/// The keys that one account entry of a trace contributes: its balance where the
/// entry has one and the account is not the block's beneficiary (compared by the
/// lower-cased address), then each storage slot that the entry lists.
pub open spec fn account_keys(
    addr: Seq<char>,
    addr_lower: Seq<char>,
    acct: JsonModel,
    beneficiary: Seq<char>,
) -> Seq<(Seq<char>, Seq<char>)> {
    let balance = if member(acct, "balance"@) is Some && addr_lower != beneficiary {
        seq![(addr, balance_slot())]
    } else {
        Seq::empty()
    };
    balance + storage_keys(addr, acct)
}

/// The keys of the accounts of a state object, account by account in order.
pub open spec fn state_keys(
    accounts: Seq<(Seq<char>, JsonModel)>,
    beneficiary: Seq<char>,
) -> Seq<(Seq<char>, Seq<char>)>
    decreases accounts.len(),
{
    if accounts.len() == 0 {
        Seq::empty()
    } else {
        state_keys(accounts.drop_last(), beneficiary) + account_keys(
            accounts.last().0,
            lowercase(accounts.last().0),
            accounts.last().1,
            beneficiary,
        )
    }
}

/// The keys of a state: nothing where it is not an object.
pub open spec fn accessed_keys(state: JsonModel, beneficiary: Seq<char>) -> Seq<(Seq<char>, Seq<char>)> {
    match state {
        JsonModel::Object(accounts) => state_keys(accounts, beneficiary),
        _ => Seq::empty(),
    }
}

/// The state that a trace entry holds: its `result` member where it has one,
/// else the entry itself.
pub open spec fn traced_state(entry: JsonModel) -> JsonModel {
    match member(entry, "result"@) {
        Some(r) => r,
        None => entry,
    }
}

/// The post-state of a diff-mode trace entry; null where it has none.
pub open spec fn post_state(entry: JsonModel) -> JsonModel {
    match member(traced_state(entry), "post"@) {
        Some(p) => p,
        None => JsonModel::Null,
    }
}

/// The transaction hash of a pair of trace entries: that of the full entry, else
/// that of the diff entry, else null.
pub open spec fn tx_hash_of(full_entry: JsonModel, diff_entry: JsonModel) -> JsonModel {
    match member(full_entry, "txHash"@) {
        Some(h) => h,
        None => match member(diff_entry, "txHash"@) {
            Some(h) => h,
            None => JsonModel::Null,
        },
    }
}

/// The keys that occur in `keys` but not in `written`, in order.
pub open spec fn unwritten(
    keys: Seq<(Seq<char>, Seq<char>)>,
    written: Seq<(Seq<char>, Seq<char>)>,
) -> Seq<(Seq<char>, Seq<char>)> {
    keys.filter(|k: (Seq<char>, Seq<char>)| !written.contains(k))
}

/// The write set of a transaction: the keys of its post-state.
pub open spec fn written_keys(diff_entry: JsonModel, beneficiary: Seq<char>) -> Seq<
    (Seq<char>, Seq<char>),
> {
    accessed_keys(post_state(diff_entry), beneficiary)
}

/// The read set of a transaction: the keys of its full access set that it does
/// not write.
pub open spec fn read_keys(
    full_entry: JsonModel,
    diff_entry: JsonModel,
    beneficiary: Seq<char>,
) -> Seq<(Seq<char>, Seq<char>)> {
    unwritten(
        accessed_keys(traced_state(full_entry), beneficiary),
        written_keys(diff_entry, beneficiary),
    )
}

/// A transaction never both reads and writes one key, and it reads exactly the
/// keys of its full access set that it does not write.
pub proof fn law_reads_are_accesses_not_written(
    full_entry: JsonModel,
    diff_entry: JsonModel,
    beneficiary: Seq<char>,
    k: (Seq<char>, Seq<char>),
)
    ensures
        read_keys(full_entry, diff_entry, beneficiary).contains(k) <==> (accessed_keys(
            traced_state(full_entry),
            beneficiary,
        ).contains(k) && !written_keys(diff_entry, beneficiary).contains(k)),
        !(read_keys(full_entry, diff_entry, beneficiary).contains(k) && written_keys(
            diff_entry,
            beneficiary,
        ).contains(k)),
{
    broadcast use vstd::seq_lib::group_filter_ensures;
    broadcast use Seq::lemma_filter_contains_rev;

    let accessed = accessed_keys(traced_state(full_entry), beneficiary);
    let written = written_keys(diff_entry, beneficiary);
    let reads = read_keys(full_entry, diff_entry, beneficiary);
    if reads.contains(k) {
        let i = choose|i: int| 0 <= i < reads.len() && reads[i] == k;
        assert(!written.contains(reads[i]));
    }
    if accessed.contains(k) && !written.contains(k) {
        let i = choose|i: int| 0 <= i < accessed.len() && accessed[i] == k;
        assert(reads.contains(accessed[i]));
    }
}

/// Every key of a transaction's full access set is read or written.
pub proof fn law_every_access_is_read_or_written(
    full_entry: JsonModel,
    diff_entry: JsonModel,
    beneficiary: Seq<char>,
    k: (Seq<char>, Seq<char>),
)
    requires
        accessed_keys(traced_state(full_entry), beneficiary).contains(k),
    ensures
        read_keys(full_entry, diff_entry, beneficiary).contains(k) || written_keys(
            diff_entry,
            beneficiary,
        ).contains(k),
{
    law_reads_are_accesses_not_written(full_entry, diff_entry, beneficiary, k);
}

/// The beneficiary's balance is never a key: for the beneficiary's account only
/// its storage slots count.
pub proof fn law_beneficiary_balance_skipped(
    addr: Seq<char>,
    addr_lower: Seq<char>,
    acct: JsonModel,
    beneficiary: Seq<char>,
)
    requires
        addr_lower == beneficiary,
    ensures
        account_keys(addr, addr_lower, acct, beneficiary) == storage_keys(addr, acct),
{
    assert(Seq::<(Seq<char>, Seq<char>)>::empty() + storage_keys(addr, acct) =~= storage_keys(
        addr,
        acct,
    ));
}

/// An account other than the beneficiary whose entry has a balance contributes
/// its balance key first.
pub proof fn law_balance_key_first(
    addr: Seq<char>,
    addr_lower: Seq<char>,
    acct: JsonModel,
    beneficiary: Seq<char>,
)
    requires
        addr_lower != beneficiary,
        member(acct, "balance"@) is Some,
    ensures
        account_keys(addr, addr_lower, acct, beneficiary)[0] == (addr, balance_slot()),
        account_keys(addr, addr_lower, acct, beneficiary).len() == 1 + storage_keys(addr, acct).len(),
{
}

/// The member names of an object are distinct, as they are in any object that
/// a JSON parser gives.
pub open spec fn distinct_names(fields: Seq<(Seq<char>, JsonModel)>) -> bool {
    forall|i: int, j: int| 0 <= i < j < fields.len() ==> #[trigger] fields[i].0 != #[trigger] fields[j].0
}

/// An account entry whose storage, where it is an object, names each slot once
/// and no slot by the word `balance`.
pub open spec fn storage_well_formed(acct: JsonModel) -> bool {
    match member(acct, "storage"@) {
        Some(JsonModel::Object(slots)) => distinct_names(slots) && forall|k: int|
            0 <= k < slots.len() ==> #[trigger] slots[k].0 != balance_slot(),
        _ => true,
    }
}

/// A traced state as a node gives it: each account named once, and each
/// account's storage well formed.
pub open spec fn well_formed_state(state: JsonModel) -> bool {
    match state {
        JsonModel::Object(accounts) => distinct_names(accounts) && forall|i: int|
            0 <= i < accounts.len() ==> storage_well_formed(#[trigger] accounts[i].1),
        _ => true,
    }
}

proof fn lemma_account_keys_distinct(
    addr: Seq<char>,
    addr_lower: Seq<char>,
    acct: JsonModel,
    beneficiary: Seq<char>,
)
    requires
        storage_well_formed(acct),
    ensures
        account_keys(addr, addr_lower, acct, beneficiary).no_duplicates(),
        forall|k: int|
            0 <= k < account_keys(addr, addr_lower, acct, beneficiary).len() ==> (#[trigger] account_keys(
                addr,
                addr_lower,
                acct,
                beneficiary,
            )[k]).0 == addr,
{
    let keys = account_keys(addr, addr_lower, acct, beneficiary);
    let st = storage_keys(addr, acct);
    let balance: Seq<(Seq<char>, Seq<char>)> = if member(acct, "balance"@) is Some && addr_lower
        != beneficiary {
        seq![(addr, balance_slot())]
    } else {
        Seq::empty()
    };
    assert(keys == balance + st);
    match member(acct, "storage"@) {
        Some(JsonModel::Object(slots)) => {
            assert forall|i: int, j: int|
                0 <= i < st.len() && 0 <= j < st.len() && i != j implies st[i] != st[j] by {
                if i < j {
                    assert(slots[i].0 != slots[j].0);
                } else {
                    assert(slots[j].0 != slots[i].0);
                }
            }
            assert forall|i: int, j: int|
                0 <= i < balance.len() && 0 <= j < st.len() implies balance[i] != st[j] by {
                assert(slots[j].0 != balance_slot());
            }
        },
        _ => {},
    }
    vstd::seq_lib::lemma_no_dup_in_concat(balance, st);
}

proof fn lemma_state_keys_distinct(accounts: Seq<(Seq<char>, JsonModel)>, beneficiary: Seq<char>)
    requires
        distinct_names(accounts),
        forall|i: int| 0 <= i < accounts.len() ==> storage_well_formed(#[trigger] accounts[i].1),
    ensures
        state_keys(accounts, beneficiary).no_duplicates(),
        forall|k: int|
            0 <= k < state_keys(accounts, beneficiary).len() ==> exists|j: int|
                0 <= j < accounts.len() && accounts[j].0 == (#[trigger] state_keys(
                    accounts,
                    beneficiary,
                )[k]).0,
    decreases accounts.len(),
{
    if accounts.len() > 0 {
        let rest = accounts.drop_last();
        let n = accounts.len() - 1;
        let last = accounts.last();
        assert forall|i: int, j: int| 0 <= i < j < rest.len() implies #[trigger] rest[i].0
            != #[trigger] rest[j].0 by {
            assert(accounts[i].0 != accounts[j].0);
        }
        assert forall|i: int| 0 <= i < rest.len() implies storage_well_formed(#[trigger] rest[i].1) by {
            assert(storage_well_formed(accounts[i].1));
        }
        lemma_state_keys_distinct(rest, beneficiary);
        assert(storage_well_formed(accounts[n].1));
        lemma_account_keys_distinct(last.0, lowercase(last.0), last.1, beneficiary);
        let a = state_keys(rest, beneficiary);
        let b = account_keys(last.0, lowercase(last.0), last.1, beneficiary);
        assert forall|i: int, j: int| 0 <= i < a.len() && 0 <= j < b.len() implies a[i] != b[j] by {
            let t = choose|t: int| 0 <= t < rest.len() && rest[t].0 == a[i].0;
            assert(accounts[t].0 != accounts[n].0);
            assert(b[j].0 == last.0);
        }
        vstd::seq_lib::lemma_no_dup_in_concat(a, b);
        let all = state_keys(accounts, beneficiary);
        assert(all == a + b);
        assert forall|k: int| 0 <= k < all.len() implies exists|j: int|
            0 <= j < accounts.len() && accounts[j].0 == (#[trigger] all[k]).0 by {
            if k < a.len() {
                assert(all[k] == a[k]);
                let t = choose|t: int| 0 <= t < rest.len() && rest[t].0 == a[k].0;
                assert(accounts[t].0 == all[k].0);
            } else {
                assert(all[k] == b[k - a.len()]);
                assert(accounts[n].0 == all[k].0);
            }
        }
    }
}

proof fn lemma_unwritten_distinct(
    keys: Seq<(Seq<char>, Seq<char>)>,
    written: Seq<(Seq<char>, Seq<char>)>,
)
    requires
        keys.no_duplicates(),
    ensures
        unwritten(keys, written).no_duplicates(),
    decreases keys.len(),
{
    broadcast use Seq::lemma_filter_contains_rev;

    reveal(Seq::filter);
    if keys.len() > 0 {
        let rest = keys.drop_last();
        assert forall|i: int, j: int|
            0 <= i < rest.len() && 0 <= j < rest.len() && i != j implies rest[i] != rest[j] by {
            assert(keys[i] != keys[j]);
        }
        lemma_unwritten_distinct(rest, written);
        let f = unwritten(rest, written);
        assert(unwritten(rest, written) == rest.filter(
            |k: (Seq<char>, Seq<char>)| !written.contains(k),
        ));
        if !written.contains(keys.last()) {
            assert(unwritten(keys, written) == f.push(keys.last()));
            assert forall|i: int| 0 <= i < f.len() implies f[i] != keys.last() by {
                assert(f.contains(f[i]));
                assert(rest.contains(f[i]));
                let t = choose|t: int| 0 <= t < rest.len() && rest[t] == f[i];
                assert(keys[t] != keys[keys.len() - 1]);
            }
        } else {
            assert(unwritten(keys, written) == f);
        }
    }
}

/// Where the traces are well formed (see `well_formed_state`), no key occurs
/// twice in a transaction's write set, nor in its read set.
pub proof fn law_no_repeated_keys(
    full_entry: JsonModel,
    diff_entry: JsonModel,
    beneficiary: Seq<char>,
)
    requires
        well_formed_state(traced_state(full_entry)),
        well_formed_state(post_state(diff_entry)),
    ensures
        written_keys(diff_entry, beneficiary).no_duplicates(),
        read_keys(full_entry, diff_entry, beneficiary).no_duplicates(),
{
    match post_state(diff_entry) {
        JsonModel::Object(accounts) => {
            lemma_state_keys_distinct(accounts, beneficiary);
        },
        _ => {},
    }
    match traced_state(full_entry) {
        JsonModel::Object(accounts) => {
            lemma_state_keys_distinct(accounts, beneficiary);
        },
        _ => {},
    }
    lemma_unwritten_distinct(
        accessed_keys(traced_state(full_entry), beneficiary),
        written_keys(diff_entry, beneficiary),
    );
}

/// The keys whose slot is not the word `balance`.
pub open spec fn non_balance(keys: Seq<(Seq<char>, Seq<char>)>) -> Seq<(Seq<char>, Seq<char>)> {
    keys.filter(|k: (Seq<char>, Seq<char>)| k.1 != balance_slot())
}

/// The storage keys of a state's accounts whose slot is not the word `balance`,
/// account by account in order.
pub open spec fn state_storage_keys(accounts: Seq<(Seq<char>, JsonModel)>) -> Seq<
    (Seq<char>, Seq<char>),
>
    decreases accounts.len(),
{
    if accounts.len() == 0 {
        Seq::empty()
    } else {
        state_storage_keys(accounts.drop_last()) + non_balance(
            storage_keys(accounts.last().0, accounts.last().1),
        )
    }
}

proof fn lemma_non_balance_account(
    addr: Seq<char>,
    addr_lower: Seq<char>,
    acct: JsonModel,
    beneficiary: Seq<char>,
)
    ensures
        non_balance(account_keys(addr, addr_lower, acct, beneficiary)) == non_balance(
            storage_keys(addr, acct),
        ),
{
    broadcast use Seq::filter_distributes_over_add;

    reveal_with_fuel(Seq::filter, 2);
    let balance: Seq<(Seq<char>, Seq<char>)> = if member(acct, "balance"@) is Some && addr_lower
        != beneficiary {
        seq![(addr, balance_slot())]
    } else {
        Seq::empty()
    };
    assert(account_keys(addr, addr_lower, acct, beneficiary) == balance + storage_keys(addr, acct));
    assert(non_balance(balance) =~= Seq::empty()) by {
        if balance.len() == 1 {
            assert(balance.drop_last() =~= Seq::<(Seq<char>, Seq<char>)>::empty());
        }
    }
    assert(non_balance(balance) + non_balance(storage_keys(addr, acct)) =~= non_balance(
        storage_keys(addr, acct),
    ));
}

proof fn lemma_non_balance_state(accounts: Seq<(Seq<char>, JsonModel)>, beneficiary: Seq<char>)
    ensures
        non_balance(state_keys(accounts, beneficiary)) == state_storage_keys(accounts),
    decreases accounts.len(),
{
    broadcast use Seq::filter_distributes_over_add;

    reveal(Seq::filter);
    if accounts.len() > 0 {
        let last = accounts.last();
        lemma_non_balance_state(accounts.drop_last(), beneficiary);
        lemma_non_balance_account(last.0, lowercase(last.0), last.1, beneficiary);
    }
}

/// The keys of a state whose slot is not `balance` do not depend on the
/// beneficiary.
proof fn lemma_non_balance_accessed(state: JsonModel, b1: Seq<char>, b2: Seq<char>)
    ensures
        non_balance(accessed_keys(state, b1)) == non_balance(accessed_keys(state, b2)),
{
    reveal(Seq::filter);
    match state {
        JsonModel::Object(accounts) => {
            lemma_non_balance_state(accounts, b1);
            lemma_non_balance_state(accounts, b2);
        },
        _ => {},
    }
}

/// Dropping `balance` keys and dropping written keys can be done in either
/// order, and the written keys then count only by their non-`balance` keys.
proof fn lemma_non_balance_unwritten(
    keys: Seq<(Seq<char>, Seq<char>)>,
    written: Seq<(Seq<char>, Seq<char>)>,
)
    ensures
        non_balance(unwritten(keys, written)) == unwritten(non_balance(keys), non_balance(written)),
    decreases keys.len(),
{
    broadcast use vstd::seq_lib::group_filter_ensures;
    broadcast use Seq::lemma_filter_contains_rev;

    reveal(Seq::filter);
    if keys.len() > 0 {
        let rest = keys.drop_last();
        let x = keys.last();
        lemma_non_balance_unwritten(rest, written);
        let nw = non_balance(written);
        let u = unwritten(rest, written);
        let nr = non_balance(rest);
        if x.1 != balance_slot() {
            assert(written.contains(x) == nw.contains(x)) by {
                if written.contains(x) {
                    let i = choose|i: int| 0 <= i < written.len() && written[i] == x;
                    assert(nw.contains(written[i]));
                }
            }
            assert(non_balance(keys) == nr.push(x));
            assert(nr.push(x).drop_last() =~= nr);
            if !written.contains(x) {
                assert(unwritten(keys, written) == u.push(x));
                assert(u.push(x).drop_last() =~= u);
                assert(non_balance(u.push(x)) == non_balance(u).push(x));
                assert(unwritten(nr.push(x), nw) == unwritten(nr, nw).push(x));
            } else {
                assert(unwritten(keys, written) == u);
                assert(unwritten(nr.push(x), nw) == unwritten(nr, nw));
            }
        } else {
            assert(non_balance(keys) == nr);
            if !written.contains(x) {
                assert(unwritten(keys, written) == u.push(x));
                assert(u.push(x).drop_last() =~= u);
                assert(non_balance(u.push(x)) == non_balance(u));
            } else {
                assert(unwritten(keys, written) == u);
            }
        }
    }
}

/// The beneficiary only decides whether balance keys count: the keys whose slot
/// is not `balance`, in the reads and in the writes of a transaction, are the
/// same for any two beneficiaries.
pub proof fn law_beneficiary_only_filters_balance(
    full_entry: JsonModel,
    diff_entry: JsonModel,
    b1: Seq<char>,
    b2: Seq<char>,
)
    ensures
        non_balance(written_keys(diff_entry, b1)) == non_balance(written_keys(diff_entry, b2)),
        non_balance(read_keys(full_entry, diff_entry, b1)) == non_balance(
            read_keys(full_entry, diff_entry, b2),
        ),
{
    let full = traced_state(full_entry);
    let post = post_state(diff_entry);
    lemma_non_balance_accessed(post, b1, b2);
    lemma_non_balance_accessed(full, b1, b2);
    lemma_non_balance_unwritten(accessed_keys(full, b1), written_keys(diff_entry, b1));
    lemma_non_balance_unwritten(accessed_keys(full, b2), written_keys(diff_entry, b2));
}

proof fn lemma_pairs_push(keys: Seq<AccessKey>, k: AccessKey)
    ensures
        pairs_of(keys.push(k)) == pairs_of(keys).push(k.pair()),
{
    assert(pairs_of(keys.push(k)) =~= pairs_of(keys).push(k.pair()));
}

proof fn lemma_pairs_append(a: Seq<AccessKey>, b: Seq<AccessKey>)
    ensures
        pairs_of(a + b) == pairs_of(a) + pairs_of(b),
{
    assert(pairs_of(a + b) =~= pairs_of(a) + pairs_of(b));
}

/// The keys that one account entry contributes (see `account_keys`), given the
/// lower-cased address.
pub fn account_access_keys(
    addr: &String,
    addr_lower: &String,
    acct: &JsonValue,
    beneficiary: &String,
) -> (r: Vec<AccessKey>)
    ensures
        pairs_of(r@) == account_keys(addr@, addr_lower@, acct.model(), beneficiary@),
{
    let balance_name = "balance".to_owned();
    let storage_name = "storage".to_owned();
    let mut keys: Vec<AccessKey> = Vec::new();
    let has_balance = acct.get(&balance_name).is_some();
    if has_balance && !(*addr_lower == *beneficiary) {
        let k = AccessKey { address: addr.clone(), slot: "balance".to_owned() };
        keys.push(k);
        proof {
            lemma_pairs_push(Seq::empty(), k);
        }
    }
    let ghost balance_part = pairs_of(keys@);
    assert(balance_part =~= (if member(acct.model(), "balance"@) is Some && addr_lower@
        != beneficiary@ {
        seq![(addr@, balance_slot())]
    } else {
        Seq::empty()
    }));
    match acct.get(&storage_name) {
        Some(JsonValue::Object(slots)) => {
            let ghost slot_models = JsonValue::Object(*slots).model()->Object_0;
            let n = slots.len();
            for j in 0..n
                invariant
                    n == slots@.len(),
                    slot_models.len() == n,
                    forall|t: int| 0 <= t < n ==> #[trigger] slot_models[t] == (slots@[t].0@, slots@[t].1.model()),
                    pairs_of(keys@) == balance_part + slot_models.take(j as int).map_values(
                        |m: (Seq<char>, JsonModel)| (addr@, m.0),
                    ),
            {
                let ghost before = keys@;
                let k = AccessKey { address: addr.clone(), slot: slots[j].0.clone() };
                keys.push(k);
                proof {
                    lemma_pairs_push(before, k);
                    assert(slot_models[j as int] == (slots@[j as int].0@, slots@[j as int].1.model()));
                    assert(slot_models.take(j + 1).map_values(
                        |m: (Seq<char>, JsonModel)| (addr@, m.0),
                    ) =~= slot_models.take(j as int).map_values(
                        |m: (Seq<char>, JsonModel)| (addr@, m.0),
                    ).push((addr@, slot_models[j as int].0)));
                }
            }
            assert(slot_models.take(n as int) =~= slot_models);
        },
        _ => {
            assert(balance_part + Seq::<(Seq<char>, Seq<char>)>::empty() =~= balance_part);
        },
    }
    keys
}

/// The keys of a state object (see `accessed_keys`).
pub fn state_access_keys(state: &JsonValue, beneficiary: &String) -> (r: Vec<AccessKey>)
    ensures
        pairs_of(r@) == accessed_keys(state.model(), beneficiary@),
{
    let mut keys: Vec<AccessKey> = Vec::new();
    match state {
        JsonValue::Object(accounts) => {
            let ghost models = state.model()->Object_0;
            let n = accounts.len();
            for j in 0..n
                invariant
                    n == accounts@.len(),
                    models.len() == n,
                    forall|t: int| 0 <= t < n ==> #[trigger] models[t] == (accounts@[t].0@, accounts@[t].1.model()),
                    pairs_of(keys@) == state_keys(models.take(j as int), beneficiary@),
            {
                let addr = &accounts[j].0;
                let lower = to_lowercase(addr.as_str());
                let mut more = account_access_keys(addr, &lower, &accounts[j].1, beneficiary);
                let ghost before = keys@;
                let ghost added = more@;
                keys.append(&mut more);
                proof {
                    lemma_pairs_append(before, added);
                    assert(models[j as int] == (accounts@[j as int].0@, accounts@[j as int].1.model()));
                    assert(models.take(j + 1).drop_last() =~= models.take(j as int));
                }
            }
            assert(models.take(n as int) =~= models);
        },
        _ => {
            assert(pairs_of(keys@) =~= Seq::empty());
        },
    }
    keys
}

/// Whether `keys` holds the pair (`addr`, `slot`).
pub fn contains_key(keys: &Vec<AccessKey>, addr: &String, slot: &String) -> (r: bool)
    ensures
        r == pairs_of(keys@).contains((addr@, slot@)),
{
    let n = keys.len();
    for j in 0..n
        invariant
            n == keys@.len(),
            forall|t: int| 0 <= t < j ==> #[trigger] pairs_of(keys@)[t] != (addr@, slot@),
    {
        if keys[j].address == *addr && keys[j].slot == *slot {
            assert(pairs_of(keys@)[j as int] == (addr@, slot@));
            return true;
        }
    }
    false
}

/// The keys of `keys` that `written` does not hold, in order (see `unwritten`).
pub fn keep_unwritten(keys: Vec<AccessKey>, written: &Vec<AccessKey>) -> (r: Vec<AccessKey>)
    ensures
        pairs_of(r@) == unwritten(pairs_of(keys@), pairs_of(written@)),
{
    let mut out: Vec<AccessKey> = Vec::new();
    let n = keys.len();
    let ghost all = pairs_of(keys@);
    let ghost w = pairs_of(written@);
    for j in 0..n
        invariant
            n == keys@.len(),
            all == pairs_of(keys@),
            w == pairs_of(written@),
            pairs_of(out@) == unwritten(all.take(j as int), w),
    {
        let k = &keys[j];
        let seen = contains_key(written, &k.address, &k.slot);
        let ghost before = out@;
        proof {
            reveal(Seq::filter);
            assert(all.take(j + 1).drop_last() =~= all.take(j as int));
            assert(all.take(j + 1).last() == k.pair());
        }
        if !seen {
            let c = AccessKey { address: k.address.clone(), slot: k.slot.clone() };
            out.push(c);
            proof {
                lemma_pairs_push(before, c);
            }
        }
    }
    assert(all.take(n as int) =~= all);
    out
}

/// The read and write sets of each transaction of a block.
///
/// `full` and `diff` are the block's pre-state traces without and with diff
/// mode; each is an array with one entry per transaction, and an entry may wrap
/// its state in a `result` member.  Entries are paired by position, as far as
/// the shorter array goes.  The write set of a transaction is the keys of its
/// post-state; the read set is the keys of its full access set that it does not
/// write.  An account's balance is a key where its entry has a `balance`
/// member, except for the beneficiary, which `beneficiary` gives lower-cased.
pub fn compute_rw_sets(full: &JsonValue, diff: &JsonValue, beneficiary: &String) -> (r: Vec<
    TxRwSet,
>)
    ensures
        r@.len() == if elements_or_empty(full.model()).len() <= elements_or_empty(
            diff.model(),
        ).len() {
            elements_or_empty(full.model()).len()
        } else {
            elements_or_empty(diff.model()).len()
        },
        forall|i: int|
            0 <= i < r@.len() ==> {
                let f = elements_or_empty(full.model())[i];
                let d = elements_or_empty(diff.model())[i];
                &&& (#[trigger] r@[i]).tx_hash.model() == tx_hash_of(f, d)
                &&& pairs_of(r@[i].writes@) == written_keys(d, beneficiary@)
                &&& pairs_of(r@[i].reads@) == read_keys(f, d, beneficiary@)
            },
{
    let empty_full: Vec<JsonValue> = Vec::new();
    let empty_diff: Vec<JsonValue> = Vec::new();
    let full_txs = match full.as_array() {
        Some(v) => v,
        None => &empty_full,
    };
    let diff_txs = match diff.as_array() {
        Some(v) => v,
        None => &empty_diff,
    };
    let ghost fm = elements_or_empty(full.model());
    let ghost dm = elements_or_empty(diff.model());
    assert(fm.len() == full_txs@.len());
    assert(forall|t: int| 0 <= t < fm.len() ==> #[trigger] fm[t] == full_txs@[t].model());
    assert(dm.len() == diff_txs@.len());
    assert(forall|t: int| 0 <= t < dm.len() ==> #[trigger] dm[t] == diff_txs@[t].model());
    let n = if full_txs.len() <= diff_txs.len() {
        full_txs.len()
    } else {
        diff_txs.len()
    };
    let tx_hash_name = "txHash".to_owned();
    let result_name = "result".to_owned();
    let post_name = "post".to_owned();
    let mut out: Vec<TxRwSet> = Vec::new();
    for i in 0..n
        invariant
            n <= full_txs@.len(),
            n <= diff_txs@.len(),
            fm.len() == full_txs@.len(),
            dm.len() == diff_txs@.len(),
            forall|t: int| 0 <= t < fm.len() ==> #[trigger] fm[t] == full_txs@[t].model(),
            forall|t: int| 0 <= t < dm.len() ==> #[trigger] dm[t] == diff_txs@[t].model(),
            tx_hash_name@ == "txHash"@,
            result_name@ == "result"@,
            post_name@ == "post"@,
            out@.len() == i,
            forall|t: int|
                0 <= t < i ==> {
                    &&& (#[trigger] out@[t]).tx_hash.model() == tx_hash_of(fm[t], dm[t])
                    &&& pairs_of(out@[t].writes@) == written_keys(dm[t], beneficiary@)
                    &&& pairs_of(out@[t].reads@) == read_keys(fm[t], dm[t], beneficiary@)
                },
    {
        let full_tx = &full_txs[i];
        let diff_tx = &diff_txs[i];
        assert(fm[i as int] == full_tx.model());
        assert(dm[i as int] == diff_tx.model());
        let tx_hash = match full_tx.get(&tx_hash_name) {
            Some(h) => h.copy_value(),
            None => match diff_tx.get(&tx_hash_name) {
                Some(h) => h.copy_value(),
                None => JsonValue::Null,
            },
        };
        let full_state = match full_tx.get(&result_name) {
            Some(s) => s,
            None => full_tx,
        };
        let diff_result = match diff_tx.get(&result_name) {
            Some(s) => s,
            None => diff_tx,
        };
        let writes = match diff_result.get(&post_name) {
            Some(p) => state_access_keys(p, beneficiary),
            None => {
                let w: Vec<AccessKey> = Vec::new();
                assert(pairs_of(w@) =~= Seq::empty());
                w
            },
        };
        let accessed = state_access_keys(full_state, beneficiary);
        let reads = keep_unwritten(accessed, &writes);
        out.push(TxRwSet { tx_hash, reads, writes });
    }
    out
}

} // verus!
