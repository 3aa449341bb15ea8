//! Access keys hashed into 32-byte state keys: `keccak256(address || slot)` for a
//! storage slot, `keccak256(address)` for a balance; sorted and without repeats.
use vstd::prelude::*;
use vstd::utf8::encode_utf8;
use crate::hexcodec::{hex_decoded, hex_encoded, without_hex_prefixes, decode_hex, hex_encode, strip_hex_prefixes};
use crate::rwsets::{AccessKey, pairs_of};
use crate::text::{hex_digit, push_char};

verus! {

/// What `alloy_primitives::keccak256` gives for a byte string.
pub uninterp spec fn keccak256_digest(data: Seq<u8>) -> Seq<u8>;

/// `alloy_primitives::keccak256`: the Keccak-256 digest of the bytes.  The
/// digest is named, not described; that it is 32 bytes long is what its type
/// (`B256`) says.
#[verifier::external_body]
pub(crate) fn keccak256(data: &[u8]) -> (r: [u8; 32])
    ensures
        r@ == keccak256_digest(data@),
{
    alloy_primitives::keccak256(data).0
}

/// The hash key of an access key: the address must be 20 bytes of hexadecimal
/// text (leading `0x` taken off); the balance key hashes the address alone, a
/// storage key hashes the address followed by the 32 bytes of the slot.
/// `None` where the address or the slot cannot be read so.
pub open spec fn access_key_hash(address: Seq<char>, slot: Seq<char>) -> Option<Seq<u8>> {
    match hex_decoded(without_hex_prefixes(encode_utf8(address))) {
        Some(a) => if a.len() != 20 {
            None
        } else if slot == "balance"@ {
            Some(keccak256_digest(a))
        } else {
            match hex_decoded(without_hex_prefixes(encode_utf8(slot))) {
                Some(s) => if s.len() != 32 {
                    None
                } else {
                    Some(keccak256_digest(a + s))
                },
                None => None,
            }
        },
        None => None,
    }
}

/// The hash keys of a list of access keys, in order, skipping those that cannot
/// be read.
pub open spec fn key_hashes(entries: Seq<(Seq<char>, Seq<char>)>) -> Seq<Seq<u8>>
    decreases entries.len(),
{
    if entries.len() == 0 {
        Seq::empty()
    } else {
        let rest = key_hashes(entries.drop_last());
        match access_key_hash(entries.last().0, entries.last().1) {
            Some(h) => rest.push(h),
            None => rest,
        }
    }
}

/// Byte strings in lexicographic order (a proper prefix comes first).
pub open spec fn bytes_lt(a: Seq<u8>, b: Seq<u8>) -> bool
    decreases a.len(),
{
    if a.len() == 0 {
        b.len() > 0
    } else if b.len() == 0 {
        false
    } else if a[0] != b[0] {
        a[0] < b[0]
    } else {
        bytes_lt(a.drop_first(), b.drop_first())
    }
}

/// Texts in lexicographic order of their characters, as `String`'s order has them.
pub open spec fn text_lt(a: Seq<char>, b: Seq<char>) -> bool
    decreases a.len(),
{
    if a.len() == 0 {
        b.len() > 0
    } else if b.len() == 0 {
        false
    } else if a[0] != b[0] {
        (a[0] as int) < (b[0] as int)
    } else {
        text_lt(a.drop_first(), b.drop_first())
    }
}

/// Each byte string comes strictly before the next.
pub open spec fn strictly_ascending(keys: Seq<Seq<u8>>) -> bool {
    forall|i: int, j: int| 0 <= i < j < keys.len() ==> bytes_lt(#[trigger] keys[i], #[trigger] keys[j])
}

/// Each text comes strictly before the next.
pub open spec fn texts_ascending(texts: Seq<Seq<char>>) -> bool {
    forall|i: int, j: int| 0 <= i < j < texts.len() ==> text_lt(#[trigger] texts[i], #[trigger] texts[j])
}

/// A hash key as text: `0x` and its lower-case hexadecimal digits.
pub open spec fn key_text(h: Seq<u8>) -> Seq<char> {
    seq!['0', 'x'] + hex_encoded(h)
}

pub open spec fn views_of(keys: Seq<[u8; 32]>) -> Seq<Seq<u8>> {
    keys.map_values(|k: [u8; 32]| k@)
}

pub open spec fn texts_of(texts: Seq<String>) -> Seq<Seq<char>> {
    texts.map_values(|t: String| t@)
}

pub proof fn lemma_bytes_lt_irreflexive(a: Seq<u8>)
    ensures
        !bytes_lt(a, a),
    decreases a.len(),
{
    if a.len() > 0 {
        lemma_bytes_lt_irreflexive(a.drop_first());
    }
}

pub proof fn lemma_bytes_lt_transitive(a: Seq<u8>, b: Seq<u8>, c: Seq<u8>)
    requires
        bytes_lt(a, b),
        bytes_lt(b, c),
    ensures
        bytes_lt(a, c),
    decreases a.len(),
{
    if a.len() > 0 && b.len() > 0 && c.len() > 0 && a[0] == b[0] && b[0] == c[0] {
        lemma_bytes_lt_transitive(a.drop_first(), b.drop_first(), c.drop_first());
    }
}

pub proof fn lemma_bytes_lt_total(a: Seq<u8>, b: Seq<u8>)
    requires
        a != b,
    ensures
        bytes_lt(a, b) || bytes_lt(b, a),
    decreases a.len(),
{
    if a.len() == 0 {
        if b.len() == 0 {
            assert(a =~= b);
        }
    } else if b.len() > 0 && a[0] == b[0] {
        if a.drop_first() == b.drop_first() {
            assert(a =~= seq![a[0]] + a.drop_first());
            assert(b =~= seq![b[0]] + b.drop_first());
        } else {
            lemma_bytes_lt_total(a.drop_first(), b.drop_first());
        }
    }
}

/// Whether `a` comes before `b`.
fn key_less(a: &[u8; 32], b: &[u8; 32]) -> (r: bool)
    ensures
        r == bytes_lt(a@, b@),
{
    let mut i: usize = 0;
    assert(a@.skip(0) =~= a@);
    assert(b@.skip(0) =~= b@);
    while i < 32
        invariant
            i <= 32,
            a@.len() == 32,
            b@.len() == 32,
            bytes_lt(a@, b@) == bytes_lt(a@.skip(i as int), b@.skip(i as int)),
        decreases 32 - i,
    {
        assert(a@.skip(i as int)[0] == a@[i as int]);
        assert(b@.skip(i as int)[0] == b@[i as int]);
        if a[i] < b[i] {
            return true;
        }
        if a[i] > b[i] {
            return false;
        }
        assert(a@.skip(i as int).drop_first() =~= a@.skip(i + 1));
        assert(b@.skip(i as int).drop_first() =~= b@.skip(i + 1));
        i = i + 1;
    }
    false
}

/// Whether `a` and `b` hold the same bytes.
fn key_equal(a: &[u8; 32], b: &[u8; 32]) -> (r: bool)
    ensures
        r == (a@ == b@),
{
    let mut i: usize = 0;
    while i < 32
        invariant
            i <= 32,
            a@.len() == 32,
            b@.len() == 32,
            forall|t: int| 0 <= t < i ==> a@[t] == b@[t],
        decreases 32 - i,
    {
        if a[i] != b[i] {
            return false;
        }
        i = i + 1;
    }
    assert(a@ =~= b@);
    true
}

/// Puts `h` into an ascending list of keys where it is not there yet.
fn insert_key(keys: &mut Vec<[u8; 32]>, h: [u8; 32])
    requires
        strictly_ascending(views_of(old(keys)@)),
    ensures
        strictly_ascending(views_of(final(keys)@)),
        forall|x: Seq<u8>| #[trigger]
            views_of(final(keys)@).contains(x) <==> (views_of(old(keys)@).contains(x) || x == h@),
{
    let n = keys.len();
    let ghost old_views = views_of(keys@);
    let mut p: usize = 0;
    while p < n && key_less(&keys[p], &h)
        invariant
            p <= n,
            n == keys@.len(),
            keys@ == old(keys)@,
            old_views == views_of(keys@),
            forall|t: int| 0 <= t < p ==> bytes_lt(#[trigger] old_views[t], h@),
        decreases n - p,
    {
        p = p + 1;
    }
    if p < n && key_equal(&keys[p], &h) {
        assert(old_views[p as int] == h@);
        assert forall|x: Seq<u8>| #[trigger]
            views_of(keys@).contains(x) <==> (old_views.contains(x) || x == h@) by {
            if x == h@ {
                assert(old_views[p as int] == x);
            }
        }
        return ;
    }
    keys.insert(p, h);
    let ghost new_views = views_of(keys@);
    proof {
        assert(new_views =~= old_views.insert(p as int, h@));
        old_views.insert_ensures(p as int, h@);
        if p < n {
            assert(!bytes_lt(old_views[p as int], h@));
            assert(old_views[p as int] != h@);
            lemma_bytes_lt_total(old_views[p as int], h@);
        }
        assert forall|i: int, j: int| 0 <= i < j < new_views.len() implies bytes_lt(
            #[trigger] new_views[i],
            #[trigger] new_views[j],
        ) by {
            if j < p {
                assert(new_views[i] == old_views[i]);
                assert(new_views[j] == old_views[j]);
            } else if j == p {
                assert(new_views[i] == old_views[i]);
            } else if i < p {
                assert(new_views[i] == old_views[i]);
                assert(new_views[j] == old_views[j - 1]);
            } else if i == p {
                assert(new_views[j] == old_views[j - 1]);
                if j - 1 > p {
                    lemma_bytes_lt_transitive(h@, old_views[p as int], old_views[j - 1]);
                }
            } else {
                assert(new_views[i] == old_views[i - 1]);
                assert(new_views[j] == old_views[j - 1]);
            }
        }
        assert forall|x: Seq<u8>| #[trigger]
            new_views.contains(x) <==> (old_views.contains(x) || x == h@) by {
            if new_views.contains(x) {
                let k = choose|k: int| 0 <= k < new_views.len() && new_views[k] == x;
                if k < p {
                    assert(old_views[k] == x);
                } else if k > p {
                    assert(old_views[k - 1] == x);
                }
            }
            if old_views.contains(x) {
                let k = choose|k: int| 0 <= k < old_views.len() && old_views[k] == x;
                if k < p {
                    assert(new_views[k] == x);
                } else {
                    assert(new_views[k + 1] == x);
                }
            }
            if x == h@ {
                assert(new_views[p as int] == x);
            }
        }
    }
}

/// The hash key of one access key (see `access_key_hash`).
pub fn access_key_hash_of(entry: &AccessKey) -> (r: Option<[u8; 32]>)
    ensures
        match r {
            Some(h) => access_key_hash(entry.address@, entry.slot@) == Some(h@),
            None => access_key_hash(entry.address@, entry.slot@) is None,
        },
{
    let addr_text = strip_hex_prefixes(entry.address.as_str().as_bytes());
    let addr = match decode_hex(addr_text) {
        Some(b) => b,
        None => {
            return None;
        },
    };
    if addr.len() != 20 {
        return None;
    }
    let balance_name = "balance".to_owned();
    if entry.slot == balance_name {
        return Some(keccak256(addr.as_slice()));
    }
    let slot_text = strip_hex_prefixes(entry.slot.as_str().as_bytes());
    let slot = match decode_hex(slot_text) {
        Some(b) => b,
        None => {
            return None;
        },
    };
    if slot.len() != 32 {
        return None;
    }
    let mut buf = addr;
    let mut rest = slot;
    let ghost a = buf@;
    let ghost s = rest@;
    buf.append(&mut rest);
    assert(buf@ == a + s);
    Some(keccak256(buf.as_slice()))
}

/// The hash keys of `entries`, ascending and without repeats.
pub fn sorted_key_hashes(entries: &[AccessKey]) -> (r: Vec<[u8; 32]>)
    ensures
        strictly_ascending(views_of(r@)),
        forall|x: Seq<u8>| #[trigger]
            views_of(r@).contains(x) <==> key_hashes(pairs_of(entries@)).contains(x),
{
    let mut keys: Vec<[u8; 32]> = Vec::new();
    let n = entries.len();
    let ghost all = pairs_of(entries@);
    for j in 0..n
        invariant
            n == entries@.len(),
            all == pairs_of(entries@),
            strictly_ascending(views_of(keys@)),
            forall|x: Seq<u8>| #[trigger]
                views_of(keys@).contains(x) <==> key_hashes(all.take(j as int)).contains(x),
    {
        let ghost before = keys@;
        let ghost prefix = all.take(j as int);
        assert(all.take(j + 1).drop_last() =~= prefix);
        assert(all.take(j + 1).last() == entries@[j as int].pair());
        match access_key_hash_of(&entries[j]) {
            Some(h) => {
                insert_key(&mut keys, h);
                assert forall|x: Seq<u8>| #[trigger]
                    views_of(keys@).contains(x) <==> key_hashes(all.take(j + 1)).contains(x) by {
                    let ks = key_hashes(prefix);
                    assert(key_hashes(all.take(j + 1)) == ks.push(h@));
                    if ks.push(h@).contains(x) {
                        let k = choose|k: int| 0 <= k < ks.len() + 1 && ks.push(h@)[k] == x;
                        if k < ks.len() {
                            assert(ks[k] == x);
                        }
                    }
                    if ks.contains(x) {
                        let k = choose|k: int| 0 <= k < ks.len() && ks[k] == x;
                        assert(ks.push(h@)[k] == x);
                    }
                    if x == h@ {
                        assert(ks.push(h@)[ks.len() as int] == x);
                    }
                }
            },
            None => {
                assert(key_hashes(all.take(j + 1)) == key_hashes(prefix));
            },
        }
    }
    assert(all.take(n as int) =~= all);
    keys
}

/// A hash key as text: `0x` and its lower-case hexadecimal digits.
pub fn key_text_string(h: &[u8; 32]) -> (r: String)
    ensures
        r@ == key_text(h@),
{
    let mut s = String::new();
    push_char(&mut s, '0');
    push_char(&mut s, 'x');
    let digits = hex_encode(h.as_slice());
    s.append(digits.as_str());
    assert(s@ =~= key_text(h@));
    s
}

/// A common prefix does not change the order of two texts.
pub proof fn lemma_text_lt_common_prefix(p: Seq<char>, a: Seq<char>, b: Seq<char>)
    ensures
        text_lt(p + a, p + b) == text_lt(a, b),
    decreases p.len(),
{
    if p.len() > 0 {
        assert((p + a).drop_first() =~= p.drop_first() + a);
        assert((p + b).drop_first() =~= p.drop_first() + b);
        lemma_text_lt_common_prefix(p.drop_first(), a, b);
    } else {
        assert(p + a =~= a);
        assert(p + b =~= b);
    }
}

proof fn lemma_hex_digit_order(x: nat, y: nat)
    requires
        x < y < 16,
    ensures
        (hex_digit(x) as int) < (hex_digit(y) as int),
{
}

proof fn lemma_hex_encoded_first(a: Seq<u8>)
    requires
        a.len() > 0,
    ensures
        hex_encoded(a) == seq![hex_digit((a[0] / 16) as nat), hex_digit((a[0] % 16) as nat)]
            + hex_encoded(a.drop_first()),
{
    assert(hex_encoded(a) =~= seq![hex_digit((a[0] / 16) as nat), hex_digit((a[0] % 16) as nat)]
        + hex_encoded(a.drop_first()));
}

/// Hexadecimal text keeps the order of byte strings of one length.
pub proof fn lemma_hex_encoded_order(a: Seq<u8>, b: Seq<u8>)
    requires
        a.len() == b.len(),
        bytes_lt(a, b),
    ensures
        text_lt(hex_encoded(a), hex_encoded(b)),
    decreases a.len(),
{
    lemma_hex_encoded_first(a);
    lemma_hex_encoded_first(b);
    let da = seq![hex_digit((a[0] / 16) as nat), hex_digit((a[0] % 16) as nat)];
    let db = seq![hex_digit((b[0] / 16) as nat), hex_digit((b[0] % 16) as nat)];
    if a[0] == b[0] {
        assert(da == db);
        assert(bytes_lt(a.drop_first(), b.drop_first()));
        lemma_hex_encoded_order(a.drop_first(), b.drop_first());
        lemma_text_lt_common_prefix(da, hex_encoded(a.drop_first()), hex_encoded(b.drop_first()));
    } else {
        let ha = hex_encoded(a);
        let hb = hex_encoded(b);
        assert(ha[0] == da[0]);
        assert(hb[0] == db[0]);
        if a[0] / 16 < b[0] / 16 {
            lemma_hex_digit_order((a[0] / 16) as nat, (b[0] / 16) as nat);
        } else {
            assert(a[0] / 16 == b[0] / 16);
            assert(a[0] % 16 < b[0] % 16);
            lemma_hex_digit_order((a[0] % 16) as nat, (b[0] % 16) as nat);
            assert(ha.drop_first()[0] == da[1]);
            assert(hb.drop_first()[0] == db[1]);
            assert(text_lt(ha.drop_first(), hb.drop_first()));
            assert(ha[0] == hb[0]);
        }
    }
}

/// The text of hash keys keeps their order: sorting the texts, as the texts are
/// compared, gives the order of the keys.
pub proof fn law_key_text_keeps_order(a: Seq<u8>, b: Seq<u8>)
    requires
        a.len() == b.len(),
        bytes_lt(a, b),
    ensures
        text_lt(key_text(a), key_text(b)),
{
    lemma_hex_encoded_order(a, b);
    lemma_text_lt_common_prefix(seq!['0', 'x'], hex_encoded(a), hex_encoded(b));
}

/// The keys of a set, ascending and without repeats: the one ascending list that
/// holds exactly the keys of the set.
pub open spec fn ascending_list_of(keys: Set<Seq<u8>>) -> Seq<Seq<u8>> {
    choose|ks: Seq<Seq<u8>>| strictly_ascending(ks) && ks.to_set() == keys
}

proof fn lemma_insert_ascending(ks: Seq<Seq<u8>>, x: Seq<u8>) -> (p: int)
    requires
        strictly_ascending(ks),
        !ks.contains(x),
    ensures
        0 <= p <= ks.len(),
        strictly_ascending(ks.insert(p, x)),
    decreases ks.len(),
{
    if ks.len() == 0 {
        assert(ks.insert(0, x) =~= seq![x]);
        0
    } else if bytes_lt(ks.last(), x) {
        let p = ks.len() as int;
        let s = ks.insert(p, x);
        assert(s =~= ks.push(x));
        assert forall|i: int, j: int| 0 <= i < j < s.len() implies bytes_lt(
            #[trigger] s[i],
            #[trigger] s[j],
        ) by {
            if j == ks.len() {
                if i < ks.len() - 1 {
                    lemma_bytes_lt_transitive(ks[i], ks.last(), x);
                }
            }
        }
        p
    } else {
        let last = ks.last();
        let rest = ks.drop_last();
        assert(!rest.contains(x)) by {
            if rest.contains(x) {
                let k = choose|k: int| 0 <= k < rest.len() && rest[k] == x;
                assert(ks[k] == x);
            }
        }
        assert forall|i: int, j: int| 0 <= i < j < rest.len() implies bytes_lt(
            #[trigger] rest[i],
            #[trigger] rest[j],
        ) by {
            assert(rest[i] == ks[i] && rest[j] == ks[j]);
        }
        let p = lemma_insert_ascending(rest, x);
        assert(ks[ks.len() - 1] == last);
        assert(last != x);
        lemma_bytes_lt_total(last, x);
        let r = rest.insert(p, x);
        let s = ks.insert(p, x);
        rest.insert_ensures(p, x);
        assert(s =~= r.push(last));
        assert forall|i: int, j: int| 0 <= i < j < s.len() implies bytes_lt(
            #[trigger] s[i],
            #[trigger] s[j],
        ) by {
            if j == s.len() - 1 {
                assert(s[j] == last);
                assert(s[i] == r[i]);
                if i < p {
                    assert(r[i] == rest[i]);
                    assert(bytes_lt(ks[i], ks[ks.len() - 1]));
                } else if i > p {
                    assert(r[i] == rest[i - 1]);
                    assert(bytes_lt(ks[i - 1], ks[ks.len() - 1]));
                }
            } else {
                assert(s[i] == r[i] && s[j] == r[j]);
            }
        }
        p
    }
}

proof fn lemma_ascending_list_exists(keys: Set<Seq<u8>>) -> (ks: Seq<Seq<u8>>)
    requires
        keys.finite(),
    ensures
        strictly_ascending(ks),
        ks.to_set() == keys,
    decreases keys.len(),
{
    if keys.len() == 0 {
        let ks = Seq::<Seq<u8>>::empty();
        assert(keys =~= Set::empty());
        assert(ks.to_set() =~= keys);
        ks
    } else {
        let x = keys.choose();
        let rest_keys = keys.remove(x);
        let rest = lemma_ascending_list_exists(rest_keys);
        assert(!rest.contains(x)) by {
            assert(rest.to_set().contains(x) == rest.contains(x));
        }
        let p = lemma_insert_ascending(rest, x);
        let ks = rest.insert(p, x);
        rest.insert_ensures(p, x);
        assert forall|y: Seq<u8>| #[trigger] ks.to_set().contains(y) <==> keys.contains(y) by {
            assert(ks.to_set().contains(y) == ks.contains(y));
            assert(rest.to_set().contains(y) == rest.contains(y));
            if ks.contains(y) {
                let k = choose|k: int| 0 <= k < ks.len() && ks[k] == y;
                if k < p {
                    assert(rest[k] == y);
                } else if k > p {
                    assert(rest[k - 1] == y);
                }
            }
            if keys.contains(y) && y != x {
                assert(rest_keys.contains(y));
                assert(rest.contains(y));
                let k = choose|k: int| 0 <= k < rest.len() && rest[k] == y;
                if k < p {
                    assert(ks[k] == y);
                } else {
                    assert(ks[k + 1] == y);
                }
            }
            if y == x {
                assert(ks[p] == y);
            }
        }
        assert(ks.to_set() =~= keys);
        ks
    }
}

/// Every finite set of keys has its ascending list: the chosen list is
/// strictly ascending and holds exactly the keys of the set.
pub proof fn law_ascending_list_of(keys: Set<Seq<u8>>)
    requires
        keys.finite(),
    ensures
        strictly_ascending(ascending_list_of(keys)),
        ascending_list_of(keys).to_set() == keys,
{
    let ks = lemma_ascending_list_exists(keys);
    assert(strictly_ascending(ks) && ks.to_set() == keys);
}

/// The hash keys of a list of access keys, ascending and without repeats.
pub open spec fn sorted_key_hashes_of(entries: Seq<(Seq<char>, Seq<char>)>) -> Seq<Seq<u8>> {
    ascending_list_of(key_hashes(entries).to_set())
}

/// The state keys of a list of access keys as text.
pub open spec fn key_texts(entries: Seq<(Seq<char>, Seq<char>)>) -> Seq<Seq<char>> {
    sorted_key_hashes_of(entries).map_values(|k: Seq<u8>| key_text(k))
}

/// The state keys of a list of access keys: each readable entry hashed (see
/// `access_key_hash`), written `0x` and 64 lower-case hexadecimal digits, sorted
/// and without repeats.
pub fn hash_access_keys(entries: &[AccessKey]) -> (r: Vec<String>)
    ensures
        texts_of(r@) == key_texts(pairs_of(entries@)),
        texts_ascending(texts_of(r@)),
        forall|i: int| 0 <= i < r@.len() ==> is_key_text(#[trigger] r@[i]@),
{
    let keys = sorted_key_hashes(entries);
    let ghost ks = views_of(keys@);
    let mut out: Vec<String> = Vec::new();
    let n = keys.len();
    for j in 0..n
        invariant
            n == keys@.len(),
            ks == views_of(keys@),
            out@.len() == j,
            forall|t: int| 0 <= t < j ==> #[trigger] out@[t]@ == key_text(ks[t]),
    {
        let s = key_text_string(&keys[j]);
        out.push(s);
    }
    proof {
        let target = key_hashes(pairs_of(entries@)).to_set();
        assert(ks.to_set() =~= target);
        let chosen = ascending_list_of(target);
        assert(strictly_ascending(chosen) && chosen.to_set() == target);
        assert forall|x: Seq<u8>| #[trigger] ks.contains(x) <==> chosen.contains(x) by {
            assert(ks.to_set().contains(x) == ks.contains(x));
            assert(chosen.to_set().contains(x) == chosen.contains(x));
        }
        law_sorted_keys_unique(ks, chosen);
    }
    assert(texts_of(out@) =~= ks.map_values(|k: Seq<u8>| key_text(k)));
    assert forall|i: int, j: int| 0 <= i < j < texts_of(out@).len() implies text_lt(
        #[trigger] texts_of(out@)[i],
        #[trigger] texts_of(out@)[j],
    ) by {
        assert(bytes_lt(ks[i], ks[j]));
        assert(keys@[i]@.len() == 32);
        assert(keys@[j]@.len() == 32);
        law_key_text_keeps_order(ks[i], ks[j]);
    }
    assert forall|i: int| 0 <= i < out@.len() implies is_key_text(#[trigger] out@[i]@) by {
        assert(keys@[i]@.len() == 32);
        law_key_text_shape(ks[i]);
    }
    out
}

/// A lower-case hexadecimal digit: `0`-`9` or `a`-`f`.
pub open spec fn is_lower_hex_char(c: char) -> bool {
    (48 <= (c as int) <= 57) || (97 <= (c as int) <= 102)
}

/// The text of a 32-byte key: 66 characters, `0x` and 64 lower-case
/// hexadecimal digits.
pub open spec fn is_key_text(t: Seq<char>) -> bool {
    &&& t.len() == 66
    &&& t[0] == '0'
    &&& t[1] == 'x'
    &&& forall|j: int| 2 <= j < 66 ==> is_lower_hex_char(#[trigger] t[j])
}

/// A 32-byte key is written as `0x` and 64 lower-case hexadecimal digits.
pub proof fn law_key_text_shape(h: Seq<u8>)
    requires
        h.len() == 32,
    ensures
        is_key_text(key_text(h)),
{
    let t = key_text(h);
    assert forall|j: int| 2 <= j < 66 implies is_lower_hex_char(#[trigger] t[j]) by {
        assert(t[j] == hex_encoded(h)[j - 2]);
    }
}

/// Two ascending lists without repeats that hold the same keys are the same
/// list: sorted and de-duplicated keys are determined by the set of keys.
pub proof fn law_sorted_keys_unique(x: Seq<Seq<u8>>, y: Seq<Seq<u8>>)
    requires
        strictly_ascending(x),
        strictly_ascending(y),
        forall|k: Seq<u8>| #[trigger] x.contains(k) <==> y.contains(k),
    ensures
        x == y,
    decreases x.len() + y.len(),
{
    if x.len() == 0 {
        if y.len() > 0 {
            assert(y.contains(y[0]));
            assert(x.contains(y[0]));
        }
        assert(x =~= y);
    } else if y.len() == 0 {
        assert(x.contains(x[0]));
        assert(y.contains(x[0]));
    } else {
        // The first elements are the least of each list, so they agree.
        assert(x.contains(x[0]));
        assert(y.contains(y[0]));
        assert(y.contains(x[0]));
        assert(x.contains(y[0]));
        let i = choose|i: int| 0 <= i < y.len() && y[i] == x[0];
        let j = choose|j: int| 0 <= j < x.len() && x[j] == y[0];
        if i > 0 && j > 0 {
            assert(bytes_lt(y[0], y[i]));
            assert(bytes_lt(x[0], x[j]));
            lemma_bytes_lt_transitive(x[0], x[j], x[0]);
            lemma_bytes_lt_irreflexive(x[0]);
        } else if i > 0 {
            assert(j == 0);
            assert(bytes_lt(y[0], y[i]));
            lemma_bytes_lt_irreflexive(x[0]);
        } else if j > 0 {
            assert(bytes_lt(x[0], x[j]));
            lemma_bytes_lt_irreflexive(y[0]);
        }
        assert(x[0] == y[0]);
        let xs = x.drop_first();
        let ys = y.drop_first();
        assert forall|k: Seq<u8>| #[trigger] xs.contains(k) <==> ys.contains(k) by {
            if xs.contains(k) {
                let a = choose|a: int| 0 <= a < xs.len() && xs[a] == k;
                assert(x[a + 1] == k);
                assert(bytes_lt(x[0], x[a + 1]));
                assert(x.contains(k));
                assert(y.contains(k));
                let b = choose|b: int| 0 <= b < y.len() && y[b] == k;
                if b == 0 {
                    lemma_bytes_lt_irreflexive(k);
                }
                assert(ys[b - 1] == k);
            }
            if ys.contains(k) {
                let a = choose|a: int| 0 <= a < ys.len() && ys[a] == k;
                assert(y[a + 1] == k);
                assert(bytes_lt(y[0], y[a + 1]));
                assert(y.contains(k));
                assert(x.contains(k));
                let b = choose|b: int| 0 <= b < x.len() && x[b] == k;
                if b == 0 {
                    lemma_bytes_lt_irreflexive(k);
                }
                assert(xs[b - 1] == k);
            }
        }
        assert forall|a: int, b: int| 0 <= a < b < xs.len() implies bytes_lt(
            #[trigger] xs[a],
            #[trigger] xs[b],
        ) by {
            assert(xs[a] == x[a + 1]);
            assert(xs[b] == x[b + 1]);
        }
        assert forall|a: int, b: int| 0 <= a < b < ys.len() implies bytes_lt(
            #[trigger] ys[a],
            #[trigger] ys[b],
        ) by {
            assert(ys[a] == y[a + 1]);
            assert(ys[b] == y[b + 1]);
        }
        law_sorted_keys_unique(xs, ys);
        assert forall|a: int| 0 <= a < x.len() implies x[a] == y[a] by {
            if a > 0 {
                assert(x[a] == xs[a - 1]);
                assert(y[a] == ys[a - 1]);
            }
        }
        assert(x =~= y);
    }
}

/// The hashed keys of two lists of access keys are the same where the lists give
/// the same set of hash keys: neither the order of the entries nor repeats matter.
pub proof fn law_key_texts_depend_on_key_set(
    a: Seq<(Seq<char>, Seq<char>)>,
    b: Seq<(Seq<char>, Seq<char>)>,
)
    requires
        key_hashes(a).to_set() == key_hashes(b).to_set(),
    ensures
        key_texts(a) == key_texts(b),
{
}

/// The hash keys of two lists of access keys put together are the hash keys of
/// the first followed by those of the second, so the sorted keys of the whole
/// are the ascending list of the union of the two sets of keys.
pub proof fn law_key_hashes_of_concatenation(
    a: Seq<(Seq<char>, Seq<char>)>,
    b: Seq<(Seq<char>, Seq<char>)>,
)
    ensures
        key_hashes(a + b) == key_hashes(a) + key_hashes(b),
        sorted_key_hashes_of(a + b) == ascending_list_of(
            key_hashes(a).to_set() + key_hashes(b).to_set(),
        ),
    decreases b.len(),
{
    if b.len() == 0 {
        assert(a + b =~= a);
        assert(key_hashes(a) + key_hashes(b) =~= key_hashes(a));
    } else {
        law_key_hashes_of_concatenation(a, b.drop_last());
        assert((a + b).drop_last() =~= a + b.drop_last());
        assert((a + b).last() == b.last());
        let rest = key_hashes(b.drop_last());
        match access_key_hash(b.last().0, b.last().1) {
            Some(h) => {
                assert(key_hashes(a) + rest.push(h) =~= (key_hashes(a) + rest).push(h));
            },
            None => {},
        }
    }
    vstd::seq_lib::seq_to_set_distributes_over_add(key_hashes(a), key_hashes(b));
}

} // verus!
