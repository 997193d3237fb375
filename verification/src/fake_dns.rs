//! The fake-DNS address pool used in TUN mode: each queried name is handed a
//! fake address from a pool, the name can be found again from the address,
//! and once the pool is used up the least recently used address is taken
//! back and handed to the new name.
use crate::net::{ip_address_from_str, ip_to_string, ipv4_text, ipv6_text, parse_ip_address, IpAddress};
use crate::text::push_str;
use lru::LruCache;
use std::collections::VecDeque;
use vstd::hash_map::StringHashMap;
use vstd::prelude::*;

verus! {

#[verifier::external_type_specification]
#[verifier::external_body]
#[verifier::reject_recursive_types(K)]
#[verifier::reject_recursive_types(V)]
#[verifier::reject_recursive_types(S)]
pub struct ExLruCache<K, V, S>(LruCache<K, V, S>);

#[verifier::external_type_specification]
#[verifier::external_body]
pub struct ExLruDefaultHasher(lru::DefaultHasher);

/// The entries of a recency cache from address to name, from the least
/// recently used entry (index 0) to the most recently used one (last).
pub uninterp spec fn lru_entries(cache: LruCache<u128, String>) -> Seq<(u128, Seq<char>)>;

/// The capacity that a recency cache was made with.
pub uninterp spec fn lru_capacity(cache: LruCache<u128, String>) -> nat;

/// No address occurs twice among the entries.
pub open spec fn keys_unique(e: Seq<(u128, Seq<char>)>) -> bool {
    forall|i: int, j: int|
        0 <= i < e.len() && 0 <= j < e.len() && i != j ==> #[trigger] e[i].0 != #[trigger] e[j].0
}

/// The address `k` occurs among the entries.
pub open spec fn has_key(e: Seq<(u128, Seq<char>)>, k: u128) -> bool {
    exists|i: int| 0 <= i < e.len() && #[trigger] e[i].0 == k
}

/// The position of address `k` among the entries (meaningful when `has_key`).
pub open spec fn key_index(e: Seq<(u128, Seq<char>)>, k: u128) -> int {
    choose|i: int| 0 <= i < e.len() && #[trigger] e[i].0 == k
}

/// Moves the entry at position `i` to the most recently used end.
pub open spec fn move_to_end<A>(e: Seq<A>, i: int) -> Seq<A> {
    e.remove(i).push(e[i])
}

/// Marks the entry of address `k`, if any, as the most recently used one.
pub open spec fn touch(e: Seq<(u128, Seq<char>)>, k: u128) -> Seq<(u128, Seq<char>)> {
    if has_key(e, k) {
        move_to_end(e, key_index(e, k))
    } else {
        e
    }
}

/// `LruCache::put`: the entry of address `k`, if any, is taken out, and
/// `(k, name)` becomes the most recently used entry.
pub open spec fn put_entry(e: Seq<(u128, Seq<char>)>, k: u128, name: Seq<char>) -> Seq<(u128, Seq<char>)> {
    if has_key(e, k) {
        e.remove(key_index(e, k)).push((k, name))
    } else {
        e.push((k, name))
    }
}

/// `LruCache::unbounded`: an empty cache whose capacity is `usize::MAX`.
#[verifier::external_body]
fn lru_unbounded() -> (res: LruCache<u128, String>)
    ensures
        lru_entries(res) == Seq::<(u128, Seq<char>)>::empty(),
        lru_capacity(res) == usize::MAX,
{
    LruCache::unbounded()
}

/// `LruCache::get`: when `k` is present its value is returned (cloned here)
/// and its entry becomes the most recently used one; otherwise nothing changes.
#[verifier::external_body]
fn lru_get(cache: &mut LruCache<u128, String>, k: &u128) -> (res: Option<String>)
    requires
        keys_unique(lru_entries(*old(cache))),
    ensures
        lru_capacity(*final(cache)) == lru_capacity(*old(cache)),
        res is Some <==> has_key(lru_entries(*old(cache)), *k),
        forall|i: int|
            0 <= i < lru_entries(*old(cache)).len() && #[trigger] lru_entries(*old(cache))[i].0 == *k
                ==> {
                &&& res matches Some(s) && s@ == lru_entries(*old(cache))[i].1
                &&& lru_entries(*final(cache)) == move_to_end(lru_entries(*old(cache)), i)
            },
        !has_key(lru_entries(*old(cache)), *k) ==> lru_entries(*final(cache)) == lru_entries(
            *old(cache),
        ),
{
    cache.get(k).cloned()
}

/// `LruCache::put` below capacity: an entry for `k` is replaced (its old value
/// returned) or a new one added, and it becomes the most recently used one.
#[verifier::external_body]
fn lru_put(cache: &mut LruCache<u128, String>, k: u128, v: String) -> (res: Option<String>)
    requires
        keys_unique(lru_entries(*old(cache))),
        lru_entries(*old(cache)).len() < lru_capacity(*old(cache)),
    ensures
        lru_capacity(*final(cache)) == lru_capacity(*old(cache)),
        res is Some <==> has_key(lru_entries(*old(cache)), k),
        forall|i: int|
            0 <= i < lru_entries(*old(cache)).len() && #[trigger] lru_entries(*old(cache))[i].0 == k
                ==> {
                &&& res matches Some(s) && s@ == lru_entries(*old(cache))[i].1
                &&& lru_entries(*final(cache)) == lru_entries(*old(cache)).remove(i).push((k, v@))
            },
        !has_key(lru_entries(*old(cache)), k) ==> lru_entries(*final(cache)) == lru_entries(
            *old(cache),
        ).push((k, v@)),
{
    cache.put(k, v)
}

/// `LruCache::pop_lru`: removes and returns the least recently used entry.
#[verifier::external_body]
fn lru_pop_lru(cache: &mut LruCache<u128, String>) -> (res: Option<(u128, String)>)
    ensures
        lru_capacity(*final(cache)) == lru_capacity(*old(cache)),
        lru_entries(*old(cache)).len() == 0 ==> res is None && lru_entries(*final(cache))
            == lru_entries(*old(cache)),
        lru_entries(*old(cache)).len() > 0 ==> {
            &&& res matches Some((k, s)) && k == lru_entries(*old(cache))[0].0 && s@
                == lru_entries(*old(cache))[0].1
            &&& lru_entries(*final(cache)) == lru_entries(*old(cache)).drop_first()
        },
{
    cache.pop_lru()
}

/// The abstract state of a pool: the addresses not yet handed out (in the
/// order they will be handed out), the name-to-address mapping, and the
/// address-to-name entries from least to most recently used.
pub struct PoolView {
    pub pool: Seq<u128>,
    pub mapping: Map<Seq<char>, u128>,
    pub recency: Seq<(u128, Seq<char>)>,
}

/// The consistency of a pool: the two directions of the mapping agree, no
/// address is held twice, and no address is both free and handed out.
pub open spec fn pool_wf(v: PoolView) -> bool {
    &&& keys_unique(v.recency)
    &&& forall|i: int|
        0 <= i < v.recency.len() ==> v.mapping.contains_key(#[trigger] v.recency[i].1)
            && v.mapping[v.recency[i].1] == v.recency[i].0
    &&& forall|k: Seq<char>|
        #[trigger] v.mapping.contains_key(k) ==> v.recency.contains((v.mapping[k], k))
    &&& v.pool.no_duplicates()
    &&& forall|i: int| 0 <= i < v.pool.len() ==> !has_key(v.recency, #[trigger] v.pool[i])
}

/// What every pool keeps, whatever addresses it was made with: no address
/// has two recency entries, and every name's address has one.
pub open spec fn pool_sound(v: PoolView) -> bool {
    &&& keys_unique(v.recency)
    &&& forall|k: Seq<char>| #[trigger] v.mapping.contains_key(k) ==> has_key(v.recency, v.mapping[k])
}

/// What `get` does to a pool and what it returns. Where the pool holds an
/// address twice, the second hand-out takes the address's recency entry
/// over for the new name, and the earlier name keeps the address.
pub open spec fn spec_get(v: PoolView, key: Seq<char>) -> (PoolView, Option<u128>) {
    if v.mapping.contains_key(key) {
        let value = v.mapping[key];
        (PoolView { recency: touch(v.recency, value), ..v }, Some(value))
    } else if v.pool.len() > 0 {
        let value = v.pool[0];
        (
            PoolView {
                pool: v.pool.drop_first(),
                mapping: v.mapping.insert(key, value),
                recency: put_entry(v.recency, value, key),
            },
            Some(value),
        )
    } else if v.recency.len() > 0 {
        let value = v.recency[0].0;
        let old_key = v.recency[0].1;
        (
            PoolView {
                pool: v.pool,
                mapping: v.mapping.remove(old_key).insert(key, value),
                recency: v.recency.drop_first().push((value, key)),
            },
            Some(value),
        )
    } else {
        (v, None)
    }
}

/// What `get_reverse` does to a pool and what it returns.
pub open spec fn spec_get_reverse(v: PoolView, value: u128) -> (PoolView, Option<Seq<char>>) {
    if has_key(v.recency, value) {
        (
            PoolView { recency: touch(v.recency, value), ..v },
            Some(v.recency[key_index(v.recency, value)].1),
        )
    } else {
        (v, None)
    }
}

/// The addresses of a fake-DNS pool, the names they are handed to, and the
/// recency order in which they are taken back when the pool runs out.
pub struct PoolWithBidirectionalMapping {
    pool: VecDeque<u128>,
    mapping: StringHashMap<u128>,
    reverse_mapping: LruCache<u128, String>,
}

impl View for PoolWithBidirectionalMapping {
    type V = PoolView;

    closed spec fn view(&self) -> PoolView {
        PoolView {
            pool: self.pool@,
            mapping: self.mapping@,
            recency: lru_entries(self.reverse_mapping),
        }
    }
}

proof fn lemma_move_to_end(e: Seq<(u128, Seq<char>)>, i: int)
    requires
        0 <= i < e.len(),
    ensures
        move_to_end(e, i).len() == e.len(),
        forall|j: int|
            0 <= j < i ==> #[trigger] move_to_end(e, i)[j] == e[j],
        forall|j: int|
            i <= j < e.len() - 1 ==> #[trigger] move_to_end(e, i)[j] == e[j + 1],
        move_to_end(e, i)[e.len() - 1] == e[i],
        forall|x: (u128, Seq<char>)| #[trigger] move_to_end(e, i).contains(x) <==> e.contains(x),
        forall|k: u128| has_key(move_to_end(e, i), k) <==> has_key(e, k),
        keys_unique(e) ==> keys_unique(move_to_end(e, i)),
{
    let m = move_to_end(e, i);
    assert forall|x: (u128, Seq<char>)| #[trigger] m.contains(x) <==> e.contains(x) by {
        if m.contains(x) {
            let j = choose|j: int| 0 <= j < m.len() && m[j] == x;
            if j < i {
                assert(e[j] == x);
            } else if j < e.len() - 1 {
                assert(e[j + 1] == x);
            } else {
                assert(e[i] == x);
            }
        }
        if e.contains(x) {
            let j = choose|j: int| 0 <= j < e.len() && e[j] == x;
            if j < i {
                assert(m[j] == x);
            } else if j > i {
                assert(m[j - 1] == x);
            } else {
                assert(m[e.len() - 1] == x);
            }
        }
    }
    assert forall|k: u128| has_key(m, k) <==> has_key(e, k) by {
        if has_key(m, k) {
            let j = choose|j: int| 0 <= j < m.len() && #[trigger] m[j].0 == k;
            if j < i {
                assert(e[j].0 == k);
            } else if j < e.len() - 1 {
                assert(e[j + 1].0 == k);
            } else {
                assert(e[i].0 == k);
            }
        }
        if has_key(e, k) {
            let j = choose|j: int| 0 <= j < e.len() && #[trigger] e[j].0 == k;
            if j < i {
                assert(m[j].0 == k);
            } else if j > i {
                assert(m[j - 1].0 == k);
            } else {
                assert(m[e.len() - 1].0 == k);
            }
        }
    }
    if keys_unique(e) {
        assert forall|a: int, b: int|
            0 <= a < m.len() && 0 <= b < m.len() && a != b implies #[trigger] m[a].0
            != #[trigger] m[b].0 by {
            let ia = if a < i {
                a
            } else if a < e.len() - 1 {
                a + 1
            } else {
                i
            };
            let ib = if b < i {
                b
            } else if b < e.len() - 1 {
                b + 1
            } else {
                i
            };
            assert(m[a] == e[ia]);
            assert(m[b] == e[ib]);
        }
    }
}

/// In a consistent pool, two entries with the same name are the same entry.
proof fn lemma_names_unique(v: PoolView, i: int, j: int)
    requires
        pool_wf(v),
        0 <= i < v.recency.len(),
        0 <= j < v.recency.len(),
        v.recency[i].1 == v.recency[j].1,
    ensures
        i == j,
{
    assert(v.mapping[v.recency[i].1] == v.recency[i].0);
    assert(v.mapping[v.recency[j].1] == v.recency[j].0);
}

/// Touching an entry keeps a consistent pool consistent.
proof fn lemma_touch_wf(v: PoolView, value: u128)
    requires
        pool_wf(v),
    ensures
        pool_wf(PoolView { recency: touch(v.recency, value), ..v }),
{
    if has_key(v.recency, value) {
        let i = key_index(v.recency, value);
        lemma_move_to_end(v.recency, i);
        let w = PoolView { recency: touch(v.recency, value), ..v };
        assert forall|j: int|
            0 <= j < w.recency.len() implies w.mapping.contains_key(#[trigger] w.recency[j].1)
            && w.mapping[w.recency[j].1] == w.recency[j].0 by {
            assert(v.recency.contains(w.recency[j]));
            let jj = choose|jj: int| 0 <= jj < v.recency.len() && v.recency[jj] == w.recency[j];
            assert(v.recency[jj].1 == w.recency[j].1);
        }
        assert forall|j: int| 0 <= j < w.pool.len() implies !has_key(w.recency, #[trigger] w.pool[j]) by {
            assert(!has_key(v.recency, v.pool[j]));
        }
    }
}

/// Dropping the first entry keeps addresses unique, and the dropped address
/// is not among the rest.
proof fn lemma_drop_first_unique(e: Seq<(u128, Seq<char>)>)
    requires
        keys_unique(e),
        e.len() > 0,
    ensures
        keys_unique(e.drop_first()),
        !has_key(e.drop_first(), e[0].0),
{
    let d = e.drop_first();
    assert forall|i: int, j: int|
        0 <= i < d.len() && 0 <= j < d.len() && i != j implies #[trigger] d[i].0 != #[trigger] d[j].0 by {
        assert(d[i] == e[i + 1]);
        assert(d[j] == e[j + 1]);
    }
    if has_key(d, e[0].0) {
        let j = choose|j: int| 0 <= j < d.len() && #[trigger] d[j].0 == e[0].0;
        assert(d[j] == e[j + 1]);
    }
}

/// Putting an entry keeps addresses unique; the entry's address is added to
/// the addresses, and the entry becomes the last one.
proof fn lemma_put_entry(e: Seq<(u128, Seq<char>)>, k: u128, name: Seq<char>)
    requires
        keys_unique(e),
    ensures
        keys_unique(put_entry(e, k, name)),
        forall|x: u128| has_key(put_entry(e, k, name), x) <==> (has_key(e, x) || x == k),
        put_entry(e, k, name).len() <= e.len() + 1,
        put_entry(e, k, name).len() > 0,
        put_entry(e, k, name).last() == (k, name),
{
    let p = put_entry(e, k, name);
    if has_key(e, k) {
        let i = key_index(e, k);
        let r = e.remove(i);
        assert forall|a: int, b: int| 0 <= a < p.len() && 0 <= b < p.len() && a != b implies #[trigger] p[a].0
            != #[trigger] p[b].0 by {
            let ia = if a < i { a } else if a < r.len() { a + 1 } else { -1 };
            let ib = if b < i { b } else if b < r.len() { b + 1 } else { -1 };
            if ia >= 0 {
                assert(p[a] == e[ia]);
            }
            if ib >= 0 {
                assert(p[b] == e[ib]);
            }
            if ia < 0 {
                assert(p[a].0 == k);
                assert(e[ib].0 != e[i].0);
            }
            if ib < 0 {
                assert(p[b].0 == k);
                assert(e[ia].0 != e[i].0);
            }
        }
        assert forall|x: u128| has_key(p, x) <==> (has_key(e, x) || x == k) by {
            if has_key(p, x) {
                let j = choose|j: int| 0 <= j < p.len() && #[trigger] p[j].0 == x;
                if j < i {
                    assert(e[j].0 == x);
                } else if j < r.len() {
                    assert(e[j + 1].0 == x);
                }
            }
            if has_key(e, x) && x != k {
                let j = choose|j: int| 0 <= j < e.len() && #[trigger] e[j].0 == x;
                if j < i {
                    assert(p[j].0 == x);
                } else {
                    assert(j != i);
                    assert(p[j - 1].0 == x);
                }
            }
            if x == k {
                assert(p[p.len() - 1].0 == x);
            }
        }
    } else {
        assert forall|a: int, b: int| 0 <= a < p.len() && 0 <= b < p.len() && a != b implies #[trigger] p[a].0
            != #[trigger] p[b].0 by {
            if a == e.len() {
                assert(e[b].0 != k);
            } else if b == e.len() {
                assert(e[a].0 != k);
            }
        }
        assert forall|x: u128| has_key(p, x) <==> (has_key(e, x) || x == k) by {
            if has_key(p, x) {
                let j = choose|j: int| 0 <= j < p.len() && #[trigger] p[j].0 == x;
                if j < e.len() {
                    assert(e[j].0 == x);
                }
            }
            if has_key(e, x) {
                let j = choose|j: int| 0 <= j < e.len() && #[trigger] e[j].0 == x;
                assert(p[j].0 == x);
            }
            if x == k {
                assert(p[e.len() as int].0 == x);
            }
        }
    }
}

/// `get` keeps every pool sound, owns no address the pool did not own, and
/// hands out an address the pool owned.
pub proof fn lemma_spec_get_sound(v: PoolView, key: Seq<char>)
    requires
        pool_sound(v),
    ensures
        pool_sound(spec_get(v, key).0),
        pool_addresses(spec_get(v, key).0).subset_of(pool_addresses(v)),
        spec_get(v, key).1 matches Some(a) ==> pool_addresses(v).contains(a),
{
    let w = spec_get(v, key).0;
    if v.mapping.contains_key(key) {
        let value = v.mapping[key];
        if has_key(v.recency, value) {
            lemma_move_to_end(v.recency, key_index(v.recency, value));
        }
        assert(pool_addresses(w).subset_of(pool_addresses(v)));
        assert(pool_addresses(v).contains(value));
    } else if v.pool.len() > 0 {
        let value = v.pool[0];
        lemma_put_entry(v.recency, value, key);
        assert forall|k: Seq<char>| #[trigger] w.mapping.contains_key(k) implies has_key(w.recency, w.mapping[k]) by {
            if k != key {
                assert(v.mapping.contains_key(k));
            }
        }
        assert forall|a: u128| pool_addresses(w).contains(a) implies pool_addresses(v).contains(a) by {
            if w.pool.contains(a) {
                let j = choose|j: int| 0 <= j < w.pool.len() && w.pool[j] == a;
                assert(v.pool[j + 1] == a);
            }
            if has_key(w.recency, a) && a == value {
                assert(v.pool[0] == a);
            }
        }
        assert(v.pool.contains(value));
    } else if v.recency.len() > 0 {
        let value = v.recency[0].0;
        let old_key = v.recency[0].1;
        let d = v.recency.drop_first();
        lemma_drop_first_unique(v.recency);
        assert forall|a: int, b: int| 0 <= a < w.recency.len() && 0 <= b < w.recency.len() && a != b implies #[trigger] w.recency[a].0
            != #[trigger] w.recency[b].0 by {
            if a == d.len() {
                assert(d[b].0 != value);
            } else if b == d.len() {
                assert(d[a].0 != value);
            } else {
                assert(d[a].0 != d[b].0);
            }
        }
        assert forall|x: u128| has_key(w.recency, x) <==> has_key(v.recency, x) by {
            if has_key(w.recency, x) {
                let j = choose|j: int| 0 <= j < w.recency.len() && #[trigger] w.recency[j].0 == x;
                if j < d.len() {
                    assert(v.recency[j + 1].0 == x);
                } else {
                    assert(v.recency[0].0 == x);
                }
            }
            if has_key(v.recency, x) {
                let j = choose|j: int| 0 <= j < v.recency.len() && #[trigger] v.recency[j].0 == x;
                if j == 0 {
                    assert(w.recency[d.len() as int].0 == x);
                } else {
                    assert(w.recency[j - 1].0 == x);
                }
            }
        }
        assert forall|k: Seq<char>| #[trigger] w.mapping.contains_key(k) implies has_key(w.recency, w.mapping[k]) by {
            if k != key {
                assert(v.mapping.contains_key(k));
            }
        }
        assert(pool_addresses(w) =~= pool_addresses(v));
        assert(v.recency[0].0 == value);
    }
}

/// A pool made from addresses that are all different is consistent.
pub proof fn lemma_fresh_pool_wf(pool: Seq<u128>)
    requires
        pool.no_duplicates(),
    ensures
        pool_wf(fresh_pool(pool)),
{
}

/// `get` keeps a consistent pool consistent.
pub proof fn lemma_spec_get_wf(v: PoolView, key: Seq<char>)
    requires
        pool_wf(v),
    ensures
        pool_wf(spec_get(v, key).0),
{
    if v.mapping.contains_key(key) {
        lemma_touch_wf(v, v.mapping[key]);
    } else if v.pool.len() > 0 {
        let value = v.pool[0];
        let w = spec_get(v, key).0;
        assert(!has_key(v.recency, value));
        assert forall|i: int|
            0 <= i < w.recency.len() implies w.mapping.contains_key(#[trigger] w.recency[i].1)
            && w.mapping[w.recency[i].1] == w.recency[i].0 by {
            if i < v.recency.len() {
                assert(v.mapping.contains_key(v.recency[i].1));
            }
        }
        assert forall|k: Seq<char>| #[trigger]
            w.mapping.contains_key(k) implies w.recency.contains((w.mapping[k], k)) by {
            if k == key {
                assert(w.recency[w.recency.len() - 1] == (value, key));
            } else {
                assert(v.recency.contains((v.mapping[k], k)));
                let j = choose|j: int| 0 <= j < v.recency.len() && v.recency[j] == (v.mapping[k], k);
                assert(w.recency[j] == v.recency[j]);
            }
        }
        assert forall|i: int, j: int|
            0 <= i < w.recency.len() && 0 <= j < w.recency.len() && i != j implies #[trigger] w.recency[i].0
            != #[trigger] w.recency[j].0 by {
            if i == v.recency.len() as int {
                assert(v.recency[j].0 != value);
            } else if j == v.recency.len() as int {
                assert(v.recency[i].0 != value);
            }
        }
        assert forall|i: int| 0 <= i < w.pool.len() implies !has_key(w.recency, #[trigger] w.pool[i]) by {
            assert(w.pool[i] == v.pool[i + 1]);
            assert(!has_key(v.recency, v.pool[i + 1]));
            assert(v.pool[i + 1] != v.pool[0]);
            if has_key(w.recency, w.pool[i]) {
                let j = choose|j: int| 0 <= j < w.recency.len() && #[trigger] w.recency[j].0 == w.pool[i];
                if j < v.recency.len() {
                    assert(v.recency[j].0 == v.pool[i + 1]);
                }
            }
        }
        assert forall|i: int, j: int|
            0 <= i < w.pool.len() && 0 <= j < w.pool.len() && i != j implies w.pool[i] != w.pool[j] by {
            assert(w.pool[i] == v.pool[i + 1]);
            assert(w.pool[j] == v.pool[j + 1]);
        }
    } else if v.recency.len() > 0 {
        let value = v.recency[0].0;
        let old_key = v.recency[0].1;
        let w = spec_get(v, key).0;
        let d = v.recency.drop_first();
        lemma_drop_first_unique(v.recency);
        assert(v.mapping.contains_key(old_key));
        assert(old_key != key);
        assert forall|i: int|
            0 <= i < w.recency.len() implies w.mapping.contains_key(#[trigger] w.recency[i].1)
            && w.mapping[w.recency[i].1] == w.recency[i].0 by {
            if i < d.len() {
                assert(w.recency[i] == v.recency[i + 1]);
                assert(v.mapping.contains_key(v.recency[i + 1].1));
                if v.recency[i + 1].1 == old_key {
                    lemma_names_unique(v, i + 1, 0);
                }
            }
        }
        assert forall|k: Seq<char>| #[trigger]
            w.mapping.contains_key(k) implies w.recency.contains((w.mapping[k], k)) by {
            if k == key {
                assert(w.recency[w.recency.len() - 1] == (value, key));
            } else {
                assert(v.recency.contains((v.mapping[k], k)));
                let j = choose|j: int| 0 <= j < v.recency.len() && v.recency[j] == (v.mapping[k], k);
                assert(j != 0);
                assert(w.recency[j - 1] == v.recency[j]);
            }
        }
        assert forall|i: int, j: int|
            0 <= i < w.recency.len() && 0 <= j < w.recency.len() && i != j implies #[trigger] w.recency[i].0
            != #[trigger] w.recency[j].0 by {
            if i == d.len() as int {
                assert(d[j].0 != value);
            } else if j == d.len() as int {
                assert(d[i].0 != value);
            } else {
                assert(d[i].0 != d[j].0);
            }
        }
    }
}

/// The addresses a pool owns: the free ones and the handed-out ones.
pub open spec fn pool_addresses(v: PoolView) -> Set<u128> {
    Set::new(|a: u128| v.pool.contains(a) || has_key(v.recency, a))
}

/// `get` neither creates nor loses addresses: the pool owns the same
/// addresses afterwards, and the address it returns is one of them.
pub proof fn law_get_keeps_addresses(v: PoolView, key: Seq<char>)
    requires
        pool_wf(v),
    ensures
        pool_addresses(spec_get(v, key).0) == pool_addresses(v),
        spec_get(v, key).1 matches Some(a) ==> pool_addresses(v).contains(a),
{
    let w = spec_get(v, key).0;
    if v.mapping.contains_key(key) {
        let value = v.mapping[key];
        assert(v.recency.contains((value, key)));
        let i = choose|i: int| 0 <= i < v.recency.len() && v.recency[i] == (value, key);
        assert(v.recency[i].0 == value);
        lemma_move_to_end(v.recency, key_index(v.recency, value));
        assert(pool_addresses(w) =~= pool_addresses(v));
    } else if v.pool.len() > 0 {
        let value = v.pool[0];
        assert forall|a: u128| pool_addresses(w).contains(a) <==> pool_addresses(v).contains(a) by {
            if w.pool.contains(a) {
                let j = choose|j: int| 0 <= j < w.pool.len() && w.pool[j] == a;
                assert(v.pool[j + 1] == a);
            }
            if has_key(w.recency, a) {
                let j = choose|j: int| 0 <= j < w.recency.len() && #[trigger] w.recency[j].0 == a;
                if j < v.recency.len() {
                    assert(v.recency[j].0 == a);
                } else {
                    assert(v.pool[0] == a);
                }
            }
            if v.pool.contains(a) {
                let j = choose|j: int| 0 <= j < v.pool.len() && v.pool[j] == a;
                if j == 0 {
                    assert(w.recency[v.recency.len() as int].0 == a);
                } else {
                    assert(w.pool[j - 1] == a);
                }
            }
            if has_key(v.recency, a) {
                let j = choose|j: int| 0 <= j < v.recency.len() && #[trigger] v.recency[j].0 == a;
                assert(w.recency[j].0 == a);
            }
        }
        assert(pool_addresses(w) =~= pool_addresses(v));
        assert(v.pool.contains(value));
    } else if v.recency.len() > 0 {
        let value = v.recency[0].0;
        let d = v.recency.drop_first();
        assert forall|a: u128| pool_addresses(w).contains(a) <==> pool_addresses(v).contains(a) by {
            if has_key(w.recency, a) {
                let j = choose|j: int| 0 <= j < w.recency.len() && #[trigger] w.recency[j].0 == a;
                if j < d.len() {
                    assert(v.recency[j + 1].0 == a);
                } else {
                    assert(v.recency[0].0 == a);
                }
            }
            if has_key(v.recency, a) {
                let j = choose|j: int| 0 <= j < v.recency.len() && #[trigger] v.recency[j].0 == a;
                if j == 0 {
                    assert(w.recency[d.len() as int].0 == a);
                } else {
                    assert(w.recency[j - 1].0 == a);
                }
            }
        }
        assert(pool_addresses(w) =~= pool_addresses(v));
        assert(has_key(v.recency, value));
    }
}

/// `get_reverse` neither creates nor loses addresses.
pub proof fn law_get_reverse_keeps_addresses(v: PoolView, value: u128)
    ensures
        pool_addresses(spec_get_reverse(v, value).0) == pool_addresses(v),
{
    if has_key(v.recency, value) {
        lemma_move_to_end(v.recency, key_index(v.recency, value));
        assert(pool_addresses(spec_get_reverse(v, value).0) =~= pool_addresses(v));
    }
}

/// Once `get` has handed `key` an address, looking that address up in
/// reverse gives `key` back.
pub proof fn law_get_then_reverse(v: PoolView, key: Seq<char>)
    requires
        pool_wf(v),
        spec_get(v, key).1 is Some,
    ensures
        spec_get_reverse(spec_get(v, key).0, spec_get(v, key).1.unwrap()).1 == Some(key),
{
    let (w, r) = spec_get(v, key);
    let value = r.unwrap();
    lemma_spec_get_wf(v, key);
    // In every case the entry of `value` ends up last, holding `key`.
    let last = w.recency.len() - 1;
    if v.mapping.contains_key(key) {
        assert(v.recency.contains((value, key)));
        let i = choose|i: int| 0 <= i < v.recency.len() && v.recency[i] == (value, key);
        assert(v.recency[i].0 == value);
        let k = key_index(v.recency, value);
        assert(k == i);
        lemma_move_to_end(v.recency, k);
    }
    assert(w.recency[last] == (value, key));
    assert(w.recency[last].0 == value);
    assert(has_key(w.recency, value));
    let j = key_index(w.recency, value);
    assert(j == last);
}

/// Asking twice for the same name gives the same address.
pub proof fn law_get_is_stable(v: PoolView, key: Seq<char>)
    requires
        pool_wf(v),
        spec_get(v, key).1 is Some,
    ensures
        spec_get(spec_get(v, key).0, key).1 == spec_get(v, key).1,
{
}

/// In a consistent pool, two different names never hold the same address.
pub proof fn law_names_hold_distinct_addresses(v: PoolView, k1: Seq<char>, k2: Seq<char>)
    requires
        pool_wf(v),
        v.mapping.contains_key(k1),
        v.mapping.contains_key(k2),
        k1 != k2,
    ensures
        v.mapping[k1] != v.mapping[k2],
{
    assert(v.recency.contains((v.mapping[k1], k1)));
    assert(v.recency.contains((v.mapping[k2], k2)));
    let i = choose|i: int| 0 <= i < v.recency.len() && v.recency[i] == (v.mapping[k1], k1);
    let j = choose|j: int| 0 <= j < v.recency.len() && v.recency[j] == (v.mapping[k2], k2);
    assert(v.recency[i].0 == v.mapping[k1]);
    assert(v.recency[j].0 == v.mapping[k2]);
}

impl PoolWithBidirectionalMapping {
    /// The pool is sound and its recency cache never evicts by itself.
    pub closed spec fn wf(&self) -> bool {
        &&& pool_sound(self@)
        &&& lru_capacity(self.reverse_mapping) == usize::MAX
        &&& self@.pool.len() + self@.recency.len() <= usize::MAX
    }

    /// A well-formed pool is sound.
    pub proof fn lemma_sound(&self)
        requires
            self.wf(),
        ensures
            pool_sound(self@),
    {
    }

    /// A pool that will hand out the given addresses in order. Where an
    /// address occurs twice it is handed out twice, as `spec_get` says;
    /// where all differ, the pool is consistent (`lemma_fresh_pool_wf`).
    pub fn new(pool: VecDeque<u128>) -> (res: Self)
        ensures
            res.wf(),
            res@.pool == pool@,
            res@.mapping == Map::<Seq<char>, u128>::empty(),
            res@.recency == Seq::<(u128, Seq<char>)>::empty(),
    {
        let _len = pool.len();
        let res = PoolWithBidirectionalMapping {
            pool,
            mapping: StringHashMap::new(),
            reverse_mapping: lru_unbounded(),
        };
        assert(pool_sound(res@));
        res
    }

    /// The address of `key`: the one it already holds, else the next free
    /// one, else the least recently used one, taken back from its old name.
    pub fn get(&mut self, key: &str) -> (res: Option<u128>)
        requires
            old(self).wf(),
        ensures
            final(self).wf(),
            (final(self)@, res) == spec_get(old(self)@, key@),
    {
        let ghost v = self@;
        proof {
            lemma_spec_get_sound(v, key@);
        }
        match self.mapping.get(key) {
            Some(value) => {
                let value = *value;
                let _ = lru_get(&mut self.reverse_mapping, &value);
                Some(value)
            },
            None => match self.pool.pop_front() {
                Some(value) => {
                    proof {
                        assert(value == v.pool[0]);
                        lemma_put_entry(v.recency, value, key@);
                        if has_key(v.recency, value) {
                            let i = key_index(v.recency, value);
                            assert(v.recency[i].0 == value);
                        }
                    }
                    self.mapping.insert(key.to_owned(), value);
                    let _ = lru_put(&mut self.reverse_mapping, value, key.to_owned());
                    proof {
                        assert(self@.pool =~= v.pool.drop_first());
                    }
                    Some(value)
                },
                None => match lru_pop_lru(&mut self.reverse_mapping) {
                    Some((value, old_key)) => {
                        self.mapping.remove(old_key.as_str());
                        self.mapping.insert(key.to_owned(), value);
                        proof {
                            lemma_drop_first_unique(v.recency);
                        }
                        let _ = lru_put(&mut self.reverse_mapping, value, key.to_owned());
                        Some(value)
                    },
                    None => None,
                },
            },
        }
    }

    /// The name that holds `value`, if any; its entry becomes the most
    /// recently used one.
    pub fn get_reverse(&mut self, value: u128) -> (res: Option<String>)
        requires
            old(self).wf(),
        ensures
            final(self).wf(),
            final(self)@ == spec_get_reverse(old(self)@, value).0,
            res matches Some(s) ==> spec_get_reverse(old(self)@, value).1 == Some(s@),
            res is None ==> spec_get_reverse(old(self)@, value).1 is None,
    {
        let ghost v = self@;
        proof {
            if has_key(v.recency, value) {
                lemma_move_to_end(v.recency, key_index(v.recency, value));
            }
        }
        let res = lru_get(&mut self.reverse_mapping, &value);
        proof {
            if has_key(v.recency, value) {
                let i = key_index(v.recency, value);
                assert(v.recency[i].0 == value);
            }
        }
        res
    }
}

/// Every address a pool owns fits in 32 bits.
pub open spec fn fits_ipv4(v: PoolView) -> bool {
    forall|a: u128| #[trigger] pool_addresses(v).contains(a) ==> a <= u32::MAX
}

/// Which pool a lookup draws from.
enum IpType {
    Ipv4,
    Ipv6,
}

/// Answers A and AAAA queries with fake addresses from an IPv4 and an IPv6
/// pool, and finds the queried name again from a fake address.
pub struct FakeDnsResolver {
    ipv4_mapping: PoolWithBidirectionalMapping,
    ipv6_mapping: PoolWithBidirectionalMapping,
}

/// The pool state for a list of addresses: all free, none handed out.
pub open spec fn fresh_pool(pool: Seq<u128>) -> PoolView {
    PoolView {
        pool,
        mapping: Map::<Seq<char>, u128>::empty(),
        recency: Seq::<(u128, Seq<char>)>::empty(),
    }
}

/// The IPv4 addresses as 128-bit integers, in the same order.
pub open spec fn widen(pool: Seq<u32>) -> Seq<u128> {
    pool.map_values(|a: u32| a as u128)
}

fn widen_pool(pool: &Vec<u32>) -> (res: VecDeque<u128>)
    ensures
        res@ == widen(pool@),
{
    let mut res: VecDeque<u128> = VecDeque::new();
    let mut i: usize = 0;
    while i < pool.len()
        invariant
            i <= pool.len(),
            res@ == widen(pool@.take(i as int)),
        decreases pool.len() - i,
    {
        res.push_back(pool[i] as u128);
        proof {
            assert(pool@.take(i + 1) =~= pool@.take(i as int).push(pool@[i as int]));
        }
        i = i + 1;
        proof {
            assert(res@ =~= widen(pool@.take(i as int)));
        }
    }
    proof {
        assert(pool@.take(pool.len() as int) =~= pool@);
    }
    res
}

fn to_deque(pool: Vec<u128>) -> (res: VecDeque<u128>)
    ensures
        res@ == pool@,
{
    let mut res: VecDeque<u128> = VecDeque::new();
    let mut i: usize = 0;
    while i < pool.len()
        invariant
            i <= pool.len(),
            res@ == pool@.take(i as int),
        decreases pool.len() - i,
    {
        res.push_back(pool[i]);
        i = i + 1;
        proof {
            assert(res@ =~= pool@.take(i as int));
        }
    }
    proof {
        assert(pool@.take(pool.len() as int) =~= pool@);
    }
    res
}

impl FakeDnsResolver {
    /// Both pools are sound and the IPv4 pool holds 32-bit addresses.
    pub closed spec fn wf(&self) -> bool {
        &&& self.ipv4_mapping.wf()
        &&& self.ipv6_mapping.wf()
        &&& fits_ipv4(self.ipv4_mapping@)
    }


    /// The state of the IPv4 pool, its addresses widened to 128 bits.
    pub closed spec fn ipv4_view(&self) -> PoolView {
        self.ipv4_mapping@
    }

    /// The state of the IPv6 pool.
    pub closed spec fn ipv6_view(&self) -> PoolView {
        self.ipv6_mapping@
    }

    /// A resolver that hands out the given addresses in order (an address
    /// that occurs twice in a pool is handed out twice).
    pub fn new(ipv4_pool: Vec<u32>, ipv6_pool: Vec<u128>) -> (res: Self)
        ensures
            res.wf(),
            res.ipv4_view() == fresh_pool(widen(ipv4_pool@)),
            res.ipv6_view() == fresh_pool(ipv6_pool@),
    {
        let v4 = widen_pool(&ipv4_pool);
        let v6 = to_deque(ipv6_pool);
        let res = FakeDnsResolver {
            ipv4_mapping: PoolWithBidirectionalMapping::new(v4),
            ipv6_mapping: PoolWithBidirectionalMapping::new(v6),
        };
        proof {
            let v = res.ipv4_mapping@;
            assert forall|a: u128| #[trigger] pool_addresses(v).contains(a) implies a <= u32::MAX by {
                let j = choose|j: int| 0 <= j < v.pool.len() && v.pool[j] == a;
                assert(v.pool[j] == ipv4_pool@[j] as u128);
            }
        }
        res
    }

    /// An address for `name`: the address itself where `name` is an IP
    /// address, else a fake one drawn from the pool of the query type.
    fn lookup(&mut self, name: &str, query_type: IpType) -> (res: Option<IpAddress>)
        requires
            old(self).wf(),
        ensures
            final(self).wf(),
            ip_address_from_str(name@) is Some ==> res == ip_address_from_str(name@)
                && final(self).ipv4_view() == old(self).ipv4_view() && final(self).ipv6_view()
                == old(self).ipv6_view(),
            ip_address_from_str(name@) is None && query_type is Ipv4 ==> {
                &&& (final(self).ipv4_view(), match res {
                    Some(IpAddress::V4(a)) => Some(a as u128),
                    _ => None,
                }) == spec_get(old(self).ipv4_view(), name@)
                &&& !(res matches Some(IpAddress::V6(_)))
                &&& final(self).ipv6_view() == old(self).ipv6_view()
            },
            ip_address_from_str(name@) is None && query_type is Ipv6 ==> {
                &&& (final(self).ipv6_view(), match res {
                    Some(IpAddress::V6(a)) => Some(a),
                    _ => None,
                }) == spec_get(old(self).ipv6_view(), name@)
                &&& !(res matches Some(IpAddress::V4(_)))
                &&& final(self).ipv4_view() == old(self).ipv4_view()
            },
    {
        if let Some(ip) = parse_ip_address(name) {
            return Some(ip);
        }
        match query_type {
            IpType::Ipv4 => {
                proof {
                    self.ipv4_mapping.lemma_sound();
                    lemma_spec_get_sound(self.ipv4_mapping@, name@);
                }
                match self.ipv4_mapping.get(name) {
                    Some(v) => Some(IpAddress::V4(v as u32)),
                    None => None,
                }
            },
            IpType::Ipv6 => match self.ipv6_mapping.get(name) {
                Some(v) => Some(IpAddress::V6(v)),
                None => None,
            },
        }
    }

    /// The IPv4 answer for `name`: the address itself where `name` is an IPv4
    /// address, nothing where it is an IPv6 address, else a fake address.
    pub fn lookup_ipv4(&mut self, name: &str) -> (res: Option<u32>)
        requires
            old(self).wf(),
        ensures
            final(self).wf(),
            final(self).ipv6_view() == old(self).ipv6_view(),
            match ip_address_from_str(name@) {
                Some(IpAddress::V4(a)) => res == Some(a) && final(self).ipv4_view()
                    == old(self).ipv4_view(),
                Some(IpAddress::V6(_)) => res is None && final(self).ipv4_view()
                    == old(self).ipv4_view(),
                None => (final(self).ipv4_view(), match res {
                    Some(a) => Some(a as u128),
                    None => None,
                }) == spec_get(old(self).ipv4_view(), name@),
            },
    {
        match self.lookup(name, IpType::Ipv4) {
            Some(IpAddress::V4(a)) => Some(a),
            _ => None,
        }
    }

    /// The IPv6 answer for `name`: the address itself where `name` is an IPv6
    /// address, nothing where it is an IPv4 address, else a fake address.
    pub fn lookup_ipv6(&mut self, name: &str) -> (res: Option<u128>)
        requires
            old(self).wf(),
        ensures
            final(self).wf(),
            final(self).ipv4_view() == old(self).ipv4_view(),
            match ip_address_from_str(name@) {
                Some(IpAddress::V6(a)) => res == Some(a) && final(self).ipv6_view()
                    == old(self).ipv6_view(),
                Some(IpAddress::V4(_)) => res is None && final(self).ipv6_view()
                    == old(self).ipv6_view(),
                None => (final(self).ipv6_view(), res) == spec_get(old(self).ipv6_view(), name@),
            },
    {
        match self.lookup(name, IpType::Ipv6) {
            Some(IpAddress::V6(a)) => Some(a),
            _ => None,
        }
    }

    /// The name that was handed the fake address `addr`, if any.
    pub fn reverse_lookup(&mut self, addr: IpAddress) -> (res: Option<String>)
        requires
            old(self).wf(),
        ensures
            final(self).wf(),
            match addr {
                IpAddress::V4(a) => {
                    &&& final(self).ipv4_view() == spec_get_reverse(old(self).ipv4_view(), a as u128).0
                    &&& final(self).ipv6_view() == old(self).ipv6_view()
                    &&& match res {
                        Some(s) => spec_get_reverse(old(self).ipv4_view(), a as u128).1 == Some(s@),
                        None => spec_get_reverse(old(self).ipv4_view(), a as u128).1 is None,
                    }
                },
                IpAddress::V6(a) => {
                    &&& final(self).ipv6_view() == spec_get_reverse(old(self).ipv6_view(), a).0
                    &&& final(self).ipv4_view() == old(self).ipv4_view()
                    &&& match res {
                        Some(s) => spec_get_reverse(old(self).ipv6_view(), a).1 == Some(s@),
                        None => spec_get_reverse(old(self).ipv6_view(), a).1 is None,
                    }
                },
            },
    {
        match addr {
            IpAddress::V4(a) => {
                proof {
                    law_get_reverse_keeps_addresses(self.ipv4_mapping@, a as u128);
                }
                self.ipv4_mapping.get_reverse(a as u128)
            },
            IpAddress::V6(a) => self.ipv6_mapping.get_reverse(a),
        }
    }
}

/// Why a script's IPv4 lookup has no fake address.
pub open spec fn no_ipv4_message(name: Seq<char>) -> Seq<char> {
    "No fake IPv4 assigned for "@ + name + ", possibly due to fake DNS doesn't have an IPv4 pool."@
}

/// Why a script's IPv6 lookup has no fake address.
pub open spec fn no_ipv6_message(name: Seq<char>) -> Seq<char> {
    "No fake IPv6 assigned for "@ + name + ", possibly due to fake DNS doesn't have an IPv6 pool."@
}

/// For a resolver whose pools are consistent (as those made from addresses
/// that all differ, `lemma_fresh_pool_wf`, and kept so by lookups,
/// `lemma_spec_get_wf`), in either pool: a name handed an address gets that
/// address again when asked again, the address looks back up to the name,
/// and two names never hold the same address.
pub proof fn law_resolver_mapping_is_consistent(r: FakeDnsResolver, name: Seq<char>, other: Seq<char>)
    requires
        pool_wf(r.ipv4_view()),
        pool_wf(r.ipv6_view()),
    ensures
        spec_get(r.ipv4_view(), name).1 is Some ==> {
            &&& spec_get(spec_get(r.ipv4_view(), name).0, name).1 == spec_get(r.ipv4_view(), name).1
            &&& spec_get_reverse(spec_get(r.ipv4_view(), name).0, spec_get(r.ipv4_view(), name).1.unwrap()).1
                == Some(name)
        },
        spec_get(r.ipv6_view(), name).1 is Some ==> {
            &&& spec_get(spec_get(r.ipv6_view(), name).0, name).1 == spec_get(r.ipv6_view(), name).1
            &&& spec_get_reverse(spec_get(r.ipv6_view(), name).0, spec_get(r.ipv6_view(), name).1.unwrap()).1
                == Some(name)
        },
        name != other && r.ipv4_view().mapping.contains_key(name) && r.ipv4_view().mapping.contains_key(other)
            ==> r.ipv4_view().mapping[name] != r.ipv4_view().mapping[other],
        name != other && r.ipv6_view().mapping.contains_key(name) && r.ipv6_view().mapping.contains_key(other)
            ==> r.ipv6_view().mapping[name] != r.ipv6_view().mapping[other],
{
    if spec_get(r.ipv4_view(), name).1 is Some {
        law_get_is_stable(r.ipv4_view(), name);
        law_get_then_reverse(r.ipv4_view(), name);
    }
    if spec_get(r.ipv6_view(), name).1 is Some {
        law_get_is_stable(r.ipv6_view(), name);
        law_get_then_reverse(r.ipv6_view(), name);
    }
    if name != other && r.ipv4_view().mapping.contains_key(name) && r.ipv4_view().mapping.contains_key(other) {
        law_names_hold_distinct_addresses(r.ipv4_view(), name, other);
    }
    if name != other && r.ipv6_view().mapping.contains_key(name) && r.ipv6_view().mapping.contains_key(other) {
        law_names_hold_distinct_addresses(r.ipv6_view(), name, other);
    }
}

/// The fake resolver as a routing script sees it: answers are address
/// texts, and a name without an answer gives an error that says why.
pub struct FakeResolver {
    inner: FakeDnsResolver,
}

impl FakeResolver {
    pub closed spec fn wf(&self) -> bool {
        self.inner.wf()
    }


    /// The state of the IPv4 pool.
    pub closed spec fn ipv4_view(&self) -> PoolView {
        self.inner.ipv4_view()
    }

    /// The state of the IPv6 pool.
    pub closed spec fn ipv6_view(&self) -> PoolView {
        self.inner.ipv6_view()
    }

    pub fn new(inner: FakeDnsResolver) -> (res: Self)
        requires
            inner.wf(),
        ensures
            res.wf(),
            res.ipv4_view() == inner.ipv4_view(),
            res.ipv6_view() == inner.ipv6_view(),
    {
        FakeResolver { inner }
    }

    /// The text of the IPv4 answer for `name` (as `FakeDnsResolver::lookup_ipv4`).
    pub fn lookup_ipv4(&mut self, name: &str) -> (res: Result<String, String>)
        requires
            old(self).wf(),
        ensures
            final(self).wf(),
            final(self).ipv6_view() == old(self).ipv6_view(),
            match ip_address_from_str(name@) {
                Some(IpAddress::V4(a)) => res matches Ok(t) && t@ == ipv4_text(a) && final(self).ipv4_view()
                    == old(self).ipv4_view(),
                Some(IpAddress::V6(_)) => res matches Err(m) && m@ == no_ipv4_message(name@)
                    && final(self).ipv4_view() == old(self).ipv4_view(),
                None => final(self).ipv4_view() == spec_get(old(self).ipv4_view(), name@).0 && match spec_get(
                    old(self).ipv4_view(),
                    name@,
                ).1 {
                    Some(a) => res matches Ok(t) && t@ == ipv4_text(a as u32),
                    None => res matches Err(m) && m@ == no_ipv4_message(name@),
                },
            },
    {
        match self.inner.lookup_ipv4(name) {
            Some(a) => Ok(ip_to_string(IpAddress::V4(a))),
            None => {
                let mut m = String::new();
                push_str(&mut m, "No fake IPv4 assigned for ");
                push_str(&mut m, name);
                push_str(&mut m, ", possibly due to fake DNS doesn't have an IPv4 pool.");
                Err(m)
            },
        }
    }

    /// The text of the IPv6 answer for `name` (as `FakeDnsResolver::lookup_ipv6`).
    pub fn lookup_ipv6(&mut self, name: &str) -> (res: Result<String, String>)
        requires
            old(self).wf(),
        ensures
            final(self).wf(),
            final(self).ipv4_view() == old(self).ipv4_view(),
            match ip_address_from_str(name@) {
                Some(IpAddress::V6(a)) => res matches Ok(t) && t@ == ipv6_text(a) && final(self).ipv6_view()
                    == old(self).ipv6_view(),
                Some(IpAddress::V4(_)) => res matches Err(m) && m@ == no_ipv6_message(name@)
                    && final(self).ipv6_view() == old(self).ipv6_view(),
                None => final(self).ipv6_view() == spec_get(old(self).ipv6_view(), name@).0 && match spec_get(
                    old(self).ipv6_view(),
                    name@,
                ).1 {
                    Some(a) => res matches Ok(t) && t@ == ipv6_text(a),
                    None => res matches Err(m) && m@ == no_ipv6_message(name@),
                },
            },
    {
        match self.inner.lookup_ipv6(name) {
            Some(a) => Ok(ip_to_string(IpAddress::V6(a))),
            None => {
                let mut m = String::new();
                push_str(&mut m, "No fake IPv6 assigned for ");
                push_str(&mut m, name);
                push_str(&mut m, ", possibly due to fake DNS doesn't have an IPv6 pool.");
                Err(m)
            },
        }
    }
}

} // verus!
