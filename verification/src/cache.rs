//! The User-Agent rewrite cache: a least-recently-used map from original to
//! rewritten User-Agent, kept by the `lru` crate.

use vstd::prelude::*;

verus! {

#[verifier::external_type_specification]
#[verifier::external_body]
#[verifier::reject_recursive_types(K)]
#[verifier::reject_recursive_types(V)]
#[verifier::reject_recursive_types(S)]
pub struct ExLruCache<K, V, S>(lru::LruCache<K, V, S>);

#[verifier::external_type_specification]
#[verifier::external_body]
pub struct ExLruDefaultHasher(lru::DefaultHasher);

/// The entries of an `lru::LruCache`, most recently used first.
pub uninterp spec fn lru_entries(cache: lru::LruCache<String, String>) -> Seq<(Seq<char>, Seq<char>)>;

/// The capacity an `lru::LruCache` was created with.
pub uninterp spec fn lru_capacity(cache: lru::LruCache<String, String>) -> nat;

/// A cache's entries list a key at most once.
pub open spec fn distinct_keys(entries: Seq<(Seq<char>, Seq<char>)>) -> bool {
    forall|i: int, j: int|
        0 <= i < entries.len() && 0 <= j < entries.len() && i != j ==> entries[i].0 != entries[j].0
}

/// The shape every cache has: distinct keys, at most `cap` of them.
pub open spec fn entries_wf(entries: Seq<(Seq<char>, Seq<char>)>, cap: nat) -> bool {
    &&& cap >= 1
    &&& entries.len() <= cap
    &&& distinct_keys(entries)
}

/// The position of `key` among the entries, if it is there.
pub open spec fn find_key(entries: Seq<(Seq<char>, Seq<char>)>, key: Seq<char>) -> Option<int>
    decreases entries.len(),
{
    if entries.len() == 0 {
        None
    } else if entries[0].0 == key {
        Some(0)
    } else {
        match find_key(entries.drop_first(), key) {
            Some(i) => Some(i + 1),
            None => None,
        }
    }
}

/// The value stored for `key`, if any.
pub open spec fn lookup(entries: Seq<(Seq<char>, Seq<char>)>, key: Seq<char>) -> Option<Seq<char>> {
    match find_key(entries, key) {
        Some(i) => Some(entries[i].1),
        None => None,
    }
}

/// The entries after a lookup of `key`: a key that is found becomes the most
/// recently used.
pub open spec fn after_get(entries: Seq<(Seq<char>, Seq<char>)>, key: Seq<char>) -> Seq<
    (Seq<char>, Seq<char>),
> {
    match find_key(entries, key) {
        Some(i) => seq![entries[i]] + entries.remove(i),
        None => entries,
    }
}

/// The entries after storing `value` under `key` in a cache of capacity `cap`:
/// the pair becomes the most recently used; an older entry of the same key
/// goes, and a new key in a full cache pushes out the least recently used one.
pub open spec fn after_put(
    entries: Seq<(Seq<char>, Seq<char>)>,
    cap: nat,
    key: Seq<char>,
    value: Seq<char>,
) -> Seq<(Seq<char>, Seq<char>)> {
    match find_key(entries, key) {
        Some(i) => seq![(key, value)] + entries.remove(i),
        None => if entries.len() == cap {
            seq![(key, value)] + entries.drop_last()
        } else {
            seq![(key, value)] + entries
        },
    }
}

/// What `find_key` finds.
pub proof fn lemma_find_key(entries: Seq<(Seq<char>, Seq<char>)>, key: Seq<char>)
    ensures
        match find_key(entries, key) {
            Some(i) => 0 <= i < entries.len() && entries[i].0 == key && forall|j: int|
                0 <= j < i ==> entries[j].0 != key,
            None => forall|j: int| 0 <= j < entries.len() ==> entries[j].0 != key,
        },
    decreases entries.len(),
{
    if entries.len() > 0 {
        lemma_find_key(entries.drop_first(), key);
        if entries[0].0 != key {
            assert forall|j: int| 1 <= j < entries.len() implies entries[j].0 == entries.drop_first()[j
                - 1].0 by {}
        }
    }
}

/// A key that is at position `i` is found there.
pub proof fn lemma_find_key_at(entries: Seq<(Seq<char>, Seq<char>)>, i: int)
    requires
        0 <= i < entries.len(),
        distinct_keys(entries),
    ensures
        find_key(entries, entries[i].0) == Some(i),
{
    lemma_find_key(entries, entries[i].0);
}

/// Storing a value and then looking its key up gives the value back.
pub proof fn lemma_put_then_lookup(
    entries: Seq<(Seq<char>, Seq<char>)>,
    cap: nat,
    key: Seq<char>,
    value: Seq<char>,
)
    requires
        entries_wf(entries, cap),
    ensures
        lookup(after_put(entries, cap, key, value), key) == Some(value),
        entries_wf(after_put(entries, cap, key, value), cap),
{
    lemma_after_put_wf(entries, cap, key, value);
    let next = after_put(entries, cap, key, value);
    lemma_find_key_at(next, 0);
}

/// Storing keeps the cache's shape.
pub proof fn lemma_after_put_wf(
    entries: Seq<(Seq<char>, Seq<char>)>,
    cap: nat,
    key: Seq<char>,
    value: Seq<char>,
)
    requires
        entries_wf(entries, cap),
    ensures
        entries_wf(after_put(entries, cap, key, value), cap),
        after_put(entries, cap, key, value)[0] == (key, value),
{
    lemma_find_key(entries, key);
    let next = after_put(entries, cap, key, value);
    match find_key(entries, key) {
        Some(i) => {
            let rest = entries.remove(i);
            assert forall|a: int, b: int|
                0 <= a < next.len() && 0 <= b < next.len() && a != b implies next[a].0
                != next[b].0 by {
                if a > 0 && b > 0 {
                    let ia: int = if a - 1 < i { a - 1 } else { a };
                    let ib: int = if b - 1 < i { b - 1 } else { b };
                    assert(next[a] == entries[ia]);
                    assert(next[b] == entries[ib]);
                } else if a == 0 {
                    let ib: int = if b - 1 < i { b - 1 } else { b };
                    assert(next[b] == entries[ib]);
                } else {
                    let ia: int = if a - 1 < i { a - 1 } else { a };
                    assert(next[a] == entries[ia]);
                }
            }
        },
        None => {
            let rest = if entries.len() == cap {
                entries.drop_last()
            } else {
                entries
            };
            assert(next == seq![(key, value)] + rest);
            assert forall|a: int, b: int|
                0 <= a < next.len() && 0 <= b < next.len() && a != b implies next[a].0
                != next[b].0 by {
                if a > 0 {
                    assert(next[a] == entries[a - 1]);
                }
                if b > 0 {
                    assert(next[b] == entries[b - 1]);
                }
            }
        },
    }
}

/// A lookup keeps the cache's shape and what it stores for every key.
pub proof fn lemma_after_get_wf(entries: Seq<(Seq<char>, Seq<char>)>, cap: nat, key: Seq<char>)
    requires
        entries_wf(entries, cap),
    ensures
        entries_wf(after_get(entries, key), cap),
        forall|k: Seq<char>| lookup(#[trigger] after_get(entries, key), k) == lookup(entries, k),
{
    lemma_find_key(entries, key);
    match find_key(entries, key) {
        Some(i) => {
            let next = after_get(entries, key);
            let rest = entries.remove(i);
            // where each entry of `next` came from
            assert forall|a: int| 0 <= a < next.len() implies next[a] == entries[
                if a == 0 { i } else if a - 1 < i { a - 1 } else { a }
            ] by {}
            assert forall|a: int, b: int|
                0 <= a < next.len() && 0 <= b < next.len() && a != b implies next[a].0
                != next[b].0 by {
                let ia: int = if a == 0 { i } else if a - 1 < i { a - 1 } else { a };
                let ib: int = if b == 0 { i } else if b - 1 < i { b - 1 } else { b };
                assert(next[a] == entries[ia]);
                assert(next[b] == entries[ib]);
            }
            assert forall|k: Seq<char>| lookup(next, k) == lookup(entries, k) by {
                lemma_find_key(entries, k);
                lemma_find_key(next, k);
                match find_key(entries, k) {
                    Some(p) => {
                        let q: int = if p == i { 0 } else if p < i { p + 1 } else { p };
                        assert(next[q] == entries[p]);
                        lemma_find_key_at(next, q);
                    },
                    None => {
                        if let Some(q) = find_key(next, k) {
                            let iq: int = if q == 0 { i } else if q - 1 < i { q - 1 } else { q };
                            assert(next[q] == entries[iq]);
                        }
                    },
                }
            }
        },
        None => {},
    }
}

/// Every entry after a lookup was an entry before it; every entry after a
/// store is the stored pair or was an entry before it.
pub proof fn lemma_entries_origin(
    entries: Seq<(Seq<char>, Seq<char>)>,
    cap: nat,
    key: Seq<char>,
    value: Seq<char>,
)
    requires
        entries_wf(entries, cap),
    ensures
        forall|a: int|
            0 <= a < after_get(entries, key).len() ==> exists|b: int|
                0 <= b < entries.len() && #[trigger] after_get(entries, key)[a] == entries[b],
        forall|a: int|
            0 <= a < after_put(entries, cap, key, value).len() ==> after_put(
                entries,
                cap,
                key,
                value,
            )[a] == (key, value) || exists|b: int|
                0 <= b < entries.len() && #[trigger] after_put(entries, cap, key, value)[a]
                    == entries[b],
{
    lemma_find_key(entries, key);
    let g = after_get(entries, key);
    let p = after_put(entries, cap, key, value);
    match find_key(entries, key) {
        Some(i) => {
            assert forall|a: int| 0 <= a < g.len() implies exists|b: int|
                0 <= b < entries.len() && #[trigger] g[a] == entries[b] by {
                let ia: int = if a == 0 { i } else if a - 1 < i { a - 1 } else { a };
                assert(g[a] == entries[ia]);
            }
            assert forall|a: int| 0 <= a < p.len() implies p[a] == (key, value) || exists|b: int|
                0 <= b < entries.len() && #[trigger] p[a] == entries[b] by {
                if a > 0 {
                    let ia: int = if a - 1 < i { a - 1 } else { a };
                    assert(p[a] == entries[ia]);
                }
            }
        },
        None => {
            assert forall|a: int| 0 <= a < g.len() implies exists|b: int|
                0 <= b < entries.len() && #[trigger] g[a] == entries[b] by {
                assert(g[a] == entries[a]);
            }
            assert forall|a: int| 0 <= a < p.len() implies p[a] == (key, value) || exists|b: int|
                0 <= b < entries.len() && #[trigger] p[a] == entries[b] by {
                if a > 0 {
                    assert(p[a] == entries[a - 1]);
                }
            }
        },
    }
}

/// `lru::LruCache::new`: the contract claims an empty cache of the capacity
/// given.
#[verifier::external_body]
fn lru_new(cap: usize) -> (c: lru::LruCache<String, String>)
    requires
        cap > 0,
    ensures
        lru_entries(c) == Seq::<(Seq<char>, Seq<char>)>::empty(),
        lru_capacity(c) == cap,
{
    lru::LruCache::new(std::num::NonZeroUsize::new(cap).unwrap())
}

/// `lru::LruCache::get`, with the value handed out as a copy: the contract
/// claims the stored value is returned and its key becomes the most recently
/// used, the capacity unchanged.
#[verifier::external_body]
fn lru_get(cache: &mut lru::LruCache<String, String>, key: &String) -> (r: Option<String>)
    requires
        entries_wf(lru_entries(*old(cache)), lru_capacity(*old(cache))),
    ensures
        lru_capacity(*final(cache)) == lru_capacity(*old(cache)),
        lru_entries(*final(cache)) == after_get(lru_entries(*old(cache)), key@),
        match r {
            Some(v) => lookup(lru_entries(*old(cache)), key@) == Some(v@),
            None => lookup(lru_entries(*old(cache)), key@) is None,
        },
{
    cache.get(key).cloned()
}

/// `lru::LruCache::put`: the contract claims the pair becomes the most recently
/// used entry, replacing an entry of the same key or, in a full cache, the least
/// recently used one; the capacity is unchanged.
#[verifier::external_body]
fn lru_put(cache: &mut lru::LruCache<String, String>, key: String, value: String)
    requires
        entries_wf(lru_entries(*old(cache)), lru_capacity(*old(cache))),
    ensures
        lru_capacity(*final(cache)) == lru_capacity(*old(cache)),
        lru_entries(*final(cache)) == after_put(
            lru_entries(*old(cache)),
            lru_capacity(*old(cache)),
            key@,
            value@,
        ),
{
    cache.put(key, value);
}

/// A least-recently-used map from original to rewritten User-Agent.
pub struct UaCache {
    inner: lru::LruCache<String, String>,
}

impl View for UaCache {
    type V = Seq<(Seq<char>, Seq<char>)>;

    /// The entries, most recently used first.
    closed spec fn view(&self) -> Seq<(Seq<char>, Seq<char>)> {
        lru_entries(self.inner)
    }
}

impl UaCache {
    /// The capacity the cache was created with.
    pub closed spec fn capacity(&self) -> nat {
        lru_capacity(self.inner)
    }

    /// Distinct keys, no more of them than the capacity.
    pub open spec fn wf(&self) -> bool {
        entries_wf(self@, self.capacity())
    }

    /// An empty cache that holds at most `capacity` entries.
    pub fn new(capacity: usize) -> (c: Self)
        requires
            capacity > 0,
        ensures
            c.wf(),
            c@ == Seq::<(Seq<char>, Seq<char>)>::empty(),
            c.capacity() == capacity,
    {
        UaCache { inner: lru_new(capacity) }
    }

    /// The value stored for `key`; a key that is found becomes the most
    /// recently used.
    pub fn get(&mut self, key: &String) -> (r: Option<String>)
        requires
            old(self).wf(),
        ensures
            final(self).wf(),
            final(self).capacity() == old(self).capacity(),
            final(self)@ == after_get(old(self)@, key@),
            forall|k: Seq<char>| lookup(final(self)@, k) == lookup(old(self)@, k),
            match r {
                Some(v) => lookup(old(self)@, key@) == Some(v@),
                None => lookup(old(self)@, key@) is None,
            },
    {
        proof {
            lemma_after_get_wf(self@, self.capacity(), key@);
        }
        lru_get(&mut self.inner, key)
    }

    /// Stores `value` under `key` as the most recently used entry, pushing out
    /// the least recently used entry when a new key meets a full cache.
    pub fn put(&mut self, key: String, value: String)
        requires
            old(self).wf(),
        ensures
            final(self).wf(),
            final(self).capacity() == old(self).capacity(),
            final(self)@ == after_put(old(self)@, old(self).capacity(), key@, value@),
            lookup(final(self)@, key@) == Some(value@),
    {
        proof {
            lemma_put_then_lookup(self@, self.capacity(), key@, value@);
        }
        lru_put(&mut self.inner, key, value);
    }
}

} // verus!
