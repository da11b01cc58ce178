//! Derived spending keys, memoized per namespace and index. Derivation is a
//! pure function of the wallet's root entropy, so an entry, once written,
//! never changes.
use vstd::prelude::*;

use dashmap::DashMap;

use crate::keys::SpendingKey;

verus! {

#[verifier::external_type_specification]
#[verifier::external_body]
#[verifier::reject_recursive_types(K)]
#[verifier::reject_recursive_types(V)]
#[verifier::reject_recursive_types(S)]
pub struct ExDashMap<K, V, S>(DashMap<K, V, S>);

/// The entries that a key map holds.
pub uninterp spec fn held_keys(m: DashMap<u64, SpendingKey>) -> Map<u64, SpendingKey>;

/// Relies on `DashMap::new`: the map starts empty.
#[verifier::external_body]
fn key_map_new() -> (r: DashMap<u64, SpendingKey>)
    ensures
        held_keys(r).dom().is_empty(),
{
    DashMap::new()
}

/// Relies on `DashMap::get`: the value held under `k`, copied out of the
/// read guard.
#[verifier::external_body]
fn key_map_get(m: &DashMap<u64, SpendingKey>, k: u64) -> (r: Option<SpendingKey>)
    ensures
        r == if held_keys(*m).dom().contains(k) {
            Some(held_keys(*m)[k])
        } else {
            None::<SpendingKey>
        },
{
    m.get(&k).map(|e| *e.value())
}

/// Relies on `DashMap::insert`: afterwards `k` holds `v` and every other
/// entry is as before.
#[verifier::external_body]
fn key_map_insert(m: &mut DashMap<u64, SpendingKey>, k: u64, v: SpendingKey)
    ensures
        held_keys(*final(m)) == held_keys(*old(m)).insert(k, v),
{
    m.insert(k, v);
}

/// Memoized keys of both namespaces.
pub struct KeyCache {
    symmetric_keys: DashMap<u64, SpendingKey>,
    generation_spending_keys: DashMap<u64, SpendingKey>,
}

/// `m` holds every index of `[start, end)`, and `r` lists them with their keys, in order.
pub open spec fn lists_range(r: Seq<(u64, SpendingKey)>, m: Map<u64, SpendingKey>, start: u64, end: u64) -> bool {
    &&& r.len() == if end >= start { end - start } else { 0 }
    &&& forall|j: int| 0 <= j < r.len() ==> (#[trigger] r[j]).0 == start + j && m.dom().contains(r[j].0) && r[j].1 == m[r[j].0]
}

/// The indices of `[start, end)` that `m` does not hold, ascending.
pub open spec fn missing_in(m: Map<u64, SpendingKey>, start: int, end: int) -> Seq<u64>
    decreases end - start,
{
    if end <= start {
        seq![]
    } else {
        let rest = missing_in(m, start, end - 1);
        if m.dom().contains((end - 1) as u64) {
            rest
        } else {
            rest.push((end - 1) as u64)
        }
    }
}

/// `m` after writing `k` under `i` unless `i` is already held.
pub open spec fn write_once(m: Map<u64, SpendingKey>, i: u64, k: SpendingKey) -> Map<u64, SpendingKey> {
    if m.dom().contains(i) {
        m
    } else {
        m.insert(i, k)
    }
}

impl KeyCache {
    pub closed spec fn symmetric(&self) -> Map<u64, SpendingKey> {
        held_keys(self.symmetric_keys)
    }

    pub closed spec fn generation(&self) -> Map<u64, SpendingKey> {
        held_keys(self.generation_spending_keys)
    }

    /// An empty cache.
    pub fn new() -> (r: KeyCache)
        ensures
            r.symmetric() == Map::<u64, SpendingKey>::empty(),
            r.generation() == Map::<u64, SpendingKey>::empty(),
    {
        KeyCache { symmetric_keys: key_map_new(), generation_spending_keys: key_map_new() }
    }

    /// The cached symmetric key of `index`.
    pub fn get_symmetric_key(&self, index: u64) -> (r: Option<SpendingKey>)
        ensures
            r == if self.symmetric().dom().contains(index) {
                Some(self.symmetric()[index])
            } else {
                None::<SpendingKey>
            },
    {
        key_map_get(&self.symmetric_keys, index)
    }

    /// The cached generation key of `index`.
    pub fn get_generation_spending_key(&self, index: u64) -> (r: Option<SpendingKey>)
        ensures
            r == if self.generation().dom().contains(index) {
                Some(self.generation()[index])
            } else {
                None::<SpendingKey>
            },
    {
        key_map_get(&self.generation_spending_keys, index)
    }

    /// Caches the symmetric key of `index`, unless one is cached already.
    pub fn add_symmetric_key(&mut self, index: u64, key: SpendingKey)
        ensures
            final(self).symmetric() == write_once(old(self).symmetric(), index, key),
            final(self).generation() == old(self).generation(),
    {
        if key_map_get(&self.symmetric_keys, index).is_none() {
            key_map_insert(&mut self.symmetric_keys, index, key);
        }
    }

    /// Caches the generation key of `index`, unless one is cached already.
    pub fn add_generation_spending_key(&mut self, index: u64, key: SpendingKey)
        ensures
            final(self).generation() == write_once(old(self).generation(), index, key),
            final(self).symmetric() == old(self).symmetric(),
    {
        if key_map_get(&self.generation_spending_keys, index).is_none() {
            key_map_insert(&mut self.generation_spending_keys, index, key);
        }
    }
}

fn missing(m: &DashMap<u64, SpendingKey>, start: u64, end: u64) -> (r: Vec<u64>)
    ensures
        r@ == missing_in(held_keys(*m), start as int, end as int),
{
    let mut out: Vec<u64> = Vec::new();
    if end <= start {
        return out;
    }
    let mut i = start;
    while i < end
        invariant
            start <= i <= end,
            out@ == missing_in(held_keys(*m), start as int, i as int),
        decreases end - i,
    {
        if key_map_get(m, i).is_none() {
            out.push(i);
        }
        i = i + 1;
    }
    out
}

fn listed(m: &DashMap<u64, SpendingKey>, start: u64, end: u64) -> (r: Option<Vec<(u64, SpendingKey)>>)
    ensures
        r matches Some(v) ==> lists_range(v@, held_keys(*m), start, end),
        r is None ==> exists|i: u64| start <= i < end && !held_keys(*m).dom().contains(i),
{
    let mut out: Vec<(u64, SpendingKey)> = Vec::new();
    if end <= start {
        return Some(out);
    }
    let mut i = start;
    while i < end
        invariant
            start <= i <= end,
            out@.len() == i - start,
            forall|j: int|
                0 <= j < out@.len() ==> (#[trigger] out@[j]).0 == start + j && held_keys(*m).dom().contains(out@[j].0)
                    && out@[j].1 == held_keys(*m)[out@[j].0],
        decreases end - i,
    {
        match key_map_get(m, i) {
            Some(k) => out.push((i, k)),
            None => return None,
        }
        i = i + 1;
    }
    Some(out)
}

impl KeyCache {
    /// The symmetric-key indices of `[start, end)` not cached yet, ascending.
    pub fn missing_symmetric_keys(&self, start: u64, end: u64) -> (r: Vec<u64>)
        ensures
            r@ == missing_in(self.symmetric(), start as int, end as int),
    {
        missing(&self.symmetric_keys, start, end)
    }

    /// The generation-key indices of `[start, end)` not cached yet, ascending.
    pub fn missing_generation_spending_keys(&self, start: u64, end: u64) -> (r: Vec<u64>)
        ensures
            r@ == missing_in(self.generation(), start as int, end as int),
    {
        missing(&self.generation_spending_keys, start, end)
    }

    /// The cached symmetric keys of `[start, end)` with their indices, in
    /// order; `None` while one of them is not cached.
    pub fn get_future_symmetric_keys(&self, start: u64, end: u64) -> (r: Option<Vec<(u64, SpendingKey)>>)
        ensures
            r matches Some(v) ==> lists_range(v@, self.symmetric(), start, end),
            r is None ==> exists|i: u64| start <= i < end && !self.symmetric().dom().contains(i),
    {
        let r = listed(&self.symmetric_keys, start, end);
        proof {
            if r is None {
                let i = choose|i: u64| start <= i < end && !held_keys(self.symmetric_keys).dom().contains(i);
                assert(!self.symmetric().dom().contains(i));
            }
        }
        r
    }

    /// The cached generation keys of `[start, end)` with their indices, in
    /// order; `None` while one of them is not cached.
    pub fn get_future_generation_spending_keys(&self, start: u64, end: u64) -> (r: Option<Vec<(u64, SpendingKey)>>)
        ensures
            r matches Some(v) ==> lists_range(v@, self.generation(), start, end),
            r is None ==> exists|i: u64| start <= i < end && !self.generation().dom().contains(i),
    {
        let r = listed(&self.generation_spending_keys, start, end);
        proof {
            if r is None {
                let i = choose|i: u64| start <= i < end && !held_keys(self.generation_spending_keys).dom().contains(i);
                assert(!self.generation().dom().contains(i));
            }
        }
        r
    }
}

} // verus!
