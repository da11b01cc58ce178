//! Spending keys: the keys this wallet knows, and which one unlocks an output.
use vstd::prelude::*;

use crate::block::UtxoInfo;
use crate::digest::Digest;
use crate::state::{RawHashKey, WalletState};

verus! {

/// The namespace a key comes from.
#[derive(Clone, Copy, PartialEq, Eq, Structural, Debug)]
pub enum KeyKind {
    Generation,
    Symmetric,
    RawHashLock,
}

/// A spending key as the engine reads it: its namespace, its derivation
/// index (its position, for a raw hash-lock key), and its lock-script hash.
#[derive(Clone, Copy, PartialEq, Eq, Structural, Debug)]
pub struct SpendingKey {
    pub kind: KeyKind,
    pub index: u64,
    pub lock_script_hash: Digest,
}

pub open spec fn raw_key(k: RawHashKey, i: int) -> SpendingKey {
    SpendingKey { kind: KeyKind::RawHashLock, index: i as u64, lock_script_hash: k.lock_script_hash }
}

pub open spec fn raw_keys(v: Seq<RawHashKey>) -> Seq<SpendingKey> {
    Seq::new(v.len(), |i: int| raw_key(v[i], i))
}

/// The first `count` keys of `v`, or all of them when there are fewer.
pub open spec fn first_keys(v: Seq<SpendingKey>, count: int) -> Seq<SpendingKey> {
    if v.len() <= count {
        v
    } else {
        v.take(count)
    }
}

/// The first key whose lock-script hash is `h`.
pub open spec fn first_key_for(keys: Seq<SpendingKey>, h: Digest) -> Option<SpendingKey>
    decreases keys.len(),
{
    if keys.len() == 0 {
        None
    } else if keys[0].lock_script_hash == h {
        Some(keys[0])
    } else {
        first_key_for(keys.drop_first(), h)
    }
}

fn push_first(out: &mut Vec<SpendingKey>, v: &Vec<SpendingKey>, count: u64)
    ensures
        final(out)@ == old(out)@ + first_keys(v@, count as int),
{
    let n = if (v.len() as u64) <= count { v.len() } else { count as usize };
    let ghost start = out@;
    for i in 0..n
        invariant
            n == first_keys(v@, count as int).len(),
            n <= v@.len(),
            out@ == start + v@.take(i as int),
    {
        out.push(v[i]);
        assert(v@.take(i + 1) =~= v@.take(i as int).push(v@[i as int]));
    }
    assert(v@.take(n as int) =~= first_keys(v@, count as int));
}

impl WalletState {
    /// High-water mark of the generation-key namespace.
    pub fn num_generation_spending_keys(&self) -> (r: u64)
        ensures
            r == self.num_generation_spending_keys,
    {
        self.num_generation_spending_keys
    }

    /// High-water mark of the symmetric-key namespace.
    pub fn num_symmetric_keys(&self) -> (r: u64)
        ensures
            r == self.num_symmetric_keys,
    {
        self.num_symmetric_keys
    }

    /// How far past the high-water marks the key sweep looks.
    pub fn num_future_keys(&self) -> (r: u64)
        ensures
            r == self.num_future_keys,
    {
        self.num_future_keys
    }

    /// The raw hash-lock keys as spending keys, indexed by position.
    pub fn get_known_raw_hash_keys(&self) -> (r: Vec<SpendingKey>)
        ensures
            r@ == raw_keys(self.raw_hash_keys@),
    {
        let mut out: Vec<SpendingKey> = Vec::new();
        let n = self.raw_hash_keys.len();
        for i in 0..n
            invariant
                n == self.raw_hash_keys@.len(),
                out@ == raw_keys(self.raw_hash_keys@).take(i as int),
        {
            let k = self.raw_hash_keys[i];
            out.push(SpendingKey { kind: KeyKind::RawHashLock, index: i as u64, lock_script_hash: k.lock_script_hash });
            assert(raw_keys(self.raw_hash_keys@).take(i + 1) =~= raw_keys(self.raw_hash_keys@).take(i as int).push(
                raw_key(k, i as int),
            ));
        }
        assert(raw_keys(self.raw_hash_keys@).take(n as int) =~= raw_keys(self.raw_hash_keys@));
        out
    }

    /// The keys this wallet knows: generation keys with indices up to the
    /// generation high-water mark, symmetric keys up to the symmetric mark,
    /// then the raw hash-lock keys. `generation[i]` and `symmetric[i]` are
    /// the derived keys of index `i`.
    pub fn get_known_spending_keys(&self, generation: &Vec<SpendingKey>, symmetric: &Vec<SpendingKey>) -> (r: Vec<
        SpendingKey,
    >)
        ensures
            r@ == first_keys(generation@, self.num_generation_spending_keys + 1) + first_keys(
                symmetric@,
                self.num_symmetric_keys + 1,
            ) + raw_keys(self.raw_hash_keys@),
    {
        let mut out: Vec<SpendingKey> = Vec::new();
        let g = self.num_generation_spending_keys.saturating_add(1);
        let s = self.num_symmetric_keys.saturating_add(1);
        let gl = generation.len();
        let sl = symmetric.len();
        proof {
            assert(gl as int <= u64::MAX && sl as int <= u64::MAX);
            if self.num_generation_spending_keys == u64::MAX {
                assert(first_keys(generation@, g as int) == first_keys(generation@, self.num_generation_spending_keys + 1));
            }
            if self.num_symmetric_keys == u64::MAX {
                assert(first_keys(symmetric@, s as int) == first_keys(symmetric@, self.num_symmetric_keys + 1));
            }
        }
        push_first(&mut out, generation, g);
        push_first(&mut out, symmetric, s);
        let mut raw = self.get_known_raw_hash_keys();
        out.append(&mut raw);
        out
    }
}

/// The first of `keys` that unlocks `utxo`: the one whose lock-script hash
/// is the output's.
pub fn find_spending_key_for_utxo(keys: &Vec<SpendingKey>, utxo: &UtxoInfo) -> (r: Option<SpendingKey>)
    ensures
        r == first_key_for(keys@, utxo.lock_script_hash),
{
    let n = keys.len();
    let mut i: usize = 0;
    assert(keys@.skip(0) =~= keys@);
    while i < n
        invariant
            n == keys@.len(),
            i <= n,
            first_key_for(keys@, utxo.lock_script_hash) == first_key_for(keys@.skip(i as int), utxo.lock_script_hash),
        decreases n - i,
    {
        assert(keys@.skip(i as int)[0] == keys@[i as int]);
        if keys[i].lock_script_hash.same(&utxo.lock_script_hash) {
            return Some(keys[i]);
        }
        assert(keys@.skip(i as int).drop_first() =~= keys@.skip(i + 1));
        i = i + 1;
    }
    assert(keys@.skip(n as int) =~= Seq::<SpendingKey>::empty());
    None
}

} // verus!
