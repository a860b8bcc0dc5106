//! The key pool: live per-key state derived from the immutable key
//! configuration, and the rotation primitive that drives round-robin
//! selection.

use vstd::prelude::*;
use crate::config::{KeyConfig, KeyModel};
use crate::errors::GatekeeperError;

verus! {

/// One upstream credential plus its live usage counters. Derived 1:1 from a
/// `KeyConfig` when the pool is built; owned exclusively by the pool.
#[derive(Debug)]
pub struct Key {
    pub id: String,
    pub value: String,
    pub provider: String,
    pub weight: u32,
    pub fail_count: u32,
    pub in_flight: u32,
}

impl Clone for Key {
    fn clone(&self) -> (r: Self)
        ensures
            r == *self,
    {
        Key {
            id: self.id.clone(),
            value: self.value.clone(),
            provider: self.provider.clone(),
            weight: self.weight,
            fail_count: self.fail_count,
            in_flight: self.in_flight,
        }
    }
}

/// The key derived from a configuration entry: same immutable fields, both
/// counters zeroed.
pub open spec fn key_of(k: KeyConfig) -> Key {
    Key {
        id: k.id,
        value: k.value,
        provider: k.provider,
        weight: k.weight,
        fail_count: 0,
        in_flight: 0,
    }
}

/// The configuration-level model of a key, forgetting the live counters.
pub open spec fn key_view(k: Key) -> KeyModel {
    KeyModel { id: k.id@, value: k.value@, provider: k.provider@, weight: k.weight }
}

impl Key {
    /// Derives the live key for one configuration entry, counters zeroed.
    pub fn from_config(k: &KeyConfig) -> (r: Key)
        ensures
            r == key_of(*k),
    {
        Key {
            id: k.id.clone(),
            value: k.value.clone(),
            provider: k.provider.clone(),
            weight: k.weight,
            fail_count: 0,
            in_flight: 0,
        }
    }
}

/// Mathematical model of a pool: its keys and the rotation cursor.
#[verifier::ext_equal]
pub struct PoolModel {
    pub keys: Seq<Key>,
    pub cursor: usize,
}

/// The key a pool at model `m` returns next.
pub open spec fn pool_pick(m: PoolModel) -> Key
    recommends
        m.keys.len() > 0,
{
    m.keys[m.cursor as int % m.keys.len() as int]
}

/// The pool model after one rotation: the cursor advances by one, wrapping
/// at the machine limit; the keys are untouched.
pub open spec fn pool_next(m: PoolModel) -> PoolModel {
    PoolModel {
        keys: m.keys,
        cursor: if m.cursor == usize::MAX {
            0
        } else {
            (m.cursor + 1) as usize
        },
    }
}

/// The pool model after `n` rotations.
pub open spec fn pool_after(m: PoolModel, n: nat) -> PoolModel
    decreases n,
{
    if n == 0 {
        m
    } else {
        pool_next(pool_after(m, (n - 1) as nat))
    }
}

/// Rotations that stay below the cursor's machine limit add up plainly.
pub proof fn lemma_pool_after_cursor(m: PoolModel, n: nat)
    requires
        m.cursor + n <= usize::MAX,
    ensures
        pool_after(m, n).keys == m.keys,
        pool_after(m, n).cursor == m.cursor + n,
    decreases n,
{
    if n > 0 {
        lemma_pool_after_cursor(m, (n - 1) as nat);
    }
}

/// Wrap-around law: on a non-empty pool, the selection after one full cycle
/// of rotations (as many as the pool has keys) is the same key as the
/// selection now.
pub proof fn lemma_rotation_wraps(m: PoolModel)
    requires
        m.keys.len() > 0,
        m.cursor + m.keys.len() <= usize::MAX,
    ensures
        pool_pick(pool_after(m, m.keys.len())) == pool_pick(m),
{
    lemma_pool_after_cursor(m, m.keys.len());
    let n = m.keys.len() as int;
    let c = m.cursor as int;
    vstd::arithmetic::div_mod::lemma_mod_multiples_vanish(1, c, n);
    assert(n * 1 + c == c + n);
    assert((c + n) % n == c % n);
}

/// Distinct rotations observe distinct pre-increment cursor values, so no
/// two selections below the cursor's machine limit ever read the same one.
pub proof fn lemma_cursor_values_distinct(m: PoolModel, i: nat, j: nat)
    requires
        i < j,
        m.cursor + j <= usize::MAX,
    ensures
        pool_after(m, i).cursor != pool_after(m, j).cursor,
{
    lemma_pool_after_cursor(m, i);
    lemma_pool_after_cursor(m, j);
}

/// The pool of live keys backing one load balancer, with the monotonically
/// increasing rotation cursor. The stored cursor may exceed the pool size;
/// it is reduced modulo the size at read time.
#[derive(Debug)]
pub struct KeyPool {
    keys: Vec<Key>,
    rr_idx: usize,
}

impl View for KeyPool {
    type V = PoolModel;

    closed spec fn view(&self) -> PoolModel {
        PoolModel { keys: self.keys@, cursor: self.rr_idx }
    }
}

impl KeyPool {
    /// Builds a pool from an ordered sequence of key configurations: one key
    /// per entry, in the same order, counters zeroed, cursor at zero.
    pub fn new(configs: &[KeyConfig]) -> (r: KeyPool)
        ensures
            r@.cursor == 0,
            r@.keys.len() == configs@.len(),
            forall|i: int| 0 <= i < configs@.len() ==> r@.keys[i] == key_of(#[trigger] configs@[i]),
    {
        let n = configs.len();
        let mut keys: Vec<Key> = Vec::new();
        let mut i: usize = 0;
        while i < n
            invariant
                n == configs@.len(),
                i <= n,
                keys@.len() == i,
                forall|j: int| 0 <= j < i ==> keys@[j] == key_of(#[trigger] configs@[j]),
            decreases n - i,
        {
            keys.push(Key::from_config(vstd::slice::slice_index_get(configs, i)));
            i += 1;
        }
        KeyPool { keys, rr_idx: 0 }
    }

    /// Whether the pool holds no keys.
    pub fn is_empty(&self) -> (r: bool)
        ensures
            r == (self@.keys.len() == 0),
    {
        self.keys.len() == 0
    }

    /// The number of keys in the pool.
    pub fn len(&self) -> (r: usize)
        ensures
            r == self@.keys.len(),
    {
        self.keys.len()
    }

    /// Read-only access to the pool's keys, in construction order.
    pub fn keys(&self) -> (r: &[Key])
        ensures
            r@ == self@.keys,
    {
        self.keys.as_slice()
    }

    /// The rotation primitive. On an empty pool it fails with
    /// `NoAvailableKeys` and leaves the pool untouched. Otherwise it returns
    /// the key at the pre-increment cursor reduced modulo the pool size, and
    /// advances the cursor by exactly one, so consecutive calls observe
    /// strictly increasing cursor values and distribute round-robin.
    pub fn pick_rr(&mut self) -> (r: Result<Key, GatekeeperError>)
        ensures
            old(self)@.keys.len() == 0 ==> (r matches Err(e) && e matches
                GatekeeperError::NoAvailableKeys && final(self)@ == old(self)@),
            old(self)@.keys.len() > 0 ==> (r matches Ok(k) && k == pool_pick(old(self)@)
                && final(self)@ == pool_next(old(self)@)),
    {
        if self.keys.len() == 0 {
            return Err(GatekeeperError::NoAvailableKeys);
        }
        let idx = self.rr_idx % self.keys.len();
        let k = self.keys[idx].clone();
        if self.rr_idx == usize::MAX {
            self.rr_idx = 0;
        } else {
            self.rr_idx = self.rr_idx + 1;
        }
        assert(self@ =~= pool_next(old(self)@));
        Ok(k)
    }
}

} // verus!
