//! The load balancer: binds a policy to a key pool and exposes the single
//! `select` operation callers use.

use vstd::prelude::*;
use crate::config::{KeyConfig, LbPolicy};
use crate::errors::GatekeeperError;
use crate::keypool::{key_of, pool_next, pool_pick, Key, KeyPool, PoolModel};

verus! {

/// Mathematical model of a load balancer: the bound policy and the pool.
#[verifier::ext_equal]
pub struct LbModel {
    pub policy: LbPolicy,
    pub pool: PoolModel,
}

/// The sole entry point through which callers reach the pool: one policy
/// value and exclusive ownership of one key pool.
#[derive(Debug)]
pub struct LoadBalancer {
    policy: LbPolicy,
    pool: KeyPool,
}

impl View for LoadBalancer {
    type V = LbModel;

    closed spec fn view(&self) -> LbModel {
        LbModel { policy: self.policy, pool: self.pool@ }
    }
}

impl LoadBalancer {
    /// Binds `policy` to a fresh pool built from `keys`: one live key per
    /// entry, in order, counters zeroed, cursor at zero.
    pub fn new(policy: LbPolicy, keys: &[KeyConfig]) -> (r: LoadBalancer)
        ensures
            r@.policy == policy,
            r@.pool.cursor == 0,
            r@.pool.keys.len() == keys@.len(),
            forall|i: int| 0 <= i < keys@.len() ==> r@.pool.keys[i] == key_of(#[trigger] keys@[i]),
    {
        LoadBalancer { policy, pool: KeyPool::new(keys) }
    }

    /// Whether the underlying pool has zero keys, for collaborators that
    /// want to fail fast before issuing calls.
    pub fn is_empty(&self) -> (r: bool)
        ensures
            r == (self@.pool.keys.len() == 0),
    {
        self.pool.is_empty()
    }

    /// Selects the key for the next call by the bound policy. All three
    /// policy variants currently invoke the identical rotation primitive:
    /// on an empty pool the call fails with `NoAvailableKeys`; otherwise it
    /// returns the key at the pre-increment cursor modulo the pool size and
    /// advances the cursor by one.
    pub fn select(&mut self) -> (r: Result<Key, GatekeeperError>)
        ensures
            final(self)@.policy == old(self)@.policy,
            old(self)@.pool.keys.len() == 0 ==> (r matches Err(e) && e matches
                GatekeeperError::NoAvailableKeys && final(self)@ == old(self)@),
            old(self)@.pool.keys.len() > 0 ==> (r matches Ok(k) && k == pool_pick(
                old(self)@.pool,
            ) && final(self)@.pool == pool_next(old(self)@.pool)),
    {
        let r = match self.policy {
            LbPolicy::RoundRobin => self.pool.pick_rr(),
            LbPolicy::WeightedRoundRobin => self.pool.pick_rr(),
            LbPolicy::LeastPending => self.pool.pick_rr(),
        };
        proof {
            if old(self)@.pool.keys.len() == 0 {
                assert(self@ =~= old(self)@);
            }
        }
        r
    }
}

} // verus!
