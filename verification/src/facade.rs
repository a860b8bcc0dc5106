//! The application facade: composes the configuration loader and the load
//! balancer into the one object a request-handling edge needs to hold.

use vstd::prelude::*;
use crate::config::{mask, spec_load, Config, ConfigModel, EnvInput};
use crate::errors::GatekeeperError;
use crate::keypool::{key_of, key_view, pool_next, pool_pick, Key};
use crate::lb::{LbModel, LoadBalancer};

verus! {

/// The facade: the validated configuration and the load balancer bound to
/// it. Built once at startup and passed to every request-handling task.
#[derive(Debug)]
pub struct App {
    config: Config,
    lb: LoadBalancer,
}

impl App {
    /// The model of the held configuration.
    pub closed spec fn spec_config(&self) -> ConfigModel {
        self.config@
    }

    /// The model of the held load balancer.
    pub closed spec fn spec_lb(&self) -> LbModel {
        self.lb@
    }

    /// Builds the facade: loads the configuration, propagating any
    /// `InvalidConfig` failure, and binds a load balancer to the loaded
    /// policy and keys, cursor at zero and counters zeroed.
    pub fn build(env: &EnvInput) -> (r: Result<App, GatekeeperError>)
        ensures
            match spec_load(env@) {
                Some(m) => r matches Ok(app) && app.spec_config() == m && app.spec_lb().policy
                    == m.lb_policy && app.spec_lb().pool.cursor == 0
                    && app.spec_lb().pool.keys.len() == m.keys.len() && forall|i: int|
                    0 <= i < m.keys.len() ==> {
                        &&& key_view(#[trigger] app.spec_lb().pool.keys[i]) == m.keys[i]
                        &&& app.spec_lb().pool.keys[i].fail_count == 0
                        &&& app.spec_lb().pool.keys[i].in_flight == 0
                    },
                None => r matches Err(e) && e matches GatekeeperError::InvalidConfig(_),
            },
    {
        let config = match Config::load(env) {
            Ok(c) => c,
            Err(e) => {
                return Err(e);
            },
        };
        let lb = LoadBalancer::new(config.lb_policy, config.keys.as_slice());
        let app = App { config, lb };
        proof {
            let m = spec_load(env@)->0;
            assert forall|i: int| 0 <= i < m.keys.len() implies {
                &&& key_view(#[trigger] app.spec_lb().pool.keys[i]) == m.keys[i]
                &&& app.spec_lb().pool.keys[i].fail_count == 0
                &&& app.spec_lb().pool.keys[i].in_flight == 0
            } by {
                assert(app.spec_lb().pool.keys[i] == key_of(app.config.keys@[i]));
                assert(m.keys[i] == app.config.keys@[i]@);
            }
        }
        Ok(app)
    }

    /// A safe-to-log copy of the configuration: every secret value replaced
    /// by the fixed mask, everything else kept; the live pool is untouched.
    pub fn redacted_config(&self) -> (r: Config)
        ensures
            r@.provider == self.spec_config().provider,
            r@.lb_policy == self.spec_config().lb_policy,
            r@.retry == self.spec_config().retry,
            r@.keys.len() == self.spec_config().keys.len(),
            forall|i: int|
                0 <= i < self.spec_config().keys.len() ==> {
                    &&& (#[trigger] r@.keys[i]).id == self.spec_config().keys[i].id
                    &&& r@.keys[i].provider == self.spec_config().keys[i].provider
                    &&& r@.keys[i].weight == self.spec_config().keys[i].weight
                    &&& r@.keys[i].value == mask()
                },
    {
        self.config.redacted()
    }

    /// Whether the pool behind the load balancer has zero keys.
    pub fn is_empty(&self) -> (r: bool)
        ensures
            r == (self.spec_lb().pool.keys.len() == 0),
    {
        self.lb.is_empty()
    }

    /// Selects the key for the next proxied call, as the load balancer
    /// does; the held configuration is untouched.
    pub fn select(&mut self) -> (r: Result<Key, GatekeeperError>)
        ensures
            final(self).spec_config() == old(self).spec_config(),
            final(self).spec_lb().policy == old(self).spec_lb().policy,
            old(self).spec_lb().pool.keys.len() == 0 ==> (r matches Err(e) && e matches
                GatekeeperError::NoAvailableKeys && final(self).spec_lb() == old(
                    self,
                ).spec_lb()),
            old(self).spec_lb().pool.keys.len() > 0 ==> (r matches Ok(k) && k == pool_pick(
                old(self).spec_lb().pool,
            ) && final(self).spec_lb().pool == pool_next(old(self).spec_lb().pool)),
    {
        self.lb.select()
    }
}

} // verus!
