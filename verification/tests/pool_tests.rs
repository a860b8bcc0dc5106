use gatekeeper::config::{KeyConfig, LbPolicy};
use gatekeeper::errors::GatekeeperError;
use gatekeeper::keypool::KeyPool;
use gatekeeper::lb::LoadBalancer;

fn cfgs() -> Vec<KeyConfig> {
    vec![
        KeyConfig { id: "k1".into(), value: "a".into(), provider: "p".into(), weight: 1 },
        KeyConfig { id: "k2".into(), value: "b".into(), provider: "p".into(), weight: 1 },
        KeyConfig { id: "k3".into(), value: "c".into(), provider: "p".into(), weight: 1 },
    ]
}

fn cfgs2() -> Vec<KeyConfig> {
    vec![
        KeyConfig { id: "k1".into(), value: "a".into(), provider: "p".into(), weight: 1 },
        KeyConfig { id: "k2".into(), value: "b".into(), provider: "p".into(), weight: 1 },
    ]
}

#[test]
fn round_robin_cycles() {
    let mut pool = KeyPool::new(&cfgs());
    let first = pool.pick_rr().unwrap().id.clone();
    let second = pool.pick_rr().unwrap().id.clone();
    let third = pool.pick_rr().unwrap().id.clone();
    let fourth = pool.pick_rr().unwrap().id.clone();
    assert_eq!(first, "k1");
    assert_eq!(second, "k2");
    assert_eq!(third, "k3");
    assert_eq!(fourth, "k1");
}

#[test]
fn rr_select() {
    let mut lb = LoadBalancer::new(LbPolicy::RoundRobin, &cfgs2());
    let k1 = lb.select().unwrap().id.clone();
    let k2 = lb.select().unwrap().id.clone();
    let k3 = lb.select().unwrap().id.clone();
    assert_eq!(k1, "k1");
    assert_eq!(k2, "k2");
    assert_eq!(k3, "k1");
}

#[test]
fn empty_pool_fails_with_no_available_keys() {
    let mut pool = KeyPool::new(&[]);
    assert!(pool.is_empty());
    assert_eq!(pool.len(), 0);
    for _ in 0..3 {
        let err = pool.pick_rr().unwrap_err();
        assert!(matches!(err, GatekeeperError::NoAvailableKeys));
    }
}

#[test]
fn empty_balancer_fails_under_every_policy() {
    for policy in [LbPolicy::RoundRobin, LbPolicy::WeightedRoundRobin, LbPolicy::LeastPending] {
        let mut lb = LoadBalancer::new(policy, &[]);
        assert!(lb.is_empty());
        let err = lb.select().unwrap_err();
        assert!(matches!(err, GatekeeperError::NoAvailableKeys));
    }
}

#[test]
fn selection_wraps_after_a_full_cycle() {
    let mut lb = LoadBalancer::new(LbPolicy::RoundRobin, &cfgs());
    let n = 3;
    let first = lb.select().unwrap().id.clone();
    for _ in 0..n - 1 {
        lb.select().unwrap();
    }
    let wrapped = lb.select().unwrap().id.clone();
    assert_eq!(first, wrapped);
}

#[test]
fn selection_distributes_evenly() {
    let mut lb = LoadBalancer::new(LbPolicy::RoundRobin, &cfgs());
    let mut counts = [0usize; 3];
    for round in 0..3 {
        for pos in 0..3 {
            let id = lb.select().unwrap().id.clone();
            let expect = ["k1", "k2", "k3"][pos];
            assert_eq!(id, expect, "round {}", round);
            counts[pos] += 1;
        }
    }
    assert_eq!(counts, [3, 3, 3]);
}

#[test]
fn all_policies_rotate_identically() {
    for policy in [LbPolicy::RoundRobin, LbPolicy::WeightedRoundRobin, LbPolicy::LeastPending] {
        let mut lb = LoadBalancer::new(policy, &cfgs());
        assert_eq!(lb.select().unwrap().id, "k1");
        assert_eq!(lb.select().unwrap().id, "k2");
        assert_eq!(lb.select().unwrap().id, "k3");
        assert_eq!(lb.select().unwrap().id, "k1");
    }
}

#[test]
fn pool_keys_keep_order_and_zero_counters() {
    let pool = KeyPool::new(&cfgs());
    assert_eq!(pool.len(), 3);
    let keys = pool.keys();
    assert_eq!(keys.len(), 3);
    for (k, c) in keys.iter().zip(cfgs().iter()) {
        assert_eq!(k.id, c.id);
        assert_eq!(k.value, c.value);
        assert_eq!(k.provider, c.provider);
        assert_eq!(k.weight, c.weight);
        assert_eq!(k.fail_count, 0);
        assert_eq!(k.in_flight, 0);
    }
}

#[test]
fn picked_key_carries_the_secret_value() {
    let mut pool = KeyPool::new(&cfgs());
    let k = pool.pick_rr().unwrap();
    assert_eq!(k.value, "a");
    let k2 = pool.pick_rr().unwrap();
    assert_eq!(k2.value, "b");
}
