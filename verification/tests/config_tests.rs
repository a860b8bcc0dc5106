use gatekeeper::config::{Config, EnvInput, LbPolicy, RetryConfig};
use gatekeeper::errors::GatekeeperError;

fn env_none() -> EnvInput {
    EnvInput {
        provider: None,
        lb_policy: None,
        retry_max: None,
        retry_base_ms: None,
        retry_jitter: None,
        keys_json: None,
        keys: None,
    }
}

#[test]
fn parse_keys_from_csv() {
    let mut env = env_none();
    env.keys = Some("a,b,c".to_string());
    env.provider = Some("openai".to_string());
    let cfg = Config::load(&env).unwrap();
    assert_eq!(cfg.keys.len(), 3);
    assert_eq!(cfg.keys[0].provider, "openai");
    assert_eq!(cfg.lb_policy, LbPolicy::RoundRobin);
    assert_eq!(cfg.retry.max_retries, 2);
    assert!(cfg.retry.jitter);
}

#[test]
fn parse_keys_from_json() {
    let mut env = env_none();
    let json = "[{\"id\": \"k1\", \"value\": \"abc\", \"provider\": \"anthropic\", \"weight\": 2}, {\"id\": \"k2\", \"value\": \"def\", \"provider\": \"anthropic\", \"weight\": 1}]";
    env.keys_json = Some(json.to_string());
    env.lb_policy = Some("WRR".to_string());
    env.retry_max = Some("3".to_string());
    env.retry_base_ms = Some("250".to_string());
    env.retry_jitter = Some("false".to_string());
    let cfg = Config::load(&env).unwrap();
    assert_eq!(cfg.keys.len(), 2);
    assert_eq!(cfg.lb_policy, LbPolicy::WeightedRoundRobin);
    assert_eq!(cfg.retry.max_retries, 3);
    assert_eq!(cfg.retry.base_delay_ms, 250);
    assert!(!cfg.retry.jitter);
}

#[test]
fn invalid_lb_policy() {
    let mut env = env_none();
    env.keys = Some("a".to_string());
    env.lb_policy = Some("unknown".to_string());
    let err = Config::load(&env).unwrap_err();
    assert!(matches!(err, GatekeeperError::InvalidConfig(_)));
}

#[test]
fn flat_list_defaults() {
    let mut env = env_none();
    env.keys = Some("a,b,c".to_string());
    let cfg = Config::load(&env).unwrap();
    assert_eq!(cfg.keys.len(), 3);
    assert_eq!(cfg.keys[0].id, "k1");
    assert_eq!(cfg.keys[1].id, "k2");
    assert_eq!(cfg.keys[2].id, "k3");
    assert_eq!(cfg.keys[0].value, "a");
    assert_eq!(cfg.keys[1].value, "b");
    assert_eq!(cfg.keys[2].value, "c");
    for k in &cfg.keys {
        assert_eq!(k.provider, "default");
        assert_eq!(k.weight, 1);
    }
}

#[test]
fn flat_list_trims_and_drops_empty_segments() {
    let mut env = env_none();
    env.keys = Some("  a , ,b,,  c  ".to_string());
    let cfg = Config::load(&env).unwrap();
    assert_eq!(cfg.keys.len(), 3);
    assert_eq!(cfg.keys[0].value, "a");
    assert_eq!(cfg.keys[1].value, "b");
    assert_eq!(cfg.keys[2].value, "c");
    assert_eq!(cfg.keys[2].id, "k3");
}

#[test]
fn flat_list_two_digit_ids() {
    let mut env = env_none();
    env.keys = Some("a,b,c,d,e,f,g,h,i,j".to_string());
    let cfg = Config::load(&env).unwrap();
    assert_eq!(cfg.keys.len(), 10);
    assert_eq!(cfg.keys[9].id, "k10");
}

#[test]
fn malformed_structured_list_is_fatal_despite_flat_list() {
    let mut env = env_none();
    env.keys_json = Some("[oops".to_string());
    env.keys = Some("a,b".to_string());
    let err = Config::load(&env).unwrap_err();
    assert!(matches!(err, GatekeeperError::InvalidConfig(_)));
}

#[test]
fn structured_list_takes_precedence_over_flat() {
    let mut env = env_none();
    env.keys_json = Some(
        "[{\"id\": \"j1\", \"value\": \"jv\", \"provider\": \"p\", \"weight\": 1}]".to_string(),
    );
    env.keys = Some("a,b,c".to_string());
    let cfg = Config::load(&env).unwrap();
    assert_eq!(cfg.keys.len(), 1);
    assert_eq!(cfg.keys[0].id, "j1");
    assert_eq!(cfg.keys[0].value, "jv");
}

#[test]
fn blank_structured_list_falls_back_to_flat() {
    let mut env = env_none();
    env.keys_json = Some("   \t\n".to_string());
    env.keys = Some("x".to_string());
    let cfg = Config::load(&env).unwrap();
    assert_eq!(cfg.keys.len(), 1);
    assert_eq!(cfg.keys[0].value, "x");
}

#[test]
fn provider_mismatch_is_fatal_in_either_position() {
    let good = "{\"id\": \"a\", \"value\": \"v\", \"provider\": \"openai\", \"weight\": 1}";
    let bad = "{\"id\": \"b\", \"value\": \"w\", \"provider\": \"anthropic\", \"weight\": 1}";
    for json in [
        format!("[{}, {}]", good, bad),
        format!("[{}, {}]", bad, good),
    ] {
        let mut env = env_none();
        env.provider = Some("openai".to_string());
        env.keys_json = Some(json);
        let err = Config::load(&env).unwrap_err();
        assert!(matches!(err, GatekeeperError::InvalidConfig(_)));
    }
}

#[test]
fn matching_providers_pass_validation() {
    let mut env = env_none();
    env.provider = Some("openai".to_string());
    env.keys_json = Some(
        "[{\"id\": \"a\", \"value\": \"v\", \"provider\": \"openai\", \"weight\": 4}]".to_string(),
    );
    let cfg = Config::load(&env).unwrap();
    assert_eq!(cfg.keys.len(), 1);
    assert_eq!(cfg.keys[0].weight, 4);
    assert_eq!(cfg.provider.as_deref(), Some("openai"));
}

#[test]
fn no_keys_at_all_is_fatal() {
    let env = env_none();
    let err = Config::load(&env).unwrap_err();
    assert!(matches!(err, GatekeeperError::InvalidConfig(_)));
}

#[test]
fn empty_structured_list_is_fatal() {
    let mut env = env_none();
    env.keys_json = Some("[]".to_string());
    let err = Config::load(&env).unwrap_err();
    assert!(matches!(err, GatekeeperError::InvalidConfig(_)));
}

#[test]
fn policy_aliases_are_case_insensitive() {
    for (raw, want) in [
        ("rr", LbPolicy::RoundRobin),
        ("Round_Robin", LbPolicy::RoundRobin),
        ("wrr", LbPolicy::WeightedRoundRobin),
        ("WRR", LbPolicy::WeightedRoundRobin),
        ("weighted_round_robin", LbPolicy::WeightedRoundRobin),
        ("lp", LbPolicy::LeastPending),
        ("Least_Pending", LbPolicy::LeastPending),
    ] {
        let mut env = env_none();
        env.keys = Some("a".to_string());
        env.lb_policy = Some(raw.to_string());
        let cfg = Config::load(&env).unwrap();
        assert_eq!(cfg.lb_policy, want);
    }
}

#[test]
fn near_miss_policy_selectors_are_rejected() {
    for raw in ["Weighted_Round_Robin ", "WRR2", "weighted", ""] {
        let mut env = env_none();
        env.keys = Some("a".to_string());
        env.lb_policy = Some(raw.to_string());
        let err = Config::load(&env).unwrap_err();
        assert!(matches!(err, GatekeeperError::InvalidConfig(_)));
    }
}

#[test]
fn absent_policy_defaults_to_round_robin() {
    let mut env = env_none();
    env.keys = Some("a".to_string());
    let cfg = Config::load(&env).unwrap();
    assert_eq!(cfg.lb_policy, LbPolicy::RoundRobin);
}

#[test]
fn retry_values_parse_permissively() {
    let mut env = env_none();
    env.keys = Some("a".to_string());
    env.retry_max = Some("abc".to_string());
    env.retry_base_ms = Some("10x".to_string());
    env.retry_jitter = Some("0".to_string());
    let cfg = Config::load(&env).unwrap();
    assert_eq!(cfg.retry.max_retries, 2);
    assert_eq!(cfg.retry.base_delay_ms, 100);
    assert!(!cfg.retry.jitter);

    let mut env2 = env_none();
    env2.keys = Some("a".to_string());
    env2.retry_max = Some("+7".to_string());
    env2.retry_jitter = Some("TrUe".to_string());
    let cfg2 = Config::load(&env2).unwrap();
    assert_eq!(cfg2.retry.max_retries, 7);
    assert_eq!(cfg2.retry.base_delay_ms, 100);
    assert!(cfg2.retry.jitter);

    let mut env3 = env_none();
    env3.keys = Some("a".to_string());
    env3.retry_max = Some("99999999999999999999".to_string());
    env3.retry_jitter = Some("1".to_string());
    let cfg3 = Config::load(&env3).unwrap();
    assert_eq!(cfg3.retry.max_retries, 2);
    assert!(cfg3.retry.jitter);
}

#[test]
fn redacted_masks_values_and_keeps_the_rest() {
    let mut env = env_none();
    env.keys = Some("secret-a,secret-b".to_string());
    env.provider = Some("openai".to_string());
    let cfg = Config::load(&env).unwrap();
    let red = cfg.redacted();
    assert_eq!(red.keys.len(), 2);
    for (r, k) in red.keys.iter().zip(cfg.keys.iter()) {
        assert_eq!(r.value, "***");
        assert_eq!(r.id, k.id);
        assert_eq!(r.provider, k.provider);
        assert_eq!(r.weight, k.weight);
    }
    assert_eq!(red.provider.as_deref(), Some("openai"));
    assert_eq!(red.lb_policy, cfg.lb_policy);
    // the source is untouched
    assert_eq!(cfg.keys[0].value, "secret-a");
    assert_eq!(cfg.keys[1].value, "secret-b");
}

#[test]
fn structured_string_escapes_decode() {
    let mut env = env_none();
    env.keys_json = Some(
        "[{\"id\": \"k\\\"1\", \"value\": \"a\\nb\\\\c\", \"provider\": \"p\", \"weight\": 1}]"
            .to_string(),
    );
    let cfg = Config::load(&env).unwrap();
    assert_eq!(cfg.keys[0].id, "k\"1");
    assert_eq!(cfg.keys[0].value, "a\nb\\c");
}

#[test]
fn structured_weight_above_range_is_fatal() {
    let mut env = env_none();
    env.keys_json = Some(
        "[{\"id\": \"a\", \"value\": \"v\", \"provider\": \"p\", \"weight\": 4294967296}]"
            .to_string(),
    );
    let err = Config::load(&env).unwrap_err();
    assert!(matches!(err, GatekeeperError::InvalidConfig(_)));
}

#[test]
fn structured_duplicate_member_is_fatal() {
    let mut env = env_none();
    env.keys_json = Some(
        "[{\"id\": \"a\", \"id\": \"b\", \"value\": \"v\", \"provider\": \"p\", \"weight\": 1}]"
            .to_string(),
    );
    let err = Config::load(&env).unwrap_err();
    assert!(matches!(err, GatekeeperError::InvalidConfig(_)));
}

#[test]
fn structured_missing_member_is_fatal() {
    let mut env = env_none();
    env.keys_json = Some("[{\"id\": \"a\", \"value\": \"v\", \"weight\": 1}]".to_string());
    let err = Config::load(&env).unwrap_err();
    assert!(matches!(err, GatekeeperError::InvalidConfig(_)));
}

#[test]
fn structured_unknown_member_is_ignored() {
    let mut env = env_none();
    env.keys_json = Some(
        "[{\"id\": \"a\", \"note\": \"x\", \"value\": \"v\", \"provider\": \"p\", \"weight\": 1, \"rank\": 9}]"
            .to_string(),
    );
    let cfg = Config::load(&env).unwrap();
    assert_eq!(cfg.keys.len(), 1);
    assert_eq!(cfg.keys[0].id, "a");
}

#[test]
fn structured_leading_zero_number_is_fatal() {
    let mut env = env_none();
    env.keys_json = Some(
        "[{\"id\": \"a\", \"value\": \"v\", \"provider\": \"p\", \"weight\": 01}]".to_string(),
    );
    let err = Config::load(&env).unwrap_err();
    assert!(matches!(err, GatekeeperError::InvalidConfig(_)));
}

#[test]
fn defaults_match_the_documented_values() {
    assert_eq!(LbPolicy::default(), LbPolicy::RoundRobin);
    let retry = RetryConfig::default();
    assert_eq!(retry.max_retries, 2);
    assert_eq!(retry.base_delay_ms, 100);
    assert!(retry.jitter);
}

#[test]
fn error_describe_names_the_kind() {
    let err = GatekeeperError::InvalidConfig("x".to_string());
    assert_eq!(err.describe(), "invalid configuration");
    assert_eq!(GatekeeperError::NoAvailableKeys.describe(), "no available keys");
}
