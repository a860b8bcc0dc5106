use gatekeeper::config::EnvInput;
use gatekeeper::errors::GatekeeperError;
use gatekeeper::facade::App;

fn env_none() -> EnvInput {
    EnvInput {
        provider: None,
        lb_policy: None,
        retry_max: None,
        retry_base_ms: None,
        retry_jitter: None,
        keys_json: None,
        keys: None,
    }
}

#[test]
fn build_composes_loader_and_balancer() {
    let mut env = env_none();
    env.keys = Some("s1,s2".to_string());
    let mut app = App::build(&env).unwrap();
    assert!(!app.is_empty());
    assert_eq!(app.select().unwrap().id, "k1");
    assert_eq!(app.select().unwrap().value, "s2");
    assert_eq!(app.select().unwrap().id, "k1");
}

#[test]
fn build_propagates_invalid_config() {
    let mut env = env_none();
    env.keys = Some("a".to_string());
    env.lb_policy = Some("bogus".to_string());
    let err = App::build(&env).unwrap_err();
    assert!(matches!(err, GatekeeperError::InvalidConfig(_)));
}

#[test]
fn redacted_config_never_exposes_secrets() {
    let mut env = env_none();
    env.keys = Some("hunter2".to_string());
    let mut app = App::build(&env).unwrap();
    let red = app.redacted_config();
    assert_eq!(red.keys.len(), 1);
    assert_eq!(red.keys[0].value, "***");
    // the live pool still serves the real secret
    assert_eq!(app.select().unwrap().value, "hunter2");
}
