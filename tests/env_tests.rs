use vault_injector::config::{Config, Env};
use vault_injector::env::{resolve_env, ResolvedEnv};

fn entry(name: &str, secret: &str) -> Env {
    Env {
        name: name.to_string(),
        field: name.to_string(),
        engine: "kv".to_string(),
        secret: secret.to_string(),
    }
}

#[test]
fn duplicate_names_keep_last_value_and_are_reported() {
    let config = Config { env: vec![entry("PASS", "app/a"), entry("PASS", "app/b")], version: None };
    let values = vec!["first".to_string(), "second".to_string()];
    let (env, dups) = resolve_env(&config, &values);
    assert_eq!(env.len(), 1);
    assert_eq!(env.get(&"PASS".to_string()), Some(&"second".to_string()));
    assert_eq!(dups, vec!["PASS".to_string()]);
}

#[test]
fn distinct_names_are_all_kept_without_report() {
    let config = Config { env: vec![entry("A", "s"), entry("B", "s")], version: None };
    let values = vec!["1".to_string(), "2".to_string()];
    let (env, dups) = resolve_env(&config, &values);
    assert_eq!(env.len(), 2);
    assert_eq!(env.get(&"A".to_string()), Some(&"1".to_string()));
    assert_eq!(env.get(&"B".to_string()), Some(&"2".to_string()));
    assert!(dups.is_empty());
}

#[test]
fn insert_tells_whether_name_was_present() {
    let mut env = ResolvedEnv::new();
    assert!(env.is_empty());
    assert!(!env.insert("K".to_string(), "v1".to_string()));
    assert!(env.insert("K".to_string(), "v2".to_string()));
    assert_eq!(env.len(), 1);
    assert_eq!(env.get(&"K".to_string()), Some(&"v2".to_string()));
    assert_eq!(env.get(&"missing".to_string()), None);
}

#[test]
fn encoded_payload_is_base64_of_each_value() {
    let mut env = ResolvedEnv::new();
    env.insert("DB_PASS".to_string(), "s3cr3t".to_string());
    env.insert("EMPTY".to_string(), String::new());
    let data = env.encoded();
    assert_eq!(data.len(), 2);
    assert_eq!(data.get(&"DB_PASS".to_string()), Some(&"czNjcjN0".to_string()));
    assert_eq!(data.get(&"EMPTY".to_string()), Some(&String::new()));
    let (k, v) = data.entry(0);
    assert_eq!(k, "DB_PASS");
    assert_eq!(v, "czNjcjN0");
}
