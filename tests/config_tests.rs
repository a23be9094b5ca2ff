use vault_injector::config::{normalize_config, normalize_entry, Config, ConfigError, Env};

fn entry(name: &str, field: &str, engine: &str, secret: &str) -> Env {
    Env {
        name: name.to_string(),
        field: field.to_string(),
        engine: engine.to_string(),
        secret: secret.to_string(),
    }
}

#[test]
fn field_only_entry_takes_field_as_name() {
    let e = normalize_entry(entry("", "DB_PASS", "kv", "app/db")).unwrap();
    assert_eq!(e.name, "DB_PASS");
    assert_eq!(e.field, "DB_PASS");
    assert_eq!(e.engine, "kv");
    assert_eq!(e.secret, "app/db");
}

#[test]
fn name_only_entry_takes_name_as_field() {
    let e = normalize_entry(entry("TOKEN", "", "kv", "app/api")).unwrap();
    assert_eq!(e.name, "TOKEN");
    assert_eq!(e.field, "TOKEN");
}

#[test]
fn entry_with_both_names_is_kept() {
    let e = normalize_entry(entry("DB_PASSWORD", "password", "kv", "app/db")).unwrap();
    assert_eq!(e.name, "DB_PASSWORD");
    assert_eq!(e.field, "password");
}

#[test]
fn entry_without_name_or_field_is_refused() {
    assert!(normalize_entry(entry("", "", "kv", "app/db")).is_none());
}

#[test]
fn config_reports_first_unnamed_entry() {
    let raw = Config {
        env: vec![
            entry("A", "", "kv", "s1"),
            entry("", "", "kv", "s2"),
            entry("", "", "kv", "s3"),
        ],
        version: None,
    };
    assert_eq!(normalize_config(raw).err(), Some(ConfigError::InvalidEntry { index: 1 }));
}

#[test]
fn config_normalizes_every_entry_in_order() {
    let raw = Config {
        env: vec![entry("", "DB_PASS", "kv", "app/db"), entry("USER", "", "kv", "app/user")],
        version: Some("1.2.0".to_string()),
    };
    let c = normalize_config(raw).unwrap();
    assert_eq!(c.version, Some("1.2.0".to_string()));
    assert_eq!(c.env.len(), 2);
    assert_eq!(c.env[0].name, "DB_PASS");
    assert_eq!(c.env[0].field, "DB_PASS");
    assert_eq!(c.env[1].name, "USER");
    assert_eq!(c.env[1].field, "USER");
}

#[test]
fn empty_config_normalizes_to_empty() {
    let c = normalize_config(Config { env: vec![], version: None }).unwrap();
    assert!(c.env.is_empty());
}
