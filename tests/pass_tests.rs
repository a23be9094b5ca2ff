use vault_injector::config::{Config, ConfigError, Env};
use vault_injector::injector::{
    secret_field, Action, AnnotatedObject, ClusterError, Event, Injector, ResolveError, Warning,
};
use vault_injector::selector::{ResourceKind, Selector, Timestamp};
use vault_injector::version::{
    annotation, config_if_admitted, CONFIG_ANNOTATION, VERSION_ANNOTATION,
};
use vault_injector::workload::{Container, Workload};

const DB_CONFIG: &str = r#"{"env":[{"field":"DB_PASS","engine":"kv","secret":"app/db"}]}"#;

fn object(name: &str, version: Option<&str>, config: Option<&str>) -> AnnotatedObject {
    let mut annotations = vec![("unrelated".to_string(), "x".to_string())];
    if let Some(v) = version {
        annotations.push((VERSION_ANNOTATION.to_string(), v.to_string()));
    }
    if let Some(c) = config {
        annotations.push((CONFIG_ANNOTATION.to_string(), c.to_string()));
    }
    AnnotatedObject {
        id: Selector::new(ResourceKind::Secret, name.to_string(), Some("prod".to_string())),
        annotations,
    }
}

fn db_config() -> Config {
    Config {
        env: vec![Env {
            name: String::new(),
            field: "DB_PASS".to_string(),
            engine: "kv".to_string(),
            secret: "app/db".to_string(),
        }],
        version: None,
    }
}

fn stamp(secs: i64) -> Event {
    Event::Witnessed(Ok(vec![Some(Timestamp { secs, nanos: 0 })]))
}

fn deployment(name: &str, env: Vec<Option<&str>>, env_from: Vec<Option<&str>>) -> Workload {
    Workload {
        id: Selector::new(ResourceKind::Deployment, name.to_string(), Some("prod".to_string())),
        containers: vec![Container {
            env: env.into_iter().map(|o| o.map(|s| s.to_string())).collect(),
            env_from: env_from.into_iter().map(|o| o.map(|s| s.to_string())).collect(),
        }],
    }
}

fn injector() -> Injector {
    Injector::new("0.1.0").unwrap()
}

#[test]
fn backend_field_is_picked_by_name() {
    let fields = vec![
        ("user".to_string(), "admin".to_string()),
        ("DB_PASS".to_string(), "s3cr3t".to_string()),
    ];
    assert_eq!(secret_field(&fields, "DB_PASS"), Ok("s3cr3t".to_string()));
    assert_eq!(secret_field(&fields, "missing"), Err(ResolveError::NotFound));
}

#[test]
fn prerelease_build_is_admitted_only_by_matching_requirement() {
    let inj = Injector::new("1.0.0-beta.1").unwrap();
    let star = object("db", Some("*"), Some(DB_CONFIG));
    assert!(!inj.admits(&star.annotations));
    let exact = object("db", Some("=1.0.0-beta.1"), Some(DB_CONFIG));
    assert!(inj.admits(&exact.annotations));
}

#[test]
fn build_version_must_be_a_version() {
    assert!(Injector::new("0.1.0").is_some());
    assert!(Injector::new("not a version").is_none());
    assert!(Injector::new("1.0").is_none());
}

#[test]
fn annotations_are_looked_up_by_name() {
    let o = object("db", Some(">=0.1.0"), Some(DB_CONFIG));
    assert_eq!(annotation(&o.annotations, VERSION_ANNOTATION), Some(&">=0.1.0".to_string()));
    assert_eq!(annotation(&o.annotations, "missing"), None);
    assert_eq!(config_if_admitted(&o.annotations, true), Some(DB_CONFIG.to_string()));
    assert_eq!(config_if_admitted(&o.annotations, false), None);
}

#[test]
fn version_requirement_gates_configuration() {
    let inj = injector();
    let admitted = object("db", Some("^0.1"), Some(DB_CONFIG));
    assert_eq!(inj.get_config_if_available(&admitted.annotations), Some(DB_CONFIG.to_string()));
    let excluded = object("db", Some(">=99.0.0"), Some(DB_CONFIG));
    assert!(!inj.admits(&excluded.annotations));
    assert_eq!(inj.get_config_if_available(&excluded.annotations), None);
    let unreadable = object("db", Some("not a range"), Some(DB_CONFIG));
    assert_eq!(inj.get_config_if_available(&unreadable.annotations), None);
    let unversioned = object("db", None, Some(DB_CONFIG));
    assert_eq!(inj.get_config_if_available(&unversioned.annotations), None);
    let unconfigured = object("db", Some("*"), None);
    assert!(inj.admits(&unconfigured.annotations));
    assert_eq!(inj.get_config_if_available(&unconfigured.annotations), None);
}

#[test]
fn end_to_end_injection_restarts_readers_once() {
    let (mut pass, a) = injector().begin_pass(vec![object("db", Some(">=0.1.0"), Some(DB_CONFIG))]);
    match a {
        Action::DecodeConfig { text } => assert_eq!(text, DB_CONFIG),
        _ => panic!("expected a configuration to decode"),
    }
    let (a, w) = pass.step(Event::ConfigDecoded(Some(db_config())));
    assert!(w.is_none());
    match a {
        Action::Resolve { engine, secret, field } => {
            assert_eq!(engine, "kv");
            assert_eq!(secret, "app/db");
            assert_eq!(field, "DB_PASS");
        }
        _ => panic!("expected a resolution"),
    }
    let (a, _) = pass.step(Event::Resolved(Ok("s3cr3t".to_string())));
    assert!(matches!(a, Action::ReadWitness { .. }));
    let (a, _) = pass.step(stamp(100));
    match a {
        Action::Patch { target, data } => {
            assert_eq!(target.name(), "db");
            assert_eq!(data.len(), 1);
            assert_eq!(data.get(&"DB_PASS".to_string()), Some(&"czNjcjN0".to_string()));
        }
        _ => panic!("expected a patch"),
    }
    let (a, _) = pass.step(Event::Patched(Ok(())));
    assert!(matches!(a, Action::ReadWitness { .. }));
    let (a, _) = pass.step(stamp(200));
    match a {
        Action::ListWorkloads { kind, namespace } => {
            assert_eq!(kind, ResourceKind::Deployment);
            assert_eq!(namespace, Some("prod".to_string()));
        }
        _ => panic!("expected a listing"),
    }
    let workloads = vec![
        deployment("web", vec![Some("db")], vec![]),
        deployment("worker", vec![], vec![Some("db")]),
        deployment("cache", vec![Some("other")], vec![None]),
    ];
    let (a, _) = pass.step(Event::WorkloadsListed(Ok(workloads)));
    let mut restarted = vec![];
    let mut a = a;
    loop {
        match a {
            Action::Restart { target } => {
                restarted.push(target.name());
                let (next, w) = pass.step(Event::Restarted(Ok(())));
                assert!(w.is_none());
                a = next;
            }
            Action::Finished => break,
            _ => panic!("expected restarts"),
        }
    }
    assert_eq!(restarted, vec!["web".to_string(), "worker".to_string()]);
    assert!(pass.is_finished());
}

#[test]
fn unchanged_witness_triggers_no_restart() {
    let (mut pass, _) = injector().begin_pass(vec![object("db", Some("*"), Some(DB_CONFIG))]);
    pass.step(Event::ConfigDecoded(Some(db_config())));
    pass.step(Event::Resolved(Ok("s3cr3t".to_string())));
    pass.step(stamp(100));
    pass.step(Event::Patched(Ok(())));
    let (a, w) = pass.step(stamp(100));
    assert!(matches!(a, Action::Finished));
    assert!(w.is_none());
}

#[test]
fn excluded_version_is_never_patched() {
    let (pass, a) = injector().begin_pass(vec![
        object("old", Some(">=99.0.0"), Some(DB_CONFIG)),
        object("bad", Some("???"), Some(DB_CONFIG)),
    ]);
    assert!(matches!(a, Action::Finished));
    assert!(pass.is_finished());
}

#[test]
fn failed_resolution_does_not_stop_next_object() {
    let (mut pass, a) = injector().begin_pass(vec![
        object("a", Some("*"), Some(DB_CONFIG)),
        object("b", Some("*"), Some(DB_CONFIG)),
    ]);
    assert!(matches!(a, Action::DecodeConfig { .. }));
    pass.step(Event::ConfigDecoded(Some(db_config())));
    let (a, w) = pass.step(Event::Resolved(Err(ResolveError::Unauthorized)));
    match w {
        Some(Warning::ResolveFailed { object, cause }) => {
            assert_eq!(object.name(), "a");
            assert_eq!(cause, ResolveError::Unauthorized);
        }
        _ => panic!("expected a resolution warning"),
    }
    assert!(matches!(a, Action::DecodeConfig { .. }));
    pass.step(Event::ConfigDecoded(Some(db_config())));
    pass.step(Event::Resolved(Ok("v".to_string())));
    let (a, _) = pass.step(stamp(1));
    match a {
        Action::Patch { target, .. } => assert_eq!(target.name(), "b"),
        _ => panic!("expected the second object to be patched"),
    }
    pass.step(Event::Patched(Ok(())));
    pass.step(stamp(2));
    let (a, _) = pass.step(Event::WorkloadsListed(Ok(vec![deployment("web", vec![], vec![Some("b")])])));
    match a {
        Action::Restart { target } => assert_eq!(target.name(), "web"),
        _ => panic!("expected a restart"),
    }
    let (a, w) = pass.step(Event::Restarted(Err(ClusterError::Transport)));
    assert!(matches!(w, Some(Warning::RestartFailed { error: ClusterError::Transport, .. })));
    assert!(matches!(a, Action::Finished));
}

#[test]
fn duplicate_names_in_pass_warn_and_keep_last() {
    let (mut pass, _) = injector().begin_pass(vec![object("db", Some("*"), Some(DB_CONFIG))]);
    let mut config = db_config();
    config.env.push(Env {
        name: "DB_PASS".to_string(),
        field: "other".to_string(),
        engine: "kv".to_string(),
        secret: "app/other".to_string(),
    });
    pass.step(Event::ConfigDecoded(Some(config)));
    let (a, w) = pass.step(Event::Resolved(Ok("one".to_string())));
    assert!(w.is_none());
    match a {
        Action::Resolve { secret, field, .. } => {
            assert_eq!(secret, "app/other");
            assert_eq!(field, "other");
        }
        _ => panic!("expected a second resolution"),
    }
    let (_, w) = pass.step(Event::Resolved(Ok("two".to_string())));
    match w {
        Some(Warning::DuplicateNames { names, .. }) => assert_eq!(names, vec!["DB_PASS".to_string()]),
        _ => panic!("expected a duplicate-name warning"),
    }
    let (a, _) = pass.step(stamp(1));
    match a {
        Action::Patch { data, .. } => {
            assert_eq!(data.len(), 1);
            assert_eq!(data.get(&"DB_PASS".to_string()), Some(&"dHdv".to_string()));
        }
        _ => panic!("expected a patch"),
    }
}

#[test]
fn undecodable_config_is_skipped_with_warning() {
    let (mut pass, _) = injector().begin_pass(vec![object("db", Some("*"), Some("{"))]);
    let (a, w) = pass.step(Event::ConfigDecoded(None));
    assert!(matches!(w, Some(Warning::InvalidConfig { reason: ConfigError::Malformed, .. })));
    assert!(matches!(a, Action::Finished));
}

#[test]
fn config_without_names_is_skipped_with_warning() {
    let (mut pass, _) = injector().begin_pass(vec![object("db", Some("*"), Some(DB_CONFIG))]);
    let raw = Config {
        env: vec![Env {
            name: String::new(),
            field: String::new(),
            engine: "kv".to_string(),
            secret: "s".to_string(),
        }],
        version: None,
    };
    let (a, w) = pass.step(Event::ConfigDecoded(Some(raw)));
    assert!(matches!(w, Some(Warning::InvalidConfig { reason: ConfigError::InvalidEntry { index: 0 }, .. })));
    assert!(matches!(a, Action::Finished));
}

#[test]
fn empty_config_is_skipped_silently() {
    let (mut pass, _) = injector().begin_pass(vec![object("db", Some("*"), Some(DB_CONFIG))]);
    let (a, w) = pass.step(Event::ConfigDecoded(Some(Config { env: vec![], version: None })));
    assert!(w.is_none());
    assert!(matches!(a, Action::Finished));
}

#[test]
fn cluster_failures_skip_the_object() {
    for failing_step in 0..4 {
        let (mut pass, _) = injector().begin_pass(vec![object("db", Some("*"), Some(DB_CONFIG))]);
        pass.step(Event::ConfigDecoded(Some(db_config())));
        pass.step(Event::Resolved(Ok("v".to_string())));
        let events = vec![
            Event::Witnessed(Err(ClusterError::NotFound)),
            Event::Patched(Err(ClusterError::Transport)),
            Event::Witnessed(Err(ClusterError::Transport)),
            Event::WorkloadsListed(Err(ClusterError::Transport)),
        ];
        let mut last = None;
        for (i, e) in events.into_iter().enumerate() {
            let e = if i < failing_step {
                match i {
                    0 => stamp(1),
                    1 => Event::Patched(Ok(())),
                    _ => stamp(2),
                }
            } else {
                e
            };
            let (a, w) = pass.step(e);
            if i == failing_step {
                assert!(matches!(w, Some(Warning::ClusterFailed { .. })));
                last = Some(a);
                break;
            }
        }
        assert!(matches!(last, Some(Action::Finished)));
    }
}

#[test]
fn empty_listing_finishes_at_once() {
    let (pass, a) = injector().begin_pass(vec![]);
    assert!(matches!(a, Action::Finished));
    assert!(pass.is_finished());
    assert!(!pass.expects(&Event::Patched(Ok(()))));
}
