use vault_injector::restart::RestartManager;
use vault_injector::selector::{ResourceKind, Selector};
use vault_injector::workload::{need_restart, references_secret, Container, Workload};

fn deployment(name: &str, containers: Vec<Container>) -> Workload {
    Workload {
        id: Selector::new(ResourceKind::Deployment, name.to_string(), Some("prod".to_string())),
        containers,
    }
}

fn container(env: Vec<Option<&str>>, env_from: Vec<Option<&str>>) -> Container {
    Container {
        env: env.into_iter().map(|o| o.map(|s| s.to_string())).collect(),
        env_from: env_from.into_iter().map(|o| o.map(|s| s.to_string())).collect(),
    }
}

#[test]
fn only_workload_importing_secret_is_queued() {
    let s = Selector::new(ResourceKind::Secret, "S".to_string(), Some("prod".to_string()));
    let importer = deployment("web", vec![container(vec![], vec![Some("S")])]);
    let other = deployment("batch", vec![container(vec![None, Some("T")], vec![Some("U")])]);
    let mut m = RestartManager::new();
    m.add_linked_services(&s, &vec![importer, other]);
    let queued = m.restart();
    assert_eq!(queued.len(), 1);
    assert_eq!(queued[0].name(), "web");
}

#[test]
fn workload_queued_once_across_secrets() {
    let a = Selector::new(ResourceKind::Secret, "A".to_string(), Some("prod".to_string()));
    let b = Selector::new(ResourceKind::Secret, "B".to_string(), Some("prod".to_string()));
    let w = || deployment("web", vec![container(vec![Some("A")], vec![Some("B")])]);
    let mut m = RestartManager::new();
    m.add_linked_services(&a, &vec![w()]);
    m.add_linked_services(&b, &vec![w()]);
    m.add_linked_services(&a, &vec![w(), w()]);
    assert!(m.contains(&w().id));
    assert_eq!(m.restart().len(), 1);
}

#[test]
fn variable_reference_links_workload() {
    let w = deployment("api", vec![container(vec![], vec![]), container(vec![None, Some("db")], vec![])]);
    assert!(references_secret(&w, &"db".to_string()));
    assert!(!references_secret(&w, &"cache".to_string()));
    assert!(need_restart(&w, &"db".to_string()));
}

#[test]
fn workload_without_containers_references_nothing() {
    let w = deployment("empty", vec![]);
    assert!(!references_secret(&w, &"db".to_string()));
}

#[test]
fn only_deployments_are_restarted() {
    let w = Workload {
        id: Selector::new(ResourceKind::Secret, "x".to_string(), None),
        containers: vec![container(vec![Some("db")], vec![])],
    };
    assert!(references_secret(&w, &"db".to_string()));
    assert!(!need_restart(&w, &"db".to_string()));
}
