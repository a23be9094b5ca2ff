use std::cmp::Ordering;
use vault_injector::selector::{ChangeWitness, ResourceKind, Selector, Timestamp};

fn secret(name: &str, ns: Option<&str>) -> Selector {
    Selector::new(ResourceKind::Secret, name.to_string(), ns.map(|s| s.to_string()))
}

#[test]
fn selectors_equal_iff_kind_name_namespace_agree() {
    assert!(secret("db", Some("prod")) == secret("db", Some("prod")));
    assert!(secret("db", Some("prod")) != secret("db", Some("dev")));
    assert!(secret("db", None) != secret("db", Some("prod")));
    let dep = Selector::new(ResourceKind::Deployment, "db".to_string(), Some("prod".to_string()));
    assert!(secret("db", Some("prod")) != dep);
}

#[test]
fn selectors_order_by_namespace_then_name() {
    assert_eq!(secret("z", Some("a")).compare(&secret("a", Some("b"))), Ordering::Less);
    assert_eq!(secret("b", Some("a")).compare(&secret("a", Some("a"))), Ordering::Greater);
    assert_eq!(secret("x", None).compare(&secret("a", Some("a"))), Ordering::Less);
    assert_eq!(secret("ab", Some("n")).compare(&secret("abc", Some("n"))), Ordering::Less);
    assert_eq!(secret("db", Some("n")).compare(&secret("db", Some("n"))), Ordering::Equal);
    assert_eq!(secret("db", Some("n")).partial_cmp(&secret("db", Some("m"))), Some(Ordering::Greater));
}

#[test]
fn selector_accessors_and_description() {
    let s = secret("db", Some("prod"));
    assert_eq!(s.name(), "db");
    assert_eq!(s.namespace(), Some("prod".to_string()));
    assert_eq!(s.kind(), ResourceKind::Secret);
    assert_eq!(s.describe(), "Secret db/prod");
    assert_eq!(secret("db", None).describe(), "Secret db");
}

#[test]
fn last_update_is_latest_time() {
    let t = |secs: i64, nanos: u32| Some(Timestamp { secs, nanos });
    let times = vec![t(10, 0), None, t(30, 5), t(30, 1), t(20, 0)];
    assert_eq!(
        Selector::get_last_update(&times),
        ChangeWitness::Stamped { at: Timestamp { secs: 30, nanos: 5 } }
    );
    assert_eq!(Selector::get_last_update(&vec![]), ChangeWitness::Unstamped);
    assert_eq!(Selector::get_last_update(&vec![None, None]), ChangeWitness::Unstamped);
}
