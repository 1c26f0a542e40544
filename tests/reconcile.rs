use subhook::diff::{contains_name, diff_subdomains, set_difference};
use subhook::notify::{notification_text, notify_step, webhook_endpoint, NotifyStep};
use subhook::reconcile::reconcile;
use subhook::store::{Store, StoreError};

fn strings(v: &[&str]) -> Vec<String> {
    v.iter().map(|s| s.to_string()).collect()
}

fn sorted(mut v: Vec<String>) -> Vec<String> {
    v.sort();
    v
}

fn store_with(domain: &str, active: &[&str], inactive: &[&str]) -> Store {
    let mut store = Store::new();
    let d = domain.to_string();
    store.insert_domain(&d);
    store.upsert_subdomains(&d, &strings(active), true).unwrap();
    store.upsert_subdomains(&d, &strings(inactive), false).unwrap();
    store
}

#[test]
fn first_seen_domain() {
    let mut store = Store::new();
    let d = "example.com".to_string();
    let fetched = strings(&["a.example.com", "b.example.com"]);
    let r = reconcile(&mut store, &d, &fetched);
    assert!(r.domain_was_new);
    assert_eq!(sorted(r.added.clone()), fetched);
    assert!(r.removed.is_empty());
    assert!(store.domain_exists(&d));
    for n in &fetched {
        assert_eq!(store.subdomain_status(&d, n), Some(true));
    }
    match notify_step(&"slack".to_string(), &"https://hooks.example".to_string(), &d, &r.added, false) {
        NotifyStep::Send { endpoint, text } => {
            assert_eq!(endpoint, "https://hooks.example");
            let expected_a = "New subdomains for example.com:\n+ a.example.com\n+ b.example.com\n";
            let expected_b = "New subdomains for example.com:\n+ b.example.com\n+ a.example.com\n";
            assert!(text == expected_a || text == expected_b);
        }
        other => panic!("expected a notification, got {:?}", other),
    }
}

#[test]
fn reappearance_is_not_new() {
    for active in [true, false] {
        let mut store = if active {
            store_with("example.com", &["a.example.com"], &[])
        } else {
            store_with("example.com", &[], &["a.example.com"])
        };
        let d = "example.com".to_string();
        let r = reconcile(&mut store, &d, &strings(&["a.example.com"]));
        assert!(!r.domain_was_new);
        assert!(r.added.is_empty());
        assert!(r.removed.is_empty());
        assert_eq!(store.subdomain_status(&d, &"a.example.com".to_string()), Some(true));
        let step = notify_step(&"slack".to_string(), &"https://h".to_string(), &d, &r.added, false);
        assert!(matches!(step, NotifyStep::Quiet));
    }
}

#[test]
fn disappearance_marks_inactive() {
    let mut store = store_with("example.com", &["a.example.com", "b.example.com"], &[]);
    let d = "example.com".to_string();
    let r = reconcile(&mut store, &d, &strings(&["a.example.com"]));
    assert!(r.added.is_empty());
    assert_eq!(r.removed, strings(&["b.example.com"]));
    assert_eq!(store.subdomain_status(&d, &"a.example.com".to_string()), Some(true));
    assert_eq!(store.subdomain_status(&d, &"b.example.com".to_string()), Some(false));
    assert_eq!(
        sorted(store.subdomains_for(&d)),
        strings(&["a.example.com", "b.example.com"])
    );
    let step = notify_step(&"discord".to_string(), &"https://h".to_string(), &d, &r.added, false);
    assert!(matches!(step, NotifyStep::Quiet));
}

#[test]
fn unknown_platform_halts() {
    let added = strings(&["a.example.com"]);
    let d = "example.com".to_string();
    let step = notify_step(&"teams".to_string(), &"https://h".to_string(), &d, &added, false);
    assert!(matches!(step, NotifyStep::Halt));
    let step = notify_step(&"teams".to_string(), &"https://h".to_string(), &d, &Vec::new(), true);
    assert!(matches!(step, NotifyStep::Halt));
    assert_eq!(webhook_endpoint(&"teams".to_string(), &"https://h".to_string()), None);
}

#[test]
fn diff_partitions_the_union() {
    let known = strings(&["a", "b", "c"]);
    let fetched = strings(&["b", "c", "d", "e"]);
    let (added, removed) = diff_subdomains(&known, &fetched);
    assert_eq!(sorted(added.clone()), strings(&["d", "e"]));
    assert_eq!(removed, strings(&["a"]));
    for n in &added {
        assert!(!contains_name(&removed, n));
    }
    let mut all = added.clone();
    all.extend(removed.clone());
    all.extend(strings(&["b", "c"]));
    assert_eq!(sorted(all), strings(&["a", "b", "c", "d", "e"]));
}

#[test]
fn diff_of_duplicates_lists_each_name_once() {
    let (added, removed) = diff_subdomains(&strings(&["x", "x"]), &strings(&["y", "y", "z"]));
    assert_eq!(added, strings(&["y", "z"]));
    assert_eq!(removed, strings(&["x"]));
}

#[test]
fn empty_fetch_removes_everything() {
    let mut store = store_with("example.com", &["a.example.com"], &["b.example.com"]);
    let d = "example.com".to_string();
    let r = reconcile(&mut store, &d, &Vec::new());
    assert!(r.added.is_empty());
    assert_eq!(sorted(r.removed), strings(&["a.example.com", "b.example.com"]));
    assert_eq!(store.subdomain_status(&d, &"a.example.com".to_string()), Some(false));
}

#[test]
fn second_reconcile_is_quiet() {
    let mut store = store_with("example.com", &["a.example.com"], &[]);
    let d = "example.com".to_string();
    let fetched = strings(&["a.example.com", "c.example.com"]);
    let first = reconcile(&mut store, &d, &fetched);
    assert_eq!(first.added, strings(&["c.example.com"]));
    let second = reconcile(&mut store, &d, &fetched);
    assert!(second.added.is_empty());
    assert!(second.removed.is_empty());
}

#[test]
fn second_reconcile_repeats_old_removals_only() {
    let mut store = store_with("example.com", &["a.example.com", "b.example.com"], &[]);
    let d = "example.com".to_string();
    let fetched = strings(&["a.example.com"]);
    let first = reconcile(&mut store, &d, &fetched);
    let second = reconcile(&mut store, &d, &fetched);
    assert!(second.added.is_empty());
    assert_eq!(second.removed, first.removed);
    assert_eq!(store.subdomain_status(&d, &"b.example.com".to_string()), Some(false));
}

#[test]
fn upsert_round_trip() {
    let mut store = Store::new();
    let d = "example.com".to_string();
    store.insert_domain(&d);
    store.upsert_subdomains(&d, &strings(&["a", "b"]), true).unwrap();
    store.upsert_subdomains(&d, &strings(&["c"]), false).unwrap();
    assert_eq!(sorted(store.subdomains_for(&d)), strings(&["a", "b", "c"]));
    assert_eq!(store.subdomain_status(&d, &"a".to_string()), Some(true));
    assert_eq!(store.subdomain_status(&d, &"b".to_string()), Some(true));
    assert_eq!(store.subdomain_status(&d, &"c".to_string()), Some(false));
    assert_eq!(store.subdomain_status(&d, &"z".to_string()), None);
    store.upsert_subdomains(&d, &strings(&["a"]), false).unwrap();
    assert_eq!(store.subdomain_status(&d, &"a".to_string()), Some(false));
    assert_eq!(store.subdomains_for(&d).len(), 3);
}

#[test]
fn upsert_under_unknown_domain_fails() {
    let mut store = Store::new();
    let r = store.upsert_subdomains(&"nowhere.org".to_string(), &strings(&["a"]), true);
    assert_eq!(r, Err(StoreError::UnknownDomain));
    assert!(store.subdomains_for(&"nowhere.org".to_string()).is_empty());
}

#[test]
fn insert_domain_twice_is_harmless() {
    let mut store = store_with("example.com", &["a"], &[]);
    let d = "example.com".to_string();
    store.insert_domain(&d);
    assert!(store.domain_exists(&d));
    assert!(!store.domain_exists(&"other.org".to_string()));
    assert_eq!(store.subdomain_status(&d, &"a".to_string()), Some(true));
}

#[test]
fn rows_are_kept_per_domain() {
    let mut store = store_with("one.org", &["www"], &[]);
    let r = reconcile(&mut store, &"two.org".to_string(), &strings(&["www"]));
    assert_eq!(r.added, strings(&["www"]));
    let r = reconcile(&mut store, &"one.org".to_string(), &Vec::new());
    assert_eq!(r.removed, strings(&["www"]));
    assert_eq!(store.subdomain_status(&"two.org".to_string(), &"www".to_string()), Some(true));
}

#[test]
fn endpoints_by_platform() {
    let url = "https://hooks.example/x".to_string();
    assert_eq!(webhook_endpoint(&"slack".to_string(), &url), Some(url.clone()));
    assert_eq!(
        webhook_endpoint(&"discord".to_string(), &url),
        Some("https://hooks.example/x/slack".to_string())
    );
    assert_eq!(webhook_endpoint(&"Slack".to_string(), &url), None);
}

#[test]
fn message_lists_each_name() {
    let text = notification_text(&"example.com".to_string(), &strings(&["a.example.com"]));
    assert_eq!(text, "New subdomains for example.com:\n+ a.example.com\n");
    let text = notification_text(&"example.com".to_string(), &Vec::new());
    assert_eq!(text, "New subdomains for example.com:\n");
}

#[test]
fn debug_notifies_even_without_additions() {
    let d = "example.com".to_string();
    match notify_step(&"discord".to_string(), &"https://h".to_string(), &d, &Vec::new(), true) {
        NotifyStep::Send { endpoint, text } => {
            assert_eq!(endpoint, "https://h/slack");
            assert_eq!(text, "New subdomains for example.com:\n");
        }
        other => panic!("expected a notification, got {:?}", other),
    }
}

#[test]
fn set_difference_keeps_first_order() {
    let r = set_difference(&strings(&["c", "a", "b", "a"]), &strings(&["b"]));
    assert_eq!(r, strings(&["c", "a"]));
}
