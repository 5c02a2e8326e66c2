use sglaz::config::{Binding, Config, DeployRecord};
use sglaz::reconcile::{
    bindings_differ, deployments_differ, rebuild_records, reconcile, switched_url,
};

fn bound(id: &str, app: &str, path: &str) -> Binding {
    Binding {
        binding_id: id.to_string(),
        app_name: app.to_string(),
        file_path: path.to_string(),
    }
}

fn record(id: &str, unit: &str, version: &str) -> DeployRecord {
    DeployRecord {
        deployment_id: id.to_string(),
        unit_name: unit.to_string(),
        version: version.to_string(),
    }
}

fn pair(a: &str, b: &str) -> (String, String) {
    (a.to_string(), b.to_string())
}

fn config_with(bindings: Vec<Binding>, deployments: Vec<DeployRecord>) -> Config {
    Config {
        server_url: "http://s".to_string(),
        token: "t".to_string(),
        client_id: "c".to_string(),
        poll_interval_secs: 15,
        bindings,
        deployments,
    }
}

#[test]
fn bindings_differ_by_id_path_or_number() {
    let a = [bound("1", "app", "/a")];
    assert!(!bindings_differ(&a, &a));
    assert!(!bindings_differ(&a, &[bound("1", "renamed", "/a")]));
    assert!(bindings_differ(&a, &[bound("2", "app", "/a")]));
    assert!(bindings_differ(&a, &[bound("1", "app", "/b")]));
    assert!(bindings_differ(&a, &[]));
    assert!(!bindings_differ(&[], &[]));
}

#[test]
fn deployments_differ_in_any_field() {
    let a = [record("1", "u", "v")];
    assert!(!deployments_differ(&a, &a));
    assert!(deployments_differ(&a, &[record("2", "u", "v")]));
    assert!(deployments_differ(&a, &[record("1", "w", "v")]));
    assert!(deployments_differ(&a, &[record("1", "u", "w")]));
    assert!(deployments_differ(&a, &[]));
}

#[test]
fn records_carry_the_known_version() {
    let old = vec![record("1", "u1", "v1"), record("2", "u2", "v2"), record("1", "u1", "v9")];
    let deployed = vec![pair("2", "v3"), pair("2", "v4")];
    let units = vec![pair("3", "u3"), pair("2", "new-unit"), pair("1", "u1")];
    assert_eq!(
        rebuild_records(&old, &deployed, &units),
        vec![record("3", "u3", ""), record("2", "new-unit", "v4"), record("1", "u1", "v9")]
    );
}

#[test]
fn reconcile_leaves_an_unchanged_config_alone() {
    let cfg = config_with(vec![bound("1", "app", "/a")], vec![record("d", "u", "v")]);
    let (after, changed) = reconcile(
        cfg.clone(),
        vec![bound("1", "app", "/a")],
        &vec![pair("d", "u")],
        &vec![],
    );
    assert!(!changed);
    assert_eq!(after, cfg);
}

#[test]
fn reconcile_adopts_a_new_name() {
    let cfg = config_with(vec![bound("1", "app", "/a"), bound("2", "b", "/b")], vec![]);
    let bindings = vec![bound("1", "app", "/a"), bound("2", "renamed", "/b")];
    let (after, changed) = reconcile(cfg, bindings.clone(), &vec![], &vec![]);
    assert!(changed);
    assert_eq!(after.bindings, bindings);
}

#[test]
fn reconcile_follows_the_server() {
    let cfg = config_with(vec![bound("1", "app", "/a")], vec![record("d", "u", "v")]);
    let bindings = vec![bound("2", "other", "/b")];
    let units = vec![pair("e", "w"), pair("d", "u")];
    let (after, changed) = reconcile(cfg.clone(), bindings.clone(), &units, &vec![]);
    assert!(changed);
    assert_eq!(after.bindings, bindings);
    assert_eq!(after.deployments, vec![record("e", "w", ""), record("d", "u", "v")]);
    assert_eq!(after.token, cfg.token);
    let (again, changed) = reconcile(after.clone(), bindings, &units, &vec![]);
    assert!(!changed);
    assert_eq!(again, after);
}

#[test]
fn reconcile_persists_after_a_deployment() {
    let cfg = config_with(vec![], vec![record("d", "u", "v")]);
    let (after, changed) = reconcile(
        cfg,
        vec![],
        &vec![pair("d", "u")],
        &vec![pair("d", "v")],
    );
    assert!(changed);
    assert_eq!(after.deployments, vec![record("d", "u", "v")]);
}

#[test]
fn a_pushed_url_is_adopted_without_slashes() {
    assert_eq!(switched_url("http://a", " http://b// "), Some("http://b".to_string()));
    assert_eq!(switched_url("http://a", "http://a/"), None);
    assert_eq!(switched_url("http://a", ""), None);
    assert_eq!(switched_url("http://a", " / "), None);
}
