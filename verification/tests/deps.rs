use plugin_kernel::deps::{declared_providers, insert_sorted, join_ids, DependencyGraph};
use plugin_kernel::error::ErrorCode;
use plugin_kernel::ids::{PluginId, Version};
use plugin_kernel::manifest::{DependencySpec, DiscoveredPlugin, Manifest};

fn pid(s: &str) -> PluginId {
    PluginId::new(s).unwrap()
}

fn manifest(id: &str, version: (u32, u32, u32), deps: Vec<DependencySpec>) -> Manifest {
    let mut m = Manifest::builtin(pid(id), Version::new(version.0, version.1, version.2), Version::new(0, 1, 0));
    m.dependencies = deps;
    m
}

fn ids(v: &[PluginId]) -> Vec<String> {
    v.iter().map(|p| p.to_string()).collect()
}

/// a; b needs a; c needs b; d uses a optionally.
fn sample() -> DependencyGraph {
    let mut g = DependencyGraph::new();
    g.add(&manifest("a", (1, 0, 0), vec![]));
    g.add(&manifest("b", (1, 0, 0), vec![DependencySpec::required(pid("a"))]));
    g.add(&manifest("c", (1, 0, 0), vec![DependencySpec::required(pid("b"))]));
    g.add(&manifest("d", (1, 0, 0), vec![DependencySpec::optional(pid("a"))]));
    g
}

#[test]
fn activation_order_puts_dependencies_first() {
    let g = sample();
    let order = g.activation_order(&[pid("c")]).unwrap();
    assert_eq!(ids(&order), vec!["a", "b", "c"]);
    let order = g.activation_order(&[pid("d"), pid("b")]).unwrap();
    assert_eq!(ids(&order), vec!["a", "b", "d"]);
}

#[test]
fn deactivation_order_reverses_activation() {
    let g = sample();
    assert_eq!(ids(&g.deactivation_order(&[pid("c")])), vec!["c", "b", "a"]);
}

#[test]
fn dependents_include_optional_users_sorted() {
    let g = sample();
    assert_eq!(ids(&g.dependents_of(&pid("a"))), vec!["b", "d"]);
    assert!(g.dependents_of(&pid("c")).is_empty());
}

#[test]
fn unload_impact_lists_users_before_provider() {
    let g = sample();
    assert_eq!(ids(&g.unload_impact(&pid("b"))), vec!["c", "b"]);
    let impact = ids(&g.unload_impact(&pid("a")));
    assert_eq!(impact.len(), 4);
    assert_eq!(impact.last().unwrap(), "a");
    let pos = |s: &str| impact.iter().position(|x| x == s).unwrap();
    assert!(pos("c") < pos("b"));
    assert!(pos("d") < pos("a"));
}

#[test]
fn unload_impact_puts_every_dependent_before_its_dependencies() {
    let mut g = DependencyGraph::new();
    g.add(&manifest("a", (1, 0, 0), vec![]));
    g.add(&manifest(
        "x",
        (1, 0, 0),
        vec![DependencySpec::required(pid("a")), DependencySpec::required(pid("y"))],
    ));
    g.add(&manifest("y", (1, 0, 0), vec![DependencySpec::required(pid("a"))]));
    assert_eq!(ids(&g.unload_impact(&pid("a"))), vec!["x", "y", "a"]);
}

#[test]
fn deactivation_order_without_plan_keeps_target_order() {
    let mut g = DependencyGraph::new();
    g.add(&manifest("m", (1, 0, 0), vec![DependencySpec::required(pid("gone"))]));
    g.add(&manifest("n", (1, 0, 0), vec![]));
    assert_eq!(ids(&g.deactivation_order(&[pid("m"), pid("n")])), vec!["m", "n"]);
}

#[test]
fn missing_dependency_is_reported() {
    let mut g = DependencyGraph::new();
    g.add(&manifest("x", (1, 0, 0), vec![DependencySpec::required(pid("zz")), DependencySpec::required(pid("yy"))]));
    assert_eq!(ids(&g.missing_dependencies(&pid("x"))), vec!["yy", "zz"]);
    let e = g.activation_order(&[pid("x")]).unwrap_err();
    assert_eq!(e.code(), ErrorCode::DependencyMissing);
    assert_eq!(e.message(), "plugin 'x' depends on 'yy', which is not installed");
    assert_eq!(ids(&g.deactivation_order(&[pid("x")])), vec!["x"]);
}

#[test]
fn version_conflict_is_reported() {
    let mut g = DependencyGraph::new();
    g.add(&manifest("base", (1, 2, 0), vec![]));
    let mut dep = DependencySpec::required(pid("base"));
    dep.min_version = Some(Version::new(2, 0, 0));
    g.add(&manifest("top", (1, 0, 0), vec![dep]));
    let conflicts = g.version_conflicts(&pid("top"));
    assert_eq!(conflicts.len(), 1);
    assert_eq!(conflicts[0].0.as_str(), "base");
    assert!(conflicts[0].1.same(&Version::new(2, 0, 0)));
    assert!(conflicts[0].2.same(&Version::new(1, 2, 0)));
    let e = g.activation_order(&[pid("top")]).unwrap_err();
    assert_eq!(e.message(), "plugin 'top' needs 'base' >= 2.0.0, but 1.2.0 is installed");
}

#[test]
fn cycle_is_reported() {
    let mut g = DependencyGraph::new();
    g.add(&manifest("p", (1, 0, 0), vec![DependencySpec::required(pid("q"))]));
    g.add(&manifest("q", (1, 0, 0), vec![DependencySpec::required(pid("p"))]));
    let e = g.activation_order(&[pid("p")]).unwrap_err();
    assert_eq!(e.code(), ErrorCode::InvalidArgument);
    assert_eq!(e.message(), "dependency cycle detected among: p, q");
    assert_eq!(ids(&g.deactivation_order(&[pid("p")])), vec!["p"]);
}

#[test]
fn build_from_discovered() {
    let found = vec![
        DiscoveredPlugin { manifest: manifest("a", (1, 0, 0), vec![]), root: std::path::PathBuf::from("/x/a") },
        DiscoveredPlugin {
            manifest: manifest("b", (1, 0, 0), vec![DependencySpec::required(pid("a"))]),
            root: std::path::PathBuf::from("/x/b"),
        },
    ];
    let g = DependencyGraph::build(&found);
    assert_eq!(ids(&g.activation_order(&[pid("b")]).unwrap()), vec!["a", "b"]);
}

#[test]
fn helpers() {
    let m = manifest("m", (1, 0, 0), vec![DependencySpec::required(pid("z")), DependencySpec::optional(pid("a"))]);
    assert_eq!(ids(&declared_providers(&m)), vec!["z", "a"]);
    let mut v = vec![pid("a"), pid("c")];
    insert_sorted(&mut v, pid("b"));
    insert_sorted(&mut v, pid("b"));
    assert_eq!(ids(&v), vec!["a", "b", "c"]);
    assert_eq!(join_ids(&v, ", "), "a, b, c");
}
