use std::path::PathBuf;

use plugin_kernel::discovery::{
    dedupe, order_by_root, settle_discovery, settle_found, split_builtin, BuiltinLocator, DirectoryLocator,
    DiscoveryIssue, DiscoveryReport,
};
use plugin_kernel::ids::{PluginId, Version};
use plugin_kernel::loader::{builtin_marker, candidate_names};
use plugin_kernel::manifest::{DiscoveredPlugin, Manifest, PluginSource};

fn pid(s: &str) -> PluginId {
    PluginId::new(s).unwrap()
}

fn item(id: &str, root: &str) -> DiscoveredPlugin {
    DiscoveredPlugin {
        manifest: Manifest::builtin(pid(id), Version::new(1, 0, 0), Version::new(0, 1, 0)),
        root: PathBuf::from(root),
    }
}

fn roots(v: &[DiscoveredPlugin]) -> Vec<String> {
    v.iter().map(|d| d.root.to_string_lossy().into_owned()).collect()
}

#[test]
fn dedupe_keeps_first_of_each_id() {
    let mut report = DiscoveryReport {
        found: vec![item("a", "/1"), item("b", "/2"), item("a", "/3")],
        issues: vec![],
    };
    dedupe(&mut report);
    assert_eq!(roots(&report.found), vec!["/1", "/2"]);
    assert_eq!(report.issues.len(), 1);
    assert_eq!(report.issues[0].path, PathBuf::from("/3"));
    assert_eq!(report.issues[0].plugin.as_deref(), Some("a"));
    assert_eq!(report.issues[0].message, "duplicate plugin id 'a'; the earlier one wins");
}

#[test]
fn builtin_wins_over_other_sources() {
    let builtins = vec![item("eq", "builtin://eq"), item("eq", "builtin://eq2")];
    let others = vec![item("eq", "/user/eq"), item("x", "/user/x"), item("x", "/user/x2")];
    let mut report = DiscoveryReport::default();
    settle_discovery(&mut report, builtins, others, &Version::new(0, 3, 0));
    assert_eq!(roots(&report.found), vec!["builtin://eq", "/user/x"]);
    let messages: Vec<String> = report.issues.iter().map(|i| i.message.clone()).collect();
    assert_eq!(
        messages,
        vec![
            "duplicate builtin plugin id 'eq'; the first one wins",
            "duplicate plugin id 'eq'; the earlier one wins",
            "duplicate plugin id 'x'; the earlier one wins",
        ]
    );
}

#[test]
fn invalid_manifests_are_reported() {
    let mut bad = item("bad", "/user/bad");
    bad.manifest.min_host = Version::new(9, 0, 0);
    let mut report = DiscoveryReport::default();
    settle_discovery(&mut report, vec![], vec![bad, item("ok", "/user/ok")], &Version::new(0, 3, 0));
    assert_eq!(roots(&report.found), vec!["/user/ok"]);
    assert_eq!(
        report.issues[0].message,
        "[Incompatible] plugin 'bad' requires host >= 9.0.0 but host is 0.3.0"
    );
}

#[test]
fn split_and_order() {
    let found = vec![item("b", "/z"), item("eq", "/y"), item("c", "/x")];
    let (builtin, other) = split_builtin(found, &vec![pid("eq")]);
    assert_eq!(roots(&builtin), vec!["/y"]);
    assert_eq!(roots(&other), vec!["/z", "/x"]);
    let mut items = other;
    order_by_root(&mut items);
    assert_eq!(roots(&items), vec!["/x", "/z"]);
}

#[test]
fn report_merge_and_ids() {
    let mut a = DiscoveryReport { found: vec![item("a", "/a")], issues: vec![] };
    let issue = DiscoveryIssue { path: PathBuf::from("/q"), plugin: None, message: String::from("m") };
    a.merge(DiscoveryReport { found: vec![item("b", "/b")], issues: vec![issue.duplicate()] });
    assert_eq!(a.ids(), vec!["a", "b"]);
    assert_eq!(a.issues[0].message, "m");
}

#[test]
fn locators() {
    let b = BuiltinLocator::new().register(item("eq", "x").manifest, builtin_marker(&pid("eq")));
    assert_eq!(b.entries().len(), 1);
    assert_eq!(b.entries()[0].1, PathBuf::from("builtin://eq"));
    let d = DirectoryLocator::new(PathBuf::from("/plugins"), PluginSource::User);
    assert_eq!(d.name(), "user-directory");
    assert_eq!(d.source(), PluginSource::User);
    assert_eq!(d.root(), &PathBuf::from("/plugins"));
}

#[test]
fn library_file_names() {
    assert_eq!(candidate_names("eq", ".so"), vec!["eq.so", "libeq.so", "eq", "libeq"]);
}

#[test]
fn builtin_locator_sorts_by_validity() {
    let mut bad = item("bad", "x").manifest;
    bad.abi = 9;
    let locator = BuiltinLocator::new()
        .register(item("good", "x").manifest, PathBuf::from("builtin://good"))
        .register(bad, PathBuf::from("builtin://bad"));
    let report = locator.locate(&Version::new(0, 3, 0));
    assert_eq!(roots(&report.found), vec!["builtin://good"]);
    assert_eq!(report.found[0].manifest.id.as_str(), "good");
    assert_eq!(report.issues.len(), 1);
    assert_eq!(report.issues[0].path, PathBuf::from("builtin://bad"));
    assert_eq!(report.issues[0].plugin.as_deref(), Some("bad"));
    assert_eq!(report.issues[0].message, "[Incompatible] plugin 'bad' was built against ABI 9 but host is ABI 2");
}

#[test]
fn directory_decides_the_source() {
    let user = DirectoryLocator::new(PathBuf::from("/p"), PluginSource::User);
    let mut m = item("p", "x").manifest;
    m.entry = String::from("libp");
    let found = user.accept_manifest(m, PathBuf::from("/p/p"), &Version::new(0, 3, 0)).unwrap();
    assert_eq!(found.manifest.source, PluginSource::User);
    assert_eq!(found.root, PathBuf::from("/p/p"));
    // a user plugin needs an entry, whatever its file claims to be
    let no_entry = item("q", "x").manifest;
    let issue = user.accept_manifest(no_entry, PathBuf::from("/p/q"), &Version::new(0, 3, 0)).unwrap_err();
    assert_eq!(issue.plugin, None);
    assert_eq!(
        issue.message,
        "[InvalidArgument] plugin 'q' has an empty 'entry'; dynamic plugins need a library base name"
    );
}

#[test]
fn manifest_copies_are_alike() {
    let mut m = item("m", "x").manifest;
    m.capabilities.push(plugin_kernel::ids::Capability::new("a.b").unwrap());
    let copy = m.duplicate();
    assert_eq!(copy.id.as_str(), "m");
    assert_eq!(copy.capabilities.len(), 1);
    assert_eq!(copy.budget, m.budget);
}

#[test]
fn disk_copy_never_displaces_the_builtin() {
    let mut disk = item("eq", "/plugins/eq");
    disk.manifest.source = PluginSource::User;
    let builtin = item("eq", "builtin://eq");
    let (b, o) = split_builtin(vec![disk, builtin], &vec![pid("eq")]);
    assert_eq!(roots(&b), vec!["builtin://eq"]);
    assert_eq!(roots(&o), vec!["/plugins/eq"]);
    let mut report = DiscoveryReport::default();
    settle_discovery(&mut report, b, o, &Version::new(0, 3, 0));
    assert_eq!(roots(&report.found), vec!["builtin://eq"]);
    assert_eq!(report.issues.len(), 1);
    assert_eq!(report.issues[0].path, PathBuf::from("/plugins/eq"));
    assert_eq!(report.issues[0].message, "duplicate plugin id 'eq'; the earlier one wins");
}

#[test]
fn host_builtin_wins_over_builtin_directory_copy() {
    let copy = item("eq", "/builtin-dir/eq");
    let user = item("zeta", "/plugins/zeta");
    let mut report = DiscoveryReport { found: vec![copy, user], issues: vec![] };
    let own = item("eq", "x").manifest;
    settle_found(&mut report, vec![own], &Version::new(0, 3, 0));
    assert_eq!(roots(&report.found), vec!["builtin://eq", "/plugins/zeta"]);
    assert_eq!(report.issues.len(), 1);
    assert_eq!(report.issues[0].path, PathBuf::from("/builtin-dir/eq"));
    assert_eq!(report.issues[0].message, "duplicate builtin plugin id 'eq'; the first one wins");
}
