use std::path::PathBuf;

use plugin_kernel::app_error::AppError;
use plugin_kernel::contributions::{ContributionRegistry, ContributionSnapshotItem};
use plugin_kernel::discovery::DiscoveryIssue;
use plugin_kernel::ids::{CommandId, ContributionPointId, PluginId, Version};
use plugin_kernel::kernel::Kernel;
use plugin_kernel::manifest::{DiscoveredPlugin, Manifest};
use plugin_kernel::panel::{
    contributions_at, contributions_for, resolve_view, ContributionDto, KernelSnapshotDto,
};
use plugin_kernel::plugin::{
    ActivationScope, CommandSpec, Contribution, HealthStatus, PluginDescriptor, ViewSpec,
};
use plugin_kernel::supervisor::CascadePolicy;

type K = Kernel<String, u32, u8>;

fn pid(s: &str) -> PluginId {
    PluginId::new(s).unwrap()
}

fn item(point: &str, plugin: &str, key: &str) -> ContributionSnapshotItem {
    ContributionSnapshotItem {
        point: ContributionPointId::new(point).unwrap(),
        plugin: pid(plugin),
        key: String::from(key),
    }
}

fn keys(ds: &[ContributionDto]) -> Vec<String> {
    ds.iter().map(|d| format!("{}/{}/{}", d.point, d.plugin, d.key)).collect()
}

#[test]
fn contributions_filtered_by_point_keep_their_order() {
    let items = vec![
        item("commands", "eq", "eq.reset"),
        item("ui.sidebar", "lyrics", "lyrics.panel"),
        item("commands", "recent", "recent.clear"),
    ];
    let all = contributions_at(&items, None);
    assert_eq!(
        keys(&all),
        vec!["commands/eq/eq.reset", "ui.sidebar/lyrics/lyrics.panel", "commands/recent/recent.clear"]
    );
    let point = ContributionPointId::new("commands").unwrap();
    let some = contributions_at(&items, Some(&point));
    assert_eq!(keys(&some), vec!["commands/eq/eq.reset", "commands/recent/recent.clear"]);
    let none = contributions_for(&items, Some("menus")).unwrap();
    assert!(none.is_empty());
}

#[test]
fn invalid_point_is_a_command_error() {
    let items = vec![item("commands", "eq", "eq.reset")];
    match contributions_for(&items, Some("a.b.c")) {
        Err(AppError::Command(message)) => assert!(!message.is_empty()),
        other => panic!("unexpected {:?}", other.map(|v| v.len())),
    }
    assert!(matches!(contributions_for(&items, Some("")), Err(AppError::Command(_))));
    assert_eq!(contributions_for(&items, None).unwrap().len(), 1);
}

#[test]
fn issue_line_joins_path_and_message() {
    let issue = DiscoveryIssue {
        path: PathBuf::from("/plugins/broken"),
        plugin: None,
        message: String::from("plugin.json is missing"),
    };
    assert_eq!(issue.line(), "/plugins/broken: plugin.json is missing");
}

#[test]
fn health_names_are_debug_names() {
    assert_eq!(HealthStatus::Healthy.name(), "Healthy");
    assert_eq!(HealthStatus::Degraded.name(), "Degraded");
    assert_eq!(HealthStatus::Unhealthy.name(), "Unhealthy");
}

#[test]
fn kernel_snapshot_lists_plugins_contributions_and_issues() {
    let mut k = K::new(Version::new(0, 3, 0), CascadePolicy::IsolateOnly);
    let found: Vec<DiscoveredPlugin> = ["a", "b"]
        .iter()
        .map(|id| DiscoveredPlugin {
            manifest: Manifest::builtin(pid(id), Version::new(1, 2, 3), Version::new(0, 1, 0)),
            root: PathBuf::from(format!("/plugins/{id}")),
        })
        .collect();
    let issue = DiscoveryIssue {
        path: PathBuf::from("/plugins/x"),
        plugin: Some(String::from("x")),
        message: String::from("bad manifest"),
    };
    k.take_discovery(found, vec![issue]);
    let p = pid("a");
    k.table.ensure_resolved(&p).unwrap();
    let d = PluginDescriptor::new(pid("a"), Version::new(1, 2, 3), Version::new(0, 1, 0));
    assert!(k.table.install_instance(&p, d, String::from("instance-a")).unwrap());
    k.start_activation(&p).unwrap();
    let mut scope = ActivationScope::new();
    scope.contribute(Contribution::Command(CommandSpec {
        id: CommandId::new("a.go").unwrap(),
        title: String::from("Go"),
        category: None,
        input_schema: None,
    }));
    k.finish_activation(&p, Ok(scope)).0.unwrap();

    let snapshot = k.diagnostics();
    let dto = KernelSnapshotDto::of(&snapshot, &k.table);
    assert_eq!(dto.host_version, "0.3.0");
    assert_eq!(dto.plugins.len(), 2);
    let a = &dto.plugins[0];
    assert_eq!(a.id, "a");
    assert_eq!(a.version, "1.2.3");
    assert_eq!(a.source, "builtin");
    assert_eq!(a.tier, "feature");
    assert_eq!(a.state, "active");
    assert_eq!(a.health, "Degraded");
    assert!(a.active);
    assert_eq!(a.last_error, None);
    let b = &dto.plugins[1];
    assert_eq!(b.id, "b");
    assert_eq!(b.state, "discovered");
    assert!(!b.active);
    assert_eq!(keys(&dto.contributions), vec!["ui.command/a/a.go"]);
    assert_eq!(dto.issues, vec!["/plugins/x: bad manifest"]);
}

#[test]
fn plugin_view_resolves_to_its_page() {
    let mut registry = ContributionRegistry::new();
    let view = |id: &str, entry: &str| {
        Contribution::View(ViewSpec {
            id: String::from(id),
            title: format!("Title {id}"),
            entry: String::from(entry),
            icon: None,
        })
    };
    registry.apply(&pid("lyrics"), vec![view("lyrics.panel", "index.html"), view("lyrics.full", "full.html")]);
    let items = registry.rich_snapshot();
    let v = resolve_view(&items, "lyrics", "lyrics.full").unwrap();
    assert_eq!(v.plugin_id, "lyrics");
    assert_eq!(v.view_id, "lyrics.full");
    assert_eq!(v.title, "Title lyrics.full");
    assert_eq!(v.entry_url, "plugin://lyrics/full.html");
    assert!(resolve_view(&items, "lyrics", "lyrics.other").is_none());
    assert!(resolve_view(&items, "eq", "lyrics.panel").is_none());
}
