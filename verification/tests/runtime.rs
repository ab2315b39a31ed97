use std::any::TypeId;
use std::path::PathBuf;

use plugin_kernel::assoc::AssocList;
use plugin_kernel::error::ErrorCode;
use plugin_kernel::event::EventPattern;
use plugin_kernel::ids::{Capability, PluginId, ServiceId, Version};
use plugin_kernel::manifest::{DiscoveredPlugin, Manifest};
use plugin_kernel::order::triple_le_exec;
use plugin_kernel::plugin::{
    summarize_services, ActivationScope, DeactivateReason, PluginDescriptor, TeardownContext,
};
use plugin_kernel::runtime::{
    deactivate_reason_str, undeclared_capability_error, verify_descriptor, PluginEntry, PluginTable,
};
use plugin_kernel::service::{ServiceBinding, ServiceDescriptor};

fn pid(s: &str) -> PluginId {
    PluginId::new(s).unwrap()
}

fn cap(s: &str) -> Capability {
    Capability::new(s).unwrap()
}

fn manifest(id: &str) -> Manifest {
    Manifest::builtin(pid(id), Version::new(1, 0, 0), Version::new(0, 1, 0))
}

fn table(ms: Vec<Manifest>) -> PluginTable<u8> {
    let mut t = PluginTable::new();
    t.merge_discovered(ms.into_iter().map(|m| DiscoveredPlugin { manifest: m, root: PathBuf::from("/r") }).collect());
    t
}

#[test]
fn descriptor_must_agree_with_manifest() {
    let mut m = manifest("p");
    m.capabilities.push(cap("net.fetch"));
    let d = PluginDescriptor::new(pid("p"), Version::new(1, 0, 0), Version::new(0, 1, 0));
    assert!(verify_descriptor(&m, &d.clone().requiring(cap("net.fetch"))).is_ok());
    let e = verify_descriptor(&m, &PluginDescriptor::new(pid("q"), Version::new(1, 0, 0), Version::new(0, 1, 0))).unwrap_err();
    assert_eq!(e.code(), ErrorCode::Incompatible);
    assert_eq!(e.message(), "plugin 'p' self-reports as 'q'");
    let mut old_abi = d.clone();
    old_abi.abi = 1;
    assert_eq!(verify_descriptor(&m, &old_abi).unwrap_err().message(), "plugin 'p' was built against ABI 1, host is ABI 2");
    let e = verify_descriptor(&m, &d.requiring(cap("fs.userGranted"))).unwrap_err();
    assert_eq!(e.code(), ErrorCode::PermissionDenied);
    assert_eq!(e.message(), "plugin 'p' declares capability 'fs.userGranted' at runtime but not in its manifest");
}

#[test]
fn undeclared_runtime_capability() {
    let declared = vec![cap("a.b")];
    assert!(undeclared_capability_error(&pid("p"), &declared, &vec![cap("a.b")]).is_none());
    let e = undeclared_capability_error(&pid("p"), &declared, &vec![cap("a.b"), cap("c.d"), cap("e.f")]).unwrap();
    assert_eq!(e.message(), "plugin 'p' requested capability 'c.d' at runtime, which is not declared in its manifest");
}

#[test]
fn reason_names() {
    assert_eq!(deactivate_reason_str(DeactivateReason::UserDisabled), "userDisabled");
    assert_eq!(deactivate_reason_str(DeactivateReason::DependencyRemoved), "dependencyRemoved");
    assert!(!DeactivateReason::Uninstall.preserves_state());
    assert!(DeactivateReason::Reload.preserves_state());
    let ctx = TeardownContext::new(pid("p"), DeactivateReason::Shutdown);
    assert_eq!(ctx.plugin_id().as_str(), "p");
    assert_eq!(ctx.reason(), DeactivateReason::Shutdown);
}

#[test]
fn table_queries() {
    let core = Manifest::core_builtin(pid("core"), Version::new(1, 0, 0), Version::new(0, 1, 0));
    let mut lazy = manifest("lazy");
    lazy.activation.eager = false;
    lazy.budget.call_timeout_ms = 0;
    let t = table(vec![manifest("b"), core, lazy]);
    let installed: Vec<String> = t.installed().iter().map(|p| p.to_string()).collect();
    assert_eq!(installed, vec!["b", "core", "lazy"]);
    let eager: Vec<String> = t.eager_targets().iter().map(|p| p.to_string()).collect();
    assert_eq!(eager, vec!["b", "core"]);
    assert_eq!(t.call_timeout_of(&pid("lazy")), 1);
    assert_eq!(t.call_timeout_of(&pid("b")), 2000);
    assert_eq!(t.call_timeout_of(&pid("missing")), 2000);
    assert!(!t.is_active(&pid("b")));
    assert!(t.get(&pid("zzz")).is_none());
    let e = t.guard_user_action(&pid("core"), "disabled").unwrap_err();
    assert_eq!(e.message(), "plugin 'core' is a core plugin and cannot be disabled by the user");
    assert!(t.guard_user_action(&pid("b"), "disabled").is_ok());
    let e = t.uninstall_refusal(&pid("b"), &vec![pid("b"), pid("core")]).unwrap();
    assert_eq!(e.message(), "uninstalling 'b' would also stop core plugin 'core'; refused");
    assert!(t.uninstall_refusal(&pid("b"), &vec![pid("b")]).is_none());
}

#[test]
fn table_lifecycle_steps() {
    let mut t = table(vec![manifest("p")]);
    let p = pid("p");
    assert!(t.unload(&p).is_err());
    t.ensure_resolved(&p).unwrap();
    assert!(t.install_instance(&p, PluginDescriptor::new(pid("p"), Version::new(1, 0, 0), Version::new(0, 1, 0)), 7).unwrap());
    assert_eq!(t.begin_activation(&p).unwrap(), 7);
    t.complete_activation(&p, plugin_kernel::event::EventSubscriptions::new()).unwrap();
    assert!(t.is_active(&p));
    t.subscribe(&p, vec![EventPattern::All]).unwrap();
    let (targets, skipped) = t.dispatch_plan(&plugin_kernel::event::kinds::queue_changed());
    assert_eq!(targets.len(), 1);
    assert_eq!(skipped, 0);
    assert!(t.subscribe(&pid("nope"), vec![]).is_err());
    let e = t.unload(&p).unwrap_err();
    assert_eq!(e.message(), "plugin 'p' cannot be unloaded from state 'active'; deactivate it first");
    t.record_error(&p, "oops");
    assert_eq!(t.get(&p).unwrap().tracker.last_error(), Some("oops"));
}

#[test]
fn new_entry_starts_discovered() {
    let e: PluginEntry<u8> = PluginEntry::new(DiscoveredPlugin { manifest: manifest("x"), root: PathBuf::from("/x") });
    assert_eq!(e.tracker.state(), plugin_kernel::lifecycle::PluginState::Discovered);
    assert!(e.instance.is_none());
}

#[test]
fn activation_scope_collects() {
    let mut s: ActivationScope<u32> = ActivationScope::new();
    assert!(s.is_empty());
    let d = ServiceDescriptor::new(ServiceId::new("a.b").unwrap(), Version::new(1, 0, 0));
    s.provide(ServiceBinding::new(d, 1, TypeId::of::<u32>()));
    s.subscribe(EventPattern::All);
    assert!(!s.is_empty());
    assert_eq!(summarize_services(s.services())[0].id.as_str(), "a.b");
    let taken = s.take_services();
    assert_eq!(taken.len(), 1);
    assert!(s.services().is_empty());
    let (contribs, services, subs) = s.into_parts();
    assert!(contribs.is_empty() && services.is_empty());
    assert_eq!(subs.len(), 1);
}

#[test]
fn assoc_list_keeps_one_value_per_key() {
    let mut a: AssocList<PluginId, u32> = AssocList::new();
    a.insert(pid("x"), 1);
    a.insert(pid("y"), 2);
    a.insert(pid("x"), 3);
    assert_eq!(a.len(), 2);
    assert_eq!(a.get(&pid("x")), Some(&3));
    assert_eq!(a.remove(&pid("x")), Some(3));
    assert!(!a.contains(&pid("x")));
    assert_eq!(a.remove(&pid("x")), None);
}

#[test]
fn triple_order() {
    assert!(triple_le_exec("a", "b", "c", "a", "b", "c"));
    assert!(triple_le_exec("a", "z", "z", "b", "a", "a"));
    assert!(!triple_le_exec("a", "c", "a", "a", "b", "z"));
}

#[test]
fn load_request_only_for_resolved_plugins() {
    let mut t = table(vec![manifest("a")]);
    let e = t.load_request(&pid("zz")).unwrap_err();
    assert_eq!(e.code(), ErrorCode::NotFound);
    assert_eq!(e.message(), "plugin 'zz' is not installed");
    assert!(t.load_request(&pid("a")).unwrap().is_none());
    t.ensure_resolved(&pid("a")).unwrap();
    let (m, root) = t.load_request(&pid("a")).unwrap().unwrap();
    assert_eq!(m.id.as_str(), "a");
    assert_eq!(root, t.get(&pid("a")).unwrap().root);
}
