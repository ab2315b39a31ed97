use std::any::TypeId;
use std::path::PathBuf;

use plugin_kernel::error::{ErrorCode, PluginError};
use plugin_kernel::event::{EventPattern, HostEvent};
use plugin_kernel::ids::{Capability, CommandId, PluginId, ServiceId, Version};
use plugin_kernel::kernel::{refused_outcomes, Kernel};
use plugin_kernel::lifecycle::PluginState;
use plugin_kernel::manifest::{DependencySpec, DiscoveredPlugin, Manifest};
use plugin_kernel::plugin::{
    ActivationScope, AudioProcessorSpec, CommandSpec, Contribution, DeactivateReason,
    PluginDescriptor,
};
use plugin_kernel::service::{ServiceBinding, ServiceDescriptor};
use plugin_kernel::supervisor::CascadePolicy;

type K = Kernel<String, u32, u8>;

fn pid(s: &str) -> PluginId {
    PluginId::new(s).unwrap()
}

fn found(m: Manifest) -> DiscoveredPlugin {
    let root = PathBuf::from(format!("/plugins/{}", m.id.as_str()));
    DiscoveredPlugin { manifest: m, root }
}

fn manifest(id: &str) -> Manifest {
    Manifest::builtin(pid(id), Version::new(1, 0, 0), Version::new(0, 1, 0))
}

fn load(k: &mut K, id: &str) {
    let p = pid(id);
    k.table.ensure_resolved(&p).unwrap();
    let d = PluginDescriptor::new(pid(id), Version::new(1, 0, 0), Version::new(0, 1, 0));
    assert!(k.table.install_instance(&p, d, format!("instance-{id}")).unwrap());
}

fn command(id: &str) -> Contribution {
    Contribution::Command(CommandSpec {
        id: CommandId::new(id).unwrap(),
        title: String::from(id),
        category: None,
        input_schema: None,
    })
}

fn activate(k: &mut K, id: &str, scope: ActivationScope<u32>) {
    let p = pid(id);
    let a = k.start_activation(&p).unwrap();
    assert_eq!(a.instance, format!("instance-{id}"));
    let (r, cascade) = k.finish_activation(&p, Ok(scope));
    r.unwrap();
    assert!(!cascade);
}

fn kernel_with(ms: Vec<Manifest>) -> K {
    let mut k = K::new(Version::new(0, 3, 0), CascadePolicy::IsolateOnly);
    k.take_discovery(ms.into_iter().map(found).collect(), vec![]);
    k
}

#[test]
fn activation_registers_contributions_and_services() {
    let mut k = kernel_with(vec![manifest("eq")]);
    assert_eq!(k.table.state_of(&pid("eq")), Some(PluginState::Discovered));
    load(&mut k, "eq");
    assert_eq!(k.table.state_of(&pid("eq")), Some(PluginState::Loaded));
    let mut scope = ActivationScope::new();
    scope.contribute(command("eq.reset"));
    let d = ServiceDescriptor::new(ServiceId::new("audio.eq").unwrap(), Version::new(1, 0, 0));
    scope.provide(ServiceBinding::new(d, 11u32, TypeId::of::<u32>()));
    scope.subscribe(EventPattern::All);
    activate(&mut k, "eq", scope);
    assert_eq!(k.table.state_of(&pid("eq")), Some(PluginState::Active));
    assert_eq!(k.command_owner(&CommandId::new("eq.reset").unwrap()).unwrap().as_str(), "eq");
    assert!(k.services.has(&ServiceId::new("audio.eq").unwrap()));
    let e = k.command_owner(&CommandId::new("none").unwrap()).unwrap_err();
    assert_eq!(e.code(), ErrorCode::NotFound);
    assert_eq!(e.message(), "no plugin handles command 'none'");
}

#[test]
fn failed_activation_rolls_back() {
    let mut k = kernel_with(vec![manifest("p")]);
    load(&mut k, "p");
    let a = k.start_activation(&pid("p")).unwrap();
    assert_eq!(a.timeout_ms, 2000);
    let (r, _) = k.finish_activation(&pid("p"), Err(PluginError::plugin(String::from("bad"))));
    assert_eq!(r.unwrap_err().message(), "bad");
    assert_eq!(k.table.state_of(&pid("p")), Some(PluginState::Failed));
    assert!(k.contributions.snapshot().is_empty());
    // a failed plugin may be activated again
    activate(&mut k, "p", ActivationScope::new());
    assert_eq!(k.table.state_of(&pid("p")), Some(PluginState::Active));
}

#[test]
fn activation_of_unknown_or_unloaded_plugin_is_refused() {
    let mut k = kernel_with(vec![manifest("p")]);
    let e = k.start_activation(&pid("ghost")).err().unwrap();
    assert_eq!(e.code(), ErrorCode::NotFound);
    assert_eq!(e.message(), "plugin 'ghost' is not installed");
    assert!(k.start_activation(&pid("p")).is_err());
}

#[test]
fn descriptor_claiming_extra_capability_is_rolled_back() {
    let mut k = kernel_with(vec![manifest("p")]);
    let p = pid("p");
    k.table.ensure_resolved(&p).unwrap();
    let d = PluginDescriptor::new(pid("p"), Version::new(1, 0, 0), Version::new(0, 1, 0))
        .requiring(Capability::new("net.fetch").unwrap());
    k.table.install_instance(&p, d, String::from("i")).unwrap();
    let e = k.start_activation(&p).err().unwrap();
    assert_eq!(e.code(), ErrorCode::PermissionDenied);
    assert_eq!(
        e.message(),
        "plugin 'p' requested capability 'net.fetch' at runtime, which is not declared in its manifest"
    );
    assert_eq!(k.table.state_of(&p), Some(PluginState::Failed));
}

#[test]
fn deactivation_withdraws_and_stops() {
    let mut k = kernel_with(vec![manifest("eq")]);
    load(&mut k, "eq");
    let mut scope = ActivationScope::new();
    scope.contribute(command("eq.reset"));
    let d = ServiceDescriptor::new(ServiceId::new("audio.eq").unwrap(), Version::new(1, 0, 0));
    scope.provide(ServiceBinding::new(d, 1u32, TypeId::of::<u32>()));
    activate(&mut k, "eq", scope);
    let d = k.start_deactivation(&pid("eq"), DeactivateReason::UserDisabled).unwrap().unwrap();
    assert_eq!(d.from, PluginState::Active);
    assert_eq!(d.revoked.len(), 1);
    assert!(!k.services.has(&ServiceId::new("audio.eq").unwrap()));
    assert!(k.command_owner(&CommandId::new("eq.reset").unwrap()).is_err());
    k.end_deactivation(&pid("eq"), &Ok(()), DeactivateReason::UserDisabled);
    assert_eq!(k.table.state_of(&pid("eq")), Some(PluginState::Stopped));
    assert_eq!(k.unload(&pid("eq")).unwrap(), PluginState::Stopped);
    assert_eq!(k.table.state_of(&pid("eq")), Some(PluginState::Unloaded));
}

#[test]
fn deactivating_an_idle_plugin_has_nothing_to_do() {
    let mut k = kernel_with(vec![manifest("p")]);
    load(&mut k, "p");
    assert!(k.start_deactivation(&pid("p"), DeactivateReason::Shutdown).unwrap().is_none());
}

#[test]
fn dispatch_skips_the_source_plugin() {
    let mut k = kernel_with(vec![manifest("a"), manifest("b"), manifest("c")]);
    for id in ["a", "b", "c"] {
        load(&mut k, id);
    }
    let mut sa = ActivationScope::new();
    sa.subscribe(EventPattern::All);
    activate(&mut k, "a", sa);
    let mut sb = ActivationScope::new();
    sb.subscribe(EventPattern::prefix("track."));
    activate(&mut k, "b", sb);
    activate(&mut k, "c", ActivationScope::new());
    let kind = plugin_kernel::event::kinds::track_changed();
    let (targets, skipped) = k.dispatch_plan(&HostEvent::host(kind.clone(), serde_json::Value::Null, 1));
    let ids: Vec<String> = targets.iter().map(|(p, _)| p.to_string()).collect();
    assert_eq!(ids, vec!["a", "b"]);
    assert_eq!(skipped, 1);
    let (targets, _) = k.dispatch_plan(&HostEvent::from_plugin(kind, serde_json::Value::Null, 2, pid("a")));
    let ids: Vec<String> = targets.iter().map(|(p, _)| p.to_string()).collect();
    assert_eq!(ids, vec!["b"]);
}

#[test]
fn uninstall_plan_refuses_core() {
    let core = Manifest::core_builtin(pid("core"), Version::new(1, 0, 0), Version::new(0, 1, 0));
    let mut user = manifest("user");
    user.dependencies.push(DependencySpec::required(pid("base")));
    let mut top = Manifest::core_builtin(pid("top"), Version::new(1, 0, 0), Version::new(0, 1, 0));
    top.dependencies.push(DependencySpec::required(pid("base")));
    let k = kernel_with(vec![core, manifest("base"), user, top]);
    let e = k.uninstall_plan(&pid("core")).unwrap_err();
    assert_eq!(e.code(), ErrorCode::PermissionDenied);
    assert_eq!(e.message(), "plugin 'core' is a core plugin and cannot be uninstalled by the user");
    let e = k.uninstall_plan(&pid("base")).unwrap_err();
    assert_eq!(e.message(), "uninstalling 'base' would also stop core plugin 'top'; refused");
    let plan: Vec<String> = k.uninstall_plan(&pid("user")).unwrap().iter().map(|p| p.to_string()).collect();
    assert_eq!(plan, vec!["user"]);
}

#[test]
fn eager_plan_and_shutdown_order() {
    let mut b = manifest("b");
    b.dependencies.push(DependencySpec::required(pid("a")));
    let k = kernel_with(vec![b, manifest("a")]);
    let plan: Vec<String> = k.activation_plan().unwrap().iter().map(|p| p.to_string()).collect();
    assert_eq!(plan, vec!["a", "b"]);
    let stop: Vec<String> = k.shutdown_order().iter().map(|p| p.to_string()).collect();
    assert_eq!(stop, vec!["b", "a"]);
}

#[test]
fn eager_plan_reports_missing_dependency() {
    let mut b = manifest("b");
    b.dependencies.push(DependencySpec::required(pid("zz")));
    let k = kernel_with(vec![b]);
    let (targets, e) = k.activation_plan().unwrap_err();
    assert_eq!(targets.len(), 1);
    assert_eq!(e.message(), "plugin 'b' depends on 'zz', which is not installed");
    let outcomes = refused_outcomes(&targets, &e);
    assert_eq!(outcomes[0].state, PluginState::Failed);
    assert_eq!(outcomes[0].error.as_deref(), Some("[DependencyMissing] plugin 'b' depends on 'zz', which is not installed"));
}

#[test]
fn active_processors_only_of_active_plugins() {
    let mut k = kernel_with(vec![manifest("a"), manifest("b")]);
    load(&mut k, "a");
    load(&mut k, "b");
    let proc_of = |id: &str, order: i32| {
        let mut s = ActivationScope::new();
        s.contribute(Contribution::AudioProcessor(AudioProcessorSpec { id: String::from(id), order, budget_us: 10 }));
        s
    };
    activate(&mut k, "a", proc_of("a.proc", 5));
    activate(&mut k, "b", proc_of("b.proc", 1));
    let ids: Vec<String> = k.active_processors().iter().map(|(_, p)| p.id.clone()).collect();
    assert_eq!(ids, vec!["b.proc", "a.proc"]);
    k.start_deactivation(&pid("b"), DeactivateReason::UserDisabled).unwrap();
    let ids: Vec<String> = k.active_processors().iter().map(|(_, p)| p.id.clone()).collect();
    assert_eq!(ids, vec!["a.proc"]);
}

#[test]
fn snapshots_and_failure_records() {
    let mut k = kernel_with(vec![manifest("b"), manifest("a")]);
    load(&mut k, "a");
    let snaps = k.plugin_snapshots();
    let ids: Vec<String> = snaps.iter().map(|s| s.id.to_string()).collect();
    assert_eq!(ids, vec!["a", "b"]);
    assert_eq!(snaps[0].state, PluginState::Loaded);
    assert!(!k.record_failure(&pid("a"), &PluginError::timeout(String::from("slow"))));
    let snap = k.diagnostics();
    assert_eq!(snap.plugins[0].last_error.as_deref(), Some("[Timeout] slow"));
    assert!(snap.host_version.same(&Version::new(0, 3, 0)));
    let outcome = k.activation_outcome(&pid("a"), &Ok(()));
    assert_eq!(outcome.state, PluginState::Loaded);
    assert!(outcome.error.is_none());
}

#[test]
fn deactivating_plugin_receives_no_events() {
    let mut k = kernel_with(vec![manifest("a")]);
    load(&mut k, "a");
    let mut sa = ActivationScope::new();
    sa.subscribe(EventPattern::All);
    activate(&mut k, "a", sa);
    let kind = plugin_kernel::event::kinds::track_changed();
    let (targets, _) = k.dispatch_plan(&HostEvent::host(kind.clone(), serde_json::Value::Null, 1));
    assert_eq!(targets.len(), 1);
    k.start_deactivation(&pid("a"), DeactivateReason::Shutdown).unwrap().unwrap();
    assert_eq!(k.table.state_of(&pid("a")), Some(PluginState::Deactivating));
    let (targets, _) = k.dispatch_plan(&HostEvent::host(kind, serde_json::Value::Null, 2));
    assert!(targets.is_empty());
}

#[test]
fn cascade_targets_are_active_required_dependents() {
    let mut b = manifest("b");
    b.dependencies.push(DependencySpec::required(pid("a")));
    let mut c = manifest("c");
    c.dependencies.push(DependencySpec::optional(pid("a")));
    let mut d = manifest("d");
    d.dependencies.push(DependencySpec::required(pid("a")));
    let mut k = kernel_with(vec![manifest("a"), b, c, d]);
    for id in ["a", "b", "c"] {
        load(&mut k, id);
        activate(&mut k, id, ActivationScope::new());
    }
    let targets: Vec<String> = k.cascade_targets(&pid("a")).iter().map(|p| p.to_string()).collect();
    assert_eq!(targets, vec!["b"]);
}

#[test]
fn failure_cascades_only_with_open_breaker_and_policy() {
    let err = PluginError::new(ErrorCode::Plugin, String::from("boom"));
    for (policy, expected) in [(CascadePolicy::StopDependents, true), (CascadePolicy::IsolateOnly, false)] {
        let mut k = K::new(Version::new(0, 3, 0), policy);
        k.take_discovery(vec![found(manifest("a"))], vec![]);
        assert!(!k.record_failure_at(&pid("a"), &err, 1_000));
        for _ in 0..3 {
            k.supervisor.record_failure_at(&pid("a"), 1_000);
        }
        assert_eq!(k.record_failure_at(&pid("a"), &err, 1_001), expected);
        assert!(!k.record_failure_at(&pid("a"), &err, 1_000 + 30_000));
    }
}

#[test]
fn failed_activation_cascades_when_breaker_open() {
    let mut k = K::new(Version::new(0, 3, 0), CascadePolicy::StopDependents);
    k.take_discovery(vec![found(manifest("a"))], vec![]);
    load(&mut k, "a");
    for _ in 0..3 {
        k.supervisor.record_failure_at(&pid("a"), 5_000);
    }
    k.start_activation(&pid("a")).unwrap();
    let err = PluginError::new(ErrorCode::Plugin, String::from("boom"));
    let (r, cascade) = k.finish_activation_at(&pid("a"), Err(err), 5_001);
    assert!(r.is_err());
    assert!(cascade);
}
