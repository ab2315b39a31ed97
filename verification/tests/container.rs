use std::any::TypeId;
use std::sync::Arc;

use plugin_kernel::container::{factory_outcome, Resolution, ServiceContainer};
use plugin_kernel::error::ErrorCode;
use plugin_kernel::ids::{Capability, PluginId, ServiceId, Version};
use plugin_kernel::service::{
    ServiceBinding, ServiceDescriptor, ServiceHandle, ServiceRef, ServiceSlot, ServiceVisibility,
};

type Container = ServiceContainer<u32, u8>;

fn pid(s: &str) -> PluginId {
    PluginId::new(s).unwrap()
}

fn sid(s: &str) -> ServiceId {
    ServiceId::new(s).unwrap()
}

fn desc(id: &str) -> ServiceDescriptor {
    ServiceDescriptor::new(sid(id), Version::new(1, 0, 0))
}

fn instance(r: Result<Resolution<'_, u32, u8>, plugin_kernel::error::PluginError>) -> u32 {
    match r.unwrap() {
        Resolution::Instance { service, .. } => *service,
        Resolution::Factory { .. } => panic!("expected an instance"),
    }
}

#[test]
fn host_service_resolves_for_anyone() {
    let mut c = Container::new();
    c.register_host(desc("player.state"), 7, TypeId::of::<u32>()).unwrap();
    assert!(c.has(&sid("player.state")));
    assert_eq!(instance(c.resolve_for(None, &sid("player.state"), TypeId::of::<u32>())), 7);
    assert_eq!(instance(c.resolve_for(Some(&pid("p")), &sid("player.state"), TypeId::of::<u32>())), 7);
}

#[test]
fn unknown_service_and_wrong_type() {
    let mut c = Container::new();
    let e = c.resolve_for(None, &sid("x.y"), TypeId::of::<u32>()).err().unwrap();
    assert_eq!(e.code(), ErrorCode::ServiceUnavailable);
    assert_eq!(e.message(), "service 'x.y' is not registered");
    c.register_host(desc("x.y"), 1, TypeId::of::<u32>()).unwrap();
    let e = c.resolve_for(None, &sid("x.y"), TypeId::of::<String>()).err().unwrap();
    assert_eq!(e.message(), "service 'x.y' is registered but not with the requested type");
}

#[test]
fn host_registration_preferred_over_plugin() {
    let mut c = Container::new();
    let binding = ServiceBinding::new(desc("audio.eq"), 5, TypeId::of::<u32>());
    c.register_plugin(&pid("eq"), binding).unwrap();
    c.register_host(desc("audio.eq"), 9, TypeId::of::<u32>()).unwrap();
    assert_eq!(instance(c.resolve_for(None, &sid("audio.eq"), TypeId::of::<u32>())), 9);
}

#[test]
fn reregistration_replaces() {
    let mut c = Container::new();
    c.register_host(desc("a.b"), 1, TypeId::of::<u32>()).unwrap();
    c.register_host(desc("a.b"), 2, TypeId::of::<u32>()).unwrap();
    assert_eq!(instance(c.resolve_for(None, &sid("a.b"), TypeId::of::<u32>())), 2);
    assert_eq!(c.inventory().len(), 1);
}

#[test]
fn host_only_refuses_plugins() {
    let mut c = Container::new();
    c.register_host(desc("secret").with_visibility(ServiceVisibility::HostOnly), 1, TypeId::of::<u32>()).unwrap();
    assert!(c.authorize(None, &sid("secret")).is_ok());
    let e = c.authorize(Some(&pid("p")), &sid("secret")).unwrap_err();
    assert_eq!(e.code(), ErrorCode::PermissionDenied);
    assert_eq!(e.message(), "plugin 'p' may not resolve host-only service 'secret'");
}

#[test]
fn missing_capability_is_refused_until_granted() {
    let mut c = Container::new();
    let cap = Capability::new("library.read").unwrap();
    c.register_host(desc("library.read").requiring(cap.clone()), 3, TypeId::of::<u32>()).unwrap();
    let e = c.resolve_for(Some(&pid("p")), &sid("library.read"), TypeId::of::<u32>()).err().unwrap();
    assert_eq!(
        e.message(),
        "plugin 'p' lacks capability 'library.read' required by service 'library.read'"
    );
    c.grant(&pid("p"), vec![cap]);
    assert_eq!(instance(c.resolve_for(Some(&pid("p")), &sid("library.read"), TypeId::of::<u32>())), 3);
    c.revoke_grants(&pid("p"));
    assert!(c.authorize(Some(&pid("p")), &sid("library.read")).is_err());
}

#[test]
fn declared_dependents_only() {
    let mut c = Container::new();
    let d = desc("eq.bands").with_visibility(ServiceVisibility::DeclaredDependentsOnly);
    c.register_plugin(&pid("eq"), ServiceBinding::new(d, 4, TypeId::of::<u32>())).unwrap();
    let e = c.authorize(Some(&pid("ui")), &sid("eq.bands")).unwrap_err();
    assert_eq!(e.message(), "plugin 'ui' must declare 'eq' as a dependency to resolve 'eq.bands'");
    c.declare_dependencies(&pid("ui"), vec![pid("eq")]);
    assert!(c.authorize(Some(&pid("ui")), &sid("eq.bands")).is_ok());
    assert!(c.authorize(None, &sid("eq.bands")).is_ok());
}

#[test]
fn revoke_provider_removes_its_services() {
    let mut c = Container::new();
    c.register_plugin(&pid("eq"), ServiceBinding::new(desc("a.one"), 1, TypeId::of::<u32>())).unwrap();
    c.register_plugin(&pid("eq"), ServiceBinding::new(desc("a.two"), 2, TypeId::of::<u32>())).unwrap();
    c.register_host(desc("h.s"), 3, TypeId::of::<u32>()).unwrap();
    let mut gone: Vec<String> = c.revoke_provider(&pid("eq")).iter().map(|s| s.to_string()).collect();
    gone.sort();
    assert_eq!(gone, vec!["a.one", "a.two"]);
    assert!(!c.has(&sid("a.one")));
    assert!(c.has(&sid("h.s")));
    assert!(c.revoke_provider(&pid("eq")).is_empty());
}

#[test]
fn factory_needs_a_plugin() {
    let mut c = Container::new();
    c.register_factory(desc("storage.plugin"), 42).unwrap();
    let e = c.resolve_for(None, &sid("storage.plugin"), TypeId::of::<u32>()).err().unwrap();
    assert_eq!(e.code(), ErrorCode::InvalidArgument);
    assert_eq!(e.message(), "service 'storage.plugin' is per-plugin and cannot be resolved by the host itself");
    match c.resolve_for(Some(&pid("p")), &sid("storage.plugin"), TypeId::of::<u32>()).unwrap() {
        Resolution::Factory { factory, plugin } => {
            assert_eq!(*factory, 42);
            assert_eq!(plugin.as_str(), "p");
        }
        Resolution::Instance { .. } => panic!("expected the factory"),
    }
}

#[test]
fn factory_outcome_checks_type() {
    let id = sid("storage.plugin");
    let p = pid("p");
    let (slot, v) = factory_outcome(&id, &p, Some((5u32, TypeId::of::<u32>())), TypeId::of::<u32>()).unwrap();
    assert_eq!(v, 5);
    assert!(slot.is_alive());
    let e = factory_outcome(&id, &p, Some((5u32, TypeId::of::<u32>())), TypeId::of::<u64>()).unwrap_err();
    assert_eq!(e.message(), "service 'storage.plugin' is registered but not with the requested type");
    let e = factory_outcome::<u32>(&id, &p, None, TypeId::of::<u32>()).unwrap_err();
    assert_eq!(e.message(), "service 'storage.plugin' is unavailable for plugin 'p'");
}

#[test]
fn inventory_sorted_by_id() {
    let mut c = Container::new();
    c.register_host(desc("z.z"), 1, TypeId::of::<u32>()).unwrap();
    c.register_plugin(&pid("p"), ServiceBinding::new(desc("a.a"), 2, TypeId::of::<u32>())).unwrap();
    let inv = c.inventory();
    let ids: Vec<String> = inv.iter().map(|i| i.id.to_string()).collect();
    assert_eq!(ids, vec!["a.a", "z.z"]);
    assert_eq!(inv[0].provider.as_deref(), Some("p"));
    assert_eq!(inv[1].provider, None);
    assert!(inv[0].alive);
}

#[test]
fn service_ref_fails_after_revoke() {
    let slot = Arc::new(ServiceSlot::new(Some(pid("eq"))));
    let r = ServiceRef::new(slot.clone(), Arc::new(10u32));
    assert_eq!(*r.get().unwrap(), 10);
    assert!(r.is_alive());
    slot.revoke();
    let e = r.get().err().unwrap();
    assert_eq!(e.code(), ErrorCode::ServiceUnavailable);
    assert_eq!(e.message(), "service owned by 'eq' has been unloaded");
    assert!(r.try_value().is_none());
    let host = ServiceRef::new(Arc::new(ServiceSlot::default()), Arc::new(1u32));
    host.slot().revoke();
    assert_eq!(host.get().err().unwrap().message(), "service owned by 'host' has been unloaded");
}

#[test]
fn descriptor_builders_and_handles() {
    let d = desc("a.b")
        .requiring(Capability::new("x").unwrap())
        .with_summary(String::from("sum"))
        .with_visibility(ServiceVisibility::HostOnly);
    assert_eq!(d.requires.len(), 1);
    assert_eq!(d.summary, "sum");
    assert_eq!(d.visibility, ServiceVisibility::HostOnly);
    assert_eq!(ServiceVisibility::default(), ServiceVisibility::Public);
    let b = ServiceBinding::new(d, 3u32, TypeId::of::<u32>());
    assert_eq!(*b.service(), 3);
    assert_eq!(*b.type_id(), TypeId::of::<u32>());
    let h = ServiceHandle::new(Arc::new(8u32));
    assert_eq!(*h.into_inner(), 8);
}

#[test]
fn second_grant_replaces_the_first() {
    let mut c = Container::new();
    let cap = Capability::new("library.read").unwrap();
    c.register_host(desc("library.read").requiring(cap.clone()), 3, TypeId::of::<u32>()).unwrap();
    c.grant(&pid("p"), vec![cap]);
    assert!(c.authorize(Some(&pid("p")), &sid("library.read")).is_ok());
    c.grant(&pid("p"), vec![Capability::new("other.thing").unwrap()]);
    assert!(c.authorize(Some(&pid("p")), &sid("library.read")).is_err());
}
