use plugin_kernel::error::ErrorCode;
use plugin_kernel::ids::{Capability, CommandId, EventType, PluginId, Version};
use plugin_kernel::manifest::{
    plugin_message, validate_manifest, ActivationSpec, DependencySpec, IntegritySpec, Manifest,
    PluginSource, PluginTier, ResourceBudget,
};

fn pid(s: &str) -> PluginId {
    PluginId::new(s).unwrap()
}

fn host() -> Version {
    Version::new(0, 3, 0)
}

fn dynamic(id: &str) -> Manifest {
    let mut m = Manifest::builtin(pid(id), Version::new(1, 0, 0), Version::new(0, 1, 0));
    m.source = PluginSource::User;
    m.entry = String::from("libthing");
    m
}

#[test]
fn builtin_manifest_defaults() {
    let m = Manifest::builtin(pid("eq"), Version::new(1, 0, 0), Version::new(0, 1, 0));
    assert_eq!(m.schema, 2);
    assert_eq!(m.abi, plugin_kernel::ABI_VERSION);
    assert_eq!(m.source, PluginSource::Builtin);
    assert_eq!(m.tier, PluginTier::Feature);
    assert!(m.activation.eager);
    assert_eq!(m.budget, ResourceBudget::standard());
    assert!(m.is_user_disableable());
    let core = Manifest::core_builtin(pid("eq"), Version::new(1, 0, 0), Version::new(0, 1, 0));
    assert_eq!(core.tier, PluginTier::Core);
    assert!(!core.is_user_disableable());
}

#[test]
fn valid_manifest_passes() {
    assert!(validate_manifest(&dynamic("good"), &host()).is_ok());
}

#[test]
fn schema_mismatch_is_incompatible() {
    let mut m = dynamic("p");
    m.schema = 1;
    let e = validate_manifest(&m, &host()).unwrap_err();
    assert_eq!(e.code(), ErrorCode::Incompatible);
    assert_eq!(e.message(), "plugin 'p' declares schema 1 but host understands 2");
}

#[test]
fn abi_mismatch_is_incompatible() {
    let mut m = dynamic("p");
    m.abi = 7;
    let e = validate_manifest(&m, &host()).unwrap_err();
    assert_eq!(e.code(), ErrorCode::Incompatible);
    assert_eq!(e.message(), "plugin 'p' was built against ABI 7 but host is ABI 2");
}

#[test]
fn newer_host_requirement_is_incompatible() {
    let mut m = dynamic("p");
    m.min_host = Version::new(0, 4, 0);
    let e = validate_manifest(&m, &host()).unwrap_err();
    assert_eq!(e.message(), "plugin 'p' requires host >= 0.4.0 but host is 0.3.0");
}

#[test]
fn only_builtin_may_be_core() {
    let mut m = dynamic("p");
    m.tier = PluginTier::Core;
    let e = validate_manifest(&m, &host()).unwrap_err();
    assert_eq!(e.code(), ErrorCode::PermissionDenied);
    assert_eq!(
        e.message(),
        "plugin 'p' declares tier=core but is loaded from 'user'; only builtin plugins may be core"
    );
}

#[test]
fn dynamic_plugin_needs_entry() {
    let mut m = dynamic("p");
    m.entry = String::new();
    let e = validate_manifest(&m, &host()).unwrap_err();
    assert_eq!(e.code(), ErrorCode::InvalidArgument);
    assert_eq!(
        e.message(),
        "plugin 'p' has an empty 'entry'; dynamic plugins need a library base name"
    );
}

#[test]
fn self_dependency_is_refused() {
    let mut m = dynamic("p");
    m.dependencies.push(DependencySpec::required(pid("p")));
    let e = validate_manifest(&m, &host()).unwrap_err();
    assert_eq!(e.message(), "plugin 'p' depends on itself");
}

#[test]
fn duplicate_capability_is_refused() {
    let mut m = dynamic("p");
    m.capabilities.push(Capability::new("audio.read").unwrap());
    m.capabilities.push(Capability::new("net").unwrap());
    m.capabilities.push(Capability::new("audio.read").unwrap());
    let e = validate_manifest(&m, &host()).unwrap_err();
    assert_eq!(e.message(), "plugin 'p' declares duplicate capability 'audio.read'");
}

#[test]
fn activation_triggers() {
    let spec = ActivationSpec::lazy()
        .on_event(EventType::new("track.changed").unwrap())
        .on_command(CommandId::new("eq.set").unwrap());
    assert!(spec.triggered_by_event(&EventType::new("track.changed").unwrap()));
    assert!(!spec.triggered_by_event(&EventType::new("other").unwrap()));
    assert!(spec.triggered_by_command(&CommandId::new("eq.set").unwrap()));
    assert!(ActivationSpec::eager().triggered_by_command(&CommandId::new("x").unwrap()));
}

#[test]
fn budgets_and_misc() {
    let rt = ResourceBudget::realtime();
    assert_eq!(rt.call_timeout_ms, 200);
    assert_eq!(rt.audio_budget_us, Some(500));
    assert_eq!(ResourceBudget::default(), ResourceBudget::standard());
    assert_eq!(IntegritySpec::sha256(String::from("ab")).algorithm, "sha256");
    assert_eq!(plugin_message(&pid("x"), " is ok"), "plugin 'x' is ok");
    assert!(PluginSource::User.is_removable());
    assert!(!PluginSource::Builtin.is_removable());
    assert_eq!(PluginSource::Packaged.as_str(), "packaged");
    assert_eq!(PluginTier::default_tier(), PluginTier::Feature);
    assert!(DependencySpec::optional(pid("q")).optional);
}
