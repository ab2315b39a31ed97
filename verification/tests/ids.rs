use plugin_kernel::ids::{
    validate_dotted, validate_segment, Capability, CommandId, ContributionPointId, EventType,
    PluginId, ServiceId, Version,
};

#[test]
fn plugin_id_accepts_segment_chars() {
    let id = PluginId::new("core.eq-2_x").unwrap();
    assert_eq!(id.as_str(), "core.eq-2_x");
    assert_eq!(id.to_string(), "core.eq-2_x");
    assert!(id.same(&id.duplicate()));
}

#[test]
fn plugin_id_rejects_empty() {
    assert_eq!(PluginId::new("").unwrap_err(), "plugin id must not be empty");
}

#[test]
fn plugin_id_rejects_bad_chars() {
    assert_eq!(
        PluginId::new("a b").unwrap_err(),
        "plugin id 'a b' may only contain [A-Za-z0-9._-]"
    );
}

#[test]
fn plugin_id_rejects_long_values() {
    let long = "a".repeat(129);
    assert_eq!(PluginId::new(&long).unwrap_err(), "plugin id must be at most 128 characters");
    assert!(PluginId::new(&"a".repeat(128)).is_ok());
}

#[test]
fn plugin_ids_order_by_text() {
    let a = PluginId::new("alpha").unwrap();
    let b = PluginId::new("beta").unwrap();
    assert!(a.precedes(&b));
    assert!(!b.precedes(&a));
    assert!(!a.precedes(&a));
}

#[test]
fn dotted_ids_take_two_segments() {
    assert!(ServiceId::new("audio.eq").is_ok());
    assert!(CommandId::new("eq").is_ok());
    assert_eq!(
        CommandId::new("a.b.c").unwrap_err(),
        "command id 'a.b.c' must have at most two dot-separated segments"
    );
    assert_eq!(Capability::new("a.").unwrap_err(), "capability must not be empty");
    assert_eq!(EventType::new(".x").unwrap_err(), "event type must not be empty");
    assert!(ContributionPointId::new("ui.sidebar").is_ok());
}

#[test]
fn dotted_rejects_overlong() {
    let long = format!("{}.{}", "a".repeat(100), "b".repeat(100));
    assert_eq!(
        validate_dotted(&long, "service id").unwrap_err(),
        "service id must be at most 192 characters"
    );
}

#[test]
fn segment_validation_reports_label() {
    assert!(validate_segment("ok", "x").is_ok());
    assert_eq!(validate_segment("", "thing").unwrap_err(), "thing must not be empty");
}

#[test]
fn version_parses_three_numbers() {
    let v = Version::parse("1.20.3").unwrap();
    assert_eq!((v.major(), v.minor(), v.patch()), (1, 20, 3));
    assert_eq!(v.to_string(), "1.20.3");
    assert!(v.same(&Version::new(1, 20, 3)));
}

#[test]
fn version_parse_errors() {
    assert_eq!(Version::parse("x.1.2").unwrap_err(), "version 'x.1.2' has non-numeric major");
    assert_eq!(Version::parse("1").unwrap_err(), "version '1' is missing minor");
    assert_eq!(Version::parse("1.y.2").unwrap_err(), "version '1.y.2' has non-numeric minor");
    assert_eq!(Version::parse("1.2").unwrap_err(), "version '1.2' is missing patch");
    assert_eq!(Version::parse("1.2.z").unwrap_err(), "version '1.2.z' has non-numeric patch");
    assert_eq!(
        Version::parse("1.2.3.4").unwrap_err(),
        "version '1.2.3.4' must have exactly 3 segments"
    );
    assert_eq!(
        Version::parse("4294967296.0.0").unwrap_err(),
        "version '4294967296.0.0' has non-numeric major"
    );
}

#[test]
fn version_order_is_lexicographic() {
    let a = Version::new(1, 2, 3);
    assert!(a.precedes(&Version::new(1, 2, 4)));
    assert!(a.precedes(&Version::new(1, 3, 0)));
    assert!(a.precedes(&Version::new(2, 0, 0)));
    assert!(!a.precedes(&Version::new(1, 2, 3)));
    assert!(!Version::new(2, 0, 0).precedes(&a));
}

#[test]
fn version_compatibility_with_host() {
    let min = Version::new(0, 2, 0);
    assert!(min.is_compatible_with(&Version::new(0, 2, 0)));
    assert!(min.is_compatible_with(&Version::new(0, 3, 1)));
    assert!(!min.is_compatible_with(&Version::new(1, 0, 0)));
    assert!(!min.is_compatible_with(&Version::new(0, 1, 9)));
    assert!(!Version::new(1, 0, 0).is_compatible_with(&Version::new(2, 0, 0)));
    assert!(Version::new(1, 2, 0).is_compatible_with(&Version::new(1, 3, 0)));
}

#[test]
fn version_text_parses_back() {
    for v in [Version::new(0, 0, 0), Version::new(1, 2, 3), Version::new(10, 200, 4294967295)] {
        let parsed = Version::parse(&v.to_string()).unwrap();
        assert!(parsed.same(&v));
    }
}
