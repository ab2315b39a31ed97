use plugin_kernel::abi::{check_abi, AbiErrorBody, AbiResponse};
use plugin_kernel::capabilities;
use plugin_kernel::error::{ErrorCode, PluginError};
use plugin_kernel::event::kinds;
use plugin_kernel::event::{EventPattern, EventSubscriptions, HostEvent};
use plugin_kernel::ids::{EventType, PluginId};
use plugin_kernel::services;

fn ev(s: &str) -> EventType {
    EventType::new(s).unwrap()
}

#[test]
fn failure_answer_round_trips_the_error() {
    let e = PluginError::permission_denied(String::from("no access"));
    let answer = AbiResponse::failure(&e);
    assert!(!answer.ok);
    assert_eq!(answer.error.as_ref().unwrap().code, "PERMISSION_DENIED");
    let back = answer.into_result().unwrap_err();
    assert_eq!(back.code(), ErrorCode::PermissionDenied);
    assert_eq!(back.message(), "no access");
}

#[test]
fn success_answer_gives_value() {
    let v = serde_json::Value::Bool(true);
    let r = AbiResponse::success(Some(v.clone())).into_result().unwrap();
    assert_eq!(r, Some(v));
}

#[test]
fn unknown_code_and_missing_body_read_as_plugin_error() {
    let odd = AbiResponse {
        ok: false,
        value: None,
        error: Some(AbiErrorBody { code: String::from("WHAT"), message: String::from("m") }),
    };
    let e = odd.into_result().unwrap_err();
    assert_eq!(e.code(), ErrorCode::Plugin);
    assert_eq!(e.message(), "m");
    let bare = AbiResponse { ok: false, value: None, error: None };
    let e = bare.into_result().unwrap_err();
    assert_eq!(e.code(), ErrorCode::Plugin);
    assert_eq!(e.message(), "unknown plugin error");
}

#[test]
fn abi_table_check() {
    assert!(check_abi(plugin_kernel::ABI_VERSION, 64, 64).is_ok());
    let e = check_abi(1, 64, 64).unwrap_err();
    assert_eq!(e.code(), ErrorCode::Incompatible);
    assert_eq!(e.message(), "plugin abi 1 != host abi 2");
    let e = check_abi(2, 48, 64).unwrap_err();
    assert_eq!(e.message(), "plugin abi struct size 48 != host size 64; rebuild the plugin");
}

#[test]
fn patterns_match_kinds_and_prefixes() {
    let e = HostEvent::host(kinds::track_changed(), serde_json::Value::Null, 1);
    assert!(EventPattern::All.matches(&e));
    assert!(EventPattern::kind(ev("track.changed")).matches(&e));
    assert!(!EventPattern::kind(ev("queue.changed")).matches(&e));
    assert!(EventPattern::prefix("track.").matches(&e));
    assert!(!EventPattern::prefix("trackx").matches(&e));
}

#[test]
fn subscriptions_match_any_pattern() {
    let subs = EventSubscriptions::new();
    assert!(subs.is_empty());
    assert!(!subs.may_match(&ev("a.b")));
    let subs = subs.add(EventPattern::prefix("queue.")).add(EventPattern::kind(ev("a.b")));
    assert!(subs.may_match(&ev("a.b")));
    assert!(subs.may_match(&ev("queue.changed")));
    assert!(!subs.may_match(&ev("library.changed")));
    let from = EventSubscriptions::from_patterns(vec![EventPattern::All]);
    let e = HostEvent::from_plugin(ev("x"), serde_json::Value::Null, 3, PluginId::new("p").unwrap());
    assert!(from.matches(&e));
    assert_eq!(e.source.unwrap().as_str(), "p");
}

#[test]
fn well_known_names() {
    assert_eq!(kinds::playback_state().as_str(), "playback.state");
    assert_eq!(kinds::audio_format().as_str(), "audio.format");
    assert_eq!(capabilities::fs_user_granted().as_str(), "fs.userGranted");
    assert_eq!(capabilities::network().as_str(), "net.fetch");
    assert_eq!(services::equalizer().as_str(), "audio.equalizer");
    assert_eq!(services::events().as_str(), "host.events");
    assert_eq!(plugin_kernel::abi::ops::RELEASE_SERVICE, "releaseService");
}
