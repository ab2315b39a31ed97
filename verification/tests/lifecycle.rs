use plugin_kernel::lifecycle::{can_transition, LifecycleTracker, PluginState};

#[test]
fn legal_transition_is_recorded() {
    let mut tracker = LifecycleTracker::new_at(PluginState::Discovered, 10);
    let moved = tracker.transition_at(PluginState::Resolved, "resolved", 20);
    assert_eq!(moved.unwrap(), PluginState::Resolved);
    assert_eq!(tracker.state(), PluginState::Resolved);
    assert_eq!(tracker.history().len(), 2);
    assert!(can_transition(PluginState::Loaded, PluginState::Activating));
}

use plugin_kernel::error::{ErrorCode, PluginError};
use plugin_kernel::lifecycle::HISTORY_LIMIT;

#[test]
fn illegal_transition_is_refused_and_changes_nothing() {
    let mut tracker = LifecycleTracker::new_at(PluginState::Discovered, 1);
    let err = tracker.transition_at(PluginState::Active, "jump", 2).unwrap_err();
    assert_eq!(err.code(), ErrorCode::InvalidArgument);
    assert_eq!(err.message(), "illegal plugin lifecycle transition: discovered -> active");
    assert_eq!(tracker.state(), PluginState::Discovered);
    assert_eq!(tracker.history().len(), 1);
}

#[test]
fn full_lifecycle_path_is_legal() {
    let mut t = LifecycleTracker::new_at(PluginState::Discovered, 0);
    let path = [
        PluginState::Resolved,
        PluginState::Loaded,
        PluginState::Activating,
        PluginState::Active,
        PluginState::Deactivating,
        PluginState::Stopped,
        PluginState::Unloaded,
        PluginState::Resolved,
    ];
    for (i, s) in path.iter().enumerate() {
        assert_eq!(t.transition_at(*s, "step", i as u64 + 1).unwrap(), *s);
    }
    let last = t.history().back().unwrap();
    assert_eq!(last.from, PluginState::Unloaded);
    assert_eq!(last.to, PluginState::Resolved);
    assert_eq!(last.reason, "step");
}

#[test]
fn history_is_bounded() {
    let mut t = LifecycleTracker::new_at(PluginState::Loaded, 0);
    for i in 0..40u64 {
        let to = if i % 2 == 0 { PluginState::Stopped } else { PluginState::Loaded };
        t.transition_at(to, "toggle", i).unwrap();
    }
    assert_eq!(t.history().len(), HISTORY_LIMIT);
    assert_eq!(t.history().back().unwrap().at_ms, 39);
}

#[test]
fn mark_failed_records_error() {
    let mut t = LifecycleTracker::new_at(PluginState::Active, 0);
    let e = PluginError::new(ErrorCode::Panic, String::from("boom"));
    t.mark_failed_at(&e, 5);
    assert_eq!(t.state(), PluginState::Failed);
    assert_eq!(t.last_error(), Some("[Panic] boom"));
    t.clear_error();
    assert_eq!(t.last_error(), None);
    t.record_error("later");
    assert_eq!(t.last_error(), Some("later"));
}

#[test]
fn mark_failed_from_unloaded_keeps_state() {
    let mut t = LifecycleTracker::new_at(PluginState::Unloaded, 0);
    t.mark_failed_at(&PluginError::io(String::from("x")), 1);
    assert_eq!(t.state(), PluginState::Unloaded);
    assert_eq!(t.history().len(), 1);
}

#[test]
fn state_predicates() {
    assert!(PluginState::Failed.can_activate());
    assert!(!PluginState::Active.can_activate());
    assert!(PluginState::Active.can_deactivate());
    assert!(PluginState::Stopped.can_unload());
    assert!(PluginState::Unloaded.is_terminal());
    assert_eq!(PluginState::Deactivating.label(), "deactivating");
    assert!(!can_transition(PluginState::Activating, PluginState::Stopped));
    assert!(can_transition(PluginState::Unloaded, PluginState::Resolved));
}
