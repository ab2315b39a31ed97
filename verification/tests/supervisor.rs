use std::time::Duration;

use plugin_kernel::error::{ErrorCode, PluginError};
use plugin_kernel::ids::PluginId;
use plugin_kernel::manifest::ResourceBudget;
use plugin_kernel::plugin::HealthStatus;
use plugin_kernel::supervisor::{
    combined_health, BreakerPolicy, BreakerState, CallEnd, CallOutcome, CascadePolicy,
    CircuitBreaker, Supervisor, RECENT_LIMIT,
};

fn pid(s: &str) -> PluginId {
    PluginId::new(s).unwrap()
}

fn policy() -> BreakerPolicy {
    BreakerPolicy { max_consecutive_failures: 2, cooldown_ms: 100 }
}

#[test]
fn breaker_opens_after_limit() {
    let mut b = CircuitBreaker::new(policy());
    assert!(!b.record_failure_at(10));
    assert_eq!(b.state_at(10), BreakerState::Closed);
    assert!(b.record_failure_at(20));
    assert_eq!(b.consecutive_failures(), 2);
    assert_eq!(b.state_at(50), BreakerState::Open { remaining_ms: 70 });
    assert!(!b.allow_at(50));
}

#[test]
fn breaker_half_open_lets_one_probe() {
    let mut b = CircuitBreaker::new(policy());
    b.record_failure_at(0);
    b.record_failure_at(0);
    assert_eq!(b.state_at(100), BreakerState::HalfOpen);
    assert!(b.allow_at(100));
    assert!(!b.allow_at(101));
    b.record_success();
    assert_eq!(b.state_at(102), BreakerState::Closed);
    assert!(b.allow_at(102));
    assert_eq!(b.consecutive_failures(), 0);
}

#[test]
fn breaker_clock_going_back_counts_as_no_time() {
    let mut b = CircuitBreaker::new(policy());
    b.record_failure_at(500);
    b.record_failure_at(500);
    assert_eq!(b.state_at(400), BreakerState::Open { remaining_ms: 100 });
    b.reset();
    assert_eq!(b.state_at(400), BreakerState::Closed);
}

#[test]
fn policy_from_budget_and_default() {
    let p = BreakerPolicy::from_budget(&ResourceBudget::realtime());
    assert_eq!(p, BreakerPolicy { max_consecutive_failures: 5, cooldown_ms: 5000 });
    assert_eq!(BreakerPolicy::default(), BreakerPolicy { max_consecutive_failures: 3, cooldown_ms: 30000 });
}

#[test]
fn health_combines_with_breaker() {
    assert_eq!(
        combined_health(HealthStatus::Healthy, BreakerState::Open { remaining_ms: 1 }),
        HealthStatus::Unhealthy
    );
    assert_eq!(combined_health(HealthStatus::Healthy, BreakerState::HalfOpen), HealthStatus::Degraded);
    assert_eq!(combined_health(HealthStatus::Degraded, BreakerState::Closed), HealthStatus::Degraded);
}

#[test]
fn supervisor_unknown_plugin_gets_default_breaker() {
    let mut s = Supervisor::new(CascadePolicy::IsolateOnly);
    assert_eq!(s.state_of_at(&pid("x"), 0), BreakerState::Closed);
    assert!(s.acquire_at(&pid("x"), 0));
    assert!(!s.should_cascade());
    assert_eq!(s.cascade_policy(), CascadePolicy::IsolateOnly);
}

#[test]
fn supervisor_opens_registered_breaker() {
    let mut s = Supervisor::new(CascadePolicy::StopDependents);
    let p = pid("p");
    let budget = ResourceBudget { max_consecutive_failures: 1, cooldown_ms: 1000, ..ResourceBudget::standard() };
    s.register(&p, &budget);
    assert!(s.record_failure_at(&p, 10));
    assert_eq!(s.state_of_at(&p, 20), BreakerState::Open { remaining_ms: 990 });
    assert!(!s.acquire_at(&p, 20));
    s.reset(&p);
    assert_eq!(s.state_of_at(&p, 20), BreakerState::Closed);
    s.unregister(&p);
    assert!(s.should_cascade());
}

#[test]
fn begin_call_rejects_when_broken() {
    let mut s = Supervisor::new(CascadePolicy::IsolateOnly);
    let p = pid("p");
    let budget = ResourceBudget { max_consecutive_failures: 1, cooldown_ms: u64::MAX, ..ResourceBudget::standard() };
    s.register(&p, &budget);
    assert!(s.begin_call(&p).is_ok());
    s.record_failure(&p);
    let e = s.begin_call(&p).unwrap_err();
    assert_eq!(e.code(), ErrorCode::ServiceUnavailable);
    assert_eq!(e.message(), "plugin 'p' is circuit-broken");
    let calls = s.recent_calls();
    assert_eq!(calls.len(), 1);
    assert_eq!(calls[0].outcome, CallOutcome::Rejected);
}

#[test]
fn finish_call_reports_each_ending() {
    let mut s = Supervisor::new(CascadePolicy::IsolateOnly);
    let p = pid("p");
    let ok: Result<u32, PluginError> =
        s.finish_call(&p, Duration::from_millis(3), "2000ms", CallEnd::Returned(Ok(7)));
    assert_eq!(ok.unwrap(), 7);

    let err = s
        .finish_call::<u32>(&p, Duration::ZERO, "2000ms", CallEnd::Returned(Err(PluginError::not_found(String::from("gone")))))
        .unwrap_err();
    assert_eq!(err.code(), ErrorCode::NotFound);
    assert_eq!(err.plugin_id(), Some("p"));

    let panic = s
        .finish_call::<u32>(&p, Duration::ZERO, "2000ms", CallEnd::Panicked(String::from("oops")))
        .unwrap_err();
    assert_eq!(panic.code(), ErrorCode::Panic);
    assert_eq!(panic.message(), "plugin 'p' panicked: oops");

    let timeout = s.finish_call::<u32>(&p, Duration::ZERO, "2000ms", CallEnd::TimedOut).unwrap_err();
    assert_eq!(timeout.code(), ErrorCode::Timeout);
    assert_eq!(timeout.message(), "plugin 'p' exceeded its 2000ms call budget");

    let spawn = s
        .finish_call::<u32>(&p, Duration::ZERO, "2000ms", CallEnd::SpawnFailed(String::from("no threads")))
        .unwrap_err();
    assert_eq!(spawn.code(), ErrorCode::Io);
    assert_eq!(spawn.message(), "cannot spawn worker for plugin 'p': no threads");

    let calls = s.recent_calls();
    let outcomes: Vec<CallOutcome> = calls.iter().map(|c| c.outcome).collect();
    assert_eq!(
        outcomes,
        vec![CallOutcome::Completed, CallOutcome::Errored, CallOutcome::Panic, CallOutcome::Timeout]
    );
    assert_eq!(calls[0].elapsed, Duration::from_millis(3));
}

#[test]
fn recent_call_log_is_bounded() {
    let mut s = Supervisor::new(CascadePolicy::IsolateOnly);
    let p = pid("p");
    for _ in 0..(RECENT_LIMIT + 10) {
        let _ = s.finish_call(&p, Duration::ZERO, "1ms", CallEnd::Returned(Ok(())));
    }
    assert_eq!(s.recent_calls().len(), RECENT_LIMIT);
}
