//! Call supervision: a circuit breaker per plugin that opens after repeated
//! failures, cools down, then lets a single probe call through; a log of
//! recent calls; and the health a plugin shows once its breaker is counted.
use std::collections::VecDeque;
use std::time::Duration;
use vstd::prelude::*;
use vstd::string::*;

use crate::assoc::AssocList;
use crate::clock::{duration_millis, now_ms};
use crate::error::{err_view, ErrorCode, ErrorView, PluginError, PluginResult};
use crate::ids::PluginId;
use crate::manifest::{about_plugin, plugin_message, ResourceBudget};
use crate::plugin::HealthStatus;
use crate::text::concat3;

verus! {

/// What a breaker lets through.
#[derive(Clone, Copy, PartialEq, Eq, Debug, Structural)]
pub enum BreakerState {
    /// Calls pass.
    Closed,
    /// Calls are refused for `remaining_ms` more milliseconds.
    Open { remaining_ms: u64 },
    /// The cool-down is over: one probe call may pass.
    HalfOpen,
}

/// When a breaker opens and how long it stays open.
#[derive(Clone, Copy, PartialEq, Eq, Debug, Structural)]
pub struct BreakerPolicy {
    pub max_consecutive_failures: u32,
    pub cooldown_ms: u64,
}

impl Default for BreakerPolicy {
    /// Three failures in a row open the breaker for 30 s.
    fn default() -> (r: BreakerPolicy)
        ensures
            r == (BreakerPolicy { max_consecutive_failures: 3, cooldown_ms: 30000 }),
    {
        BreakerPolicy { max_consecutive_failures: 3, cooldown_ms: 30_000 }
    }
}

impl BreakerPolicy {
    /// The failure limit and cool-down a plugin's budget asks for.
    pub fn from_budget(budget: &ResourceBudget) -> (r: BreakerPolicy)
        ensures
            r == (BreakerPolicy {
                max_consecutive_failures: budget.max_consecutive_failures,
                cooldown_ms: budget.cooldown_ms,
            }),
    {
        BreakerPolicy {
            max_consecutive_failures: budget.max_consecutive_failures,
            cooldown_ms: budget.cooldown_ms,
        }
    }
}

/// The contents of a breaker.
pub struct BreakerView {
    pub policy: BreakerPolicy,
    pub failures: u32,
    pub opened_at: Option<u64>,
    pub probing: bool,
}

/// A fresh, closed breaker.
pub open spec fn fresh_breaker(policy: BreakerPolicy) -> BreakerView {
    BreakerView { policy, failures: 0, opened_at: None, probing: false }
}

/// The state of breaker `b` when the clock reads `now`. A clock that went
/// back counts as no time elapsed.
pub open spec fn breaker_state(b: BreakerView, now: u64) -> BreakerState {
    match b.opened_at {
        None => BreakerState::Closed,
        Some(opened) => {
            let elapsed: int = if now >= opened {
                now - opened
            } else {
                0
            };
            if elapsed >= b.policy.cooldown_ms {
                BreakerState::HalfOpen
            } else {
                BreakerState::Open { remaining_ms: (b.policy.cooldown_ms - elapsed) as u64 }
            }
        },
    }
}

/// Whether a call asked for at `now` passes, and the breaker afterwards:
/// a closed breaker lets it pass, an open one refuses, a half-open one lets
/// exactly one probe pass until that probe's outcome is recorded.
pub open spec fn allow_step(b: BreakerView, now: u64) -> (bool, BreakerView) {
    match breaker_state(b, now) {
        BreakerState::Closed => (true, b),
        BreakerState::Open { .. } => (false, b),
        BreakerState::HalfOpen => if b.probing {
            (false, b)
        } else {
            (true, BreakerView { probing: true, ..b })
        },
    }
}

/// Whether recording a failure at `now` opens the breaker, and the breaker
/// afterwards.
pub open spec fn failure_step(b: BreakerView, now: u64) -> (bool, BreakerView) {
    let failures: u32 = if b.failures == u32::MAX {
        u32::MAX
    } else {
        (b.failures + 1) as u32
    };
    if failures >= b.policy.max_consecutive_failures && b.opened_at is None {
        (true, BreakerView { failures, opened_at: Some(now), probing: false, ..b })
    } else {
        (false, BreakerView { failures, probing: false, ..b })
    }
}

/// A breaker after a success, or after a reset: closed and counting anew.
pub open spec fn cleared(b: BreakerView) -> BreakerView {
    fresh_breaker(b.policy)
}

/// The breaker after `n` failures in a row, all recorded at `now`.
pub open spec fn after_failures(b: BreakerView, n: nat, now: u64) -> BreakerView
    decreases n,
{
    if n == 0 {
        b
    } else {
        failure_step(after_failures(b, (n - 1) as nat, now), now).1
    }
}

/// Trips after repeated failures.
#[derive(Clone, Copy, Debug)]
pub struct CircuitBreaker {
    policy: BreakerPolicy,
    consecutive_failures: u32,
    opened_at_ms: Option<u64>,
    probing: bool,
}

impl View for CircuitBreaker {
    type V = BreakerView;

    closed spec fn view(&self) -> BreakerView {
        BreakerView {
            policy: self.policy,
            failures: self.consecutive_failures,
            opened_at: self.opened_at_ms,
            probing: self.probing,
        }
    }
}

impl CircuitBreaker {
    pub fn new(policy: BreakerPolicy) -> (r: CircuitBreaker)
        ensures
            r@ == fresh_breaker(policy),
    {
        CircuitBreaker { policy, consecutive_failures: 0, opened_at_ms: None, probing: false }
    }

    /// The state when the clock reads `now`.
    pub fn state_at(&self, now: u64) -> (r: BreakerState)
        ensures
            r == breaker_state(self@, now),
    {
        match self.opened_at_ms {
            None => BreakerState::Closed,
            Some(opened_at) => {
                let elapsed = now.saturating_sub(opened_at);
                if elapsed >= self.policy.cooldown_ms {
                    BreakerState::HalfOpen
                } else {
                    BreakerState::Open { remaining_ms: self.policy.cooldown_ms - elapsed }
                }
            },
        }
    }

    /// The state now.
    pub fn state(&self) -> (r: BreakerState)
        ensures
            exists|now: u64| r == breaker_state(self@, now),
    {
        self.state_at(now_ms())
    }

    /// Asks to let a call through when the clock reads `now`.
    pub fn allow_at(&mut self, now: u64) -> (r: bool)
        ensures
            (r, final(self)@) == allow_step(old(self)@, now),
    {
        match self.state_at(now) {
            BreakerState::Closed => true,
            BreakerState::Open { .. } => false,
            BreakerState::HalfOpen => {
                if self.probing {
                    false
                } else {
                    self.probing = true;
                    true
                }
            },
        }
    }

    /// Asks to let a call through now.
    pub fn allow(&mut self) -> (r: bool)
        ensures
            exists|now: u64| (r, final(self)@) == allow_step(old(self)@, now),
    {
        self.allow_at(now_ms())
    }

    pub fn record_success(&mut self)
        ensures
            final(self)@ == cleared(old(self)@),
    {
        self.consecutive_failures = 0;
        self.opened_at_ms = None;
        self.probing = false;
    }

    /// Counts a failure at `now`; true when this failure opened the breaker.
    pub fn record_failure_at(&mut self, now: u64) -> (r: bool)
        ensures
            (r, final(self)@) == failure_step(old(self)@, now),
    {
        self.probing = false;
        self.consecutive_failures = self.consecutive_failures.saturating_add(1);
        if self.consecutive_failures >= self.policy.max_consecutive_failures
            && self.opened_at_ms.is_none() {
            self.opened_at_ms = Some(now);
            return true;
        }
        false
    }

    /// Counts a failure now; true when this failure opened the breaker.
    pub fn record_failure(&mut self) -> (r: bool)
        ensures
            exists|now: u64| (r, final(self)@) == failure_step(old(self)@, now),
    {
        self.record_failure_at(now_ms())
    }

    pub fn consecutive_failures(&self) -> (r: u32)
        ensures
            r == self@.failures,
    {
        self.consecutive_failures
    }

    pub fn reset(&mut self)
        ensures
            final(self)@ == cleared(old(self)@),
    {
        self.consecutive_failures = 0;
        self.opened_at_ms = None;
        self.probing = false;
    }
}

/// A success, or a reset, closes the breaker whatever the clock reads.
pub proof fn lemma_cleared_is_closed(b: BreakerView, now: u64)
    ensures
        breaker_state(cleared(b), now) == BreakerState::Closed,
        allow_step(cleared(b), now).0,
{
}

/// From a cleared breaker, `max` failures in a row open it (one failure when
/// the limit is 0), and the failure that opens it is the `max`-th.
pub proof fn lemma_failures_open(b: BreakerView, now: u64)
    requires
        b == cleared(b),
    ensures
        forall|n: nat|
            n < b.policy.max_consecutive_failures ==> (#[trigger] after_failures(b, n, now)).opened_at
                is None && after_failures(b, n, now).failures == n,
        after_failures(
            b,
            if b.policy.max_consecutive_failures == 0 {
                1
            } else {
                b.policy.max_consecutive_failures as nat
            },
            now,
        ).opened_at == Some(now),
{
    let m: nat = if b.policy.max_consecutive_failures == 0 {
        1
    } else {
        b.policy.max_consecutive_failures as nat
    };
    assert forall|n: nat| n < b.policy.max_consecutive_failures implies (#[trigger] after_failures(
        b,
        n,
        now,
    )).opened_at is None && after_failures(b, n, now).failures == n by {
        lemma_failures_below_limit(b, n, now);
    }
    lemma_failures_below_limit(b, (m - 1) as nat, now);
}

proof fn lemma_failures_below_limit(b: BreakerView, n: nat, now: u64)
    requires
        b == cleared(b),
        n < b.policy.max_consecutive_failures || n == 0,
    ensures
        after_failures(b, n, now).opened_at is None,
        after_failures(b, n, now).failures == n,
        after_failures(b, n, now).policy == b.policy,
    decreases n,
{
    if n > 0 {
        lemma_failures_below_limit(b, (n - 1) as nat, now);
    }
}

/// An open breaker refuses every call until its cool-down is over, and
/// changes nothing by refusing.
pub proof fn lemma_open_refuses(b: BreakerView, opened: u64, now: u64)
    requires
        b.opened_at == Some(opened),
        opened <= now < opened + b.policy.cooldown_ms,
    ensures
        allow_step(b, now) == (false, b),
{
}

/// Once the cool-down is over a breaker admits exactly one probe: the first
/// call passes, and every later call is refused until the probe's outcome is
/// recorded, however late it comes.
pub proof fn lemma_single_probe(b: BreakerView, opened: u64, now: u64, later: u64)
    requires
        b.opened_at == Some(opened),
        !b.probing,
        opened + b.policy.cooldown_ms <= now <= later,
    ensures
        allow_step(b, now).0,
        !allow_step(allow_step(b, now).1, later).0,
{
}

/// A failure of the probe does not re-arm the cool-down: the breaker stays
/// half-open and admits the next probe.
pub proof fn lemma_failed_probe_admits_next(b: BreakerView, opened: u64, now: u64, later: u64)
    requires
        b.opened_at == Some(opened),
        b.probing,
        opened + b.policy.cooldown_ms <= now <= later,
    ensures
        !failure_step(b, now).0,
        allow_step(failure_step(b, now).1, later).0,
{
}

/// The health a plugin shows: an open breaker makes it unhealthy, a
/// half-open one degraded, a closed one leaves what it reported.
pub open spec fn combined_health_spec(reported: HealthStatus, breaker: BreakerState) -> HealthStatus {
    match breaker {
        BreakerState::Open { .. } => HealthStatus::Unhealthy,
        BreakerState::HalfOpen => HealthStatus::Degraded,
        BreakerState::Closed => reported,
    }
}

pub fn combined_health(reported: HealthStatus, breaker: BreakerState) -> (r: HealthStatus)
    ensures
        r == combined_health_spec(reported, breaker),
{
    match breaker {
        BreakerState::Open { .. } => HealthStatus::Unhealthy,
        BreakerState::HalfOpen => HealthStatus::Degraded,
        BreakerState::Closed => reported,
    }
}

/// How a supervised call ended.
#[derive(Clone, Copy, PartialEq, Eq, Debug, Structural)]
pub enum CallOutcome {
    /// The call returned a value.
    Completed,
    /// The call returned an error.
    Errored,
    Panic,
    Timeout,
    Rejected,
}

/// Whether the dependents of a failed plugin are stopped too.
#[derive(Clone, Copy, PartialEq, Eq, Debug, Structural)]
pub enum CascadePolicy {
    IsolateOnly,
    StopDependents,
}

/// One supervised call: whose, how long it took and how it ended.
#[derive(Debug, Clone)]
pub struct CallReport {
    pub plugin: PluginId,
    pub elapsed: Duration,
    pub outcome: CallOutcome,
}

/// What the worker running a supervised call handed back.
pub enum CallEnd<T> {
    /// The call returned.
    Returned(PluginResult<T>),
    /// The call panicked with this message.
    Panicked(String),
    /// The call did not finish within its budget.
    TimedOut,
    /// No worker could be started; the text says why.
    SpawnFailed(String),
}

/// How a call that ended as `end` is logged.
pub open spec fn call_outcome<T>(end: CallEnd<T>) -> CallOutcome {
    match end {
        CallEnd::Returned(Ok(_)) => CallOutcome::Completed,
        CallEnd::Returned(Err(_)) => CallOutcome::Errored,
        CallEnd::Panicked(_) => CallOutcome::Panic,
        CallEnd::TimedOut => CallOutcome::Timeout,
        CallEnd::SpawnFailed(_) => CallOutcome::Errored,
    }
}

/// The error a supervised call of `p` that ended as `end` reports.
pub open spec fn call_error<T>(p: Seq<char>, budget: Seq<char>, end: CallEnd<T>) -> ErrorView {
    match end {
        CallEnd::Returned(Err(e)) => ErrorView { plugin: Some(p), ..e@ },
        CallEnd::Panicked(payload) => ErrorView {
            code: ErrorCode::Panic,
            message: about_plugin(p, " panicked: "@ + payload@),
            plugin: Some(p),
        },
        CallEnd::TimedOut => ErrorView {
            code: ErrorCode::Timeout,
            message: about_plugin(p, " exceeded its "@ + budget + " call budget"@),
            plugin: Some(p),
        },
        CallEnd::SpawnFailed(reason) => err_view(
            ErrorCode::Io,
            "cannot spawn worker for plugin '"@ + p + "': "@ + reason@,
        ),
        CallEnd::Returned(Ok(_)) => err_view(ErrorCode::Plugin, Seq::empty()),
    }
}

/// How many call reports a supervisor keeps.
pub const RECENT_LIMIT: usize = 64;

/// `h` with `r` appended, the oldest report dropped when `h` is full.
pub open spec fn bounded_report_push(h: Seq<CallReport>, r: CallReport) -> Seq<CallReport> {
    if h.len() >= RECENT_LIMIT {
        h.drop_first().push(r)
    } else {
        h.push(r)
    }
}

/// The breaker a supervisor uses for a plugin: the registered one, or a
/// fresh one with the default policy.
pub open spec fn breaker_or_default(
    m: Map<Seq<char>, BreakerView>,
    p: Seq<char>,
    default: BreakerPolicy,
) -> BreakerView {
    if m.dom().contains(p) {
        m[p]
    } else {
        fresh_breaker(default)
    }
}

/// `Duration::ZERO`: the empty duration, of no milliseconds.
#[verifier::external_body]
fn zero_duration() -> (r: Duration)
    ensures
        duration_millis(r) == 0,
{
    Duration::ZERO
}

/// Runs plugin calls behind per-plugin circuit breakers and keeps a log of
/// the most recent calls.
pub struct Supervisor {
    breakers: AssocList<PluginId, CircuitBreaker>,
    default_policy: BreakerPolicy,
    cascade: CascadePolicy,
    recent: VecDeque<CallReport>,
}

impl Supervisor {
    #[verifier::type_invariant]
    spec fn bounded_log(self) -> bool {
        self.recent@.len() <= RECENT_LIMIT
    }

    /// The breaker of each registered plugin.
    pub closed spec fn breakers_view(&self) -> Map<Seq<char>, BreakerView> {
        self.breakers.map().map_values(|b: CircuitBreaker| b@)
    }

    /// The logged calls, oldest first.
    pub closed spec fn recent_view(&self) -> Seq<CallReport> {
        self.recent@
    }

    pub closed spec fn default_policy_view(&self) -> BreakerPolicy {
        self.default_policy
    }

    pub closed spec fn cascade_view(&self) -> CascadePolicy {
        self.cascade
    }

    pub fn new(cascade: CascadePolicy) -> (r: Supervisor)
        ensures
            r.breakers_view() == Map::<Seq<char>, BreakerView>::empty(),
            r.recent_view() == Seq::<CallReport>::empty(),
            r.cascade_view() == cascade,
            r.default_policy_view() == (BreakerPolicy {
                max_consecutive_failures: 3,
                cooldown_ms: 30000,
            }),
    {
        let r = Supervisor {
            breakers: AssocList::new(),
            default_policy: BreakerPolicy::default(),
            cascade,
            recent: VecDeque::with_capacity(RECENT_LIMIT),
        };
        assert(r.breakers_view() =~= Map::<Seq<char>, BreakerView>::empty());
        r
    }

    pub fn cascade_policy(&self) -> (r: CascadePolicy)
        ensures
            r == self.cascade_view(),
    {
        self.cascade
    }

    fn set_breaker(&mut self, plugin: &PluginId, breaker: CircuitBreaker)
        ensures
            final(self).breakers_view() == old(self).breakers_view().insert(plugin@, breaker@),
            final(self).recent_view() == old(self).recent_view(),
            final(self).default_policy_view() == old(self).default_policy_view(),
            final(self).cascade_view() == old(self).cascade_view(),
    {
        proof {
            use_type_invariant(&*self);
        }
        let mut breakers = AssocList::new();
        std::mem::swap(&mut breakers, &mut self.breakers);
        breakers.insert(plugin.duplicate(), breaker);
        self.breakers = breakers;
        assert(self.breakers_view() =~= old(self).breakers_view().insert(plugin@, breaker@));
    }

    /// Gives `plugin` a fresh breaker built from its budget.
    pub fn register(&mut self, plugin: &PluginId, budget: &ResourceBudget)
        ensures
            final(self).breakers_view() == old(self).breakers_view().insert(
                plugin@,
                fresh_breaker(
                    BreakerPolicy {
                        max_consecutive_failures: budget.max_consecutive_failures,
                        cooldown_ms: budget.cooldown_ms,
                    },
                ),
            ),
            final(self).recent_view() == old(self).recent_view(),
            final(self).default_policy_view() == old(self).default_policy_view(),
            final(self).cascade_view() == old(self).cascade_view(),
    {
        self.set_breaker(plugin, CircuitBreaker::new(BreakerPolicy::from_budget(budget)));
    }

    /// Forgets `plugin`'s breaker.
    pub fn unregister(&mut self, plugin: &PluginId)
        ensures
            final(self).breakers_view() == old(self).breakers_view().remove(plugin@),
            final(self).recent_view() == old(self).recent_view(),
            final(self).default_policy_view() == old(self).default_policy_view(),
            final(self).cascade_view() == old(self).cascade_view(),
    {
        proof {
            use_type_invariant(&*self);
        }
        let mut breakers = AssocList::new();
        std::mem::swap(&mut breakers, &mut self.breakers);
        let _ = breakers.remove(plugin);
        self.breakers = breakers;
        assert(self.breakers_view() =~= old(self).breakers_view().remove(plugin@));
    }

    /// The state of `plugin`'s breaker when the clock reads `now`; `Closed`
    /// for a plugin without one.
    pub fn state_of_at(&self, plugin: &PluginId, now: u64) -> (r: BreakerState)
        ensures
            r == (if self.breakers_view().dom().contains(plugin@) {
                breaker_state(self.breakers_view()[plugin@], now)
            } else {
                BreakerState::Closed
            }),
    {
        match self.breakers.get(plugin) {
            Some(b) => b.state_at(now),
            None => BreakerState::Closed,
        }
    }

    /// The state of `plugin`'s breaker now.
    pub fn state_of(&self, plugin: &PluginId) -> (r: BreakerState)
        ensures
            !self.breakers_view().dom().contains(plugin@) ==> r == BreakerState::Closed,
            self.breakers_view().dom().contains(plugin@) ==> exists|now: u64|
                r == breaker_state(self.breakers_view()[plugin@], now),
    {
        self.state_of_at(plugin, now_ms())
    }

    pub fn should_cascade(&self) -> (r: bool)
        ensures
            r == (self.cascade_view() == CascadePolicy::StopDependents),
    {
        match self.cascade {
            CascadePolicy::StopDependents => true,
            CascadePolicy::IsolateOnly => false,
        }
    }

    /// Closes `plugin`'s breaker and clears its failure count; a plugin
    /// without a breaker is left without one.
    pub fn reset(&mut self, plugin: &PluginId)
        ensures
            final(self).breakers_view() == (if old(self).breakers_view().dom().contains(plugin@) {
                old(self).breakers_view().insert(
                    plugin@,
                    cleared(old(self).breakers_view()[plugin@]),
                )
            } else {
                old(self).breakers_view()
            }),
            final(self).recent_view() == old(self).recent_view(),
            final(self).default_policy_view() == old(self).default_policy_view(),
            final(self).cascade_view() == old(self).cascade_view(),
    {
        match self.breakers.get(plugin) {
            Some(b) => {
                let mut breaker = *b;
                breaker.reset();
                self.set_breaker(plugin, breaker);
            },
            None => {},
        }
    }

    /// Copies of the logged calls, oldest first.
    pub fn recent_calls(&self) -> (r: Vec<CallReport>)
        ensures
            r@.len() == self.recent_view().len(),
            forall|i: int|
                0 <= i < r@.len() ==> (#[trigger] r@[i]).plugin@ == self.recent_view()[i].plugin@
                    && r@[i].elapsed == self.recent_view()[i].elapsed && r@[i].outcome
                    == self.recent_view()[i].outcome,
    {
        let mut out: Vec<CallReport> = Vec::new();
        let mut i: usize = 0;
        while i < self.recent.len()
            invariant
                i <= self.recent@.len(),
                out@.len() == i,
                forall|j: int|
                    0 <= j < i ==> (#[trigger] out@[j]).plugin@ == self.recent@[j].plugin@
                        && out@[j].elapsed == self.recent@[j].elapsed && out@[j].outcome
                        == self.recent@[j].outcome,
            decreases self.recent@.len() - i,
        {
            let report = &self.recent[i];
            out.push(
                CallReport {
                    plugin: report.plugin.duplicate(),
                    elapsed: report.elapsed,
                    outcome: report.outcome,
                },
            );
            i = i + 1;
        }
        out
    }

    fn push_report(&mut self, report: CallReport)
        ensures
            final(self).recent_view() == bounded_report_push(old(self).recent_view(), report),
            final(self).breakers_view() == old(self).breakers_view(),
            final(self).default_policy_view() == old(self).default_policy_view(),
            final(self).cascade_view() == old(self).cascade_view(),
    {
        proof {
            use_type_invariant(&*self);
        }
        let mut recent = VecDeque::new();
        std::mem::swap(&mut recent, &mut self.recent);
        let ghost before = recent@;
        if recent.len() >= RECENT_LIMIT {
            recent.pop_front();
        }
        recent.push_back(report);
        assert(recent@ == bounded_report_push(before, report));
        self.recent = recent;
    }

    /// Asks `plugin`'s breaker to let a call through when the clock reads
    /// `now`; a plugin without a breaker gets a fresh one with the default
    /// policy and the call passes.
    pub fn acquire_at(&mut self, plugin: &PluginId, now: u64) -> (r: bool)
        ensures
            old(self).breakers_view().dom().contains(plugin@) ==> {
                let step = allow_step(old(self).breakers_view()[plugin@], now);
                &&& r == step.0
                &&& final(self).breakers_view() == old(self).breakers_view().insert(
                    plugin@,
                    step.1,
                )
            },
            !old(self).breakers_view().dom().contains(plugin@) ==> r && final(self).breakers_view()
                == old(self).breakers_view().insert(
                plugin@,
                fresh_breaker(old(self).default_policy_view()),
            ),
            final(self).recent_view() == old(self).recent_view(),
            final(self).default_policy_view() == old(self).default_policy_view(),
            final(self).cascade_view() == old(self).cascade_view(),
    {
        match self.breakers.get(plugin) {
            Some(b) => {
                let mut breaker = *b;
                let allowed = breaker.allow_at(now);
                self.set_breaker(plugin, breaker);
                allowed
            },
            None => {
                let fresh = CircuitBreaker::new(self.default_policy);
                self.set_breaker(plugin, fresh);
                true
            },
        }
    }

    /// Asks `plugin`'s breaker to let a call through now.
    pub fn acquire(&mut self, plugin: &PluginId) -> (r: bool)
        ensures
            exists|now: u64|
                r == (#[trigger] allow_step(
                    breaker_or_default(
                        old(self).breakers_view(),
                        plugin@,
                        old(self).default_policy_view(),
                    ),
                    now,
                )).0 && final(self).breakers_view() == old(self).breakers_view().insert(
                    plugin@,
                    allow_step(
                        breaker_or_default(
                            old(self).breakers_view(),
                            plugin@,
                            old(self).default_policy_view(),
                        ),
                        now,
                    ).1,
                ),
            final(self).recent_view() == old(self).recent_view(),
            final(self).default_policy_view() == old(self).default_policy_view(),
            final(self).cascade_view() == old(self).cascade_view(),
    {
        let now = now_ms();
        proof {
            lemma_cleared_is_closed(fresh_breaker(self.default_policy), now);
        }
        self.acquire_at(plugin, now)
    }

    /// Counts a success for `plugin`: its breaker closes and its failure
    /// count clears.
    pub fn record_success(&mut self, plugin: &PluginId)
        ensures
            final(self).breakers_view() == old(self).breakers_view().insert(
                plugin@,
                cleared(
                    breaker_or_default(
                        old(self).breakers_view(),
                        plugin@,
                        old(self).default_policy_view(),
                    ),
                ),
            ),
            final(self).recent_view() == old(self).recent_view(),
            final(self).default_policy_view() == old(self).default_policy_view(),
            final(self).cascade_view() == old(self).cascade_view(),
    {
        let mut breaker = match self.breakers.get(plugin) {
            Some(b) => *b,
            None => CircuitBreaker::new(self.default_policy),
        };
        breaker.record_success();
        self.set_breaker(plugin, breaker);
    }

    /// Counts a failure for `plugin` at `now`; true when it opened the
    /// breaker.
    pub fn record_failure_at(&mut self, plugin: &PluginId, now: u64) -> (r: bool)
        ensures
            ({
                let step = failure_step(
                    breaker_or_default(
                        old(self).breakers_view(),
                        plugin@,
                        old(self).default_policy_view(),
                    ),
                    now,
                );
                &&& r == step.0
                &&& final(self).breakers_view() == old(self).breakers_view().insert(
                    plugin@,
                    step.1,
                )
            }),
            final(self).recent_view() == old(self).recent_view(),
            final(self).default_policy_view() == old(self).default_policy_view(),
            final(self).cascade_view() == old(self).cascade_view(),
    {
        let mut breaker = match self.breakers.get(plugin) {
            Some(b) => *b,
            None => CircuitBreaker::new(self.default_policy),
        };
        let opened = breaker.record_failure_at(now);
        self.set_breaker(plugin, breaker);
        opened
    }

    /// Counts a failure for `plugin` now; true when it opened the breaker.
    pub fn record_failure(&mut self, plugin: &PluginId) -> (r: bool)
        ensures
            exists|now: u64|
                r == (#[trigger] failure_step(
                    breaker_or_default(
                        old(self).breakers_view(),
                        plugin@,
                        old(self).default_policy_view(),
                    ),
                    now,
                )).0 && final(self).breakers_view() == old(self).breakers_view().insert(
                    plugin@,
                    failure_step(
                        breaker_or_default(
                            old(self).breakers_view(),
                            plugin@,
                            old(self).default_policy_view(),
                        ),
                        now,
                    ).1,
                ),
            final(self).recent_view() == old(self).recent_view(),
            final(self).default_policy_view() == old(self).default_policy_view(),
            final(self).cascade_view() == old(self).cascade_view(),
    {
        self.record_failure_at(plugin, now_ms())
    }

    /// The first half of a supervised call: asks the breaker, and when it
    /// refuses logs a rejected call and reports the plugin as unavailable.
    pub fn begin_call(&mut self, plugin: &PluginId) -> (r: PluginResult<()>)
        ensures
            exists|now: u64|
                (r is Ok) == (#[trigger] allow_step(
                    breaker_or_default(
                        old(self).breakers_view(),
                        plugin@,
                        old(self).default_policy_view(),
                    ),
                    now,
                )).0 && final(self).breakers_view() == old(self).breakers_view().insert(
                    plugin@,
                    allow_step(
                        breaker_or_default(
                            old(self).breakers_view(),
                            plugin@,
                            old(self).default_policy_view(),
                        ),
                        now,
                    ).1,
                ),
            r is Ok ==> final(self).recent_view() == old(self).recent_view(),
            r matches Err(e) ==> e@ == err_view(
                ErrorCode::ServiceUnavailable,
                about_plugin(plugin@, " is circuit-broken"@),
            ) && final(self).recent_view().len() >= 1 && final(self).recent_view().drop_last()
                == bounded_report_push(
                old(self).recent_view(),
                final(self).recent_view().last(),
            ).drop_last() && final(self).recent_view().last().plugin@ == plugin@
                && final(self).recent_view().last().outcome == CallOutcome::Rejected
                && duration_millis(final(self).recent_view().last().elapsed) == 0,
            final(self).default_policy_view() == old(self).default_policy_view(),
            final(self).cascade_view() == old(self).cascade_view(),
    {
        if !self.acquire(plugin) {
            let report = CallReport {
                plugin: plugin.duplicate(),
                elapsed: zero_duration(),
                outcome: CallOutcome::Rejected,
            };
            self.push_report(report);
            let message = plugin_message(plugin, " is circuit-broken");
            return Err(PluginError::new(ErrorCode::ServiceUnavailable, message));
        }
        Ok(())
    }
    /// The second half of a supervised call: counts the outcome against the
    /// plugin's breaker, logs it, and turns it into the call's result. An
    /// error is tagged with the plugin; `budget` is the call budget as it
    /// should read in a timeout message.
    pub fn finish_call<T>(
        &mut self,
        plugin: &PluginId,
        elapsed: Duration,
        budget: &str,
        end: CallEnd<T>,
    ) -> (r: PluginResult<T>)
        ensures
            end matches CallEnd::Returned(Ok(v)) ==> r matches Ok(x) && x == v
                && final(self).breakers_view() == old(self).breakers_view().insert(
                plugin@,
                cleared(
                    breaker_or_default(
                        old(self).breakers_view(),
                        plugin@,
                        old(self).default_policy_view(),
                    ),
                ),
            ),
            !(end matches CallEnd::Returned(Ok(_))) ==> r is Err && exists|now: u64|
                final(self).breakers_view() == old(self).breakers_view().insert(
                    plugin@,
                    (#[trigger] failure_step(
                        breaker_or_default(
                            old(self).breakers_view(),
                            plugin@,
                            old(self).default_policy_view(),
                        ),
                        now,
                    )).1,
                ),
            r matches Err(e) ==> e@ == call_error(plugin@, budget@, end),
            end is SpawnFailed ==> final(self).recent_view() == old(self).recent_view(),
            !(end is SpawnFailed) ==> final(self).recent_view().len() >= 1
                && final(self).recent_view().drop_last() == bounded_report_push(
                old(self).recent_view(),
                final(self).recent_view().last(),
            ).drop_last() && final(self).recent_view().last().plugin@ == plugin@
                && final(self).recent_view().last().elapsed == elapsed
                && final(self).recent_view().last().outcome == call_outcome(end),
            final(self).default_policy_view() == old(self).default_policy_view(),
            final(self).cascade_view() == old(self).cascade_view(),
    {
        match end {
            CallEnd::Returned(Ok(value)) => {
                self.record_success(plugin);
                self.push_report(
                    CallReport {
                        plugin: plugin.duplicate(),
                        elapsed,
                        outcome: CallOutcome::Completed,
                    },
                );
                Ok(value)
            },
            CallEnd::Returned(Err(error)) => {
                self.record_failure(plugin);
                self.push_report(
                    CallReport { plugin: plugin.duplicate(), elapsed, outcome: CallOutcome::Errored },
                );
                Err(error.with_plugin(plugin.to_string()))
            },
            CallEnd::Panicked(payload) => {
                self.record_failure(plugin);
                self.push_report(
                    CallReport { plugin: plugin.duplicate(), elapsed, outcome: CallOutcome::Panic },
                );
                let mut rest = String::from_str(" panicked: ");
                rest.append(payload.as_str());
                let message = plugin_message(plugin, rest.as_str());
                Err(PluginError::new(ErrorCode::Panic, message).with_plugin(plugin.to_string()))
            },
            CallEnd::TimedOut => {
                self.record_failure(plugin);
                self.push_report(
                    CallReport { plugin: plugin.duplicate(), elapsed, outcome: CallOutcome::Timeout },
                );
                let mut rest = String::from_str(" exceeded its ");
                rest.append(budget);
                rest.append(" call budget");
                let message = plugin_message(plugin, rest.as_str());
                Err(PluginError::timeout(message).with_plugin(plugin.to_string()))
            },
            CallEnd::SpawnFailed(reason) => {
                self.record_failure(plugin);
                let mut message = concat3("cannot spawn worker for plugin '", plugin.as_str(), "': ");
                message.append(reason.as_str());
                Err(PluginError::io(message))
            },
        }
    }
}

} // verus!
