//! The plugin kernel: the table of installed plugins together with the
//! services, contributions, breakers and dependency graph they touch, and
//! the steps by which a plugin is activated, deactivated and released.
//!
//! Plugin code runs between the steps: a step that starts a call hands back
//! what the call needs, and the step that ends it takes what the call
//! produced.
use vstd::prelude::*;

use crate::container::{
    inventory_entries, lemma_revoke_undoes_registrations, provides, registered_each,
    registration_entries, text_view, without_provider, ServiceContainer, ServiceInventoryItem,
};
use crate::contributions::{
    attributed, by_order, commands_in, has_audio, processors_in, item_keys, keys_only, lemma_revoke_undoes_apply, owner_in,
    records_of, snapshot_entries, without_plugin, ContributionRegistry, ContributionSnapshotItem,
    Registered,
};
use crate::deps::{
    lemma_filter_sorted, lemma_filter_within, strong, users_first_order, affected_by, closure_set, first_unmet, left_over, loop_message, unmet, unmet_error, declared_providers, planned_order, providers, record_of, strictly_sorted, uses,
    DependencyGraph, RecordView,
};
use crate::discovery::DiscoveryIssue;
use crate::error::{err_view, error_text, ErrorCode, ErrorView, PluginError, PluginResult};
use crate::event::{EventSubscriptions, HostEvent};
use crate::ids::{keys_of, Capability, CommandId, PluginId, ServiceId, Version};
use crate::lifecycle::{is_idle, PluginState, Transition};
use crate::manifest::{about_plugin, DiscoveredPlugin, Manifest, PluginSource, PluginTier};
use crate::order::{stably_ordered, stably_sorted};
use crate::plugin::{ActivationScope, AudioProcessorSpec, DeactivateReason, HealthStatus};
use crate::runtime::{
    activation_begun, activation_completed, activation_failed, deactivation_begun,
    deactivation_finished, discovery_merged, error_recorded, undeclared_capability_error,
    passed_over, receives, target_ids, undeclared_error, unloaded_step, PluginEntry, PluginTable,
};
use crate::clock::now_ms;
use crate::service::ServiceBinding;
use crate::supervisor::{breaker_state, BreakerState, BreakerView, CascadePolicy, Supervisor};

verus! {

/// A failure of `id` at `now` stops its dependents: the policy says so and
/// `id`'s breaker is open at `now`.
pub open spec fn cascades_at(s: Supervisor, id: Seq<char>, now: u64) -> bool {
    &&& s.cascade_view() == CascadePolicy::StopDependents
    &&& s.breakers_view().dom().contains(id)
    &&& breaker_state(s.breakers_view()[id], now) is Open
}

/// Everything the runtime keeps about its plugins.
pub struct Kernel<P, S, F> {
    pub host_version: Version,
    pub table: PluginTable<P>,
    pub services: ServiceContainer<S, F>,
    pub contributions: ContributionRegistry,
    pub supervisor: Supervisor,
    pub graph: DependencyGraph,
    pub issues: Vec<DiscoveryIssue>,
}

/// What a plugin's activation call needs: the instance to call, how long
/// it may take, and the capabilities it was granted.
pub struct Activation<P> {
    pub instance: P,
    pub timeout_ms: u64,
    pub capabilities: Vec<Capability>,
}

/// How long a call into the plugin of manifest `m` may take: its budget,
/// at least one millisecond.
pub open spec fn call_budget(m: Manifest) -> u64 {
    if m.budget.call_timeout_ms == 0 {
        1
    } else {
        m.budget.call_timeout_ms
    }
}

/// The instance an activation start hands back, or its error.
pub open spec fn instance_result<P>(r: PluginResult<Activation<P>>) -> PluginResult<P> {
    match r {
        Ok(a) => Ok(a.instance),
        Err(e) => Err(e),
    }
}

/// `id` is installed, idle and loaded, so its activation can start.
pub open spec fn ready_to_activate<P>(t: Map<Seq<char>, PluginEntry<P>>, id: Seq<char>) -> bool {
    &&& t.dom().contains(id)
    &&& is_idle(t[id].tracker.state_view())
    &&& t[id].instance is Some
}

/// The error for a loaded plugin whose descriptor claims a capability its
/// manifest does not declare.
pub open spec fn runtime_overreach<P>(e: PluginEntry<P>, id: Seq<char>) -> Option<ErrorView> {
    match e.descriptor {
        Some(d) => undeclared_error(id, keys_of(e.manifest.capabilities@), keys_of(d.capabilities@)),
        None => None,
    }
}

/// What a plugin's teardown call needs, and what was withdrawn before it.
pub struct Deactivation<P> {
    pub instance: P,
    pub timeout_ms: u64,
    /// The state the plugin was in: `Active`.
    pub from: PluginState,
    /// The services the plugin had provided, now withdrawn, each once.
    pub revoked: Vec<ServiceId>,
}

/// What a deactivation start hands back, in the terms of the table.
pub open spec fn teardown_result<P>(r: PluginResult<Option<Deactivation<P>>>) -> PluginResult<
    Option<(P, u64)>,
> {
    match r {
        Ok(Some(d)) => Ok(Some((d.instance, d.timeout_ms))),
        Ok(None) => Ok(None),
        Err(e) => Err(e),
    }
}

/// `x` is installed and a core plugin.
pub open spec fn is_core<P>(t: Map<Seq<char>, PluginEntry<P>>, x: Seq<char>) -> bool {
    t.dom().contains(x) && t[x].manifest.tier == PluginTier::Core
}

/// `r` is a possible impact list of unloading `plugin`: each affected
/// plugin once, `plugin` last, every plugin before a plugin it uses.
pub open spec fn is_impact(g: Seq<RecordView>, plugin: Seq<char>, r: Seq<Seq<char>>) -> bool {
    &&& r.no_duplicates()
    &&& r.len() >= 1
    &&& r.last() == plugin
    &&& forall|y: Seq<char>| r.contains(y) <==> affected_by(g, plugin, y)
    &&& users_first_order(g, r.drop_last())
}

/// The order in which `targets` are stopped: the reverse of their
/// activation order, or the targets in their own order when there is none.
pub open spec fn stop_order(g: Seq<RecordView>, targets: Seq<Seq<char>>) -> Seq<Seq<char>> {
    match planned_order(g, targets) {
        Some(o) => o.reverse(),
        None => targets,
    }
}

/// The error refusing an uninstall that would stop the core plugin `core`.
pub open spec fn core_refusal(id: Seq<char>, core: Seq<char>) -> ErrorView {
    err_view(
        ErrorCode::PermissionDenied,
        "uninstalling '"@ + id + "' would also stop core plugin '"@ + core + "'; refused"@,
    )
}

/// `g` is the dependency graph of the installed plugins, in order of id.
pub open spec fn graph_of<P>(t: Map<Seq<char>, PluginEntry<P>>, g: Seq<RecordView>) -> bool {
    exists|ks: Seq<Seq<char>>|
        #![trigger strictly_sorted(ks)]
        {
            &&& strictly_sorted(ks)
            &&& forall|x: Seq<char>| ks.contains(x) <==> t.dom().contains(x)
            &&& g.len() == ks.len()
            &&& forall|i: int| 0 <= i < ks.len() ==> #[trigger] g[i] == record_of(t[ks[i]].manifest)
        }
}

/// What the diagnostics panel shows of one installed plugin.
#[derive(Debug, Clone)]
pub struct PluginSnapshot {
    pub id: PluginId,
    pub version: Version,
    pub source: PluginSource,
    pub tier: PluginTier,
    pub user_disableable: bool,
    pub state: PluginState,
    pub health: HealthStatus,
    pub breaker: BreakerState,
    pub last_error: Option<String>,
    pub capabilities: Vec<Capability>,
    pub depends_on: Vec<PluginId>,
    pub has_audio_processor: bool,
    pub transitions: Vec<Transition>,
}

/// Everything the diagnostics panel shows.
#[derive(Debug, Clone)]
pub struct RuntimeSnapshot {
    pub host_version: Version,
    pub plugins: Vec<PluginSnapshot>,
    pub contributions: Vec<ContributionSnapshotItem>,
    pub services: Vec<ServiceInventoryItem>,
    pub issues: Vec<DiscoveryIssue>,
}

/// `s` shows installed plugin `id` with entry `e`; its health is left
/// `Degraded` until a health check fills it in.
pub open spec fn describes<P>(s: PluginSnapshot, id: Seq<char>, e: PluginEntry<P>, audio: bool) -> bool {
    &&& s.id@ == id
    &&& s.version == e.manifest.version
    &&& s.source == e.manifest.source
    &&& s.tier == e.manifest.tier
    &&& s.user_disableable == (e.manifest.tier != PluginTier::Core)
    &&& s.state == e.tracker.state_view()
    &&& s.health == HealthStatus::Degraded
    &&& text_view(s.last_error) == e.tracker.error_view()
    &&& keys_of(s.capabilities@) == keys_of(e.manifest.capabilities@)
    &&& keys_of(s.depends_on@) == providers(e.manifest.dependencies@)
    &&& s.has_audio_processor == audio
    &&& s.transitions@ == e.tracker.history_view()
}

/// `b` is the state of `id`'s breaker at some moment: `Closed` for a plugin
/// without one.
pub open spec fn breaker_fits(b: BreakerState, breakers: Map<Seq<char>, BreakerView>, id: Seq<char>) -> bool {
    if breakers.dom().contains(id) {
        exists|now: u64| b == breaker_state(breakers[id], now)
    } else {
        b == BreakerState::Closed
    }
}

/// What activating one plugin came to: the state it is in, and the error
/// if it failed.
#[derive(Debug, Clone)]
pub struct ActivationOutcome {
    pub plugin: PluginId,
    pub state: PluginState,
    pub error: Option<String>,
}

/// The error text of a failed result.
pub open spec fn failure_text(r: PluginResult<()>) -> Option<Seq<char>> {
    match r {
        Ok(()) => None,
        Err(e) => Some(error_text(e@)),
    }
}

/// The outcome for each of `targets` when none could be activated for
/// `error`: all failed with that error.
pub fn refused_outcomes(targets: &Vec<PluginId>, error: &PluginError) -> (r: Vec<ActivationOutcome>)
    ensures
        r@.len() == targets@.len(),
        forall|i: int|
            0 <= i < r@.len() ==> (#[trigger] r@[i]).plugin@ == targets@[i]@ && r@[i].state
                == PluginState::Failed && text_view(r@[i].error) == Some(error_text(error@)),
{
    let mut out: Vec<ActivationOutcome> = Vec::new();
    let mut i: usize = 0;
    while i < targets.len()
        invariant
            i <= targets@.len(),
            out@.len() == i,
            forall|k: int|
                0 <= k < i ==> (#[trigger] out@[k]).plugin@ == targets@[k]@ && out@[k].state
                    == PluginState::Failed && text_view(out@[k].error) == Some(error_text(error@)),
        decreases targets@.len() - i,
    {
        out.push(
            ActivationOutcome {
                plugin: targets[i].duplicate(),
                state: PluginState::Failed,
                error: Some(error.to_string()),
            },
        );
        i = i + 1;
    }
    out
}

/// The processors of `s` whose plugin is active, in order.
pub open spec fn active_only<P>(t: Map<Seq<char>, PluginEntry<P>>, s: Seq<(PluginId, AudioProcessorSpec)>) -> Seq<
    (PluginId, AudioProcessorSpec),
>
    decreases s.len(),
{
    if s.len() == 0 {
        s
    } else if t.dom().contains(s.last().0@) && t[s.last().0@].tracker.state_view() == PluginState::Active {
        active_only(t, s.drop_last()).push(s.last())
    } else {
        active_only(t, s.drop_last())
    }
}

fn copy_caps(v: &Vec<Capability>) -> (r: Vec<Capability>)
    ensures
        keys_of(r@) == keys_of(v@),
{
    let mut out: Vec<Capability> = Vec::new();
    let mut i: usize = 0;
    while i < v.len()
        invariant
            i <= v@.len(),
            out@.len() == i,
            forall|k: int| 0 <= k < i ==> (#[trigger] out@[k])@ == v@[k]@,
        decreases v@.len() - i,
    {
        out.push(v[i].duplicate());
        i = i + 1;
    }
    assert(keys_of(out@) =~= keys_of(v@));
    out
}

impl<P: Clone, S, F> Kernel<P, S, F> {
    /// A kernel for host `host_version` with no plugin, service or
    /// contribution, whose supervisor follows `cascade`.
    pub fn new(host_version: Version, cascade: CascadePolicy) -> (r: Kernel<P, S, F>)
        ensures
            r.host_version == host_version,
            r.table.entries() == Map::<Seq<char>, PluginEntry<P>>::empty(),
            r.services@ == Seq::<crate::container::ServiceEntry<S, F>>::empty(),
            r.services.grants() == Map::<Seq<char>, Seq<Seq<char>>>::empty(),
            r.services.dependencies() == Map::<Seq<char>, Seq<Seq<char>>>::empty(),
            r.contributions@ == Seq::<Registered>::empty(),
            r.supervisor.breakers_view() == Map::<Seq<char>, BreakerView>::empty(),
            r.supervisor.cascade_view() == cascade,
            r.graph@ == Seq::<RecordView>::empty(),
            r.issues@ == Seq::<DiscoveryIssue>::empty(),
    {
        Kernel {
            host_version,
            table: PluginTable::new(),
            services: ServiceContainer::new(),
            contributions: ContributionRegistry::new(),
            supervisor: Supervisor::new(cascade),
            graph: DependencyGraph::new(),
            issues: Vec::new(),
        }
    }

    /// Undoes a failed activation: withdraws what the plugin contributed
    /// and provided, forgets its grants, and marks it failed.
    fn rollback_activation(&mut self, id: &PluginId, error: &PluginError)
        ensures
            final(self).contributions@ == without_plugin(old(self).contributions@, id@),
            final(self).services@ == without_provider(old(self).services@, id@),
            final(self).services.grants() == old(self).services.grants().remove(id@),
            final(self).services.dependencies() == old(self).services.dependencies().remove(id@),
            activation_failed(old(self).table.entries(), final(self).table.entries(), id@, *error),
            final(self).host_version == old(self).host_version,
            final(self).supervisor == old(self).supervisor,
            final(self).graph == old(self).graph,
            final(self).issues == old(self).issues,
    {
        self.contributions.revoke(id);
        let _ = self.services.revoke_provider(id);
        self.services.revoke_grants(id);
        self.table.fail_activation(id, error);
    }

    /// Starts activating `id`: it moves to `Activating`, is granted the
    /// capabilities its manifest declares and may resolve the providers it
    /// depends on. A loaded plugin whose descriptor claims a capability
    /// beyond its manifest is rolled back at once.
    pub fn start_activation(&mut self, id: &PluginId) -> (r: PluginResult<Activation<P>>)
        ensures
            final(self).host_version == old(self).host_version,
            final(self).supervisor == old(self).supervisor,
            final(self).graph == old(self).graph,
            final(self).issues == old(self).issues,
            !ready_to_activate(old(self).table.entries(), id@) ==> {
                &&& r is Err
                &&& activation_begun(
                    old(self).table.entries(),
                    final(self).table.entries(),
                    id@,
                    instance_result(r),
                )
                &&& final(self).services@ == old(self).services@
                &&& final(self).services.grants() == old(self).services.grants()
                &&& final(self).services.dependencies() == old(self).services.dependencies()
                &&& final(self).contributions@ == old(self).contributions@
            },
            ready_to_activate(old(self).table.entries(), id@) ==> {
                let e = old(self).table.entries()[id@];
                &&& runtime_overreach(e, id@) matches Some(x) ==> {
                    &&& r matches Err(err) && err@ == x && exists|
                        mid: Map<Seq<char>, PluginEntry<P>>,
                    |
                        activation_begun(
                            old(self).table.entries(),
                            mid,
                            id@,
                            Ok::<P, PluginError>(e.instance.unwrap()),
                        ) && activation_failed(mid, final(self).table.entries(), id@, err)
                    &&& final(self).contributions@ == without_plugin(old(self).contributions@, id@)
                    &&& final(self).services@ == without_provider(old(self).services@, id@)
                    &&& final(self).services.grants() == old(self).services.grants().remove(id@)
                    &&& final(self).services.dependencies() == old(
                        self,
                    ).services.dependencies().remove(id@)
                }
                &&& runtime_overreach(e, id@) is None ==> {
                    &&& r matches Ok(a) && cloned(e.instance.unwrap(), a.instance) && a.timeout_ms
                        == call_budget(e.manifest) && keys_of(a.capabilities@) == keys_of(
                        e.manifest.capabilities@,
                    ) && activation_begun(
                        old(self).table.entries(),
                        final(self).table.entries(),
                        id@,
                        Ok::<P, PluginError>(a.instance),
                    )
                    &&& final(self).contributions@ == old(self).contributions@
                    &&& final(self).services@ == old(self).services@
                    &&& final(self).services.grants() == old(self).services.grants().insert(
                        id@,
                        keys_of(e.manifest.capabilities@),
                    )
                    &&& final(self).services.dependencies() == old(
                        self,
                    ).services.dependencies().insert(id@, providers(e.manifest.dependencies@))
                }
            },
    {
        let ghost t0 = self.table.entries();
        let began = self.table.begin_activation(id);
        let instance = match began {
            Ok(i) => i,
            Err(e) => {
                return Err(e);
            },
        };
        let ghost mid = self.table.entries();
        proof {
            assert(self.table.entries().dom().contains(id@));
        }
        let entry = self.table.get(id).unwrap();
        let capabilities = copy_caps(&entry.manifest.capabilities);
        let declared = declared_providers(&entry.manifest);
        let budget = entry.manifest.budget.call_timeout_ms;
        let timeout_ms = if budget == 0 {
            1
        } else {
            budget
        };
        let overreach = match &entry.descriptor {
            Some(d) => undeclared_capability_error(id, &entry.manifest.capabilities, &d.capabilities),
            None => None,
        };
        self.services.grant(id, copy_caps(&capabilities));
        self.services.declare_dependencies(id, declared);
        match overreach {
            Some(error) => {
                self.rollback_activation(id, &error);
                proof {
                    assert(self.services.grants() =~= old(self).services.grants().remove(id@));
                    assert(self.services.dependencies() =~= old(self).services.dependencies().remove(
                        id@,
                    ));
                }
                Err(error)
            },
            None => Ok(Activation { instance, timeout_ms, capabilities }),
        }
    }

    /// Ends an activation with what the plugin's activation call produced.
    /// On success the plugin's services are registered, its contributions
    /// applied, its subscriptions recorded, and it becomes active; if it
    /// cannot, what it contributed and provided is withdrawn again. On
    /// failure the activation is rolled back; the second value then says
    /// whether the supervisor's policy asks to stop the plugin's
    /// dependents, its breaker being open at `now`.
    pub fn finish_activation_at(
        &mut self,
        id: &PluginId,
        outcome: PluginResult<ActivationScope<S>>,
        now: u64,
    ) -> (r: (PluginResult<()>, bool))
        ensures
            final(self).host_version == old(self).host_version,
            final(self).supervisor == old(self).supervisor,
            final(self).graph == old(self).graph,
            final(self).issues == old(self).issues,
            outcome matches Err(error) ==> {
                &&& r.0 matches Err(e) && e@ == error@
                &&& final(self).contributions@ == without_plugin(old(self).contributions@, id@)
                &&& final(self).services@ == without_provider(old(self).services@, id@)
                &&& final(self).services.grants() == old(self).services.grants().remove(id@)
                &&& final(self).services.dependencies() == old(
                    self,
                ).services.dependencies().remove(id@)
                &&& activation_failed(
                    old(self).table.entries(),
                    final(self).table.entries(),
                    id@,
                    error,
                )
                &&& r.1 == cascades_at(old(self).supervisor, id@, now)
            },
            outcome matches Ok(scope) ==> {
                let t0 = old(self).table.entries();
                let t1 = final(self).table.entries();
                &&& !r.1
                &&& final(self).services.grants() == old(self).services.grants()
                &&& final(self).services.dependencies() == old(self).services.dependencies()
                &&& !t0.dom().contains(id@) ==> {
                    &&& r.0 is Ok
                    &&& t1 == t0
                    &&& final(self).contributions@ == old(self).contributions@
                    &&& registered_each(
                        old(self).services@,
                        final(self).services@,
                        *id,
                        scope.services_view(),
                    )
                }
                &&& t0.dom().contains(id@) ==> {
                    &&& activation_completed(
                        t0,
                        t1,
                        id@,
                        scope.subscriptions_view(),
                        r.0,
                    )
                    &&& r.0 is Ok ==> {
                        &&& registered_each(
                            old(self).services@,
                            final(self).services@,
                            *id,
                            scope.services_view(),
                        )
                        &&& records_of(final(self).contributions@) == records_of(
                            without_plugin(old(self).contributions@, id@),
                        ) + attributed(*id, scope.contributions_view())
                    }
                    &&& r.0 is Err ==> {
                        &&& final(self).services@ == without_provider(old(self).services@, id@)
                        &&& final(self).contributions@ == without_plugin(
                            old(self).contributions@,
                            id@,
                        )
                    }
                }
            },
    {
        match outcome {
            Err(error) => {
                self.rollback_activation(id, &error);
                let open = match self.supervisor.state_of_at(id, now) {
                    BreakerState::Open { .. } => true,
                    _ => false,
                };
                let cascade = self.supervisor.should_cascade() && open;
                (Err(error), cascade)
            },
            Ok(scope) => {
                let (contributions, bindings, patterns) = scope.into_parts();
                let ghost all = bindings@;
                let ghost s0 = self.services@;
                let mut rest = bindings;
                let ghost mut n: int = 0;
                assert(all.take(0) =~= Seq::<ServiceBinding<S>>::empty());
                assert(all.skip(0) =~= all);
                while rest.len() > 0
                    invariant
                        0 <= n <= all.len(),
                        rest@ == all.skip(n),
                        registered_each(s0, self.services@, *id, all.take(n)),
                        self.services.grants() == old(self).services.grants(),
                        self.services.dependencies() == old(self).services.dependencies(),
                        self.table.entries() == old(self).table.entries(),
                        self.contributions@ == old(self).contributions@,
                        self.host_version == old(self).host_version,
                        self.supervisor == old(self).supervisor,
                        self.graph == old(self).graph,
                        self.issues == old(self).issues,
                    decreases rest@.len(),
                {
                    let binding = rest.remove(0);
                    let ghost before = self.services@;
                    proof {
                        assert(binding == all[n]);
                        assert(rest@ =~= all.skip(n + 1));
                        assert(all.take(n + 1).drop_last() =~= all.take(n));
                    }
                    let _ = self.services.register_plugin(id, binding);
                    proof {
                        let grown = all.take(n + 1);
                        assert(grown.last() == binding);
                        assert(grown.drop_last() =~= all.take(n));
                        assert(registered_each(s0, before, *id, grown.drop_last()));
                        assert(crate::container::plugin_registration(
                            before,
                            self.services@,
                            *id,
                            grown.last(),
                        ));
                        assert(registered_each(s0, self.services@, *id, grown));
                        n = n + 1;
                    }
                }
                assert(all.take(n) =~= all);
                let subscriptions = EventSubscriptions::from_patterns(patterns);
                if self.table.get(id).is_none() {
                    return (Ok(()), false);
                }
                let ghost registered = self.services@;
                let ghost applied_from = self.contributions@;
                let ghost items = contributions@;
                self.contributions.apply(id, contributions);
                let completed = self.table.complete_activation(id, subscriptions);
                match completed {
                    Ok(()) => (Ok(()), false),
                    Err(error) => {
                        let ghost applied = self.contributions@;
                        self.contributions.revoke(id);
                        let _ = self.services.revoke_provider(id);
                        proof {
                            lemma_revoke_undoes_apply(applied_from, applied, *id, items);
                            lemma_revoke_undoes_registrations(s0, registered, *id, all);
                        }
                        (Err(error), false)
                    },
                }
            },
        }
    }

    /// Ends an activation with what the plugin's activation call produced.
    /// On success the plugin's services are registered, its contributions
    /// applied, its subscriptions recorded, and it becomes active; if it
    /// cannot, what it contributed and provided is withdrawn again. On
    /// failure the activation is rolled back; the second value then says
    /// whether the supervisor's policy asks to stop the plugin's
    /// dependents, as `finish_activation_at` decides it for the clock's
    /// reading.
    pub fn finish_activation(
        &mut self,
        id: &PluginId,
        outcome: PluginResult<ActivationScope<S>>,
    ) -> (r: (PluginResult<()>, bool))
        ensures
            final(self).host_version == old(self).host_version,
            final(self).supervisor == old(self).supervisor,
            final(self).graph == old(self).graph,
            final(self).issues == old(self).issues,
            outcome matches Err(error) ==> {
                &&& r.0 matches Err(e) && e@ == error@
                &&& final(self).contributions@ == without_plugin(old(self).contributions@, id@)
                &&& final(self).services@ == without_provider(old(self).services@, id@)
                &&& final(self).services.grants() == old(self).services.grants().remove(id@)
                &&& final(self).services.dependencies() == old(
                    self,
                ).services.dependencies().remove(id@)
                &&& activation_failed(
                    old(self).table.entries(),
                    final(self).table.entries(),
                    id@,
                    error,
                )
                &&& exists|now: u64| r.1 == #[trigger] cascades_at(old(self).supervisor, id@, now)
            },
            outcome matches Ok(scope) ==> {
                let t0 = old(self).table.entries();
                let t1 = final(self).table.entries();
                &&& !r.1
                &&& final(self).services.grants() == old(self).services.grants()
                &&& final(self).services.dependencies() == old(self).services.dependencies()
                &&& !t0.dom().contains(id@) ==> {
                    &&& r.0 is Ok
                    &&& t1 == t0
                    &&& final(self).contributions@ == old(self).contributions@
                    &&& registered_each(
                        old(self).services@,
                        final(self).services@,
                        *id,
                        scope.services_view(),
                    )
                }
                &&& t0.dom().contains(id@) ==> {
                    &&& activation_completed(
                        t0,
                        t1,
                        id@,
                        scope.subscriptions_view(),
                        r.0,
                    )
                    &&& r.0 is Ok ==> {
                        &&& registered_each(
                            old(self).services@,
                            final(self).services@,
                            *id,
                            scope.services_view(),
                        )
                        &&& records_of(final(self).contributions@) == records_of(
                            without_plugin(old(self).contributions@, id@),
                        ) + attributed(*id, scope.contributions_view())
                    }
                    &&& r.0 is Err ==> {
                        &&& final(self).services@ == without_provider(old(self).services@, id@)
                        &&& final(self).contributions@ == without_plugin(
                            old(self).contributions@,
                            id@,
                        )
                    }
                }
            },
    {
        let now = now_ms();
        self.finish_activation_at(id, outcome, now)
    }

    /// Starts deactivating `id` for `reason`. A plugin that is not active
    /// needs nothing (`None`) or is refused; an active one moves to
    /// `Deactivating`, and what it contributed, the services it provided and
    /// its grants are withdrawn before its teardown is called.
    pub fn start_deactivation(&mut self, id: &PluginId, reason: DeactivateReason) -> (r: PluginResult<
        Option<Deactivation<P>>,
    >)
        ensures
            final(self).host_version == old(self).host_version,
            final(self).supervisor == old(self).supervisor,
            final(self).graph == old(self).graph,
            final(self).issues == old(self).issues,
            deactivation_begun(
                old(self).table.entries(),
                final(self).table.entries(),
                id@,
                reason,
                teardown_result(r),
            ),
            r matches Ok(Some(d)) ==> {
                &&& d.from == PluginState::Active
                &&& final(self).contributions@ == without_plugin(old(self).contributions@, id@)
                &&& final(self).services@ == without_provider(old(self).services@, id@)
                &&& final(self).services.grants() == old(self).services.grants().remove(id@)
                &&& final(self).services.dependencies() == old(
                    self,
                ).services.dependencies().remove(id@)
                &&& forall|a: int, b: int|
                    0 <= a < b < d.revoked@.len() ==> d.revoked@[a]@ != d.revoked@[b]@
                &&& forall|x: Seq<char>|
                    keys_of(d.revoked@).contains(x) <==> provides(old(self).services@, id@, x)
            },
            !(r matches Ok(Some(_))) ==> {
                &&& final(self).contributions@ == old(self).contributions@
                &&& final(self).services@ == old(self).services@
                &&& final(self).services.grants() == old(self).services.grants()
                &&& final(self).services.dependencies() == old(self).services.dependencies()
            },
    {
        match self.table.begin_deactivation(id, reason) {
            Err(e) => Err(e),
            Ok(None) => Ok(None),
            Ok(Some((instance, timeout_ms))) => {
                self.contributions.revoke(id);
                let revoked = self.services.revoke_provider(id);
                self.services.revoke_grants(id);
                Ok(Some(Deactivation { instance, timeout_ms, from: PluginState::Active, revoked }))
            },
        }
    }

    /// Ends a deactivation with what the plugin's teardown returned: the
    /// plugin stops, or fails with the teardown's error.
    pub fn end_deactivation(
        &mut self,
        id: &PluginId,
        result: &PluginResult<()>,
        reason: DeactivateReason,
    )
        ensures
            deactivation_finished(
                old(self).table.entries(),
                final(self).table.entries(),
                id@,
                *result,
                reason,
            ),
            final(self).host_version == old(self).host_version,
            final(self).services@ == old(self).services@,
            final(self).services.grants() == old(self).services.grants(),
            final(self).services.dependencies() == old(self).services.dependencies(),
            final(self).contributions@ == old(self).contributions@,
            final(self).supervisor == old(self).supervisor,
            final(self).graph == old(self).graph,
            final(self).issues == old(self).issues,
    {
        self.table.finish_deactivation(id, result, reason);
    }

    /// Releases the code of `id`, which must be loaded, stopped or failed:
    /// its breaker, grants, services and contributions go with it. Hands
    /// back the state it was in.
    pub fn unload(&mut self, id: &PluginId) -> (r: PluginResult<PluginState>)
        ensures
            unloaded_step(old(self).table.entries(), final(self).table.entries(), id@, r),
            final(self).host_version == old(self).host_version,
            final(self).graph == old(self).graph,
            final(self).issues == old(self).issues,
            r is Err ==> {
                &&& final(self).contributions@ == old(self).contributions@
                &&& final(self).services@ == old(self).services@
                &&& final(self).services.grants() == old(self).services.grants()
                &&& final(self).services.dependencies() == old(self).services.dependencies()
                &&& final(self).supervisor == old(self).supervisor
            },
            r is Ok ==> {
                &&& final(self).contributions@ == without_plugin(old(self).contributions@, id@)
                &&& final(self).services@ == without_provider(old(self).services@, id@)
                &&& final(self).services.grants() == old(self).services.grants().remove(id@)
                &&& final(self).services.dependencies() == old(
                    self,
                ).services.dependencies().remove(id@)
                &&& final(self).supervisor.breakers_view() == old(
                    self,
                ).supervisor.breakers_view().remove(id@)
                &&& final(self).supervisor.recent_view() == old(self).supervisor.recent_view()
                &&& final(self).supervisor.cascade_view() == old(self).supervisor.cascade_view()
                &&& final(self).supervisor.default_policy_view() == old(
                    self,
                ).supervisor.default_policy_view()
            },
    {
        let state = match self.table.unload(id) {
            Err(e) => {
                return Err(e);
            },
            Ok(state) => state,
        };
        self.supervisor.unregister(id);
        self.services.revoke_grants(id);
        let _ = self.services.revoke_provider(id);
        self.contributions.revoke(id);
        Ok(state)
    }

    /// The plugins to stop and release to uninstall `id`, in stopping order:
    /// `id` and every plugin that uses it, users first and `id` last.
    /// Refused for a core plugin, and when the plugins that would stop with
    /// it include a core plugin.
    pub fn uninstall_plan(&self, id: &PluginId) -> (r: PluginResult<Vec<PluginId>>)
        ensures
            is_core(self.table.entries(), id@) ==> (r matches Err(e) && e@ == err_view(
                ErrorCode::PermissionDenied,
                about_plugin(id@, " is a core plugin and cannot be "@ + "uninstalled"@ + " by the user"@),
            )),
            !is_core(self.table.entries(), id@) ==> exists|impact: Seq<Seq<char>>|
                #![trigger is_impact(self.graph@, id@, impact)]
                is_impact(self.graph@, id@, impact) && {
                    let order = impact;
                    &&& (forall|k: int|
                        0 <= k < order.len() ==> !is_core(self.table.entries(), #[trigger] order[k]))
                        ==> (r matches Ok(o) && keys_of(o@) == order)
                    &&& (exists|k: int|
                        0 <= k < order.len() && is_core(self.table.entries(), #[trigger] order[k]))
                        ==> (r matches Err(e) && exists|k: int|
                        0 <= k < order.len() && is_core(self.table.entries(), #[trigger] order[k])
                            && (forall|j: int|
                            0 <= j < k ==> !is_core(self.table.entries(), #[trigger] order[j]))
                            && e@ == core_refusal(id@, order[k]))
                },
    {
        match self.table.guard_user_action(id, "uninstalled") {
            Err(e) => {
                return Err(e);
            },
            Ok(()) => {},
        }
        let order = self.graph.unload_impact(id);
        let ghost t = self.table.entries();
        let ghost ord = keys_of(order@);
        proof {
            assert(is_impact(self.graph@, id@, ord));
        }
        match self.table.uninstall_refusal(id, &order) {
            Some(e) => {
                proof {
                    let k = choose|k: int|
                        0 <= k < order@.len() && t.dom().contains(#[trigger] order@[k]@)
                            && t[order@[k]@].manifest.tier == PluginTier::Core && (forall|j: int|
                            0 <= j < k ==> !(t.dom().contains(#[trigger] order@[j]@)
                                && t[order@[j]@].manifest.tier == PluginTier::Core)) && e@
                            == core_refusal(id@, order@[k]@);
                    assert(ord[k] == order@[k]@);
                    assert(is_core(t, ord[k]));
                    assert forall|j: int| 0 <= j < k implies !is_core(t, #[trigger] ord[j]) by {
                        assert(ord[j] == order@[j]@);
                    }
                }
                Err(e)
            },
            None => {
                proof {
                    assert forall|k: int| 0 <= k < ord.len() implies !is_core(t, #[trigger] ord[k]) by {
                        assert(ord[k] == order@[k]@);
                    }
                }
                Ok(order)
            },
        }
    }

    /// The order in which the plugins marked for eager activation are
    /// activated; when there is none, the eager plugins and why.
    pub fn activation_plan(&self) -> (r: Result<Vec<PluginId>, (Vec<PluginId>, PluginError)>)
        ensures
            exists|targets: Seq<Seq<char>>|
                #![trigger planned_order(self.graph@, targets)]
                {
                    &&& strictly_sorted(targets)
                    &&& forall|x: Seq<char>|
                        targets.contains(x) <==> (self.table.entries().dom().contains(x)
                            && self.table.entries()[x].manifest.activation.eager)
                    &&& r is Ok <==> planned_order(self.graph@, targets) is Some
                    &&& r matches Ok(o) ==> planned_order(self.graph@, targets) == Some(keys_of(o@))
                    &&& r matches Err((ts, _)) ==> keys_of(ts@) == targets
                    &&& forall|k: int| #[trigger]
                        first_unmet(self.graph@, targets, k) ==> (r matches Err((_, e)) && e@
                            == unmet_error(self.graph@, targets[k]))
                    &&& (forall|k: int|
                        0 <= k < targets.len() ==> !unmet(self.graph@, #[trigger] targets[k]))
                        ==> (r matches Err((_, e)) ==> exists|left: Seq<Seq<char>>|
                        left_over(self.graph@, closure_set(self.graph@, targets), left) && e@
                            == err_view(ErrorCode::InvalidArgument, loop_message(left)))
                },
    {
        let targets = self.table.eager_targets();
        let planned = self.graph.activation_order(targets.as_slice());
        proof {
            assert(planned_order(self.graph@, keys_of(targets@)) == planned_order(
                self.graph@,
                keys_of(targets@),
            ));
        }
        match planned {
            Ok(order) => Ok(order),
            Err(error) => Err((targets, error)),
        }
    }

    /// The plugin that handles `command`: the first to have registered it.
    pub fn command_owner(&self, command: &CommandId) -> (r: PluginResult<PluginId>)
        ensures
            r is Ok <==> owner_in(commands_in(records_of(self.contributions@)), command@) is Some,
            r matches Ok(p) ==> Some(p) == owner_in(
                commands_in(records_of(self.contributions@)),
                command@,
            ),
            r matches Err(e) ==> e@ == err_view(
                ErrorCode::NotFound,
                "no plugin handles command '"@ + command@ + "'"@,
            ),
    {
        match self.contributions.owner_of_command(command) {
            Some(p) => Ok(p),
            None => Err(
                PluginError::not_found(
                    crate::text::concat3("no plugin handles command '", command.as_str(), "'"),
                ),
            ),
        }
    }

    /// Records a failed call into `id` at `now`; says whether the
    /// supervisor's policy asks to stop the plugin's dependents: it does when
    /// the policy is to stop them and `id`'s breaker is open at `now`.
    pub fn record_failure_at(&mut self, id: &PluginId, error: &PluginError, now: u64) -> (r: bool)
        ensures
            error_recorded(
                old(self).table.entries(),
                final(self).table.entries(),
                id@,
                error_text(error@),
            ),
            r == cascades_at(old(self).supervisor, id@, now),
            final(self).host_version == old(self).host_version,
            final(self).services@ == old(self).services@,
            final(self).services.grants() == old(self).services.grants(),
            final(self).services.dependencies() == old(self).services.dependencies(),
            final(self).contributions@ == old(self).contributions@,
            final(self).supervisor == old(self).supervisor,
            final(self).graph == old(self).graph,
            final(self).issues == old(self).issues,
    {
        let text = error.to_string();
        self.table.record_error(id, text.as_str());
        let open = match self.supervisor.state_of_at(id, now) {
            BreakerState::Open { .. } => true,
            _ => false,
        };
        self.supervisor.should_cascade() && open
    }

    /// Records a failed call into `id` now; says whether the supervisor's
    /// policy asks to stop the plugin's dependents, as `record_failure_at`
    /// decides it for the clock's reading.
    pub fn record_failure(&mut self, id: &PluginId, error: &PluginError) -> (r: bool)
        ensures
            error_recorded(
                old(self).table.entries(),
                final(self).table.entries(),
                id@,
                error_text(error@),
            ),
            exists|now: u64| r == #[trigger] cascades_at(old(self).supervisor, id@, now),
            final(self).host_version == old(self).host_version,
            final(self).services@ == old(self).services@,
            final(self).services.grants() == old(self).services.grants(),
            final(self).services.dependencies() == old(self).services.dependencies(),
            final(self).contributions@ == old(self).contributions@,
            final(self).supervisor == old(self).supervisor,
            final(self).graph == old(self).graph,
            final(self).issues == old(self).issues,
    {
        let now = now_ms();
        self.record_failure_at(id, error, now)
    }

    /// Rebuilds the dependency graph from the installed plugins' manifests.
    pub fn rebuild_graph(&mut self)
        ensures
            graph_of(final(self).table.entries(), final(self).graph@),
            final(self).table.entries() == old(self).table.entries(),
            final(self).host_version == old(self).host_version,
            final(self).services@ == old(self).services@,
            final(self).services.grants() == old(self).services.grants(),
            final(self).services.dependencies() == old(self).services.dependencies(),
            final(self).contributions@ == old(self).contributions@,
            final(self).supervisor == old(self).supervisor,
            final(self).issues == old(self).issues,
    {
        let ids = self.table.installed();
        let ghost t = self.table.entries();
        let ghost ks = keys_of(ids@);
        let mut graph = DependencyGraph::new();
        let mut i: usize = 0;
        while i < ids.len()
            invariant
                i <= ids@.len(),
                t == self.table.entries(),
                ks == keys_of(ids@),
                forall|x: Seq<char>| ks.contains(x) <==> t.dom().contains(x),
                graph@.len() == i,
                forall|k: int| 0 <= k < i ==> #[trigger] graph@[k] == record_of(t[ks[k]].manifest),
            decreases ids@.len() - i,
        {
            proof {
                assert(ks[i as int] == ids@[i as int]@);
                assert(ks.contains(ids@[i as int]@));
            }
            let entry = self.table.get(&ids[i]).unwrap();
            graph.add(&entry.manifest);
            i = i + 1;
        }
        self.graph = graph;
        proof {
            assert(strictly_sorted(ks));
        }
    }

    /// Takes the outcome of a discovery: the accepted plugins are merged
    /// into the table, the graph is rebuilt and the issues are kept.
    pub fn take_discovery(&mut self, found: Vec<DiscoveredPlugin>, issues: Vec<DiscoveryIssue>)
        ensures
            discovery_merged(old(self).table.entries(), final(self).table.entries(), found@),
            graph_of(final(self).table.entries(), final(self).graph@),
            final(self).issues@ == issues@,
            final(self).host_version == old(self).host_version,
            final(self).services@ == old(self).services@,
            final(self).services.grants() == old(self).services.grants(),
            final(self).services.dependencies() == old(self).services.dependencies(),
            final(self).contributions@ == old(self).contributions@,
            final(self).supervisor == old(self).supervisor,
    {
        self.table.merge_discovered(found);
        self.rebuild_graph();
        self.issues = issues;
    }

    /// A snapshot of each installed plugin, in order of id.
    pub fn plugin_snapshots(&self) -> (r: Vec<PluginSnapshot>)
        ensures
            exists|ks: Seq<Seq<char>>|
                #![trigger strictly_sorted(ks)]
                {
                    &&& strictly_sorted(ks)
                    &&& forall|x: Seq<char>| ks.contains(x) <==> self.table.entries().dom().contains(x)
                    &&& r@.len() == ks.len()
                    &&& forall|i: int|
                        0 <= i < ks.len() ==> describes(
                            #[trigger] r@[i],
                            ks[i],
                            self.table.entries()[ks[i]],
                            has_audio(records_of(self.contributions@), ks[i]),
                        ) && breaker_fits(r@[i].breaker, self.supervisor.breakers_view(), ks[i])
                },
    {
        let ids = self.table.installed();
        let ghost t = self.table.entries();
        let ghost ks = keys_of(ids@);
        let mut out: Vec<PluginSnapshot> = Vec::new();
        let mut i: usize = 0;
        while i < ids.len()
            invariant
                i <= ids@.len(),
                t == self.table.entries(),
                ks == keys_of(ids@),
                forall|x: Seq<char>| ks.contains(x) <==> t.dom().contains(x),
                out@.len() == i,
                forall|k: int|
                    0 <= k < i ==> describes(
                        #[trigger] out@[k],
                        ks[k],
                        t[ks[k]],
                        has_audio(records_of(self.contributions@), ks[k]),
                    ) && breaker_fits(out@[k].breaker, self.supervisor.breakers_view(), ks[k]),
            decreases ids@.len() - i,
        {
            let id = &ids[i];
            proof {
                assert(ks[i as int] == id@);
                assert(ks.contains(id@));
            }
            let e = self.table.get(id).unwrap();
            let m = &e.manifest;
            let last_error = match e.tracker.last_error() {
                Some(text) => Some(String::from_str(text)),
                None => None,
            };
            let history = e.tracker.history();
            let mut transitions: Vec<Transition> = Vec::new();
            let mut j: usize = 0;
            while j < history.len()
                invariant
                    j <= history@.len(),
                    transitions@.len() == j,
                    forall|k: int| 0 <= k < j ==> transitions@[k] == history@[k],
                decreases history@.len() - j,
            {
                transitions.push(history[j].duplicate());
                j = j + 1;
            }
            assert(transitions@ =~= history@);
            let snapshot = PluginSnapshot {
                id: id.duplicate(),
                version: m.version,
                source: m.source,
                tier: m.tier,
                user_disableable: m.is_user_disableable(),
                state: e.tracker.state(),
                health: HealthStatus::Degraded,
                breaker: self.supervisor.state_of(id),
                last_error,
                capabilities: copy_caps(&m.capabilities),
                depends_on: declared_providers(m),
                has_audio_processor: self.contributions.provides_audio(id),
                transitions,
            };
            out.push(snapshot);
            i = i + 1;
        }
        proof {
            assert(strictly_sorted(ks));
        }
        out
    }

    /// The diagnostics snapshot: the host version, each installed plugin,
    /// the contributions and services registered, and the issues of the
    /// last discovery. Health is left `Degraded` until checked.
    pub fn diagnostics(&self) -> (r: RuntimeSnapshot)
        ensures
            r.host_version == self.host_version,
            exists|ks: Seq<Seq<char>>|
                #![trigger strictly_sorted(ks)]
                {
                    &&& strictly_sorted(ks)
                    &&& forall|x: Seq<char>| ks.contains(x) <==> self.table.entries().dom().contains(x)
                    &&& r.plugins@.len() == ks.len()
                    &&& forall|i: int|
                        0 <= i < ks.len() ==> describes(
                            #[trigger] r.plugins@[i],
                            ks[i],
                            self.table.entries()[ks[i]],
                            has_audio(records_of(self.contributions@), ks[i]),
                        ) && breaker_fits(r.plugins@[i].breaker, self.supervisor.breakers_view(), ks[i])
                },
            stably_sorted(item_keys(r.contributions@), keys_only(snapshot_entries(self.contributions@))),
            stably_sorted(inventory_entries(r.services@), registration_entries(self.services@)),
            r.issues@ == self.issues@,
    {
        let mut issues: Vec<DiscoveryIssue> = Vec::new();
        let mut i: usize = 0;
        while i < self.issues.len()
            invariant
                i <= self.issues@.len(),
                issues@.len() == i,
                forall|k: int| 0 <= k < i ==> issues@[k] == self.issues@[k],
            decreases self.issues@.len() - i,
        {
            issues.push(self.issues[i].duplicate());
            i = i + 1;
        }
        assert(issues@ =~= self.issues@);
        RuntimeSnapshot {
            host_version: self.host_version,
            plugins: self.plugin_snapshots(),
            contributions: self.contributions.snapshot(),
            services: self.services.inventory(),
            issues,
        }
    }

    /// What activating `id` came to, given the activation's result: the
    /// state the plugin is now in (`Failed` if it is not installed), and the
    /// error if there was one.
    pub fn activation_outcome(&self, id: &PluginId, result: &PluginResult<()>) -> (r: ActivationOutcome)
        ensures
            r.plugin@ == id@,
            r.state == (if self.table.entries().dom().contains(id@) {
                self.table.entries()[id@].tracker.state_view()
            } else {
                PluginState::Failed
            }),
            text_view(r.error) == failure_text(*result),
    {
        let state = match self.table.state_of(id) {
            Some(s) => s,
            None => PluginState::Failed,
        };
        let error = match result {
            Ok(()) => None,
            Err(e) => Some(e.to_string()),
        };
        ActivationOutcome { plugin: id.duplicate(), state, error }
    }

    /// The audio processors of active plugins, by ascending order;
    /// processors of equal order in the order they were contributed.
    pub fn active_processors(&self) -> (r: Vec<(PluginId, AudioProcessorSpec)>)
        ensures
            exists|ordered: Seq<(PluginId, AudioProcessorSpec)>|
                #![trigger active_only(self.table.entries(), ordered)]
                stably_ordered(by_order(ordered), by_order(processors_in(records_of(self.contributions@))))
                    && r@ == active_only(self.table.entries(), ordered),
    {
        let all = self.contributions.audio_processors();
        let ghost t = self.table.entries();
        let mut out: Vec<(PluginId, AudioProcessorSpec)> = Vec::new();
        let mut rest = all;
        let ghost src = rest@;
        let ghost mut n: int = 0;
        assert(src.skip(0) =~= src);
        assert(src.take(0) =~= Seq::<(PluginId, AudioProcessorSpec)>::empty());
        while rest.len() > 0
            invariant
                0 <= n <= src.len(),
                rest@ == src.skip(n),
                t == self.table.entries(),
                out@ == active_only(t, src.take(n)),
            decreases rest@.len(),
        {
            let item = rest.remove(0);
            proof {
                assert(src.skip(n)[0] == src[n]);
                assert(item == src[n]);
                assert(rest@ =~= src.skip(n + 1));
                assert(src.take(n + 1).drop_last() =~= src.take(n));
                assert(src.take(n + 1).last() == item);
            }
            if self.table.is_active(&item.0) {
                out.push(item);
            }
            proof {
                n = n + 1;
            }
        }
        assert(src.take(n) =~= src);
        out
    }

    /// The plugins to stop when `id` stops or fails: those active now that
    /// cannot run without it, each once, by id.
    pub fn cascade_targets(&self, id: &PluginId) -> (r: Vec<PluginId>)
        ensures
            strictly_sorted(keys_of(r@)),
            forall|a: Seq<char>|
                keys_of(r@).contains(a) <==> (strong(self.graph@, a, id@)
                    && self.table.entries().dom().contains(a)
                    && self.table.entries()[a].tracker.state_view() == PluginState::Active),
    {
        let users = self.graph.required_dependents_of(id);
        let ghost uv = keys_of(users@);
        let mut out: Vec<PluginId> = Vec::new();
        let mut i: usize = 0;
        while i < users.len()
            invariant
                i <= users@.len(),
                uv == keys_of(users@),
                strictly_sorted(uv),
                forall|a: Seq<char>| uv.contains(a) <==> strong(self.graph@, a, id@),
                keys_of(out@) == uv.take(i as int).filter(
                    |a: Seq<char>|
                        self.table.entries().dom().contains(a)
                            && self.table.entries()[a].tracker.state_view() == PluginState::Active,
                ),
            decreases users@.len() - i,
        {
            let active = self.table.is_active(&users[i]);
            proof {
                let s1 = uv.take(i as int + 1);
                assert(s1.drop_last() =~= uv.take(i as int));
                assert(s1.last() == users@[i as int]@);
                reveal(Seq::filter);
            }
            if active {
                out.push(users[i].duplicate());
                proof {
                    assert(keys_of(out@) =~= keys_of(out@).drop_last().push(users@[i as int]@));
                }
            }
            i = i + 1;
        }
        proof {
            let p = |a: Seq<char>|
                self.table.entries().dom().contains(a)
                    && self.table.entries()[a].tracker.state_view() == PluginState::Active;
            assert(uv.take(uv.len() as int) =~= uv);
            let f = uv.filter(p);
            lemma_filter_within(uv, p);
            assert forall|a: Seq<char>| f.contains(a) <==> (uv.contains(a) && p(a)) by {
                if f.contains(a) {
                    let k = choose|k: int| 0 <= k < f.len() && f[k] == a;
                    assert(uv.contains(f[k]) && p(f[k]));
                }
                if uv.contains(a) && p(a) {
                    let k = choose|k: int| 0 <= k < uv.len() && uv[k] == a;
                    uv.lemma_filter_contains(p, k);
                }
            }
            lemma_filter_sorted(uv, p);
        }
        out
    }

    /// The order in which the installed plugins are stopped at shutdown.
    pub fn shutdown_order(&self) -> (r: Vec<PluginId>)
        ensures
            exists|ks: Seq<Seq<char>>|
                #![trigger strictly_sorted(ks)]
                strictly_sorted(ks) && (forall|x: Seq<char>|
                    ks.contains(x) <==> self.table.entries().dom().contains(x)) && keys_of(r@)
                    == stop_order(self.graph@, ks),
    {
        let ids = self.table.installed();
        let order = self.graph.deactivation_order(ids.as_slice());
        proof {
            assert(strictly_sorted(keys_of(ids@)));
        }
        order
    }

    /// Who receives `event`: the active, loaded plugins subscribed to its
    /// kind, in increasing order of id, each with its instance, but never
    /// the plugin that raised it; and how many active plugins are not
    /// subscribed to its kind.
    pub fn dispatch_plan(&self, event: &HostEvent) -> (r: (Vec<(PluginId, P)>, u64))
        ensures
            strictly_sorted(target_ids(r.0@)),
            forall|x: Seq<char>|
                target_ids(r.0@).contains(x) <==> (self.table.entries().dom().contains(x)
                    && receives(self.table.entries()[x], event.kind@) && crate::container::provider_view(
                    event.source,
                ) != Some(x)),
            r.1 == passed_over(self.table.entries(), self.table.ids(), event.kind@),
    {
        let (all, skipped) = self.table.dispatch_plan(&event.kind);
        let ghost src = all@;
        let mut targets: Vec<(PluginId, P)> = Vec::new();
        let mut rest = all;
        let ghost mut n: int = 0;
        assert(src.skip(0) =~= src);
        assert(target_ids(targets@) =~= Seq::<Seq<char>>::empty());
        while rest.len() > 0
            invariant
                0 <= n <= src.len(),
                rest@ == src.skip(n),
                strictly_sorted(target_ids(src)),
                strictly_sorted(target_ids(targets@)),
                forall|k: int|
                    0 <= k < targets@.len() ==> exists|i: int|
                        0 <= i < n && (#[trigger] targets@[k]).0@ == src[i].0@,
                forall|x: Seq<char>|
                    target_ids(targets@).contains(x) <==> (target_ids(src.take(n)).contains(x)
                        && crate::container::provider_view(event.source) != Some(x)),
            decreases rest@.len(),
        {
            let item = rest.remove(0);
            let ghost before = targets@;
            proof {
                assert(src.skip(n)[0] == src[n]);
                assert(item == src[n]);
                assert(rest@ =~= src.skip(n + 1));
                assert(target_ids(src.take(n + 1)) =~= target_ids(src.take(n)).push(item.0@));
            }
            let echo = match &event.source {
                Some(source) => source.same(&item.0),
                None => false,
            };
            if !echo {
                targets.push(item);
            }
            proof {
                if !echo {
                    let now = target_ids(targets@);
                    assert(now =~= target_ids(before).push(src[n].0@));
                    assert forall|a: int, b: int| 0 <= a < b < now.len() implies crate::text::seq_lt(
                        #[trigger] now[a],
                        #[trigger] now[b],
                    ) by {
                        if b < before.len() {
                            assert(now[a] == target_ids(before)[a]);
                            assert(now[b] == target_ids(before)[b]);
                        } else {
                            assert(targets@[a] == before[a]);
                            let i = choose|i: int| 0 <= i < n && (#[trigger] before[a]).0@ == src[i].0@;
                            assert(target_ids(src)[i] == src[i].0@);
                            assert(target_ids(src)[n] == src[n].0@);
                        }
                    }
                    assert forall|k: int| 0 <= k < targets@.len() implies exists|i: int|
                        0 <= i < n + 1 && (#[trigger] targets@[k]).0@ == src[i].0@ by {
                        if k < before.len() {
                            assert(targets@[k] == before[k]);
                            let i = choose|i: int| 0 <= i < n && (#[trigger] before[k]).0@ == src[i].0@;
                        } else {
                            assert(targets@[k] == src[n]);
                        }
                    }
                } else {
                    assert(target_ids(targets@) =~= target_ids(before));
                }
                assert forall|x: Seq<char>|
                    target_ids(targets@).contains(x) <==> (target_ids(src.take(n + 1)).contains(x)
                        && crate::container::provider_view(event.source) != Some(x)) by {
                    broadcast use vstd::seq_lib::group_seq_properties;

                }
                n = n + 1;
            }
        }
        assert(src.take(n) =~= src);
        (targets, skipped)
    }
}

/// A rolled-back activation leaves nothing of the plugin behind: no
/// contribution, no service it provides, no grant and no declared
/// dependency.
pub proof fn lemma_rollback_leaves_nothing<S, F>(
    contributions: Seq<Registered>,
    services: Seq<crate::container::ServiceEntry<S, F>>,
    grants: Map<Seq<char>, Seq<Seq<char>>>,
    dependencies: Map<Seq<char>, Seq<Seq<char>>>,
    id: Seq<char>,
)
    ensures
        forall|i: int|
            0 <= i < without_plugin(contributions, id).len() ==> (#[trigger] without_plugin(
                contributions,
                id,
            )[i]).0.plugin@ != id,
        forall|i: int|
            0 <= i < without_provider(services, id).len() ==> crate::container::provider_view(
                (#[trigger] without_provider(services, id)[i]).provider,
            ) != Some(id),
        !grants.remove(id).dom().contains(id),
        !dependencies.remove(id).dom().contains(id),
{
    crate::contributions::lemma_revoke_leaves_none(contributions, id);
    crate::container::lemma_revoked_provider_gone(services, id);

}

/// A plugin whose deactivation has begun receives no more events: it stays
/// installed, in `Deactivating`, and dispatch skips it whatever the kind.
pub proof fn lemma_deactivating_gets_no_events<P: Clone>(
    prior: Map<Seq<char>, PluginEntry<P>>,
    next: Map<Seq<char>, PluginEntry<P>>,
    id: Seq<char>,
    reason: DeactivateReason,
    r: PluginResult<Option<(P, u64)>>,
    kind: Seq<char>,
)
    requires
        deactivation_begun(prior, next, id, reason, r),
        r matches Ok(Some(_)),
    ensures
        next.dom().contains(id),
        next[id].tracker.state_view() == PluginState::Deactivating,
        !receives(next[id], kind),
{
}

} // verus!
