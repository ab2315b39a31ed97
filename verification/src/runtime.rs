//! The runtime's table of installed plugins and the lifecycle decisions
//! taken on it: resolving, loading, activating, deactivating and unloading
//! a plugin, choosing who receives an event, and merging a new discovery
//! into the table. The plugin instances themselves are opaque values of
//! type `P`, carried but never inspected.
use std::path::PathBuf;
use vstd::prelude::*;
use vstd::string::*;

use crate::assoc::AssocList;
use crate::deps::{insert_sorted, strictly_sorted};
use crate::error::{err_view, error_text, ErrorCode, ErrorView, PluginError, PluginResult};
use crate::event::{any_covers, EventSubscriptions, HostEvent};
use crate::ids::{contains_key, keys_of, Capability, PluginId};
use crate::lifecycle::{
    illegal_transition_message, is_idle, state_label, transition_allowed, LifecycleTracker,
    PluginState,
};
use crate::manifest::{about_plugin, plugin_message, DiscoveredPlugin, Manifest, PluginTier};
use crate::plugin::{DeactivateReason, PluginDescriptor};
use crate::text::concat3;

verus! {

/// The label a deactivation reason is recorded with.
pub open spec fn reason_text(reason: DeactivateReason) -> Seq<char> {
    match reason {
        DeactivateReason::UserDisabled => "userDisabled"@,
        DeactivateReason::Uninstall => "uninstall"@,
        DeactivateReason::Reload => "reload"@,
        DeactivateReason::CircuitBroken => "circuitBroken"@,
        DeactivateReason::DependencyRemoved => "dependencyRemoved"@,
        DeactivateReason::Shutdown => "shutdown"@,
    }
}

pub fn deactivate_reason_str(reason: DeactivateReason) -> (r: &'static str)
    ensures
        r@ == reason_text(reason),
{
    match reason {
        DeactivateReason::UserDisabled => "userDisabled",
        DeactivateReason::Uninstall => "uninstall",
        DeactivateReason::Reload => "reload",
        DeactivateReason::CircuitBroken => "circuitBroken",
        DeactivateReason::DependencyRemoved => "dependencyRemoved",
        DeactivateReason::Shutdown => "shutdown",
    }
}

/// The first capability of `runtime` missing from `declared`, if any.
pub open spec fn first_undeclared(declared: Seq<Seq<char>>, runtime: Seq<Seq<char>>) -> Option<int> {
    if exists|i: int| 0 <= i < runtime.len() && !declared.contains(#[trigger] runtime[i]) {
        Some(
            choose|i: int|
                0 <= i < runtime.len() && !declared.contains(#[trigger] runtime[i]) && forall|
                    k: int,
                | 0 <= k < i ==> declared.contains(#[trigger] runtime[k]),
        )
    } else {
        None
    }
}

/// The position of the first capability of `runtime` that `declared` lacks.
fn find_undeclared(declared: &Vec<Capability>, runtime: &Vec<Capability>) -> (r: Option<usize>)
    ensures
        r matches Some(i) ==> i < runtime@.len() && !keys_of(declared@).contains(
            runtime@[i as int]@,
        ) && forall|k: int|
            0 <= k < i ==> keys_of(declared@).contains(#[trigger] keys_of(runtime@)[k]),
        r is None ==> forall|k: int|
            0 <= k < runtime@.len() ==> keys_of(declared@).contains(#[trigger] keys_of(runtime@)[k]),
{
    let mut i: usize = 0;
    while i < runtime.len()
        invariant
            i <= runtime@.len(),
            forall|k: int| 0 <= k < i ==> keys_of(declared@).contains(#[trigger] keys_of(runtime@)[k]),
        decreases runtime@.len() - i,
    {
        if !contains_key(declared, &runtime[i]) {
            return Some(i);
        }
        i = i + 1;
    }
    None
}

/// What `verify_descriptor` reports when a loaded plugin's descriptor does
/// not agree with its manifest.
pub open spec fn descriptor_error(m: Manifest, d: PluginDescriptor) -> Option<ErrorView> {
    if d.id@ != m.id@ {
        Some(err_view(ErrorCode::Incompatible, about_plugin(m.id@, " self-reports as '"@ + d.id@ + "'"@)))
    } else if d.abi != m.abi || d.abi != crate::ABI_VERSION {
        Some(
            err_view(
                ErrorCode::Incompatible,
                about_plugin(
                    m.id@,
                    " was built against ABI "@ + crate::text::decimal(d.abi as nat) + ", host is ABI "@
                        + crate::text::decimal(crate::ABI_VERSION as nat),
                ),
            ),
        )
    } else if exists|i: int|
        0 <= i < d.capabilities@.len() && !keys_of(m.capabilities@).contains(
            #[trigger] d.capabilities@[i]@,
        ) {
        let i = choose|i: int|
            0 <= i < d.capabilities@.len() && !keys_of(m.capabilities@).contains(
                #[trigger] d.capabilities@[i]@,
            ) && forall|k: int|
                0 <= k < i ==> keys_of(m.capabilities@).contains(
                    #[trigger] keys_of(d.capabilities@)[k],
                );
        Some(
            err_view(
                ErrorCode::PermissionDenied,
                about_plugin(
                    m.id@,
                    " declares capability '"@ + d.capabilities@[i]@
                        + "' at runtime but not in its manifest"@,
                ),
            ),
        )
    } else {
        None
    }
}

/// Checks that a loaded plugin's descriptor agrees with its manifest: the
/// same id, the host's ABI, and no capability beyond the manifest's.
pub fn verify_descriptor(manifest: &Manifest, descriptor: &PluginDescriptor) -> (r: PluginResult<()>)
    ensures
        r is Ok <==> descriptor_error(*manifest, *descriptor) is None,
        r matches Err(e) ==> Some(e@) == descriptor_error(*manifest, *descriptor),
{
    if !descriptor.id.same(&manifest.id) {
        let rest = concat3(" self-reports as '", descriptor.id.as_str(), "'");
        return Err(PluginError::incompatible(plugin_message(&manifest.id, rest.as_str())));
    }
    if descriptor.abi != manifest.abi || descriptor.abi != crate::ABI_VERSION {
        let mut rest = String::from_str(" was built against ABI ");
        rest.append(crate::text::decimal_string(descriptor.abi as u64).as_str());
        rest.append(", host is ABI ");
        rest.append(crate::text::decimal_string(crate::ABI_VERSION as u64).as_str());
        return Err(PluginError::incompatible(plugin_message(&manifest.id, rest.as_str())));
    }
    match find_undeclared(&manifest.capabilities, &descriptor.capabilities) {
        Some(i) => {
            let rest = concat3(
                " declares capability '",
                descriptor.capabilities[i].as_str(),
                "' at runtime but not in its manifest",
            );
            proof {
                let m = *manifest;
                let d = *descriptor;
                let ks = keys_of(d.capabilities@);
                assert(ks[i as int] == d.capabilities@[i as int]@);
                let j = choose|j: int|
                    0 <= j < d.capabilities@.len() && !keys_of(m.capabilities@).contains(
                        #[trigger] d.capabilities@[j]@,
                    ) && forall|k: int|
                        0 <= k < j ==> keys_of(m.capabilities@).contains(#[trigger] ks[k]);
                if j < i {
                    assert(ks[j] == d.capabilities@[j]@);
                    assert(keys_of(m.capabilities@).contains(ks[j]));
                } else if j > i {
                    assert(keys_of(m.capabilities@).contains(ks[i as int]));
                }
                assert(j == i);
            }
            Err(PluginError::permission_denied(plugin_message(&manifest.id, rest.as_str())))
        },
        None => {
            proof {
                assert forall|i: int| 0 <= i < descriptor.capabilities@.len() implies keys_of(
                    manifest.capabilities@,
                ).contains(#[trigger] descriptor.capabilities@[i]@) by {
                    assert(keys_of(descriptor.capabilities@)[i] == descriptor.capabilities@[i]@);
                }
            }
            Ok(())
        },
    }
}

/// The error for a plugin that asks at run time for a capability its
/// manifest does not declare: it names the first such capability.
pub open spec fn undeclared_error(id: Seq<char>, declared: Seq<Seq<char>>, runtime: Seq<Seq<char>>) -> Option<
    ErrorView,
> {
    match first_undeclared(declared, runtime) {
        Some(i) => Some(
            err_view(
                ErrorCode::PermissionDenied,
                about_plugin(
                    id,
                    " requested capability '"@ + runtime[i]
                        + "' at runtime, which is not declared in its manifest"@,
                ),
            ),
        ),
        None => None,
    }
}

/// What activating a plugin reports when the plugin asks at run time for a
/// capability its manifest does not declare.
pub fn undeclared_capability_error(
    id: &PluginId,
    declared: &Vec<Capability>,
    runtime: &Vec<Capability>,
) -> (r: Option<PluginError>)
    ensures
        r is None <==> undeclared_error(id@, keys_of(declared@), keys_of(runtime@)) is None,
        r matches Some(e) ==> Some(e@) == undeclared_error(
            id@,
            keys_of(declared@),
            keys_of(runtime@),
        ),
{
    let ghost ds = keys_of(declared@);
    let ghost ks = keys_of(runtime@);
    match find_undeclared(declared, runtime) {
        Some(i) => {
            let rest = concat3(
                " requested capability '",
                runtime[i].as_str(),
                "' at runtime, which is not declared in its manifest",
            );
            proof {
                assert(ks[i as int] == runtime@[i as int]@);
                assert(!ds.contains(ks[i as int]));
                let j = choose|j: int|
                    0 <= j < ks.len() && !ds.contains(#[trigger] ks[j]) && forall|k: int|
                        0 <= k < j ==> ds.contains(#[trigger] ks[k]);
                if j < i {
                    assert(ds.contains(ks[j]));
                } else if j > i {
                    assert(ds.contains(ks[i as int]));
                }
                assert(j == i);
            }
            Some(PluginError::permission_denied(plugin_message(id, rest.as_str())))
        },
        None => None,
    }
}

/// One installed plugin: its manifest and directory, where it stands in its
/// lifecycle, what it reported about itself once loaded, its loaded
/// instance, and the events it subscribed to.
pub struct PluginEntry<P> {
    pub manifest: Manifest,
    pub root: PathBuf,
    pub tracker: LifecycleTracker,
    pub descriptor: Option<PluginDescriptor>,
    pub instance: Option<P>,
    pub subscriptions: EventSubscriptions,
}

impl<P> PluginEntry<P> {
    /// A freshly discovered plugin: nothing loaded, no subscriptions.
    pub fn new(discovered: DiscoveredPlugin) -> (r: PluginEntry<P>)
        ensures
            r.manifest == discovered.manifest,
            r.root == discovered.root,
            r.tracker.state_view() == PluginState::Discovered,
            r.tracker.error_view() is None,
            r.descriptor is None,
            r.instance is None,
            r.subscriptions@ == Seq::<crate::event::EventPattern>::empty(),
    {
        PluginEntry {
            manifest: discovered.manifest,
            root: discovered.root,
            tracker: LifecycleTracker::new(PluginState::Discovered),
            descriptor: None,
            instance: None,
            subscriptions: EventSubscriptions::new(),
        }
    }
}

/// `m2` is `m1` with only the entry of `k` changed.
pub open spec fn only_changed<V>(m1: Map<Seq<char>, V>, m2: Map<Seq<char>, V>, k: Seq<char>) -> bool {
    &&& m2.dom() == m1.dom()
    &&& forall|kk: Seq<char>| #[trigger] m1.dom().contains(kk) && kk != k ==> m2[kk] == m1[kk]
}

/// The error for a plugin that is not installed.
pub open spec fn not_installed(id: Seq<char>) -> ErrorView {
    err_view(ErrorCode::NotFound, about_plugin(id, " is not installed"@))
}

/// The installed plugins, keyed by id.
pub struct PluginTable<P> {
    entries: AssocList<PluginId, PluginEntry<P>>,
}

impl<P> PluginTable<P> {
    /// The entry of each installed plugin.
    pub closed spec fn entries(&self) -> Map<Seq<char>, PluginEntry<P>> {
        self.entries.map()
    }

    pub fn new() -> (r: PluginTable<P>)
        ensures
            r.entries() == Map::<Seq<char>, PluginEntry<P>>::empty(),
    {
        PluginTable { entries: AssocList::new() }
    }

    pub fn get(&self, id: &PluginId) -> (r: Option<&PluginEntry<P>>)
        ensures
            r is Some <==> self.entries().dom().contains(id@),
            r matches Some(e) ==> *e == self.entries()[id@],
    {
        self.entries.get(id)
    }

    /// What loading `id` needs: refused when it is not installed; nothing
    /// to do unless it is `Resolved`; else its manifest and its root.
    pub fn load_request(&self, id: &PluginId) -> (r: PluginResult<Option<(Manifest, PathBuf)>>)
        ensures
            !self.entries().dom().contains(id@) ==> (r matches Err(e) && e@ == not_installed(id@)),
            self.entries().dom().contains(id@) && self.entries()[id@].tracker.state_view()
                != PluginState::Resolved ==> r matches Ok(None),
            self.entries().dom().contains(id@) && self.entries()[id@].tracker.state_view()
                == PluginState::Resolved ==> (r matches Ok(Some(pair)) && crate::manifest::same_manifest(
                pair.0,
                self.entries()[id@].manifest,
            ) && pair.1 == self.entries()[id@].root),
    {
        match self.entries.get(id) {
            None => Err(PluginError::not_found(plugin_message(id, " is not installed"))),
            Some(e) => {
                if e.tracker.state() == PluginState::Resolved {
                    Ok(Some((e.manifest.duplicate(), e.root.clone())))
                } else {
                    Ok(None)
                }
            },
        }
    }

    pub fn state_of(&self, id: &PluginId) -> (r: Option<PluginState>)
        ensures
            r is Some <==> self.entries().dom().contains(id@),
            r matches Some(s) ==> s == self.entries()[id@].tracker.state_view(),
    {
        match self.entries.get(id) {
            Some(e) => Some(e.tracker.state()),
            None => None,
        }
    }

    pub fn is_active(&self, id: &PluginId) -> (r: bool)
        ensures
            r == (self.entries().dom().contains(id@) && self.entries()[id@].tracker.state_view()
                == PluginState::Active),
    {
        match self.entries.get(id) {
            Some(e) => e.tracker.state().is_active(),
            None => false,
        }
    }

    pub fn tier_of(&self, id: &PluginId) -> (r: Option<PluginTier>)
        ensures
            r is Some <==> self.entries().dom().contains(id@),
            r matches Some(t) ==> t == self.entries()[id@].manifest.tier,
    {
        match self.entries.get(id) {
            Some(e) => Some(e.manifest.tier),
            None => None,
        }
    }

    /// The call budget of `id` in milliseconds, at least 1; 2000 for a
    /// plugin that is not installed.
    pub fn call_timeout_of(&self, id: &PluginId) -> (r: u64)
        ensures
            r == (if self.entries().dom().contains(id@) {
                let t = self.entries()[id@].manifest.budget.call_timeout_ms;
                if t == 0 {
                    1
                } else {
                    t
                }
            } else {
                2000
            }),
    {
        let millis = match self.entries.get(id) {
            Some(e) => e.manifest.budget.call_timeout_ms,
            None => 2_000,
        };
        if millis == 0 {
            1
        } else {
            millis
        }
    }

    /// The ids of the installed plugins, in increasing order.
    pub fn installed(&self) -> (r: Vec<PluginId>)
        ensures
            strictly_sorted(keys_of(r@)),
            forall|x: Seq<char>| keys_of(r@).contains(x) <==> self.entries().dom().contains(x),
    {
        let n = self.entries.len();
        proof {
            self.entries.lemma_keys_match();
        }
        let mut out: Vec<PluginId> = Vec::new();
        let mut i: usize = 0;
        while i < n
            invariant
                n == self.entries.keys().len(),
                i <= n,
                strictly_sorted(keys_of(out@)),
                forall|x: Seq<char>|
                    keys_of(out@).contains(x) <==> self.entries.keys().take(i as int).contains(x),
            decreases n - i,
        {
            proof {
                crate::deps::lemma_take_one_more(self.entries.keys(), i as int);
            }
            insert_sorted(&mut out, self.entries.key_at(i).duplicate());
            i = i + 1;
        }
        proof {
            assert(self.entries.keys().take(i as int) =~= self.entries.keys());
        }
        out
    }

    /// Refuses a user action on a core plugin.
    pub fn guard_user_action(&self, id: &PluginId, action: &str) -> (r: PluginResult<()>)
        ensures
            r is Err <==> (self.entries().dom().contains(id@) && self.entries()[id@].manifest.tier
                == PluginTier::Core),
            r matches Err(e) ==> e@ == err_view(
                ErrorCode::PermissionDenied,
                about_plugin(
                    id@,
                    " is a core plugin and cannot be "@ + action@ + " by the user"@,
                ),
            ),
    {
        match self.tier_of(id) {
            Some(PluginTier::Core) => {
                let rest = concat3(" is a core plugin and cannot be ", action, " by the user");
                Err(PluginError::permission_denied(plugin_message(id, rest.as_str())))
            },
            _ => Ok(()),
        }
    }

    fn take(&mut self, id: &PluginId) -> (r: Option<PluginEntry<P>>)
        ensures
            r is Some <==> old(self).entries().dom().contains(id@),
            r matches Some(e) ==> e == old(self).entries()[id@],
            final(self).entries() == old(self).entries().remove(id@),
    {
        self.entries.remove(id)
    }

    fn put(&mut self, id: &PluginId, entry: PluginEntry<P>)
        ensures
            final(self).entries() == old(self).entries().insert(id@, entry),
    {
        self.entries.insert(id.duplicate(), entry);
    }
}

/// `b` is `a` with only its lifecycle tracker changed.
pub open spec fn same_but_tracker<P>(a: PluginEntry<P>, b: PluginEntry<P>) -> bool {
    &&& b.manifest == a.manifest
    &&& b.root == a.root
    &&& b.descriptor == a.descriptor
    &&& b.instance == a.instance
    &&& b.subscriptions == a.subscriptions
}

/// The error for a plugin asked to do something its state forbids.
pub open spec fn state_error(id: Seq<char>, doing: Seq<char>, s: PluginState) -> ErrorView {
    err_view(
        ErrorCode::InvalidArgument,
        about_plugin(id, " cannot be "@ + doing + " from state '"@ + state_label(s) + "'"@),
    )
}

/// The error for a plugin whose code is not loaded.
pub open spec fn not_loaded(id: Seq<char>) -> ErrorView {
    err_view(ErrorCode::NotFound, about_plugin(id, " is not loaded"@))
}

fn state_message(id: &PluginId, doing: &str, s: PluginState) -> (r: String)
    ensures
        r@ == about_plugin(id@, " cannot be "@ + doing@ + " from state '"@ + state_label(s) + "'"@),
{
    let mut rest = concat3(" cannot be ", doing, " from state '");
    rest.append(s.label());
    rest.append("'");
    plugin_message(id, rest.as_str())
}

/// What `ensure_resolved` does: a discovered plugin becomes resolved.
pub open spec fn resolved_step<P>(
    prior: Map<Seq<char>, PluginEntry<P>>,
    next: Map<Seq<char>, PluginEntry<P>>,
    id: Seq<char>,
    r: PluginResult<()>,
) -> bool {
    &&& r is Ok <==> prior.dom().contains(id)
    &&& r matches Err(e) ==> e@ == not_installed(id)
    &&& r is Err ==> next =~= prior
    &&& r is Ok ==> {
        let before = prior[id];
        let after = next[id];
        &&& only_changed(prior, next, id)
        &&& same_but_tracker(before, after)
        &&& after.tracker.error_view() == before.tracker.error_view()
        &&& after.tracker.state_view() == (if before.tracker.state_view()
            == PluginState::Discovered {
            PluginState::Resolved
        } else {
            before.tracker.state_view()
        })
    }
}

/// What `install_instance` does: a resolved plugin takes its loaded code.
pub open spec fn instance_installed<P>(
    prior: Map<Seq<char>, PluginEntry<P>>,
    next: Map<Seq<char>, PluginEntry<P>>,
    id: Seq<char>,
    descriptor: PluginDescriptor, instance: P, r: PluginResult<bool>,
) -> bool {
    &&& r is Err <==> !prior.dom().contains(id)
    &&& r matches Err(e) ==> e@ == not_installed(id)
    &&& r matches Ok(installed) ==> installed == (prior[id].tracker.state_view()
        == PluginState::Resolved)
    &&& !(r matches Ok(true)) ==> next =~= prior
    &&& r matches Ok(true) ==> {
        let before = prior[id];
        let after = next[id];
        &&& only_changed(prior, next, id)
        &&& after.manifest == before.manifest
        &&& after.root == before.root
        &&& after.subscriptions == before.subscriptions
        &&& after.descriptor == Some(descriptor)
        &&& after.instance == Some(instance)
        &&& after.tracker.state_view() == PluginState::Loaded
        &&& after.tracker.error_view() == before.tracker.error_view()
    }
}

/// What `begin_activation` does: an idle plugin moves to `Activating`.
pub open spec fn activation_begun<P: Clone>(
    prior: Map<Seq<char>, PluginEntry<P>>,
    next: Map<Seq<char>, PluginEntry<P>>,
    id: Seq<char>,
    r: PluginResult<P>,
) -> bool {
    &&& !prior.dom().contains(id) ==> (r matches Err(e) && e@ == not_installed(
        id,
    ) && next =~= prior)
    &&& prior.dom().contains(id) ==> {
        let before = prior[id];
        let after = next[id];
        let s = before.tracker.state_view();
        &&& !is_idle(s) ==> (r matches Err(e) && e@ == state_error(
            id,
            "activated"@,
            s,
        ) && next =~= prior)
        &&& is_idle(s) ==> {
            &&& only_changed(prior, next, id)
            &&& same_but_tracker(before, after)
            &&& after.tracker.state_view() == PluginState::Activating
            &&& after.tracker.error_view() == before.tracker.error_view()
            &&& (r is Ok <==> before.instance is Some)
            &&& r matches Ok(i) ==> cloned(before.instance.unwrap(), i)
            &&& r matches Err(e) ==> e@ == not_loaded(id)
        }
    }
}

/// What `complete_activation` does: an activating plugin becomes active.
pub open spec fn activation_completed<P>(
    prior: Map<Seq<char>, PluginEntry<P>>,
    next: Map<Seq<char>, PluginEntry<P>>,
    id: Seq<char>,
    subscriptions: Seq<crate::event::EventPattern>, r: PluginResult<()>,
) -> bool {
    &&& !prior.dom().contains(id) ==> r is Ok && next =~= prior
    &&& prior.dom().contains(id) ==> {
        let before = prior[id];
        let after = next[id];
        let s = before.tracker.state_view();
        &&& only_changed(prior, next, id)
        &&& after.manifest == before.manifest
        &&& after.root == before.root
        &&& after.descriptor == before.descriptor
        &&& after.instance == before.instance
        &&& after.subscriptions@ =~= subscriptions
        &&& after.tracker.error_view() is None
        &&& (r is Ok <==> transition_allowed(s, PluginState::Active))
        &&& r is Ok ==> after.tracker.state_view() == PluginState::Active
        &&& r matches Err(e) ==> e@ == err_view(
            ErrorCode::InvalidArgument,
            illegal_transition_message(s, PluginState::Active),
        ) && after.tracker.state_view() == s
    }
}

/// What `fail_activation` does: the plugin records the error and fails.
pub open spec fn activation_failed<P>(
    prior: Map<Seq<char>, PluginEntry<P>>,
    next: Map<Seq<char>, PluginEntry<P>>,
    id: Seq<char>,
    error: PluginError,
) -> bool {
    &&& !prior.dom().contains(id) ==> next =~= prior
    &&& prior.dom().contains(id) ==> {
        let before = prior[id];
        let after = next[id];
        let s = before.tracker.state_view();
        &&& only_changed(prior, next, id)
        &&& after.manifest == before.manifest
        &&& after.root == before.root
        &&& after.descriptor == before.descriptor
        &&& after.instance == before.instance
        &&& after.subscriptions@ =~= Seq::<crate::event::EventPattern>::empty()
        &&& after.tracker.error_view() == Some(error_text(error@))
        &&& after.tracker.state_view() == (if transition_allowed(s, PluginState::Failed) {
            PluginState::Failed
        } else {
            s
        })
    }
}

/// What `begin_deactivation` does: an active plugin moves to `Deactivating`.
pub open spec fn deactivation_begun<P: Clone>(
    prior: Map<Seq<char>, PluginEntry<P>>,
    next: Map<Seq<char>, PluginEntry<P>>,
    id: Seq<char>,
    reason: DeactivateReason, r: PluginResult<Option<(P, u64)>>,
) -> bool {
    &&& reason == DeactivateReason::UserDisabled && prior.dom().contains(id)
        && prior[id].manifest.tier == PluginTier::Core ==> (r matches Err(e)
        && e@ == err_view(
        ErrorCode::PermissionDenied,
        about_plugin(id, " is a core plugin and cannot be "@ + "disabled"@ + " by the user"@),
    ) && next =~= prior)
    &&& !prior.dom().contains(id) ==> (r matches Err(e) && e@ == not_installed(
        id,
    ) && next =~= prior)
    &&& prior.dom().contains(id) && !(reason == DeactivateReason::UserDisabled
        && prior[id].manifest.tier == PluginTier::Core) ==> {
        let before = prior[id];
        let after = next[id];
        let s = before.tracker.state_view();
        &&& (s == PluginState::Stopped || s == PluginState::Loaded) ==> (r matches Ok(None)
            && next =~= prior)
        &&& (s != PluginState::Stopped && s != PluginState::Loaded && s
            != PluginState::Active) ==> (r matches Err(e) && e@ == state_error(
            id,
            "deactivated"@,
            s,
        ) && next =~= prior)
        &&& s == PluginState::Active ==> {
            &&& only_changed(prior, next, id)
            &&& same_but_tracker(before, after)
            &&& after.tracker.state_view() == PluginState::Deactivating
            &&& after.tracker.history_view().last().reason@ == reason_text(reason)
            &&& after.tracker.error_view() == before.tracker.error_view()
            &&& (r matches Ok(Some(_)) <==> before.instance is Some)
                &&& r matches Ok(Some(pair)) ==> cloned(before.instance.unwrap(), pair.0)
            &&& r matches Ok(Some(pair)) ==> pair.1 == (if before.manifest.budget.call_timeout_ms
                == 0 {
                1
            } else {
                before.manifest.budget.call_timeout_ms
            })
            &&& r matches Err(e) ==> e@ == not_loaded(id)
            &&& !(r matches Ok(None))
        }
    }
}

/// What `finish_deactivation` does: the plugin stops, or fails.
pub open spec fn deactivation_finished<P>(
    prior: Map<Seq<char>, PluginEntry<P>>,
    next: Map<Seq<char>, PluginEntry<P>>,
    id: Seq<char>,
    result: PluginResult<()>, reason: DeactivateReason,
) -> bool {
    &&& !prior.dom().contains(id) ==> next =~= prior
    &&& prior.dom().contains(id) ==> {
        let before = prior[id];
        let after = next[id];
        let s = before.tracker.state_view();
        &&& only_changed(prior, next, id)
        &&& after.manifest == before.manifest
        &&& after.root == before.root
        &&& after.descriptor == before.descriptor
        &&& after.instance == before.instance
        &&& after.subscriptions@ =~= Seq::<crate::event::EventPattern>::empty()
        &&& result is Ok ==> after.tracker.error_view() is None
            && after.tracker.state_view() == (if transition_allowed(
            s,
            PluginState::Stopped,
        ) {
            PluginState::Stopped
        } else {
            s
        })
        &&& result matches Err(e) ==> after.tracker.error_view() == Some(error_text(e@))
            && after.tracker.state_view() == (if transition_allowed(
            s,
            PluginState::Failed,
        ) {
            PluginState::Failed
        } else {
            s
        })
    }
}

/// What `unload` does: an idle plugin drops its code.
pub open spec fn unloaded_step<P>(
    prior: Map<Seq<char>, PluginEntry<P>>,
    next: Map<Seq<char>, PluginEntry<P>>,
    id: Seq<char>,
    r: PluginResult<PluginState>,
) -> bool {
    &&& !prior.dom().contains(id) ==> (r matches Err(e) && e@ == not_installed(
        id,
    ) && next =~= prior)
    &&& prior.dom().contains(id) ==> {
        let before = prior[id];
        let after = next[id];
        let s = before.tracker.state_view();
        &&& !is_idle(s) ==> (r matches Err(e) && e@ == err_view(
            ErrorCode::InvalidArgument,
            about_plugin(
                id,
                " cannot be unloaded from state '"@ + state_label(s)
                    + "'; deactivate it first"@,
            ),
        ) && next =~= prior)
        &&& is_idle(s) ==> r == Ok::<PluginState, PluginError>(s) && only_changed(
            prior,
            next,
            id,
        ) && after.manifest == before.manifest && after.root == before.root
            && after.descriptor is None && after.instance is None
            && after.subscriptions@ =~= Seq::<crate::event::EventPattern>::empty()
            && after.tracker.state_view() == PluginState::Unloaded
            && after.tracker.error_view() == before.tracker.error_view()
    }
}

/// What `record_error` does: the plugin remembers `message` as its last error.
pub open spec fn error_recorded<P>(
    prior: Map<Seq<char>, PluginEntry<P>>,
    next: Map<Seq<char>, PluginEntry<P>>,
    id: Seq<char>,
    message: Seq<char>,
) -> bool {
    &&& !prior.dom().contains(id) ==> next =~= prior
    &&& prior.dom().contains(id) ==> {
        let before = prior[id];
        let after = next[id];
        &&& only_changed(prior, next, id)
        &&& same_but_tracker(before, after)
        &&& after.tracker.state_view() == before.tracker.state_view()
        &&& after.tracker.error_view() == Some(message)
    }
}

impl<P: Clone> PluginTable<P> {
    /// Moves a discovered plugin to `Resolved`; a plugin in any other
    /// state is left as it is.
    pub fn ensure_resolved(&mut self, id: &PluginId) -> (r: PluginResult<()>)
        ensures
            resolved_step(old(self).entries(), final(self).entries(), id@, r),
    {
        match self.take(id) {
            None => Err(PluginError::not_found(plugin_message(id, " is not installed"))),
            Some(mut entry) => {
                if entry.tracker.state() == PluginState::Discovered {
                    let _ = entry.tracker.transition(PluginState::Resolved, "dependencies resolved");
                }
                self.put(id, entry);
                proof {
                    assert(final(self).entries() =~= old(self).entries().insert(
                        id@,
                        final(self).entries()[id@],
                    ));
                }
                Ok(())
            },
        }
    }

    /// Hands a resolved plugin its loaded code: records the descriptor and
    /// instance and moves it to `Loaded`. A plugin no longer `Resolved` (it
    /// was loaded meanwhile) is left alone and the code is dropped.
    pub fn install_instance(
        &mut self,
        id: &PluginId,
        descriptor: PluginDescriptor,
        instance: P,
    ) -> (r: PluginResult<bool>)
        ensures
            instance_installed(old(self).entries(), final(self).entries(), id@, descriptor, instance, r),
    {
        match self.take(id) {
            None => Err(PluginError::not_found(plugin_message(id, " is not installed"))),
            Some(mut entry) => {
                if entry.tracker.state() != PluginState::Resolved {
                    self.put(id, entry);
                    proof {
                        assert(final(self).entries() =~= old(self).entries());
                    }
                    return Ok(false);
                }
                entry.descriptor = Some(descriptor);
                entry.instance = Some(instance);
                let _ = entry.tracker.transition(PluginState::Loaded, "code loaded");
                self.put(id, entry);
                Ok(true)
            },
        }
    }

    /// Starts activating `id`: it must be loaded, stopped or failed; it moves
    /// to `Activating`, and its instance is handed back for the call.
    pub fn begin_activation(&mut self, id: &PluginId) -> (r: PluginResult<P>)
        ensures
            activation_begun(old(self).entries(), final(self).entries(), id@, r),
    {
        match self.take(id) {
            None => Err(PluginError::not_found(plugin_message(id, " is not installed"))),
            Some(mut entry) => {
                let state = entry.tracker.state();
                if !state.can_activate() {
                    self.put(id, entry);
                    proof {
                        assert(final(self).entries() =~= old(self).entries());
                    }
                    return Err(PluginError::invalid_argument(state_message(id, "activated", state)));
                }
                let _ = entry.tracker.transition(PluginState::Activating, "activate");
                let result = match &entry.instance {
                    Some(instance) => Ok(instance.clone()),
                    None => Err(PluginError::not_found(plugin_message(id, " is not loaded"))),
                };
                self.put(id, entry);
                result
            },
        }
    }

    /// Completes a successful activation: records the subscriptions, clears
    /// the last error and moves `id` to `Active`.
    pub fn complete_activation(&mut self, id: &PluginId, subscriptions: EventSubscriptions) -> (r:
        PluginResult<()>)
        ensures
            activation_completed(old(self).entries(), final(self).entries(), id@, subscriptions@, r),
    {
        match self.take(id) {
            None => {
                proof {
                    assert(final(self).entries() =~= old(self).entries());
                }
                Ok(())
            },
            Some(mut entry) => {
                entry.subscriptions = subscriptions;
                entry.tracker.clear_error();
                let moved = entry.tracker.transition(PluginState::Active, "activated");
                self.put(id, entry);
                match moved {
                    Ok(_) => Ok(()),
                    Err(e) => Err(e),
                }
            },
        }
    }

    /// Undoes a failed activation: drops the subscriptions, records the
    /// error and moves `id` to `Failed` where the table allows it.
    pub fn fail_activation(&mut self, id: &PluginId, error: &PluginError)
        ensures
            activation_failed(old(self).entries(), final(self).entries(), id@, *error),
    {
        match self.take(id) {
            None => {
                proof {
                    assert(final(self).entries() =~= old(self).entries());
                }
            },
            Some(mut entry) => {
                entry.subscriptions = EventSubscriptions::new();
                entry.tracker.mark_failed(error);
                self.put(id, entry);
            },
        }
    }

    /// Starts deactivating `id` for `reason`. A core plugin cannot be
    /// disabled by the user; a plugin already stopped or only loaded needs
    /// nothing (`None`); otherwise it must be active, moves to
    /// `Deactivating`, and its instance and call budget (at least 1 ms) are
    /// handed back.
    pub fn begin_deactivation(&mut self, id: &PluginId, reason: DeactivateReason) -> (r: PluginResult<
        Option<(P, u64)>,
    >)
        ensures
            deactivation_begun(old(self).entries(), final(self).entries(), id@, reason, r),
    {
        match reason {
            DeactivateReason::UserDisabled => {
                match self.guard_user_action(id, "disabled") {
                    Err(e) => {
                        return Err(e);
                    },
                    Ok(()) => {},
                }
            },
            _ => {},
        }
        match self.take(id) {
            None => Err(PluginError::not_found(plugin_message(id, " is not installed"))),
            Some(mut entry) => {
                let state = entry.tracker.state();
                if !state.can_deactivate() {
                    self.put(id, entry);
                    proof {
                        assert(final(self).entries() =~= old(self).entries());
                    }
                    match state {
                        PluginState::Stopped | PluginState::Loaded => {
                            return Ok(None);
                        },
                        _ => {
                            return Err(
                                PluginError::invalid_argument(
                                    state_message(id, "deactivated", state),
                                ),
                            );
                        },
                    }
                }
                let _ = entry.tracker.transition(
                    PluginState::Deactivating,
                    deactivate_reason_str(reason),
                );
                let budget = entry.manifest.budget.call_timeout_ms;
                let timeout = if budget == 0 {
                    1
                } else {
                    budget
                };
                let result = match &entry.instance {
                    Some(instance) => Ok(Some((instance.clone(), timeout))),
                    None => Err(PluginError::not_found(plugin_message(id, " is not loaded"))),
                };
                self.put(id, entry);
                result
            },
        }
    }

    /// Completes a deactivation: drops the subscriptions; when the plugin's
    /// teardown succeeded clears its error and moves it to `Stopped`,
    /// otherwise records the error and moves it to `Failed`.
    pub fn finish_deactivation(
        &mut self,
        id: &PluginId,
        result: &PluginResult<()>,
        reason: DeactivateReason,
    )
        ensures
            deactivation_finished(old(self).entries(), final(self).entries(), id@, *result, reason),
    {
        match self.take(id) {
            None => {
                proof {
                    assert(final(self).entries() =~= old(self).entries());
                }
            },
            Some(mut entry) => {
                entry.subscriptions = EventSubscriptions::new();
                match result {
                    Ok(()) => {
                        entry.tracker.clear_error();
                        let _ = entry.tracker.transition(
                            PluginState::Stopped,
                            deactivate_reason_str(reason),
                        );
                    },
                    Err(error) => {
                        entry.tracker.mark_failed(error);
                    },
                }
                self.put(id, entry);
            },
        }
    }

    /// Releases the code of `id`, which must be loaded, stopped or failed:
    /// drops its instance, descriptor and subscriptions and moves it to
    /// `Unloaded`. Hands back the state it was in.
    pub fn unload(&mut self, id: &PluginId) -> (r: PluginResult<PluginState>)
        ensures
            unloaded_step(old(self).entries(), final(self).entries(), id@, r),
    {
        match self.take(id) {
            None => Err(PluginError::not_found(plugin_message(id, " is not installed"))),
            Some(mut entry) => {
                let state = entry.tracker.state();
                if !state.can_unload() {
                    self.put(id, entry);
                    proof {
                        assert(final(self).entries() =~= old(self).entries());
                    }
                    let mut rest = String::from_str(" cannot be unloaded from state '");
                    rest.append(state.label());
                    rest.append("'; deactivate it first");
                    return Err(PluginError::invalid_argument(plugin_message(id, rest.as_str())));
                }
                entry.instance = None;
                entry.descriptor = None;
                entry.subscriptions = EventSubscriptions::new();
                let _ = entry.tracker.transition(PluginState::Unloaded, "code released");
                self.put(id, entry);
                Ok(state)
            },
        }
    }

    /// Records `message` as the last error of `id`, if installed.
    pub fn record_error(&mut self, id: &PluginId, message: &str)
        ensures
            error_recorded(old(self).entries(), final(self).entries(), id@, message@),
    {
        match self.take(id) {
            None => {
                proof {
                    assert(final(self).entries() =~= old(self).entries());
                }
            },
            Some(mut entry) => {
                entry.tracker.record_error(message);
                self.put(id, entry);
            },
        }
    }
}

/// The entry is active, subscribed to events of kind `kind`, and loaded.
pub open spec fn receives<P>(e: PluginEntry<P>, kind: Seq<char>) -> bool {
    &&& e.tracker.state_view() == PluginState::Active
    &&& any_covers(e.subscriptions@, kind)
    &&& e.instance is Some
}

/// The entry is active but not subscribed to events of kind `kind`.
pub open spec fn passes_over<P>(e: PluginEntry<P>, kind: Seq<char>) -> bool {
    e.tracker.state_view() == PluginState::Active && !any_covers(e.subscriptions@, kind)
}

/// How many of the plugins `ids` pass over events of kind `kind`.
pub open spec fn passed_over<P>(m: Map<Seq<char>, PluginEntry<P>>, ids: Seq<Seq<char>>, kind: Seq<char>) -> nat
    decreases ids.len(),
{
    if ids.len() == 0 {
        0
    } else {
        passed_over(m, ids.drop_last(), kind) + if passes_over(m[ids.last()], kind) {
            1nat
        } else {
            0nat
        }
    }
}

/// The ids of a list of dispatch targets.
pub open spec fn target_ids<P>(v: Seq<(PluginId, P)>) -> Seq<Seq<char>> {
    v.map_values(|t: (PluginId, P)| t.0@)
}

/// A plugin that is running or in the middle of a change keeps its state
/// when it is discovered again.
pub open spec fn is_running(s: PluginState) -> bool {
    s == PluginState::Active || s == PluginState::Deactivating || s == PluginState::Activating
}

/// Inserts `x` into `v`, kept in increasing order of id.
fn insert_target<P>(v: &mut Vec<(PluginId, P)>, x: (PluginId, P))
    requires
        strictly_sorted(target_ids(old(v)@)),
        !target_ids(old(v)@).contains(x.0@),
    ensures
        strictly_sorted(target_ids(final(v)@)),
        forall|y: Seq<char>|
            target_ids(final(v)@).contains(y) <==> (target_ids(old(v)@).contains(y) || y == x.0@),
{
    let ghost before = target_ids(v@);
    let ghost xk = x.0@;
    let mut pos: usize = 0;
    while pos < v.len() && v[pos].0.precedes(&x.0)
        invariant
            pos <= v@.len(),
            target_ids(v@) == before,
            strictly_sorted(before),
            xk == x.0@,
            forall|i: int| 0 <= i < pos ==> crate::text::seq_lt(#[trigger] before[i], xk),
        decreases v@.len() - pos,
    {
        pos = pos + 1;
    }
    proof {
        if pos < before.len() {
            assert(before.contains(before[pos as int]));
            crate::text::lemma_seq_lt_trichotomy(before[pos as int], xk);
        }
    }
    v.insert(pos, x);
    proof {
        let after = target_ids(v@);
        assert(after =~= before.take(pos as int).push(xk) + before.skip(pos as int));
        assert forall|i: int, j: int| 0 <= i < j < after.len() implies crate::text::seq_lt(
            #[trigger] after[i],
            #[trigger] after[j],
        ) by {
            if j < pos {
            } else if i < pos && j == pos {
            } else if i < pos {
                assert(after[j] == before[j - 1]);
                crate::text::lemma_seq_lt_transitive(after[i], xk, before[pos as int]);
                if j - 1 > pos {
                    crate::text::lemma_seq_lt_transitive(after[i], before[pos as int], before[j - 1]);
                }
            } else if i == pos {
                assert(after[j] == before[j - 1]);
                if j - 1 > pos {
                    crate::text::lemma_seq_lt_transitive(xk, before[pos as int], before[j - 1]);
                }
            } else {
                assert(after[i] == before[i - 1]);
                assert(after[j] == before[j - 1]);
            }
        }
        assert forall|y: Seq<char>| after.contains(y) <==> (before.contains(y) || y == xk) by {
            if after.contains(y) {
                let k = choose|k: int| 0 <= k < after.len() && after[k] == y;
                if k < pos {
                    assert(before[k] == y);
                } else if k > pos {
                    assert(before[k - 1] == y);
                }
            }
            if before.contains(y) {
                let k = choose|k: int| 0 <= k < before.len() && before[k] == y;
                if k < pos {
                    assert(after[k] == y);
                } else {
                    assert(after[k + 1] == y);
                }
            }
            if y == xk {
                assert(after[pos as int] == y);
            }
        }
    }
}

impl<P: Clone> PluginTable<P> {
    /// The installed plugins, in the order they were first added.
    pub closed spec fn ids(&self) -> Seq<Seq<char>> {
        self.entries.keys()
    }

    /// Adds `patterns` to the subscriptions of `id`.
    pub fn subscribe(&mut self, id: &PluginId, patterns: Vec<crate::event::EventPattern>) -> (r: PluginResult<()>)
        ensures
            r is Ok <==> old(self).entries().dom().contains(id@),
            r matches Err(e) ==> e@ == not_installed(id@),
            r is Err ==> final(self).entries() == old(self).entries(),
            r is Ok ==> {
                let before = old(self).entries()[id@];
                let after = final(self).entries()[id@];
                &&& only_changed(old(self).entries(), final(self).entries(), id@)
                &&& after.manifest == before.manifest
                &&& after.root == before.root
                &&& after.descriptor == before.descriptor
                &&& after.instance == before.instance
                &&& after.tracker == before.tracker
                &&& after.subscriptions@ == before.subscriptions@ + patterns@
            },
    {
        match self.take(id) {
            None => Err(PluginError::not_found(plugin_message(id, " is not installed"))),
            Some(mut entry) => {
                let ghost start = entry.subscriptions@;
                let mut subscriptions = EventSubscriptions::new();
                std::mem::swap(&mut subscriptions, &mut entry.subscriptions);
                let mut rest = patterns;
                let ghost all = rest@;
                while rest.len() > 0
                    invariant
                        subscriptions@ == start + all.take(all.len() - rest@.len()),
                        rest@ == all.skip(all.len() - rest@.len()),
                        rest@.len() <= all.len(),
                    decreases rest@.len(),
                {
                    let ghost d0 = all.len() - rest@.len();
                    assert(rest@[0] == all[d0]);
                    let pattern = rest.remove(0);
                    subscriptions = subscriptions.add(pattern);
                    proof {
                        assert(all.take(d0 + 1) =~= all.take(d0).push(pattern));
                        assert(rest@ =~= all.skip(d0 + 1));
                    }
                }
                proof {
                    assert(all.take(all.len() as int) =~= all);
                }
                entry.subscriptions = subscriptions;
                self.put(id, entry);
                Ok(())
            },
        }
    }

    /// Who receives an event of kind `kind`: the active, loaded plugins
    /// subscribed to it, in increasing order of id, each with its instance;
    /// and how many active plugins are not subscribed to it.
    pub fn dispatch_plan(&self, kind: &crate::ids::EventType) -> (r: (Vec<(PluginId, P)>, u64))
        ensures
            strictly_sorted(target_ids(r.0@)),
            forall|x: Seq<char>|
                target_ids(r.0@).contains(x) <==> (self.entries().dom().contains(x) && receives(
                    self.entries()[x],
                    kind@,
                )),
            r.1 == passed_over(self.entries(), self.ids(), kind@),
    {
        let n = self.entries.len();
        proof {
            self.entries.lemma_keys_match();
        }
        let ghost keys = self.entries.keys();
        let mut targets: Vec<(PluginId, P)> = Vec::new();
        let mut skipped: u64 = 0;
        let mut i: usize = 0;
        while i < n
            invariant
                n == keys.len(),
                keys == self.entries.keys(),
                keys == self.ids(),
                forall|k: int| 0 <= k < keys.len() ==> self.entries().dom().contains(#[trigger] keys[k]),
                forall|a: int, b: int| 0 <= a < b < keys.len() ==> keys[a] != keys[b],
                forall|x: Seq<char>| self.entries().dom().contains(x) ==> keys.contains(x),
                i <= n,
                skipped == passed_over(self.entries(), keys.take(i as int), kind@),
                skipped <= i,
                strictly_sorted(target_ids(targets@)),
                forall|x: Seq<char>|
                    target_ids(targets@).contains(x) <==> (keys.take(i as int).contains(x)
                        && receives(self.entries()[x], kind@)),
            decreases n - i,
        {
            proof {
                crate::deps::lemma_take_one_more(keys, i as int);
                assert(keys.take(i + 1).drop_last() =~= keys.take(i as int));
            }
            let id = self.entries.key_at(i);
            let entry = self.entries.value_at(i);
            let ghost x = keys[i as int];
            let ghost before = target_ids(targets@);
            let ghost gets = receives(self.entries()[x], kind@);
            let mut pushed = false;
            if entry.tracker.state().is_active() {
                let covered = entry.subscriptions.may_match(kind);
                if covered {
                    match &entry.instance {
                        Some(instance) => {
                            proof {
                                assert(!keys.take(i as int).contains(x)) by {
                                    if keys.take(i as int).contains(x) {
                                        let k = choose|k: int| 0 <= k < i && keys.take(i as int)[k] == x;
                                        assert(keys[k] == x);
                                    }
                                }
                            }
                            insert_target(&mut targets, (id.duplicate(), instance.clone()));
                            pushed = true;
                        },
                        None => {},
                    }
                } else {
                    skipped = skipped + 1;
                }
            }
            proof {
                assert(pushed == gets);
                if !pushed {
                    assert(target_ids(targets@) == before);
                }
                assert forall|y: Seq<char>|
                    target_ids(targets@).contains(y) <==> (keys.take(i + 1).contains(y) && receives(
                        self.entries()[y],
                        kind@,
                    )) by {
                    assert(before.contains(y) <==> (keys.take(i as int).contains(y) && receives(
                        self.entries()[y],
                        kind@,
                    )));
                }
            }
            i = i + 1;
        }
        proof {
            assert(keys.take(i as int) =~= keys);
            assert forall|x: Seq<char>|
                target_ids(targets@).contains(x) <==> (self.entries().dom().contains(x) && receives(
                    self.entries()[x],
                    kind@,
                )) by {
                if keys.contains(x) {
                    let k = choose|k: int| 0 <= k < keys.len() && keys[k] == x;
                    assert(self.entries().dom().contains(keys[k]));
                }
            }
        }
        (targets, skipped)
    }

    /// The installed plugins that start with the host, in increasing order.
    pub fn eager_targets(&self) -> (r: Vec<PluginId>)
        ensures
            strictly_sorted(keys_of(r@)),
            forall|x: Seq<char>|
                keys_of(r@).contains(x) <==> (self.entries().dom().contains(x)
                    && self.entries()[x].manifest.activation.eager),
    {
        let n = self.entries.len();
        proof {
            self.entries.lemma_keys_match();
        }
        let ghost keys = self.entries.keys();
        let mut out: Vec<PluginId> = Vec::new();
        let mut i: usize = 0;
        while i < n
            invariant
                n == keys.len(),
                keys == self.entries.keys(),
                forall|k: int| 0 <= k < keys.len() ==> self.entries().dom().contains(#[trigger] keys[k]),
                forall|x: Seq<char>| self.entries().dom().contains(x) ==> keys.contains(x),
                i <= n,
                strictly_sorted(keys_of(out@)),
                forall|x: Seq<char>|
                    keys_of(out@).contains(x) <==> (keys.take(i as int).contains(x)
                        && self.entries()[x].manifest.activation.eager),
            decreases n - i,
        {
            proof {
                crate::deps::lemma_take_one_more(keys, i as int);
            }
            if self.entries.value_at(i).manifest.activation.eager {
                insert_sorted(&mut out, self.entries.key_at(i).duplicate());
            }
            i = i + 1;
        }
        proof {
            assert(keys.take(i as int) =~= keys);
            assert forall|x: Seq<char>|
                keys_of(out@).contains(x) <==> (self.entries().dom().contains(x)
                    && self.entries()[x].manifest.activation.eager) by {
                if keys.contains(x) {
                    let k = choose|k: int| 0 <= k < keys.len() && keys[k] == x;
                    assert(self.entries().dom().contains(keys[k]));
                }
            }
        }
        out
    }

    /// Refuses an uninstall whose deactivation order would stop a core
    /// plugin; names the first such plugin of `order`.
    pub fn uninstall_refusal(&self, id: &PluginId, order: &Vec<PluginId>) -> (r: Option<PluginError>)
        ensures
            r is None <==> forall|k: int|
                0 <= k < order@.len() ==> !(self.entries().dom().contains(#[trigger] order@[k]@)
                    && self.entries()[order@[k]@].manifest.tier == PluginTier::Core),
            r matches Some(e) ==> exists|k: int|
                0 <= k < order@.len() && self.entries().dom().contains(#[trigger] order@[k]@)
                    && self.entries()[order@[k]@].manifest.tier == PluginTier::Core && (forall|
                    j: int,
                |
                    0 <= j < k ==> !(self.entries().dom().contains(#[trigger] order@[j]@)
                        && self.entries()[order@[j]@].manifest.tier == PluginTier::Core)) && e@
                    == err_view(
                    ErrorCode::PermissionDenied,
                    "uninstalling '"@ + id@ + "' would also stop core plugin '"@ + order@[k]@
                        + "'; refused"@,
                ),
    {
        let mut k: usize = 0;
        while k < order.len()
            invariant
                k <= order@.len(),
                forall|j: int|
                    0 <= j < k ==> !(self.entries().dom().contains(#[trigger] order@[j]@)
                        && self.entries()[order@[j]@].manifest.tier == PluginTier::Core),
            decreases order@.len() - k,
        {
            match self.tier_of(&order[k]) {
                Some(PluginTier::Core) => {
                    let mut message = concat3("uninstalling '", id.as_str(), "' would also stop core plugin '");
                    message.append(order[k].as_str());
                    message.append("'; refused");
                    return Some(PluginError::permission_denied(message));
                },
                _ => {},
            }
            k = k + 1;
        }
        None
    }
}

/// The position of the last of `items` with id `x`, or -1.
pub open spec fn last_with_id(items: Seq<DiscoveredPlugin>, x: Seq<char>) -> int
    decreases items.len(),
{
    if items.len() == 0 {
        -1
    } else if items.last().manifest.id@ == x {
        items.len() - 1
    } else {
        last_with_id(items.drop_last(), x)
    }
}

proof fn lemma_last_with_id_bounds(items: Seq<DiscoveredPlugin>, x: Seq<char>)
    ensures
        -1 <= last_with_id(items, x) < items.len(),
        last_with_id(items, x) >= 0 ==> items[last_with_id(items, x)].manifest.id@ == x,
        last_with_id(items, x) == -1 <==> forall|k: int|
            0 <= k < items.len() ==> (#[trigger] items[k]).manifest.id@ != x,
    decreases items.len(),
{
    if items.len() > 0 {
        lemma_last_with_id_bounds(items.drop_last(), x);
        if items.last().manifest.id@ != x {
            assert forall|k: int| 0 <= k < items.len() - 1 implies (#[trigger] items[k]) == items.drop_last()[k] by {}
        }
    }
}

/// What `merge_discovered` does with a new discovery: each discovered
/// plugin (the last, for an id found twice) is installed afresh or, when
/// running or changing, only takes the new manifest and directory; a plugin
/// left unloaded becomes resolvable again.
pub open spec fn discovery_merged<P>(
    prior: Map<Seq<char>, PluginEntry<P>>,
    next: Map<Seq<char>, PluginEntry<P>>,
    discovered: Seq<DiscoveredPlugin>,
) -> bool {
    &&& forall|x: Seq<char>|
        next.dom().contains(x) <==> (prior.dom().contains(x)
            || last_with_id(discovered, x) >= 0)
    &&& forall|x: Seq<char>| #[trigger]
        next.dom().contains(x) && last_with_id(discovered, x) < 0 ==> {
            let before = prior[x];
            let after = next[x];
            &&& same_but_tracker(before, after)
            &&& after.tracker.error_view() == before.tracker.error_view()
            &&& after.tracker.state_view() == (if before.tracker.state_view()
                == PluginState::Unloaded {
                PluginState::Resolved
            } else {
                before.tracker.state_view()
            })
        }
    &&& forall|x: Seq<char>| #[trigger]
        next.dom().contains(x) && last_with_id(discovered, x) >= 0 ==> {
            let item = discovered[last_with_id(discovered, x)];
            let after = next[x];
            &&& after.manifest == item.manifest
            &&& after.root == item.root
            &&& (prior.dom().contains(x) && is_running(
                prior[x].tracker.state_view(),
            )) ==> {
                let before = prior[x];
                &&& after.descriptor == before.descriptor
                &&& after.instance == before.instance
                &&& after.subscriptions == before.subscriptions
                &&& after.tracker == before.tracker
            }
            &&& !(prior.dom().contains(x) && is_running(
                prior[x].tracker.state_view(),
            )) ==> {
                &&& after.descriptor is None
                &&& after.instance is None
                &&& after.subscriptions@ =~= Seq::<crate::event::EventPattern>::empty()
                &&& after.tracker.state_view() == PluginState::Discovered
                &&& after.tracker.error_view() is None
            }
        }
}

/// A plugin that is active, or being activated or deactivated, keeps
/// running when it is discovered again: its state, history, instance,
/// descriptor and subscriptions stay, and only its manifest and root are
/// those just found. A plugin in any other state is taken afresh: it is
/// discovered again, with no instance and no subscriptions.
pub proof fn lemma_rediscovery_keeps_running<P>(
    prior: Map<Seq<char>, PluginEntry<P>>,
    next: Map<Seq<char>, PluginEntry<P>>,
    discovered: Seq<DiscoveredPlugin>,
    x: Seq<char>,
)
    requires
        discovery_merged(prior, next, discovered),
        prior.dom().contains(x),
        last_with_id(discovered, x) >= 0,
    ensures
        next.dom().contains(x),
        next[x].manifest == discovered[last_with_id(discovered, x)].manifest,
        next[x].root == discovered[last_with_id(discovered, x)].root,
        (prior[x].tracker.state_view() == PluginState::Active || prior[x].tracker.state_view()
            == PluginState::Activating || prior[x].tracker.state_view() == PluginState::Deactivating)
            ==> {
            &&& next[x].tracker == prior[x].tracker
            &&& next[x].instance == prior[x].instance
            &&& next[x].descriptor == prior[x].descriptor
            &&& next[x].subscriptions == prior[x].subscriptions
        },
        !(prior[x].tracker.state_view() == PluginState::Active || prior[x].tracker.state_view()
            == PluginState::Activating || prior[x].tracker.state_view() == PluginState::Deactivating)
            ==> {
            &&& next[x].tracker.state_view() == PluginState::Discovered
            &&& next[x].instance is None
            &&& next[x].descriptor is None
            &&& next[x].subscriptions@.len() == 0
        },
{
    assert(next.dom().contains(x));
}

impl<P: Clone> PluginTable<P> {
    /// Takes a new discovery into the table. For each discovered plugin (the
    /// last one, for an id found twice): a plugin that is running or in the
    /// middle of a change keeps its state and only takes the new manifest and
    /// directory; any other is replaced by a fresh, discovered entry. A
    /// plugin left unloaded is then made resolvable again.
    #[verifier::spinoff_prover]
    pub fn merge_discovered(&mut self, discovered: Vec<DiscoveredPlugin>)
        ensures
            discovery_merged(old(self).entries(), final(self).entries(), discovered@),
    {
        let ghost start = self.entries();
        let ghost items = discovered@;
        let mut rest = discovered;
        let mut i: usize = 0;
        while rest.len() > 0
            invariant
                items == discovered@,
                rest@ == items.skip(items.len() - rest@.len()),
                rest@.len() <= items.len(),
                forall|x: Seq<char>|
                    self.entries().dom().contains(x) <==> (start.dom().contains(x) || last_with_id(
                        items.take(items.len() - rest@.len()),
                        x,
                    ) >= 0),
                forall|x: Seq<char>| #[trigger]
                    self.entries().dom().contains(x) && last_with_id(
                        items.take(items.len() - rest@.len()),
                        x,
                    ) < 0 ==> self.entries()[x] == start[x],
                forall|x: Seq<char>| #[trigger]
                    self.entries().dom().contains(x) && last_with_id(
                        items.take(items.len() - rest@.len()),
                        x,
                    ) >= 0 ==> {
                        let item = items[last_with_id(items.take(items.len() - rest@.len()), x)];
                        let after = self.entries()[x];
                        &&& after.manifest == item.manifest
                        &&& after.root == item.root
                        &&& (start.dom().contains(x) && is_running(start[x].tracker.state_view()))
                            ==> {
                            &&& after.descriptor == start[x].descriptor
                            &&& after.instance == start[x].instance
                            &&& after.subscriptions == start[x].subscriptions
                            &&& after.tracker == start[x].tracker
                        }
                        &&& !(start.dom().contains(x) && is_running(start[x].tracker.state_view()))
                            ==> {
                            &&& after.descriptor is None
                            &&& after.instance is None
                            &&& after.subscriptions@ == Seq::<crate::event::EventPattern>::empty()
                            &&& after.tracker.state_view() == PluginState::Discovered
                            &&& after.tracker.error_view() is None
                        }
                    },
            decreases rest@.len(),
        {
            let ghost d0 = items.len() - rest@.len();
            let ghost before = self.entries();
            assert(rest@[0] == items[d0]);
            let item = rest.remove(0);
            proof {
                assert(rest@ =~= items.skip(d0 + 1));
                assert(items.take(d0 + 1).drop_last() =~= items.take(d0));
                assert(items.take(d0 + 1).last() == item);
                lemma_last_with_id_bounds(items.take(d0), item.manifest.id@);
            }
            let id = item.manifest.id.duplicate();
            match self.take(&id) {
                Some(mut existing) => {
                    let state = existing.tracker.state();
                    if is_running_state(state) {
                        existing.manifest = item.manifest;
                        existing.root = item.root;
                        self.put(&id, existing);
                    } else {
                        self.put(&id, PluginEntry::new(item));
                    }
                },
                None => {
                    self.put(&id, PluginEntry::new(item));
                },
            }
            proof {
                let t1 = items.take(d0 + 1);
                let t0 = items.take(d0);
                assert forall|x: Seq<char>| x != id@ implies last_with_id(t1, x) == last_with_id(t0, x) by {}
                assert(last_with_id(t1, id@) == d0);
                assert(self.entries().dom().contains(id@));
                assert forall|x: Seq<char>|
                    self.entries().dom().contains(x) <==> (start.dom().contains(x) || last_with_id(
                        t1,
                        x,
                    ) >= 0) by {
                    if x != id@ {
                        assert(self.entries().dom().contains(x) == before.dom().contains(x));
                    }
                }
                assert forall|x: Seq<char>| #[trigger] self.entries().dom().contains(x) && x != id@ implies self.entries()[x] == before[x] by {}
                if start.dom().contains(id@) && is_running(start[id@].tracker.state_view()) {
                    if last_with_id(t0, id@) >= 0 {
                        lemma_last_with_id_bounds(t0, id@);
                    }
                }
                assert(items.len() - rest@.len() == d0 + 1);
                assert(items.take(items.len() - rest@.len()) == t1);
            }
        }
        proof {
            assert(items.take(items.len() as int) =~= items);
        }
        let ghost merged = self.entries();
        self.reopen_unloaded();
        proof {
            assert forall|x: Seq<char>| #[trigger]
                self.entries().dom().contains(x) && last_with_id(items, x) >= 0 implies
                self.entries()[x].tracker.state_view() == merged[x].tracker.state_view()
                && self.entries()[x] == merged[x] by {
                if merged[x].tracker.state_view() == PluginState::Unloaded {
                    if start.dom().contains(x) && is_running(start[x].tracker.state_view()) {
                    }
                }
            }
        }
    }

    /// Makes every unloaded plugin resolvable again.
    fn reopen_unloaded(&mut self)
        ensures
            final(self).entries().dom() == old(self).entries().dom(),
            forall|x: Seq<char>| #[trigger]
                old(self).entries().dom().contains(x) ==> {
                    let before = old(self).entries()[x];
                    let after = final(self).entries()[x];
                    &&& before.tracker.state_view() != PluginState::Unloaded ==> after == before
                    &&& before.tracker.state_view() == PluginState::Unloaded ==> {
                        &&& same_but_tracker(before, after)
                        &&& after.tracker.state_view() == PluginState::Resolved
                        &&& after.tracker.error_view() == before.tracker.error_view()
                    }
                },
    {
        let ghost start = self.entries();
        let n = self.entries.len();
        proof {
            self.entries.lemma_keys_match();
        }
        let ghost keys = self.entries.keys();
        let mut ids: Vec<PluginId> = Vec::new();
        let mut i: usize = 0;
        while i < n
            invariant
                n == keys.len(),
                keys == self.entries.keys(),
                self.entries() == start,
                i <= n,
                ids@.len() == i,
                forall|j: int| 0 <= j < i ==> (#[trigger] ids@[j])@ == keys[j],
            decreases n - i,
        {
            ids.push(self.entries.key_at(i).duplicate());
            i = i + 1;
        }
        assert(keys_of(ids@) =~= keys);
        let mut k: usize = 0;
        while k < ids.len()
            invariant
                k <= ids@.len(),
                keys_of(ids@) == keys,
                forall|a: int, b: int| 0 <= a < b < keys.len() ==> keys[a] != keys[b],
                forall|x: Seq<char>| start.dom().contains(x) <==> keys.contains(x),
                self.entries().dom() == start.dom(),
                forall|x: Seq<char>| #[trigger]
                    start.dom().contains(x) && !keys.take(k as int).contains(x) ==> self.entries()[x]
                        == start[x],
                forall|x: Seq<char>| #[trigger]
                    start.dom().contains(x) && keys.take(k as int).contains(x) ==> {
                        let before = start[x];
                        let after = self.entries()[x];
                        &&& before.tracker.state_view() != PluginState::Unloaded ==> after == before
                        &&& before.tracker.state_view() == PluginState::Unloaded ==> {
                            &&& same_but_tracker(before, after)
                            &&& after.tracker.state_view() == PluginState::Resolved
                            &&& after.tracker.error_view() == before.tracker.error_view()
                        }
                    },
            decreases ids@.len() - k,
        {
            proof {
                crate::deps::lemma_take_one_more(keys, k as int);
                assert(keys.contains(keys[k as int]));
                assert(!keys.take(k as int).contains(keys[k as int])) by {
                    if keys.take(k as int).contains(keys[k as int]) {
                        let j = choose|j: int| 0 <= j < k && keys.take(k as int)[j] == keys[k as int];
                        assert(keys[j] == keys[k as int]);
                    }
                }
            }
            let ghost before = self.entries();
            let id = &ids[k];
            assert(id@ == keys[k as int]);
            match self.take(id) {
                Some(mut entry) => {
                    if entry.tracker.state() == PluginState::Unloaded {
                        let _ = entry.tracker.transition(PluginState::Resolved, "rediscovered");
                    }
                    self.put(id, entry);
                    proof {
                        assert(self.entries().dom() =~= before.dom());
                    }
                },
                None => {},
            }
            k = k + 1;
        }
        proof {
            assert(keys.take(k as int) =~= keys);
        }
    }
}

/// Whether a plugin in state `s` keeps its state when rediscovered.
fn is_running_state(s: PluginState) -> (r: bool)
    ensures
        r == is_running(s),
{
    match s {
        PluginState::Active | PluginState::Deactivating | PluginState::Activating => true,
        _ => false,
    }
}

} // verus!
