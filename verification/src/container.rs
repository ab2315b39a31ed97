//! The service container: who provides which service, who may resolve it,
//! and which implementation a request gets.
//!
//! Services and factories are carried as values of the type parameters `S`
//! and `F`; the container decides, the caller runs a chosen factory and
//! hands its output to [`factory_outcome`].
use vstd::prelude::*;
use vstd::string::*;

use std::sync::Arc;

use crate::assoc::AssocList;
use crate::error::{err_view, ErrorCode, ErrorView, PluginError};
use crate::ids::{keys_of, Capability, PluginId, ServiceId, Version};
use crate::order::{
    lemma_insert_after_triples, lemma_with_triple_push, stably_sorted, triple_le,
    triple_le_exec, triples_ascending, with_triple, Triple,
};
use crate::service::{same_type, ServiceDescriptor, ServiceSlot, ServiceVisibility};
use crate::text::concat3;

verus! {

/// One registration of a service.
pub struct ServiceEntry<S, F> {
    /// The plugin that provides it; `None` for the host.
    pub provider: Option<PluginId>,
    pub descriptor: ServiceDescriptor,
    /// The instance, for a service registered as one.
    pub service: Option<S>,
    /// The type of the instance; a factory names its type per request.
    pub type_id: Option<std::any::TypeId>,
    /// The lease shared by every handle to the instance.
    pub slot: Arc<ServiceSlot>,
    /// The factory, for a service made per requesting plugin.
    pub factory: Option<F>,
}

/// The views of a plugin id that may be absent.
pub open spec fn provider_view(p: Option<PluginId>) -> Option<Seq<char>> {
    match p {
        Some(x) => Some(x@),
        None => None,
    }
}

/// The service's id.
pub open spec fn entry_id<S, F>(e: ServiceEntry<S, F>) -> Seq<char> {
    e.descriptor.id@
}

/// `s` without the registrations of service `id` by `provider`.
pub open spec fn without_registration<S, F>(
    s: Seq<ServiceEntry<S, F>>,
    id: Seq<char>,
    provider: Option<Seq<char>>,
) -> Seq<ServiceEntry<S, F>>
    decreases s.len(),
{
    if s.len() == 0 {
        s
    } else if entry_id(s.last()) == id && provider_view(s.last().provider) == provider {
        without_registration(s.drop_last(), id, provider)
    } else {
        without_registration(s.drop_last(), id, provider).push(s.last())
    }
}

/// `s` after registering `e`: a provider's earlier registration of the
/// same service is replaced, and `e` comes last.
pub open spec fn registering<S, F>(s: Seq<ServiceEntry<S, F>>, e: ServiceEntry<S, F>) -> Seq<
    ServiceEntry<S, F>,
> {
    without_registration(s, entry_id(e), provider_view(e.provider)).push(e)
}

/// Whether some registration of service `id` exists.
pub open spec fn registered<S, F>(s: Seq<ServiceEntry<S, F>>, id: Seq<char>) -> bool {
    exists|i: int| 0 <= i < s.len() && entry_id(#[trigger] s[i]) == id
}

/// A grant or declaration table as plain values.
pub open spec fn table_view<K: View, V: View>(m: Map<K::V, Vec<V>>) -> Map<K::V, Seq<V::V>> {
    Map::new(|k: K::V| m.dom().contains(k), |k: K::V| keys_of(m[k]@))
}

/// Whether `e` can serve a request for an instance of type `wanted`: a
/// factory names its type per request, so it is not ruled out here.
pub open spec fn serves_type<S, F>(e: ServiceEntry<S, F>, wanted: std::any::TypeId) -> bool {
    e.factory is Some || e.type_id == Some(wanted)
}

/// The first host registration of `id` from `from` on that serves `wanted`.
pub open spec fn first_host_match<S, F>(
    s: Seq<ServiceEntry<S, F>>,
    id: Seq<char>,
    wanted: std::any::TypeId,
    from: int,
) -> Option<int>
    decreases s.len() - from,
{
    if from < 0 || from >= s.len() {
        None
    } else if entry_id(s[from]) == id && s[from].provider is None && serves_type(s[from], wanted) {
        Some(from)
    } else {
        first_host_match(s, id, wanted, from + 1)
    }
}

/// The first registration of `id` from `from` on that serves `wanted`.
pub open spec fn first_match<S, F>(
    s: Seq<ServiceEntry<S, F>>,
    id: Seq<char>,
    wanted: std::any::TypeId,
    from: int,
) -> Option<int>
    decreases s.len() - from,
{
    if from < 0 || from >= s.len() {
        None
    } else if entry_id(s[from]) == id && serves_type(s[from], wanted) {
        Some(from)
    } else {
        first_match(s, id, wanted, from + 1)
    }
}

/// The first host registration of `id` from `from` on.
pub open spec fn first_host_entry<S, F>(s: Seq<ServiceEntry<S, F>>, id: Seq<char>, from: int) -> Option<int>
    decreases s.len() - from,
{
    if from < 0 || from >= s.len() {
        None
    } else if entry_id(s[from]) == id && s[from].provider is None {
        Some(from)
    } else {
        first_host_entry(s, id, from + 1)
    }
}

/// The first registration of `id` from `from` on.
pub open spec fn first_entry<S, F>(s: Seq<ServiceEntry<S, F>>, id: Seq<char>, from: int) -> Option<int>
    decreases s.len() - from,
{
    if from < 0 || from >= s.len() {
        None
    } else if entry_id(s[from]) == id {
        Some(from)
    } else {
        first_entry(s, id, from + 1)
    }
}

/// Each search returns an index into `s`.
pub proof fn lemma_found_in_range<S, F>(
    s: Seq<ServiceEntry<S, F>>,
    id: Seq<char>,
    wanted: std::any::TypeId,
    from: int,
)
    requires
        0 <= from,
    ensures
        first_host_match(s, id, wanted, from) matches Some(i) ==> from <= i < s.len(),
        first_match(s, id, wanted, from) matches Some(i) ==> from <= i < s.len(),
    decreases s.len() - from,
{
    if from < s.len() {
        lemma_found_in_range(s, id, wanted, from + 1);
    }
}

/// Each search by id alone returns an index into `s`.
pub proof fn lemma_entry_found_in_range<S, F>(s: Seq<ServiceEntry<S, F>>, id: Seq<char>, from: int)
    requires
        0 <= from,
    ensures
        first_host_entry(s, id, from) matches Some(i) ==> from <= i < s.len(),
        first_entry(s, id, from) matches Some(i) ==> from <= i < s.len(),
    decreases s.len() - from,
{
    if from < s.len() {
        lemma_entry_found_in_range(s, id, from + 1);
    }
}

/// The registration a request for `id` of type `wanted` is served by: the
/// host's if one fits, else the first plugin's that fits.
pub open spec fn chosen_for<S, F>(s: Seq<ServiceEntry<S, F>>, id: Seq<char>, wanted: std::any::TypeId) -> Option<int> {
    match first_host_match(s, id, wanted, 0) {
        Some(i) => Some(i),
        None => first_match(s, id, wanted, 0),
    }
}

/// The registration whose rules decide whether `id` may be used: the
/// host's if there is one, else the first.
pub open spec fn authority_for<S, F>(s: Seq<ServiceEntry<S, F>>, id: Seq<char>) -> Option<int> {
    match first_host_entry(s, id, 0) {
        Some(i) => Some(i),
        None => first_entry(s, id, 0),
    }
}

/// A message about service `id`.
pub open spec fn service_msg(id: Seq<char>, tail: Seq<char>) -> Seq<char> {
    "service '"@ + id + tail
}

/// The error for a requester that `e`'s visibility shuts out, if it does.
pub open spec fn visibility_error<S, F>(
    e: ServiceEntry<S, F>,
    requester: Option<Seq<char>>,
    deps: Map<Seq<char>, Seq<Seq<char>>>,
) -> Option<ErrorView> {
    match e.descriptor.visibility {
        ServiceVisibility::Public => None,
        ServiceVisibility::HostOnly => match requester {
            None => None,
            Some(p) => Some(
                err_view(
                    ErrorCode::PermissionDenied,
                    "plugin '"@ + p + "' may not resolve host-only service '"@ + entry_id(e) + "'"@,
                ),
            ),
        },
        ServiceVisibility::DeclaredDependentsOnly => match (requester, e.provider) {
            (Some(r), Some(provider)) => if deps.dom().contains(r) && deps[r].contains(provider@) {
                None
            } else {
                Some(
                    err_view(
                        ErrorCode::PermissionDenied,
                        "plugin '"@ + r + "' must declare '"@ + provider@
                            + "' as a dependency to resolve '"@ + entry_id(e) + "'"@,
                    ),
                )
            },
            _ => None,
        },
    }
}

/// The first of `required`, from `from` on, that `owned` lacks.
pub open spec fn first_missing(required: Seq<Seq<char>>, owned: Seq<Seq<char>>, from: int) -> Option<
    Seq<char>,
>
    decreases required.len() - from,
{
    if from < 0 || from >= required.len() {
        None
    } else if !owned.contains(required[from]) {
        Some(required[from])
    } else {
        first_missing(required, owned, from + 1)
    }
}

/// What `plugin` was granted; nothing if it was never granted anything.
pub open spec fn owned_by(grants: Map<Seq<char>, Seq<Seq<char>>>, plugin: Seq<char>) -> Seq<Seq<char>> {
    if grants.dom().contains(plugin) {
        grants[plugin]
    } else {
        Seq::empty()
    }
}

/// The error for a plugin that lacks a capability `e` requires, if it
/// does; the host is never refused.
pub open spec fn capability_error<S, F>(
    e: ServiceEntry<S, F>,
    requester: Option<Seq<char>>,
    grants: Map<Seq<char>, Seq<Seq<char>>>,
) -> Option<ErrorView> {
    match requester {
        None => None,
        Some(p) => match first_missing(keys_of(e.descriptor.requires@), owned_by(grants, p), 0) {
            None => None,
            Some(c) => Some(
                err_view(
                    ErrorCode::PermissionDenied,
                    "plugin '"@ + p + "' lacks capability '"@ + c + "' required by service '"@
                        + entry_id(e) + "'"@,
                ),
            ),
        },
    }
}

/// Why `requester` may not use `e`, if it may not.
pub open spec fn access_error<S, F>(
    e: ServiceEntry<S, F>,
    requester: Option<Seq<char>>,
    grants: Map<Seq<char>, Seq<Seq<char>>>,
    deps: Map<Seq<char>, Seq<Seq<char>>>,
) -> Option<ErrorView> {
    match visibility_error(e, requester, deps) {
        Some(x) => Some(x),
        None => capability_error(e, requester, grants),
    }
}

/// The registration that serves a request, or why the request fails
/// before the registration's lease is looked at.
pub open spec fn resolve_plan<S, F>(
    s: Seq<ServiceEntry<S, F>>,
    grants: Map<Seq<char>, Seq<Seq<char>>>,
    deps: Map<Seq<char>, Seq<Seq<char>>>,
    requester: Option<Seq<char>>,
    id: Seq<char>,
    wanted: std::any::TypeId,
) -> Result<int, ErrorView> {
    if !registered(s, id) {
        Err(err_view(ErrorCode::ServiceUnavailable, service_msg(id, "' is not registered"@)))
    } else {
        match chosen_for(s, id, wanted) {
            None => Err(
                err_view(
                    ErrorCode::ServiceUnavailable,
                    service_msg(id, "' is registered but not with the requested type"@),
                ),
            ),
            Some(i) => match access_error(s[i], requester, grants, deps) {
                Some(x) => Err(x),
                None => Ok(i),
            },
        }
    }
}

/// The registration whose rules apply to `requester` using `id`, or why it
/// may not, before the lease is looked at.
pub open spec fn authorize_plan<S, F>(
    s: Seq<ServiceEntry<S, F>>,
    grants: Map<Seq<char>, Seq<Seq<char>>>,
    deps: Map<Seq<char>, Seq<Seq<char>>>,
    requester: Option<Seq<char>>,
    id: Seq<char>,
) -> Result<int, ErrorView> {
    match authority_for(s, id) {
        None => Err(err_view(ErrorCode::ServiceUnavailable, service_msg(id, "' is not registered"@))),
        Some(i) => match access_error(s[i], requester, grants, deps) {
            Some(x) => Err(x),
            None => Ok(i),
        },
    }
}

/// The error for a registration whose lease has ended.
pub open spec fn revoked_error(id: Seq<char>) -> ErrorView {
    err_view(ErrorCode::ServiceUnavailable, service_msg(id, "' has been revoked"@))
}

/// What a resolved request gets.
pub enum Resolution<'a, S, F> {
    /// A registered instance and the lease it lives under.
    Instance { slot: &'a Arc<ServiceSlot>, service: &'a S },
    /// A factory, to be run for `plugin`; see [`factory_outcome`].
    Factory { factory: &'a F, plugin: PluginId },
}

/// `r` is what a live registration `e` gives `requester`.
pub open spec fn resolution_of<'a, S, F>(
    r: Result<Resolution<'a, S, F>, PluginError>,
    e: ServiceEntry<S, F>,
    requester: Option<Seq<char>>,
    id: Seq<char>,
) -> bool {
    match e.factory {
        Some(f) => match requester {
            None => r matches Err(x) && x@ == err_view(
                ErrorCode::InvalidArgument,
                service_msg(id, "' is per-plugin and cannot be resolved by the host itself"@),
            ),
            Some(p) => r matches Ok(Resolution::Factory { factory, plugin }) && *factory == f
                && plugin@ == p,
        },
        None => match e.service {
            Some(v) => r matches Ok(Resolution::Instance { slot, service }) && *slot == e.slot
                && *service == v,
            None => r matches Err(x) && x@ == err_view(
                ErrorCode::ServiceUnavailable,
                service_msg(id, "' has no live instance"@),
            ),
        },
    }
}

/// An optional index as an integer.
pub open spec fn index_view(r: Option<usize>) -> Option<int> {
    match r {
        Some(i) => Some(i as int),
        None => None,
    }
}

/// The views of an optional requester.
pub open spec fn requester_view(r: Option<&PluginId>) -> Option<Seq<char>> {
    match r {
        Some(p) => Some(p@),
        None => None,
    }
}

/// `s` without the registrations `provider` made.
pub open spec fn without_provider<S, F>(s: Seq<ServiceEntry<S, F>>, provider: Seq<char>) -> Seq<
    ServiceEntry<S, F>,
>
    decreases s.len(),
{
    if s.len() == 0 {
        s
    } else if provider_view(s.last().provider) == Some(provider) {
        without_provider(s.drop_last(), provider)
    } else {
        without_provider(s.drop_last(), provider).push(s.last())
    }
}

/// Whether `provider` registered service `id` in `s`.
pub open spec fn provides<S, F>(s: Seq<ServiceEntry<S, F>>, provider: Seq<char>, id: Seq<char>) -> bool {
    exists|i: int|
        0 <= i < s.len() && provider_view((#[trigger] s[i]).provider) == Some(provider)
            && entry_id(s[i]) == id
}

/// What an inventory item tells of a registration besides its id.
pub type InventoryFacts = (Option<Seq<char>>, Version, ServiceVisibility, Seq<Seq<char>>);

/// A key that orders by service id alone.
pub open spec fn id_key(id: Seq<char>) -> Triple {
    (id, Seq::empty(), Seq::empty())
}

/// The registrations of `s` keyed by service id.
pub open spec fn registration_entries<S, F>(s: Seq<ServiceEntry<S, F>>) -> Seq<
    (Triple, InventoryFacts),
> {
    s.map_values(
        |e: ServiceEntry<S, F>|
            (
                id_key(entry_id(e)),
                (
                    provider_view(e.provider),
                    e.descriptor.version,
                    e.descriptor.visibility,
                    keys_of(e.descriptor.requires@),
                ),
            ),
    )
}

/// The optional string as characters.
pub open spec fn text_view(t: Option<String>) -> Option<Seq<char>> {
    match t {
        Some(x) => Some(x@),
        None => None,
    }
}

/// The items of an inventory keyed by service id.
pub open spec fn inventory_entries(r: Seq<ServiceInventoryItem>) -> Seq<(Triple, InventoryFacts)> {
    r.map_values(
        |x: ServiceInventoryItem|
            (
                id_key(x.id@),
                (text_view(x.provider), x.version, x.visibility, keys_of(x.requires@)),
            ),
    )
}

/// One registration as the inventory lists it.
#[derive(Debug, Clone)]
pub struct ServiceInventoryItem {
    pub id: ServiceId,
    pub provider: Option<String>,
    pub version: Version,
    pub visibility: ServiceVisibility,
    pub requires: Vec<Capability>,
    /// Whether its lease was alive when the inventory was taken.
    pub alive: bool,
}

fn copy_capabilities(v: &Vec<Capability>) -> (r: Vec<Capability>)
    ensures
        keys_of(r@) == keys_of(v@),
{
    let mut out: Vec<Capability> = Vec::new();
    let mut i: usize = 0;
    while i < v.len()
        invariant
            i <= v@.len(),
            out@.len() == i,
            forall|k: int| 0 <= k < i ==> (#[trigger] out@[k])@ == v@[k]@,
        decreases v@.len() - i,
    {
        out.push(v[i].duplicate());
        i = i + 1;
    }
    assert(keys_of(out@) =~= keys_of(v@));
    out
}

/// Inserts `item` after every item whose service id is at most its own.
fn insert_by_id(out: &mut Vec<ServiceInventoryItem>, item: ServiceInventoryItem)
    requires
        triples_ascending(inventory_entries(old(out)@)),
    ensures
        triples_ascending(inventory_entries(final(out)@)),
        forall|t: Triple| #[trigger]
            with_triple(inventory_entries(final(out)@), t) == with_triple(
                inventory_entries(old(out)@.push(item)),
                t,
            ),
{
    let ghost before = inventory_entries(out@);
    let ghost x = inventory_entries(seq![item])[0];
    proof {
        reveal_strlit("");
    }
    let mut p: usize = 0;
    while p < out.len() && triple_le_exec(out[p].id.as_str(), "", "", item.id.as_str(), "", "")
        invariant
            p <= out@.len(),
            before == inventory_entries(out@),
            x == inventory_entries(seq![item])[0],
            ""@ == Seq::<char>::empty(),
            forall|k: int| 0 <= k < p ==> triple_le((#[trigger] before[k]).0, x.0),
        decreases out@.len() - p,
    {
        assert(before[p as int].0 == (out@[p as int].id@, ""@, ""@));
        p = p + 1;
    }
    let ghost prev = out@;
    out.insert(p, item);
    proof {
        if p < prev.len() {
            assert(before[p as int].0 == (prev[p as int].id@, ""@, ""@));
        }
        assert(inventory_entries(out@) =~= before.take(p as int).push(x) + before.skip(p as int));
        assert(inventory_entries(prev.push(item)) =~= before.push(x));
        lemma_insert_after_triples(before, x, p as int);
    }
}

proof fn lemma_without_registration_idempotent<S, F>(
    s: Seq<ServiceEntry<S, F>>,
    id: Seq<char>,
    provider: Option<Seq<char>>,
)
    ensures
        without_registration(without_registration(s, id, provider), id, provider)
            == without_registration(s, id, provider),
    decreases s.len(),
{
    if s.len() > 0 {
        lemma_without_registration_idempotent(s.drop_last(), id, provider);
        let rest = without_registration(s.drop_last(), id, provider);
        if !(entry_id(s.last()) == id && provider_view(s.last().provider) == provider) {
            assert(rest.push(s.last()).drop_last() =~= rest);
        }
    }
}

/// Registering a service again from the same provider replaces the earlier
/// registration: the result is as if only the later one had been made.
pub proof fn lemma_reregistration_replaces<S, F>(
    s: Seq<ServiceEntry<S, F>>,
    first: ServiceEntry<S, F>,
    second: ServiceEntry<S, F>,
)
    requires
        entry_id(first) == entry_id(second),
        provider_view(first.provider) == provider_view(second.provider),
    ensures
        registering(registering(s, first), second) == registering(s, second),
{
    let id = entry_id(first);
    let p = provider_view(first.provider);
    let once = without_registration(s, id, p);
    assert(once.push(first).drop_last() =~= once);
    lemma_without_registration_idempotent(s, id, p);
}

/// A plugin that registers a service twice under one id keeps only the
/// second: after both calls the services are those before the first call
/// with the second registration made, the first one gone and every other
/// registration as it was.
pub proof fn lemma_register_plugin_twice<S, F>(
    s0: Seq<ServiceEntry<S, F>>,
    s1: Seq<ServiceEntry<S, F>>,
    s2: Seq<ServiceEntry<S, F>>,
    provider: PluginId,
    first: crate::service::ServiceBinding<S>,
    second: crate::service::ServiceBinding<S>,
)
    requires
        plugin_registration(s0, s1, provider, first),
        plugin_registration(s1, s2, provider, second),
        first.descriptor_view().id@ == second.descriptor_view().id@,
    ensures
        s2 == registering(s0, s2.last()),
        s2.last().descriptor == second.descriptor_view(),
        s2.last().provider == Some(provider),
        s2.drop_last() == without_registration(s0, second.descriptor_view().id@, Some(provider@)),
        forall|i: int|
            0 <= i < s2.len() - 1 ==> !(entry_id(#[trigger] s2[i]) == second.descriptor_view().id@
                && provider_view(s2[i].provider) == Some(provider@)),
{
    lemma_reregistration_replaces(s0, s1.last(), s2.last());
    let w = without_registration(s0, second.descriptor_view().id@, Some(provider@));
    assert(s2.drop_last() =~= w);
    lemma_without_registration_gone(s0, second.descriptor_view().id@, Some(provider@));
    assert forall|i: int| 0 <= i < s2.len() - 1 implies !(entry_id(#[trigger] s2[i])
        == second.descriptor_view().id@ && provider_view(s2[i].provider) == Some(provider@)) by {
        assert(s2[i] == w[i]);
    }
}

/// No registration of `id` by `provider` is left once it is withdrawn.
proof fn lemma_without_registration_gone<S, F>(
    s: Seq<ServiceEntry<S, F>>,
    id: Seq<char>,
    provider: Option<Seq<char>>,
)
    ensures
        forall|i: int|
            0 <= i < without_registration(s, id, provider).len() ==> !(entry_id(
                #[trigger] without_registration(s, id, provider)[i],
            ) == id && provider_view(without_registration(s, id, provider)[i].provider) == provider),
    decreases s.len(),
{
    if s.len() > 0 {
        lemma_without_registration_gone(s.drop_last(), id, provider);
        let w = without_registration(s.drop_last(), id, provider);
        assert forall|i: int| 0 <= i < without_registration(s, id, provider).len() implies !(entry_id(
            #[trigger] without_registration(s, id, provider)[i],
        ) == id && provider_view(without_registration(s, id, provider)[i].provider) == provider) by {
            if i < w.len() {
                assert(without_registration(s, id, provider)[i] == w[i]);
            }
        }
    }
}

/// A second grant to a plugin replaces the first: what the plugin may use
/// is decided by the second grant alone.
pub proof fn lemma_second_grant_overwrites<S, F>(
    s: Seq<ServiceEntry<S, F>>,
    grants: Map<Seq<char>, Seq<Seq<char>>>,
    deps: Map<Seq<char>, Seq<Seq<char>>>,
    plugin: Seq<char>,
    first: Seq<Seq<char>>,
    second: Seq<Seq<char>>,
    requester: Option<Seq<char>>,
    id: Seq<char>,
)
    ensures
        grants.insert(plugin, first).insert(plugin, second) == grants.insert(plugin, second),
        authorize_plan(s, grants.insert(plugin, first).insert(plugin, second), deps, requester, id)
            == authorize_plan(s, grants.insert(plugin, second), deps, requester, id),
{
    assert(grants.insert(plugin, first).insert(plugin, second) =~= grants.insert(plugin, second));
}

/// A service shown only to the plugins that declared its provider is
/// refused to a plugin whose declared dependencies leave the provider out,
/// whatever else it declared; and its visibility lets through a plugin
/// that declared the provider.
pub proof fn lemma_declared_dependents_only<S, F>(
    s: Seq<ServiceEntry<S, F>>,
    grants: Map<Seq<char>, Seq<Seq<char>>>,
    deps: Map<Seq<char>, Seq<Seq<char>>>,
    p: Seq<char>,
    id: Seq<char>,
    wanted: std::any::TypeId,
)
    requires
        registered(s, id),
        chosen_for(s, id, wanted) is Some,
        s[chosen_for(s, id, wanted)->0].descriptor.visibility
            == crate::service::ServiceVisibility::DeclaredDependentsOnly,
        s[chosen_for(s, id, wanted)->0].provider is Some,
    ensures
        ({
            let e = s[chosen_for(s, id, wanted)->0];
            let q = e.provider->0@;
            &&& !(deps.dom().contains(p) && deps[p].contains(q)) ==> resolve_plan(
                s,
                grants,
                deps,
                Some(p),
                id,
                wanted,
            ) == Err::<int, ErrorView>(
                err_view(
                    ErrorCode::PermissionDenied,
                    "plugin '"@ + p + "' must declare '"@ + q + "' as a dependency to resolve '"@
                        + entry_id(e) + "'"@,
                ),
            )
            &&& deps.dom().contains(p) && deps[p].contains(q) ==> visibility_error(e, Some(p), deps)
                is None
        }),
{
}

/// The same rule for `authorize`: a plugin that did not declare the
/// provider of a service shown only to declared dependents is refused it.
pub proof fn lemma_declared_dependents_only_authorize<S, F>(
    s: Seq<ServiceEntry<S, F>>,
    grants: Map<Seq<char>, Seq<Seq<char>>>,
    deps: Map<Seq<char>, Seq<Seq<char>>>,
    p: Seq<char>,
    id: Seq<char>,
)
    requires
        authority_for(s, id) is Some,
        s[authority_for(s, id)->0].descriptor.visibility
            == crate::service::ServiceVisibility::DeclaredDependentsOnly,
        s[authority_for(s, id)->0].provider is Some,
        !(deps.dom().contains(p) && deps[p].contains(s[authority_for(s, id)->0].provider->0@)),
    ensures
        authorize_plan(s, grants, deps, Some(p), id) == Err::<int, ErrorView>(
            err_view(
                ErrorCode::PermissionDenied,
                "plugin '"@ + p + "' must declare '"@ + s[authority_for(s, id)->0].provider->0@
                    + "' as a dependency to resolve '"@ + entry_id(s[authority_for(s, id)->0]) + "'"@,
            ),
        ),
{
}

/// Once a provider is revoked, none of its registrations remain.
pub proof fn lemma_revoked_provider_gone<S, F>(s: Seq<ServiceEntry<S, F>>, provider: Seq<char>)
    ensures
        forall|i: int|
            0 <= i < without_provider(s, provider).len() ==> provider_view(
                (#[trigger] without_provider(s, provider)[i]).provider,
            ) != Some(provider),
    decreases s.len(),
{
    if s.len() > 0 {
        lemma_revoked_provider_gone(s.drop_last(), provider);
    }
}

/// The host is refused no service it can find: neither visibility nor
/// capabilities apply to it.
pub proof fn lemma_host_never_refused<S, F>(
    e: ServiceEntry<S, F>,
    grants: Map<Seq<char>, Seq<Seq<char>>>,
    deps: Map<Seq<char>, Seq<Seq<char>>>,
)
    ensures
        access_error(e, None, grants, deps) is None,
{
}

proof fn lemma_host_match_is_match<S, F>(
    s: Seq<ServiceEntry<S, F>>,
    id: Seq<char>,
    wanted: std::any::TypeId,
    from: int,
)
    requires
        0 <= from,
    ensures
        first_host_match(s, id, wanted, from) matches Some(i) ==> entry_id(s[i]) == id
            && s[i].provider is None && serves_type(s[i], wanted),
    decreases s.len() - from,
{
    if from < s.len() {
        lemma_host_match_is_match(s, id, wanted, from + 1);
    }
}

/// A request is served by a host registration whenever one of the right
/// service and type exists.
pub proof fn lemma_host_preferred<S, F>(
    s: Seq<ServiceEntry<S, F>>,
    id: Seq<char>,
    wanted: std::any::TypeId,
    k: int,
)
    requires
        0 <= k < s.len(),
        entry_id(s[k]) == id,
        s[k].provider is None,
        serves_type(s[k], wanted),
    ensures
        chosen_for(s, id, wanted) matches Some(i) && s[i].provider is None && entry_id(s[i]) == id,
{
    lemma_host_match_found(s, id, wanted, 0, k);
    lemma_host_match_is_match(s, id, wanted, 0);
}

proof fn lemma_host_match_found<S, F>(
    s: Seq<ServiceEntry<S, F>>,
    id: Seq<char>,
    wanted: std::any::TypeId,
    from: int,
    k: int,
)
    requires
        0 <= from <= k < s.len(),
        entry_id(s[k]) == id,
        s[k].provider is None,
        serves_type(s[k], wanted),
    ensures
        first_host_match(s, id, wanted, from) is Some,
    decreases k - from,
{
    if from < k {
        lemma_host_match_found(s, id, wanted, from + 1, k);
    }
}

/// `after` is `before` once `provider` registered `binding`.
pub open spec fn plugin_registration<S, F>(
    before: Seq<ServiceEntry<S, F>>,
    after: Seq<ServiceEntry<S, F>>,
    provider: PluginId,
    binding: crate::service::ServiceBinding<S>,
) -> bool {
    &&& after.len() > 0
    &&& after =~= registering(before, after.last())
    &&& after.last().provider == Some(provider)
    &&& after.last().descriptor == binding.descriptor_view()
    &&& after.last().service == Some(binding.service_view())
    &&& after.last().type_id == Some(binding.type_view())
    &&& after.last().factory is None
    &&& after.last().slot.owner_view() == Some(provider)
}

/// `after` is `before` once `provider` registered each of `bindings`, in
/// order.
pub open spec fn registered_each<S, F>(
    before: Seq<ServiceEntry<S, F>>,
    after: Seq<ServiceEntry<S, F>>,
    provider: PluginId,
    bindings: Seq<crate::service::ServiceBinding<S>>,
) -> bool
    decreases bindings.len(),
{
    if bindings.len() == 0 {
        after =~= before
    } else {
        exists|mid: Seq<ServiceEntry<S, F>>|
            registered_each(before, mid, provider, bindings.drop_last()) && plugin_registration(
                mid,
                after,
                provider,
                bindings.last(),
            )
    }
}

proof fn lemma_without_provider_absorbs<S, F>(
    s: Seq<ServiceEntry<S, F>>,
    id: Seq<char>,
    provider: Seq<char>,
)
    ensures
        without_provider(without_registration(s, id, Some(provider)), provider) == without_provider(
            s,
            provider,
        ),
    decreases s.len(),
{
    if s.len() > 0 {
        lemma_without_provider_absorbs(s.drop_last(), id, provider);
        let rest = without_registration(s.drop_last(), id, Some(provider));
        if !(entry_id(s.last()) == id && provider_view(s.last().provider) == Some(provider)) {
            assert(rest.push(s.last()).drop_last() =~= rest);
        }
    }
}

/// Withdrawing a provider after it registered a service gives what
/// withdrawing it before would have given.
pub proof fn lemma_revoke_undoes_registration<S, F>(
    before: Seq<ServiceEntry<S, F>>,
    after: Seq<ServiceEntry<S, F>>,
    provider: PluginId,
    binding: crate::service::ServiceBinding<S>,
)
    requires
        plugin_registration(before, after, provider, binding),
    ensures
        without_provider(after, provider@) == without_provider(before, provider@),
{
    let e = after.last();
    let kept = without_registration(before, entry_id(e), Some(provider@));
    assert(after.drop_last() =~= kept);
    lemma_without_provider_absorbs(before, entry_id(e), provider@);
}

/// Withdrawing a provider after it registered its services gives what
/// withdrawing it before would have given.
pub proof fn lemma_revoke_undoes_registrations<S, F>(
    before: Seq<ServiceEntry<S, F>>,
    after: Seq<ServiceEntry<S, F>>,
    provider: PluginId,
    bindings: Seq<crate::service::ServiceBinding<S>>,
)
    requires
        registered_each(before, after, provider, bindings),
    ensures
        without_provider(after, provider@) == without_provider(before, provider@),
    decreases bindings.len(),
{
    if bindings.len() > 0 {
        let mid = choose|mid: Seq<ServiceEntry<S, F>>|
            registered_each(before, mid, provider, bindings.drop_last()) && plugin_registration(
                mid,
                after,
                provider,
                bindings.last(),
            );
        lemma_revoke_undoes_registrations(before, mid, provider, bindings.drop_last());
        lemma_revoke_undoes_registration(mid, after, provider, bindings.last());
    } else {
        assert(after == before);
    }
}

/// Every service, who may resolve it, and what each plugin was granted.
pub struct ServiceContainer<S, F> {
    entries: Vec<ServiceEntry<S, F>>,
    granted: AssocList<PluginId, Vec<Capability>>,
    declared: AssocList<PluginId, Vec<PluginId>>,
}

impl<S, F> View for ServiceContainer<S, F> {
    type V = Seq<ServiceEntry<S, F>>;

    /// The registrations, oldest first.
    closed spec fn view(&self) -> Seq<ServiceEntry<S, F>> {
        self.entries@
    }
}

impl<S, F> ServiceContainer<S, F> {
    /// The capabilities granted to each plugin.
    pub closed spec fn grants(&self) -> Map<Seq<char>, Seq<Seq<char>>> {
        table_view::<PluginId, Capability>(self.granted.map())
    }

    /// The providers each plugin declared as its dependencies.
    pub closed spec fn dependencies(&self) -> Map<Seq<char>, Seq<Seq<char>>> {
        table_view::<PluginId, PluginId>(self.declared.map())
    }

    pub fn new() -> (r: ServiceContainer<S, F>)
        ensures
            r@ == Seq::<ServiceEntry<S, F>>::empty(),
            r.grants() == Map::<Seq<char>, Seq<Seq<char>>>::empty(),
            r.dependencies() == Map::<Seq<char>, Seq<Seq<char>>>::empty(),
    {
        let r = ServiceContainer {
            entries: Vec::new(),
            granted: AssocList::new(),
            declared: AssocList::new(),
        };
        assert(r.grants() =~= Map::<Seq<char>, Seq<Seq<char>>>::empty());
        assert(r.dependencies() =~= Map::<Seq<char>, Seq<Seq<char>>>::empty());
        r
    }

    fn insert(&mut self, entry: ServiceEntry<S, F>)
        ensures
            final(self)@ == registering(old(self)@, entry),
            final(self).grants() == old(self).grants(),
            final(self).dependencies() == old(self).dependencies(),
    {
        let mut entries: Vec<ServiceEntry<S, F>> = Vec::new();
        std::mem::swap(&mut entries, &mut self.entries);
        let ghost src = entries@;
        let ghost id = entry_id(entry);
        let ghost provider = provider_view(entry.provider);
        let mut kept: Vec<ServiceEntry<S, F>> = Vec::new();
        let mut rest = entries;
        let ghost mut n: int = 0;
        assert(src.skip(0) =~= src);
        assert(src.take(0) =~= Seq::<ServiceEntry<S, F>>::empty());
        while rest.len() > 0
            invariant
                0 <= n <= src.len(),
                rest@ == src.skip(n),
                kept@ == without_registration(src.take(n), id, provider),
                id == entry_id(entry),
                provider == provider_view(entry.provider),
            decreases rest@.len(),
        {
            let e = rest.remove(0);
            proof {
                assert(src.skip(n)[0] == src[n]);
                assert(rest@ =~= src.skip(n + 1));
                assert(src.take(n + 1).drop_last() =~= src.take(n));
            }
            let same_provider = match (&e.provider, &entry.provider) {
                (Some(a), Some(b)) => a.same(b),
                (None, None) => true,
                _ => false,
            };
            if e.descriptor.id.same(&entry.descriptor.id) && same_provider {
            } else {
                kept.push(e);
            }
            proof {
                n = n + 1;
            }
        }
        assert(src.take(n) =~= src);
        kept.push(entry);
        self.entries = kept;
    }

    /// Registers a service the host provides, with the type of its
    /// instance.
    pub fn register_host(
        &mut self,
        descriptor: ServiceDescriptor,
        service: S,
        type_id: std::any::TypeId,
    ) -> (r: Result<(), PluginError>)
        ensures
            r is Ok,
            final(self)@.len() > 0,
            final(self)@ == registering(old(self)@, final(self)@.last()),
            final(self)@.last().provider is None,
            final(self)@.last().descriptor == descriptor,
            final(self)@.last().service == Some(service),
            final(self)@.last().type_id == Some(type_id),
            final(self)@.last().factory is None,
            final(self)@.last().slot.owner_view() is None,
            final(self).grants() == old(self).grants(),
            final(self).dependencies() == old(self).dependencies(),
    {
        let slot = Arc::new(ServiceSlot::new(None));
        self.insert(
            ServiceEntry {
                provider: None,
                descriptor,
                service: Some(service),
                type_id: Some(type_id),
                slot,
                factory: None,
            },
        );
        Ok(())
    }

    /// Registers the service a plugin offers; it lives as long as the
    /// plugin's slot.
    pub fn register_plugin(&mut self, provider: &PluginId, binding: crate::service::ServiceBinding<
        S,
    >) -> (r: Result<(), PluginError>)
        ensures
            r is Ok,
            plugin_registration(old(self)@, final(self)@, *provider, binding),
            final(self).grants() == old(self).grants(),
            final(self).dependencies() == old(self).dependencies(),
    {
        let (descriptor, service, type_id) = binding.into_parts();
        let slot = Arc::new(ServiceSlot::new(Some(provider.duplicate())));
        self.insert(
            ServiceEntry {
                provider: Some(provider.duplicate()),
                descriptor,
                service: Some(service),
                type_id: Some(type_id),
                slot,
                factory: None,
            },
        );
        Ok(())
    }

    /// Registers a host service made anew for each requesting plugin.
    pub fn register_factory(&mut self, descriptor: ServiceDescriptor, factory: F) -> (r: Result<
        (),
        PluginError,
    >)
        ensures
            r is Ok,
            final(self)@.len() > 0,
            final(self)@ == registering(old(self)@, final(self)@.last()),
            final(self)@.last().provider is None,
            final(self)@.last().descriptor == descriptor,
            final(self)@.last().service is None,
            final(self)@.last().type_id is None,
            final(self)@.last().factory == Some(factory),
            final(self)@.last().slot.owner_view() is None,
            final(self).grants() == old(self).grants(),
            final(self).dependencies() == old(self).dependencies(),
    {
        let slot = Arc::new(ServiceSlot::new(None));
        self.insert(
            ServiceEntry {
                provider: None,
                descriptor,
                service: None,
                type_id: None,
                slot,
                factory: Some(factory),
            },
        );
        Ok(())
    }

    /// Sets the capabilities granted to `plugin`.
    pub fn grant(&mut self, plugin: &PluginId, capabilities: Vec<Capability>)
        ensures
            final(self).grants() == old(self).grants().insert(plugin@, keys_of(capabilities@)),
            final(self).dependencies() == old(self).dependencies(),
            final(self)@ == old(self)@,
    {
        let ghost before = self.granted.map();
        self.granted.insert(plugin.duplicate(), capabilities);
        assert(self.grants() =~= old(self).grants().insert(plugin@, keys_of(capabilities@)));
    }

    /// Sets the providers `dependent` declared as its dependencies.
    pub fn declare_dependencies(&mut self, dependent: &PluginId, providers: Vec<PluginId>)
        ensures
            final(self).dependencies() == old(self).dependencies().insert(
                dependent@,
                keys_of(providers@),
            ),
            final(self).grants() == old(self).grants(),
            final(self)@ == old(self)@,
    {
        self.declared.insert(dependent.duplicate(), providers);
        assert(self.dependencies() =~= old(self).dependencies().insert(
            dependent@,
            keys_of(providers@),
        ));
    }

    /// Forgets what `plugin` was granted and what it declared.
    pub fn revoke_grants(&mut self, plugin: &PluginId)
        ensures
            final(self).grants() == old(self).grants().remove(plugin@),
            final(self).dependencies() == old(self).dependencies().remove(plugin@),
            final(self)@ == old(self)@,
    {
        self.granted.remove(plugin);
        self.declared.remove(plugin);
        assert(self.grants() =~= old(self).grants().remove(plugin@));
        assert(self.dependencies() =~= old(self).dependencies().remove(plugin@));
    }

    fn check_visible(&self, requester: Option<&PluginId>, entry: &ServiceEntry<S, F>) -> (r: Result<
        (),
        PluginError,
    >)
        ensures
            r is Ok <==> visibility_error(*entry, requester_view(requester), self.dependencies())
                is None,
            r matches Err(x) ==> Some(x@) == visibility_error(
                *entry,
                requester_view(requester),
                self.dependencies(),
            ),
    {
        match entry.descriptor.visibility {
            ServiceVisibility::Public => Ok(()),
            ServiceVisibility::HostOnly => match requester {
                None => Ok(()),
                Some(plugin) => {
                    let head = concat3(
                        "plugin '",
                        plugin.as_str(),
                        "' may not resolve host-only service '",
                    );
                    let message = concat3(head.as_str(), entry.descriptor.id.as_str(), "'");
                    Err(PluginError::permission_denied(message))
                },
            },
            ServiceVisibility::DeclaredDependentsOnly => match (requester, &entry.provider) {
                (Some(req), Some(provider)) => {
                    let allowed = match self.declared.get(req) {
                        Some(set) => crate::ids::contains_key(set, provider),
                        None => false,
                    };
                    if allowed {
                        Ok(())
                    } else {
                        let head = concat3("plugin '", req.as_str(), "' must declare '");
                        let mid = concat3(
                            head.as_str(),
                            provider.as_str(),
                            "' as a dependency to resolve '",
                        );
                        let message = concat3(mid.as_str(), entry.descriptor.id.as_str(), "'");
                        Err(PluginError::permission_denied(message))
                    }
                },
                _ => Ok(()),
            },
        }
    }

    fn check_capabilities(&self, requester: Option<&PluginId>, entry: &ServiceEntry<S, F>) -> (r:
        Result<(), PluginError>)
        ensures
            r is Ok <==> capability_error(*entry, requester_view(requester), self.grants()) is None,
            r matches Err(x) ==> Some(x@) == capability_error(
                *entry,
                requester_view(requester),
                self.grants(),
            ),
    {
        let ghost required = keys_of(entry.descriptor.requires@);
        if entry.descriptor.requires.len() == 0 {
            return Ok(());
        }
        let plugin = match requester {
            Some(p) => p,
            None => {
                return Ok(());
            },
        };
        let owned = self.granted.get(plugin);
        let ghost have = owned_by(self.grants(), plugin@);
        proof {
            if owned is Some {
                assert(have == keys_of(owned.unwrap()@));
            }
        }
        let mut i: usize = 0;
        while i < entry.descriptor.requires.len()
            invariant
                i <= entry.descriptor.requires@.len(),
                required == keys_of(entry.descriptor.requires@),
                have == owned_by(self.grants(), plugin@),
                owned is Some ==> have == keys_of(owned.unwrap()@),
                owned is None ==> have == Seq::<Seq<char>>::empty(),
                requester_view(requester) == Some(plugin@),
                first_missing(required, have, 0) == first_missing(required, have, i as int),
            decreases entry.descriptor.requires@.len() - i,
        {
            let cap = &entry.descriptor.requires[i];
            let present = match owned {
                Some(set) => crate::ids::contains_key(set, cap),
                None => false,
            };
            if !present {
                assert(first_missing(required, have, i as int) == Some(cap@));
                let head = concat3("plugin '", plugin.as_str(), "' lacks capability '");
                let mid = concat3(head.as_str(), cap.as_str(), "' required by service '");
                let message = concat3(mid.as_str(), entry.descriptor.id.as_str(), "'");
                return Err(PluginError::permission_denied(message));
            }
            i = i + 1;
        }
        Ok(())
    }

    fn check_access(&self, requester: Option<&PluginId>, entry: &ServiceEntry<S, F>) -> (r: Result<
        (),
        PluginError,
    >)
        ensures
            r is Ok <==> access_error(
                *entry,
                requester_view(requester),
                self.grants(),
                self.dependencies(),
            ) is None,
            r matches Err(x) ==> Some(x@) == access_error(
                *entry,
                requester_view(requester),
                self.grants(),
                self.dependencies(),
            ),
    {
        match self.check_visible(requester, entry) {
            Err(e) => {
                return Err(e);
            },
            Ok(()) => {},
        }
        self.check_capabilities(requester, entry)
    }

    /// The index of the first registration of `id` from `from` on that the
    /// host provides (when `host_only`) and that serves `wanted` (when
    /// given).
    fn find(&self, id: &ServiceId, host_only: bool, wanted: Option<&std::any::TypeId>) -> (r: Option<
        usize,
    >)
        ensures
            host_only && wanted is Some ==> index_view(r) == first_host_match(
                self@,
                id@,
                *wanted.unwrap(),
                0,
            ),
            !host_only && wanted is Some ==> index_view(r) == first_match(
                self@,
                id@,
                *wanted.unwrap(),
                0,
            ),
            host_only && wanted is None ==> index_view(r) == first_host_entry(self@, id@, 0),
            !host_only && wanted is None ==> index_view(r) == first_entry(self@, id@, 0),
    {
        let mut i: usize = 0;
        while i < self.entries.len()
            invariant
                i <= self.entries@.len(),
                host_only && wanted is Some ==> first_host_match(self@, id@, *wanted.unwrap(), 0)
                    == first_host_match(self@, id@, *wanted.unwrap(), i as int),
                !host_only && wanted is Some ==> first_match(self@, id@, *wanted.unwrap(), 0)
                    == first_match(self@, id@, *wanted.unwrap(), i as int),
                host_only && wanted is None ==> first_host_entry(self@, id@, 0) == first_host_entry(
                    self@,
                    id@,
                    i as int,
                ),
                !host_only && wanted is None ==> first_entry(self@, id@, 0) == first_entry(
                    self@,
                    id@,
                    i as int,
                ),
            decreases self.entries@.len() - i,
        {
            let e = &self.entries[i];
            let fits = e.descriptor.id.same(id) && (!host_only || e.provider.is_none()) && match wanted {
                Some(t) => e.factory.is_some() || match &e.type_id {
                    Some(own) => same_type(own, t),
                    None => false,
                },
                None => true,
            };
            if fits {
                return Some(i);
            }
            i = i + 1;
        }
        None
    }

    /// Resolves service `id` of type `type_id` for `requester` (`None` for
    /// the host): the host's registration if one fits, else the first
    /// plugin's; refused if the requester may not see it or lacks a
    /// capability it requires, or if its lease has ended.
    pub fn resolve_for(
        &self,
        requester: Option<&PluginId>,
        id: &ServiceId,
        type_id: std::any::TypeId,
    ) -> (r: Result<Resolution<'_, S, F>, PluginError>)
        ensures
            match resolve_plan(
                self@,
                self.grants(),
                self.dependencies(),
                requester_view(requester),
                id@,
                type_id,
            ) {
                Err(x) => r matches Err(e) && e@ == x,
                Ok(i) => (r matches Err(e) && e@ == revoked_error(id@)) || resolution_of(
                    r,
                    self@[i],
                    requester_view(requester),
                    id@,
                ),
            },
    {
        if !self.has(id) {
            return Err(
                PluginError::service_unavailable(
                    concat3("service '", id.as_str(), "' is not registered"),
                ),
            );
        }
        let i = match self.find(id, true, Some(&type_id)) {
            Some(i) => i,
            None => match self.find(id, false, Some(&type_id)) {
                Some(i) => i,
                None => {
                    return Err(
                        PluginError::service_unavailable(
                            concat3(
                                "service '",
                                id.as_str(),
                                "' is registered but not with the requested type",
                            ),
                        ),
                    );
                },
            },
        };
        proof {
            lemma_found_in_range(self@, id@, type_id, 0);
        }
        let entry = &self.entries[i];
        match self.check_access(requester, entry) {
            Err(e) => {
                return Err(e);
            },
            Ok(()) => {},
        }
        if !entry.slot.is_alive() {
            return Err(
                PluginError::service_unavailable(
                    concat3("service '", id.as_str(), "' has been revoked"),
                ),
            );
        }
        match &entry.factory {
            Some(factory) => match requester {
                None => Err(
                    PluginError::invalid_argument(
                        concat3(
                            "service '",
                            id.as_str(),
                            "' is per-plugin and cannot be resolved by the host itself",
                        ),
                    ),
                ),
                Some(plugin) => Ok(Resolution::Factory { factory, plugin: plugin.duplicate() }),
            },
            None => match &entry.service {
                Some(service) => Ok(Resolution::Instance { slot: &entry.slot, service }),
                None => Err(
                    PluginError::service_unavailable(
                        concat3("service '", id.as_str(), "' has no live instance"),
                    ),
                ),
            },
        }
    }

    /// Whether `requester` may use service `id` at all, by the rules of the
    /// host's registration if there is one, else of the first.
    pub fn authorize(&self, requester: Option<&PluginId>, id: &ServiceId) -> (r: Result<
        (),
        PluginError,
    >)
        ensures
            match authorize_plan(
                self@,
                self.grants(),
                self.dependencies(),
                requester_view(requester),
                id@,
            ) {
                Err(x) => r matches Err(e) && e@ == x,
                Ok(i) => r is Ok || (r matches Err(e) && e@ == revoked_error(id@)),
            },
    {
        let i = match self.find(id, true, None) {
            Some(i) => i,
            None => match self.find(id, false, None) {
                Some(i) => i,
                None => {
                    return Err(
                        PluginError::service_unavailable(
                            concat3("service '", id.as_str(), "' is not registered"),
                        ),
                    );
                },
            },
        };
        proof {
            lemma_entry_found_in_range(self@, id@, 0);
        }
        let entry = &self.entries[i];
        match self.check_access(requester, entry) {
            Err(e) => {
                return Err(e);
            },
            Ok(()) => {},
        }
        if !entry.slot.is_alive() {
            return Err(
                PluginError::service_unavailable(
                    concat3("service '", id.as_str(), "' has been revoked"),
                ),
            );
        }
        Ok(())
    }

    /// Withdraws every service `provider` registered and ends their
    /// leases; the ids of the services it had registered, each once.
    pub fn revoke_provider(&mut self, provider: &PluginId) -> (r: Vec<ServiceId>)
        ensures
            final(self)@ == without_provider(old(self)@, provider@),
            final(self).grants() == old(self).grants(),
            final(self).dependencies() == old(self).dependencies(),
            forall|a: int, b: int| 0 <= a < b < r@.len() ==> r@[a]@ != r@[b]@,
            forall|id: Seq<char>| keys_of(r@).contains(id) <==> provides(old(self)@, provider@, id),
    {
        let mut entries: Vec<ServiceEntry<S, F>> = Vec::new();
        std::mem::swap(&mut entries, &mut self.entries);
        let ghost src = entries@;
        let mut kept: Vec<ServiceEntry<S, F>> = Vec::new();
        let mut revoked: Vec<ServiceId> = Vec::new();
        let mut rest = entries;
        let ghost mut n: int = 0;
        assert(src.skip(0) =~= src);
        assert(src.take(0) =~= Seq::<ServiceEntry<S, F>>::empty());
        while rest.len() > 0
            invariant
                0 <= n <= src.len(),
                rest@ == src.skip(n),
                kept@ == without_provider(src.take(n), provider@),
                forall|a: int, b: int| 0 <= a < b < revoked@.len() ==> revoked@[a]@ != revoked@[b]@,
                forall|id: Seq<char>|
                    keys_of(revoked@).contains(id) <==> provides(src.take(n), provider@, id),
            decreases rest@.len(),
        {
            let e = rest.remove(0);
            let ghost prev_ids = revoked@;
            proof {
                assert(src.skip(n)[0] == src[n]);
                assert(rest@ =~= src.skip(n + 1));
                assert(src.take(n + 1).drop_last() =~= src.take(n));
                assert(src.take(n + 1) =~= src.take(n).push(e));
            }
            let theirs = match &e.provider {
                Some(p) => p.same(provider),
                None => false,
            };
            if theirs {
                e.slot.revoke();
                if !crate::ids::contains_key(&revoked, &e.descriptor.id) {
                    revoked.push(e.descriptor.id.duplicate());
                }
            } else {
                kept.push(e);
            }
            proof {
                let next = src.take(n + 1);
                assert(keys_of(revoked@) =~= if theirs && !keys_of(prev_ids).contains(
                    e.descriptor.id@,
                ) {
                    keys_of(prev_ids).push(e.descriptor.id@)
                } else {
                    keys_of(prev_ids)
                });
                assert forall|a: int, b: int|
                    0 <= a < b < revoked@.len() implies revoked@[a]@ != revoked@[b]@ by {
                    if b == prev_ids.len() {
                        assert(keys_of(prev_ids)[a] == revoked@[a]@);
                    }
                }
                assert forall|id: Seq<char>|
                    keys_of(revoked@).contains(id) <==> provides(next, provider@, id) by {
                    broadcast use vstd::seq_lib::group_seq_properties;

                    if provides(next, provider@, id) {
                        let i = choose|i: int|
                            0 <= i < next.len() && provider_view((#[trigger] next[i]).provider)
                                == Some(provider@) && entry_id(next[i]) == id;
                        if i < n {
                            assert(src.take(n)[i] == next[i]);
                            assert(provides(src.take(n), provider@, id));
                        }
                    }
                    if provides(src.take(n), provider@, id) {
                        let i = choose|i: int|
                            0 <= i < src.take(n).len() && provider_view(
                                (#[trigger] src.take(n)[i]).provider,
                            ) == Some(provider@) && entry_id(src.take(n)[i]) == id;
                        assert(next[i] == src.take(n)[i]);
                    }
                    if theirs && id == e.descriptor.id@ {
                        assert(next[n] == e);
                    }
                }
                n = n + 1;
            }
        }
        assert(src.take(n) =~= src);
        self.entries = kept;
        revoked
    }

    /// Every registration as the inventory lists it, ordered by service id;
    /// registrations of one service in the order they were made.
    pub fn inventory(&self) -> (r: Vec<ServiceInventoryItem>)
        ensures
            stably_sorted(inventory_entries(r@), registration_entries(self@)),
    {
        let ghost src = registration_entries(self@);
        let mut out: Vec<ServiceInventoryItem> = Vec::new();
        let mut i: usize = 0;
        assert(inventory_entries(out@) =~= Seq::<(Triple, InventoryFacts)>::empty());
        assert(src.take(0) =~= Seq::<(Triple, InventoryFacts)>::empty());
        while i < self.entries.len()
            invariant
                i <= self.entries@.len(),
                src == registration_entries(self@),
                src.len() == self.entries@.len(),
                stably_sorted(inventory_entries(out@), src.take(i as int)),
            decreases self.entries@.len() - i,
        {
            let e = &self.entries[i];
            let provider = match &e.provider {
                Some(p) => Some(p.to_string()),
                None => None,
            };
            let item = ServiceInventoryItem {
                id: e.descriptor.id.duplicate(),
                provider,
                version: e.descriptor.version,
                visibility: e.descriptor.visibility,
                requires: copy_capabilities(&e.descriptor.requires),
                alive: e.slot.is_alive(),
            };
            let ghost prev = out@;
            let ghost x = src[i as int];
            proof {
                assert(inventory_entries(seq![item])[0] == x);
                assert(src.take(i + 1) =~= src.take(i as int).push(x));
            }
            insert_by_id(&mut out, item);
            proof {
                assert(inventory_entries(prev.push(item)) =~= inventory_entries(prev).push(x));
                assert forall|t: Triple| #[trigger]
                    with_triple(inventory_entries(out@), t) == with_triple(src.take(i + 1), t) by {
                    lemma_with_triple_push(inventory_entries(prev), x, t);
                    lemma_with_triple_push(src.take(i as int), x, t);
                    assert(with_triple(inventory_entries(prev), t) == with_triple(
                        src.take(i as int),
                        t,
                    ));
                }
            }
            i = i + 1;
        }
        assert(src.take(i as int) =~= src);
        out
    }

    /// Whether service `id` has any registration.
    pub fn has(&self, id: &ServiceId) -> (r: bool)
        ensures
            r == registered(self@, id@),
    {
        let mut i: usize = 0;
        while i < self.entries.len()
            invariant
                i <= self.entries@.len(),
                forall|k: int| 0 <= k < i ==> entry_id(#[trigger] self.entries@[k]) != id@,
            decreases self.entries@.len() - i,
        {
            if self.entries[i].descriptor.id.same(id) {
                assert(entry_id(self@[i as int]) == id@);
                return true;
            }
            i = i + 1;
        }
        false
    }
}

impl<S, F> Default for ServiceContainer<S, F> {
    fn default() -> (r: ServiceContainer<S, F>)
        ensures
            r@ == Seq::<ServiceEntry<S, F>>::empty(),
            r.grants() == Map::<Seq<char>, Seq<Seq<char>>>::empty(),
            r.dependencies() == Map::<Seq<char>, Seq<Seq<char>>>::empty(),
    {
        ServiceContainer::new()
    }
}

/// What a request for a per-plugin service gets once its factory ran for
/// `plugin`: the instance it made, under a lease that never ends, if it
/// made one of the requested type.
pub fn factory_outcome<S>(
    id: &ServiceId,
    plugin: &PluginId,
    produced: Option<(S, std::any::TypeId)>,
    wanted: std::any::TypeId,
) -> (r: Result<(Arc<ServiceSlot>, S), PluginError>)
    ensures
        match produced {
            None => r matches Err(e) && e@ == err_view(
                ErrorCode::ServiceUnavailable,
                service_msg(id@, "' is unavailable for plugin '"@ + plugin@ + "'"@),
            ),
            Some((made, t)) => if t == wanted {
                r matches Ok((slot, v)) && v == made && slot.owner_view() is None
            } else {
                r matches Err(e) && e@ == err_view(
                    ErrorCode::ServiceUnavailable,
                    service_msg(id@, "' is registered but not with the requested type"@),
                )
            },
        },
{
    match produced {
        None => {
            let head = concat3("service '", id.as_str(), "' is unavailable for plugin '");
            let message = concat3(head.as_str(), plugin.as_str(), "'");
            assert(message@ =~= service_msg(id@, "' is unavailable for plugin '"@ + plugin@ + "'"@));
            Err(PluginError::service_unavailable(message))
        },
        Some((made, t)) => if same_type(&t, &wanted) {
            Ok((Arc::new(ServiceSlot::new(None)), made))
        } else {
            Err(
                PluginError::service_unavailable(
                    concat3(
                        "service '",
                        id.as_str(),
                        "' is registered but not with the requested type",
                    ),
                ),
            )
        },
    }
}

} // verus!
