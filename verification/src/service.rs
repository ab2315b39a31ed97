//! Services that the host and plugins provide to each other, and the
//! handles through which a service is used while its provider lives.
use vstd::prelude::*;

use std::sync::atomic::{AtomicBool, Ordering};
use std::sync::Arc;

use crate::error::{err_view, ErrorCode, PluginError};
use crate::ids::{keys_of, Capability, PluginId, ServiceId, Version};
use crate::text::concat3;

verus! {

/// `std::any::TypeId`, which tells the types of services apart.
#[verifier::external_type_specification]
#[verifier::external_body]
pub struct ExTypeId(std::any::TypeId);

/// `TypeId`'s `==`: two type ids are equal when they are the same value,
/// that is, when they belong to the same type.
#[verifier::external_body]
pub(crate) fn same_type(a: &std::any::TypeId, b: &std::any::TypeId) -> (r: bool)
    ensures
        r == (*a == *b),
{
    *a == *b
}

/// `Arc::clone`: a second handle to the same value.
#[verifier::external_body]
pub(crate) fn share<T: ?Sized>(a: &Arc<T>) -> (r: Arc<T>)
    ensures
        r == *a,
{
    Arc::clone(a)
}

/// Who may resolve a service.
#[derive(Clone, Copy, PartialEq, Eq, Debug, Structural)]
pub enum ServiceVisibility {
    /// Any plugin and the host.
    Public,
    /// The host, and the plugins that declared the provider as a dependency.
    DeclaredDependentsOnly,
    /// The host alone.
    HostOnly,
}

impl Default for ServiceVisibility {
    fn default() -> (r: ServiceVisibility)
        ensures
            r == ServiceVisibility::Public,
    {
        ServiceVisibility::Public
    }
}

/// What a service is, who may use it, and what it demands of its users.
#[derive(Debug, Clone)]
pub struct ServiceDescriptor {
    pub id: ServiceId,
    pub version: Version,
    pub requires: Vec<Capability>,
    pub visibility: ServiceVisibility,
    pub summary: String,
}

impl ServiceDescriptor {
    /// A public service that requires nothing.
    pub fn new(id: ServiceId, version: Version) -> (r: ServiceDescriptor)
        ensures
            r.id == id,
            r.version == version,
            r.requires@ == Seq::<Capability>::empty(),
            r.visibility == ServiceVisibility::Public,
            r.summary@ == Seq::<char>::empty(),
    {
        ServiceDescriptor {
            id,
            version,
            requires: Vec::new(),
            visibility: ServiceVisibility::Public,
            summary: String::new(),
        }
    }

    /// The same service, also requiring `capability` of its users.
    pub fn requiring(self, capability: Capability) -> (r: ServiceDescriptor)
        ensures
            r.requires@ == self.requires@.push(capability),
            r.id == self.id,
            r.version == self.version,
            r.visibility == self.visibility,
            r.summary == self.summary,
    {
        let mut d = self;
        d.requires.push(capability);
        d
    }

    pub fn with_visibility(self, visibility: ServiceVisibility) -> (r: ServiceDescriptor)
        ensures
            r.visibility == visibility,
            r.id == self.id,
            r.version == self.version,
            r.requires == self.requires,
            r.summary == self.summary,
    {
        let mut d = self;
        d.visibility = visibility;
        d
    }

    pub fn with_summary(self, summary: String) -> (r: ServiceDescriptor)
        ensures
            r.summary == summary,
            r.id == self.id,
            r.version == self.version,
            r.requires == self.requires,
            r.visibility == self.visibility,
    {
        let mut d = self;
        d.summary = summary;
        d
    }
}

/// Two descriptors that hold the same values.
pub open spec fn same_descriptor(a: ServiceDescriptor, b: ServiceDescriptor) -> bool {
    &&& a.id == b.id
    &&& a.version == b.version
    &&& keys_of(a.requires@) == keys_of(b.requires@)
    &&& a.visibility == b.visibility
    &&& a.summary == b.summary
}

impl ServiceDescriptor {
    /// A copy holding the same values.
    pub fn duplicate(&self) -> (r: ServiceDescriptor)
        ensures
            same_descriptor(r, *self),
    {
        let mut needed: Vec<Capability> = Vec::new();
        let mut i: usize = 0;
        while i < self.requires.len()
            invariant
                i <= self.requires@.len(),
                needed@.len() == i,
                forall|k: int| 0 <= k < i ==> (#[trigger] needed@[k])@ == self.requires@[k]@,
            decreases self.requires@.len() - i,
        {
            needed.push(self.requires[i].duplicate());
            i = i + 1;
        }
        assert(keys_of(needed@) =~= keys_of(self.requires@));
        ServiceDescriptor {
            id: self.id.duplicate(),
            version: self.version,
            requires: needed,
            visibility: self.visibility,
            summary: self.summary.clone(),
        }
    }
}

/// The lease behind every handle to one registered service: alive until
/// its provider is unloaded.
#[derive(Debug)]
pub struct ServiceSlot {
    alive: AtomicBool,
    owner: Option<PluginId>,
}

/// Who a slot belongs to, as error messages name it.
pub open spec fn owner_label(owner: Option<PluginId>) -> Seq<char> {
    match owner {
        Some(p) => p@,
        None => "host"@,
    }
}

impl ServiceSlot {
    /// A live slot owned by `owner`, or by the host for `None`.
    pub fn new(owner: Option<PluginId>) -> (r: ServiceSlot)
        ensures
            r.owner_view() == owner,
    {
        ServiceSlot { alive: AtomicBool::new(true), owner }
    }

    pub closed spec fn owner_view(&self) -> Option<PluginId> {
        self.owner
    }

    /// Whether the slot is still alive. It may be revoked at any time from
    /// another thread, so nothing is stated of the answer.
    pub fn is_alive(&self) -> (r: bool) {
        self.alive.load(Ordering::Acquire)
    }

    /// Ends the lease for every handle that shares this slot.
    pub fn revoke(&self) {
        self.alive.store(false, Ordering::Release);
    }

    pub fn owner(&self) -> (r: Option<&PluginId>)
        ensures
            self.owner_view() is None ==> r is None,
            self.owner_view() matches Some(p) ==> r == Some(&p),
    {
        match &self.owner {
            Some(p) => Some(p),
            None => None,
        }
    }
}

impl Default for ServiceSlot {
    fn default() -> (r: ServiceSlot)
        ensures
            r.owner_view() is None,
    {
        ServiceSlot::new(None)
    }
}

/// The message of the error a handle gives once its provider is gone.
pub open spec fn unloaded_message(owner: Option<PluginId>) -> Seq<char> {
    "service owned by '"@ + owner_label(owner) + "' has been unloaded"@
}

/// A handle to a service that works while its slot is alive.
pub struct ServiceRef<T: ?Sized> {
    slot: Arc<ServiceSlot>,
    value: Arc<T>,
}

impl<T: ?Sized> ServiceRef<T> {
    pub closed spec fn slot_view(&self) -> Arc<ServiceSlot> {
        self.slot
    }

    pub closed spec fn value_view(&self) -> Arc<T> {
        self.value
    }

    pub fn new(slot: Arc<ServiceSlot>, value: Arc<T>) -> (r: ServiceRef<T>)
        ensures
            r.slot_view() == slot,
            r.value_view() == value,
    {
        ServiceRef { slot, value }
    }

    /// The service while its slot is alive; once it is revoked, an
    /// unavailable-service error naming the slot's owner.
    pub fn get(&self) -> (r: Result<&T, PluginError>)
        ensures
            r matches Ok(v) ==> v == &*self.value_view(),
            r matches Err(e) ==> e@ == err_view(
                ErrorCode::ServiceUnavailable,
                unloaded_message(self.slot_view().owner_view()),
            ),
    {
        if self.slot.is_alive() {
            Ok(&*self.value)
        } else {
            let label = match self.slot.owner() {
                Some(p) => p.to_string(),
                None => String::from_str("host"),
            };
            let message = concat3("service owned by '", label.as_str(), "' has been unloaded");
            Err(PluginError::service_unavailable(message))
        }
    }

    /// A second handle to the service while the slot is alive.
    pub fn try_value(&self) -> (r: Option<Arc<T>>)
        ensures
            r matches Some(v) ==> v == self.value_view(),
    {
        if self.slot.is_alive() {
            Some(share(&self.value))
        } else {
            None
        }
    }

    pub fn is_alive(&self) -> (r: bool) {
        self.slot.is_alive()
    }

    pub fn slot(&self) -> (r: &Arc<ServiceSlot>)
        ensures
            *r == self.slot_view(),
    {
        &self.slot
    }
}

impl<T: ?Sized> Clone for ServiceRef<T> {
    fn clone(&self) -> (r: ServiceRef<T>)
        ensures
            r.slot_view() == self.slot_view(),
            r.value_view() == self.value_view(),
    {
        ServiceRef { slot: share(&self.slot), value: share(&self.value) }
    }
}

/// A service a plugin offers, with its descriptor and the id of its type.
pub struct ServiceBinding<S> {
    descriptor: ServiceDescriptor,
    service: S,
    type_id: std::any::TypeId,
}

impl<S> ServiceBinding<S> {
    pub closed spec fn descriptor_view(&self) -> ServiceDescriptor {
        self.descriptor
    }

    pub closed spec fn service_view(&self) -> S {
        self.service
    }

    pub closed spec fn type_view(&self) -> std::any::TypeId {
        self.type_id
    }

    pub fn new(descriptor: ServiceDescriptor, service: S, type_id: std::any::TypeId) -> (r:
        ServiceBinding<S>)
        ensures
            r.descriptor_view() == descriptor,
            r.service_view() == service,
            r.type_view() == type_id,
    {
        ServiceBinding { descriptor, service, type_id }
    }

    pub fn descriptor(&self) -> (r: &ServiceDescriptor)
        ensures
            *r == self.descriptor_view(),
    {
        &self.descriptor
    }

    pub fn type_id(&self) -> (r: &std::any::TypeId)
        ensures
            *r == self.type_view(),
    {
        &self.type_id
    }

    pub fn service(&self) -> (r: &S)
        ensures
            *r == self.service_view(),
    {
        &self.service
    }

    pub fn into_parts(self) -> (r: (ServiceDescriptor, S, std::any::TypeId))
        ensures
            r == (self.descriptor_view(), self.service_view(), self.type_view()),
    {
        (self.descriptor, self.service, self.type_id)
    }
}

/// A plain shared handle to a service, with no lease.
pub struct ServiceHandle<T: ?Sized>(pub Arc<T>);

impl<T: ?Sized> ServiceHandle<T> {
    pub fn new(value: Arc<T>) -> (r: ServiceHandle<T>)
        ensures
            r.0 == value,
    {
        ServiceHandle(value)
    }

    pub fn into_inner(self) -> (r: Arc<T>)
        ensures
            r == self.0,
    {
        self.0
    }
}

impl<T: ?Sized> Clone for ServiceHandle<T> {
    fn clone(&self) -> (r: ServiceHandle<T>)
        ensures
            r.0 == self.0,
    {
        ServiceHandle(share(&self.0))
    }
}

} // verus!
