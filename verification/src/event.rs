//! Host events, the patterns plugins subscribe with, and dispatch counts.
use std::collections::BTreeMap;
use vstd::prelude::*;

use crate::ids::{contains_key, keys_of, EventType, PluginId};
use crate::text::{has_prefix, starts_with};

pub mod kinds;

verus! {

/// Something that happened in the host or in a plugin.
#[derive(Debug, Clone)]
pub struct HostEvent {
    pub kind: EventType,
    pub payload: serde_json::Value,
    pub source: Option<PluginId>,
    pub sequence: u64,
}

impl HostEvent {
    /// An event the host raised.
    pub fn host(kind: EventType, payload: serde_json::Value, sequence: u64) -> (r: HostEvent)
        ensures
            r.kind@ == kind@,
            r.payload == payload,
            r.source is None,
            r.sequence == sequence,
    {
        HostEvent { kind, payload, source: None, sequence }
    }

    /// An event a plugin raised.
    pub fn from_plugin(
        kind: EventType,
        payload: serde_json::Value,
        sequence: u64,
        source: PluginId,
    ) -> (r: HostEvent)
        ensures
            r.kind@ == kind@,
            r.payload == payload,
            r.source matches Some(s) && s@ == source@,
            r.sequence == sequence,
    {
        HostEvent { kind, payload, source: Some(source), sequence }
    }
}

/// Which events a subscription wants.
#[derive(Debug, Clone)]
pub enum EventPattern {
    /// Every event.
    All,
    /// Events of one of these kinds.
    Kinds(Vec<EventType>),
    /// Events whose kind begins with this text.
    Prefix(String),
}

/// Whether `p` covers events of kind `kind`.
pub open spec fn pattern_covers(p: EventPattern, kind: Seq<char>) -> bool {
    match p {
        EventPattern::All => true,
        EventPattern::Kinds(kinds) => keys_of(kinds@).contains(kind),
        EventPattern::Prefix(prefix) => starts_with(kind, prefix@),
    }
}

/// A pattern of several kinds covers each of them, wherever it stands in
/// the list, and no other kind.
pub proof fn lemma_kinds_cover_each_listed(kinds: Vec<EventType>, kind: Seq<char>)
    ensures
        pattern_covers(EventPattern::Kinds(kinds), kind) <==> exists|i: int|
            0 <= i < kinds@.len() && (#[trigger] kinds@[i])@ == kind,
{
    if pattern_covers(EventPattern::Kinds(kinds), kind) {
        let i = choose|i: int| 0 <= i < keys_of(kinds@).len() && keys_of(kinds@)[i] == kind;
        assert(kinds@[i]@ == kind);
    }
    if exists|i: int| 0 <= i < kinds@.len() && (#[trigger] kinds@[i])@ == kind {
        let i = choose|i: int| 0 <= i < kinds@.len() && (#[trigger] kinds@[i])@ == kind;
        assert(keys_of(kinds@)[i] == kind);
    }
}

impl EventPattern {
    /// Events of one kind.
    pub fn kind(kind: EventType) -> (r: EventPattern)
        ensures
            r matches EventPattern::Kinds(ks) && keys_of(ks@) == seq![kind@],
    {
        let mut kinds: Vec<EventType> = Vec::new();
        kinds.push(kind);
        let r = EventPattern::Kinds(kinds);
        assert(keys_of(kinds@) =~= seq![kind@]);
        r
    }

    /// Events whose kind begins with `prefix`.
    pub fn prefix(prefix: &str) -> (r: EventPattern)
        ensures
            r matches EventPattern::Prefix(p) && p@ == prefix@,
    {
        EventPattern::Prefix(String::from_str(prefix))
    }

    pub fn may_match(&self, kind: &EventType) -> (r: bool)
        ensures
            r == pattern_covers(*self, kind@),
    {
        match self {
            EventPattern::All => true,
            EventPattern::Kinds(kinds) => contains_key(kinds, kind),
            EventPattern::Prefix(prefix) => has_prefix(kind.as_str(), prefix.as_str()),
        }
    }

    pub fn matches(&self, event: &HostEvent) -> (r: bool)
        ensures
            r == pattern_covers(*self, event.kind@),
    {
        self.may_match(&event.kind)
    }
}

/// The patterns a plugin subscribed with.
#[derive(Debug, Clone)]
pub struct EventSubscriptions(Vec<EventPattern>);

/// Some pattern of `ps` covers `kind`.
pub open spec fn any_covers(ps: Seq<EventPattern>, kind: Seq<char>) -> bool {
    exists|i: int| 0 <= i < ps.len() && pattern_covers(#[trigger] ps[i], kind)
}

impl View for EventSubscriptions {
    type V = Seq<EventPattern>;

    closed spec fn view(&self) -> Seq<EventPattern> {
        self.0@
    }
}

impl EventSubscriptions {
    pub fn new() -> (r: EventSubscriptions)
        ensures
            r@ == Seq::<EventPattern>::empty(),
    {
        EventSubscriptions(Vec::new())
    }

    /// Subscriptions with the given patterns, in order.
    pub fn from_patterns(patterns: Vec<EventPattern>) -> (r: EventSubscriptions)
        ensures
            r@ == patterns@,
    {
        EventSubscriptions(patterns)
    }

    /// The subscriptions with `pattern` added last.
    pub fn add(self, pattern: EventPattern) -> (r: EventSubscriptions)
        ensures
            r@ == self@.push(pattern),
    {
        let mut patterns = self.0;
        patterns.push(pattern);
        EventSubscriptions(patterns)
    }

    pub fn is_empty(&self) -> (r: bool)
        ensures
            r == (self@.len() == 0),
    {
        self.0.len() == 0
    }

    pub fn may_match(&self, kind: &EventType) -> (r: bool)
        ensures
            r == any_covers(self@, kind@),
    {
        let mut i: usize = 0;
        while i < self.0.len()
            invariant
                i <= self.0@.len(),
                forall|k: int| 0 <= k < i ==> !pattern_covers(#[trigger] self.0@[k], kind@),
            decreases self.0@.len() - i,
        {
            if self.0[i].may_match(kind) {
                return true;
            }
            i = i + 1;
        }
        false
    }

    pub fn matches(&self, event: &HostEvent) -> (r: bool)
        ensures
            r == any_covers(self@, event.kind@),
    {
        self.may_match(&event.kind)
    }
}

/// How many events each plugin was handed and failed on, and how many were
/// handed to nobody.
#[derive(Debug, Clone, Default)]
pub struct DispatchStats {
    pub delivered: BTreeMap<String, u64>,
    pub failed: BTreeMap<String, u64>,
    pub skipped: u64,
}

} // verus!
