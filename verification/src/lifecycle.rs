//! Plugin lifecycle states, the legal transitions between them, and a
//! tracker that records the recent transitions of one plugin.
use std::collections::VecDeque;
use vstd::prelude::*;
use vstd::string::*;

use crate::clock::now_ms;
use crate::error::{err_view, error_text, ErrorCode, PluginError, PluginResult};
use crate::ids::PluginId;
use crate::text::concat3;

verus! {

/// Where a plugin stands in its lifecycle.
#[derive(Clone, Copy, PartialEq, Eq, Hash, Debug, Structural)]
pub enum PluginState {
    Discovered,
    Resolved,
    Loaded,
    Activating,
    Active,
    Deactivating,
    Stopped,
    Failed,
    Unloaded,
}

/// The lower-case name of a state.
pub open spec fn state_label(s: PluginState) -> Seq<char> {
    match s {
        PluginState::Discovered => "discovered"@,
        PluginState::Resolved => "resolved"@,
        PluginState::Loaded => "loaded"@,
        PluginState::Activating => "activating"@,
        PluginState::Active => "active"@,
        PluginState::Deactivating => "deactivating"@,
        PluginState::Stopped => "stopped"@,
        PluginState::Failed => "failed"@,
        PluginState::Unloaded => "unloaded"@,
    }
}

/// The states from which a plugin may be (re)activated or unloaded.
pub open spec fn is_idle(s: PluginState) -> bool {
    s == PluginState::Loaded || s == PluginState::Stopped || s == PluginState::Failed
}

impl PluginState {
    pub fn label(self) -> (r: &'static str)
        ensures
            r@ == state_label(self),
    {
        match self {
            PluginState::Discovered => "discovered",
            PluginState::Resolved => "resolved",
            PluginState::Loaded => "loaded",
            PluginState::Activating => "activating",
            PluginState::Active => "active",
            PluginState::Deactivating => "deactivating",
            PluginState::Stopped => "stopped",
            PluginState::Failed => "failed",
            PluginState::Unloaded => "unloaded",
        }
    }

    pub fn is_terminal(self) -> (r: bool)
        ensures
            r == (self == PluginState::Unloaded),
    {
        match self {
            PluginState::Unloaded => true,
            _ => false,
        }
    }

    pub fn is_active(self) -> (r: bool)
        ensures
            r == (self == PluginState::Active),
    {
        match self {
            PluginState::Active => true,
            _ => false,
        }
    }

    pub fn can_activate(self) -> (r: bool)
        ensures
            r == is_idle(self),
    {
        match self {
            PluginState::Loaded | PluginState::Stopped | PluginState::Failed => true,
            _ => false,
        }
    }

    pub fn can_deactivate(self) -> (r: bool)
        ensures
            r == (self == PluginState::Active),
    {
        match self {
            PluginState::Active => true,
            _ => false,
        }
    }

    pub fn can_unload(self) -> (r: bool)
        ensures
            r == is_idle(self),
    {
        match self {
            PluginState::Loaded | PluginState::Stopped | PluginState::Failed => true,
            _ => false,
        }
    }
}

/// The legal lifecycle moves.
pub open spec fn transition_allowed(from: PluginState, to: PluginState) -> bool {
    match from {
        PluginState::Discovered => to == PluginState::Resolved || to == PluginState::Unloaded,
        PluginState::Resolved => to == PluginState::Loaded || to == PluginState::Failed || to
            == PluginState::Unloaded,
        PluginState::Loaded => to == PluginState::Activating || to == PluginState::Stopped || to
            == PluginState::Unloaded,
        PluginState::Activating => to == PluginState::Active || to == PluginState::Failed,
        PluginState::Active => to == PluginState::Deactivating || to == PluginState::Failed,
        PluginState::Deactivating => to == PluginState::Stopped || to == PluginState::Failed,
        PluginState::Stopped => to == PluginState::Activating || to == PluginState::Loaded || to
            == PluginState::Unloaded,
        PluginState::Failed => to == PluginState::Activating || to == PluginState::Loaded || to
            == PluginState::Unloaded,
        PluginState::Unloaded => to == PluginState::Resolved,
    }
}

pub fn can_transition(from: PluginState, to: PluginState) -> (r: bool)
    ensures
        r == transition_allowed(from, to),
{
    match (from, to) {
        (PluginState::Discovered, PluginState::Resolved)
        | (PluginState::Discovered, PluginState::Unloaded)
        | (PluginState::Resolved, PluginState::Loaded)
        | (PluginState::Resolved, PluginState::Failed)
        | (PluginState::Resolved, PluginState::Unloaded)
        | (PluginState::Loaded, PluginState::Activating)
        | (PluginState::Loaded, PluginState::Stopped)
        | (PluginState::Loaded, PluginState::Unloaded)
        | (PluginState::Activating, PluginState::Active)
        | (PluginState::Activating, PluginState::Failed)
        | (PluginState::Active, PluginState::Deactivating)
        | (PluginState::Active, PluginState::Failed)
        | (PluginState::Deactivating, PluginState::Stopped)
        | (PluginState::Deactivating, PluginState::Failed)
        | (PluginState::Stopped, PluginState::Activating)
        | (PluginState::Stopped, PluginState::Loaded)
        | (PluginState::Stopped, PluginState::Unloaded)
        | (PluginState::Failed, PluginState::Activating)
        | (PluginState::Failed, PluginState::Loaded)
        | (PluginState::Failed, PluginState::Unloaded)
        | (PluginState::Unloaded, PluginState::Resolved) => true,
        _ => false,
    }
}

/// The state predicates agree with the transition table: a plugin can be
/// activated exactly when it may move to `Activating`, deactivated exactly
/// when it may move to `Deactivating`, and a plugin that can be unloaded may
/// move to `Unloaded`; `Unloaded` may only be left towards `Resolved`.
pub proof fn lemma_predicates_match_transitions(s: PluginState)
    ensures
        is_idle(s) <==> transition_allowed(s, PluginState::Activating),
        (s == PluginState::Active) <==> transition_allowed(s, PluginState::Deactivating),
        is_idle(s) ==> transition_allowed(s, PluginState::Unloaded),
        forall|t: PluginState|
            transition_allowed(PluginState::Unloaded, t) ==> t == PluginState::Resolved,
        !transition_allowed(s, s),
{
}

/// One recorded move of a plugin's lifecycle.
#[derive(Debug, Clone)]
pub struct Transition {
    pub from: PluginState,
    pub to: PluginState,
    pub at_ms: u64,
    pub reason: String,
}

impl Transition {
    /// A copy holding the same values.
    pub fn duplicate(&self) -> (r: Transition)
        ensures
            r == *self,
    {
        Transition { from: self.from, to: self.to, at_ms: self.at_ms, reason: self.reason.clone() }
    }
}

/// How many transitions a tracker keeps.
pub const HISTORY_LIMIT: usize = 32;

/// `h` with `t` appended, the oldest entry dropped when `h` is full.
pub open spec fn bounded_push(h: Seq<Transition>, t: Transition) -> Seq<Transition> {
    if h.len() >= HISTORY_LIMIT {
        h.drop_first().push(t)
    } else {
        h.push(t)
    }
}

/// The message of a refused transition.
pub open spec fn illegal_transition_message(from: PluginState, to: PluginState) -> Seq<char> {
    "illegal plugin lifecycle transition: "@ + state_label(from) + " -> "@ + state_label(to)
}

/// The current state of one plugin, the last transitions that led to it and
/// the last error it reported.
pub struct LifecycleTracker {
    state: PluginState,
    history: VecDeque<Transition>,
    last_error: Option<String>,
}

impl LifecycleTracker {
    /// The tracker's history is never empty, never longer than the limit, and
    /// its last entry ends in the current state.
    #[verifier::type_invariant]
    spec fn well_formed(self) -> bool {
        &&& 1 <= self.history@.len() <= HISTORY_LIMIT
        &&& self.history@.last().to == self.state
    }

    pub closed spec fn state_view(&self) -> PluginState {
        self.state
    }

    pub closed spec fn history_view(&self) -> Seq<Transition> {
        self.history@
    }

    pub closed spec fn error_view(&self) -> Option<Seq<char>> {
        match self.last_error {
            Some(e) => Some(e@),
            None => None,
        }
    }

    /// A tracker starting in `state` at `at_ms`, with one "initialized" entry.
    pub fn new_at(state: PluginState, at_ms: u64) -> (r: LifecycleTracker)
        ensures
            r.state_view() == state,
            r.error_view() is None,
            r.history_view().len() == 1,
            r.history_view()[0].from == state,
            r.history_view()[0].to == state,
            r.history_view()[0].at_ms == at_ms,
            r.history_view()[0].reason@ == "initialized"@,
    {
        let mut history: VecDeque<Transition> = VecDeque::with_capacity(HISTORY_LIMIT);
        history.push_back(
            Transition { from: state, to: state, at_ms, reason: String::from_str("initialized") },
        );
        LifecycleTracker { state, history, last_error: None }
    }

    /// A tracker starting in `state` now.
    pub fn new(state: PluginState) -> (r: LifecycleTracker)
        ensures
            r.state_view() == state,
            r.error_view() is None,
            r.history_view().len() == 1,
            r.history_view()[0].from == state,
            r.history_view()[0].to == state,
            r.history_view()[0].reason@ == "initialized"@,
    {
        LifecycleTracker::new_at(state, now_ms())
    }

    pub fn state(&self) -> (r: PluginState)
        ensures
            r == self.state_view(),
    {
        self.state
    }

    pub fn last_error(&self) -> (r: Option<&str>)
        ensures
            self.error_view() is None ==> r is None,
            self.error_view() matches Some(e) ==> r matches Some(s) && s@ == e,
    {
        match &self.last_error {
            Some(e) => Some(e.as_str()),
            None => None,
        }
    }

    /// The recorded transitions, oldest first: never empty, at most
    /// `HISTORY_LIMIT` long, and ending in the current state.
    pub fn history(&self) -> (r: &VecDeque<Transition>)
        ensures
            r@ == self.history_view(),
            1 <= r@.len() <= HISTORY_LIMIT,
            r@.last().to == self.state_view(),
    {
        proof {
            use_type_invariant(self);
        }
        &self.history
    }

    /// Moves to `to` when the table allows it, recording the move at
    /// `at_ms`; otherwise refuses and changes nothing.
    pub fn transition_at(&mut self, to: PluginState, reason: &str, at_ms: u64) -> (r: PluginResult<
        PluginState,
    >)
        ensures
            r is Ok <==> transition_allowed(old(self).state_view(), to),
            r matches Ok(s) ==> s == to,
            r matches Err(e) ==> e@ == err_view(
                ErrorCode::InvalidArgument,
                illegal_transition_message(old(self).state_view(), to),
            ),
            r is Err ==> final(self).state_view() == old(self).state_view()
                && final(self).history_view() == old(self).history_view(),
            r is Ok ==> final(self).state_view() == to && final(self).history_view().len() >= 1
                && final(self).history_view().drop_last() == bounded_push(
                old(self).history_view(),
                final(self).history_view().last(),
            ).drop_last() && final(self).history_view().last().from == old(self).state_view()
                && final(self).history_view().last().to == to
                && final(self).history_view().last().at_ms == at_ms
                && final(self).history_view().last().reason@ == reason@,
            final(self).error_view() == old(self).error_view(),
    {
        proof {
            use_type_invariant(&*self);
        }
        let from = self.state;
        if !can_transition(from, to) {
            let mut message = concat3(
                "illegal plugin lifecycle transition: ",
                from.label(),
                " -> ",
            );
            message.append(to.label());
            return Err(PluginError::new(ErrorCode::InvalidArgument, message));
        }
        let record = Transition { from, to, at_ms, reason: String::from_str(reason) };
        let mut previous = LifecycleTracker::new_at(to, at_ms);
        std::mem::swap(self, &mut previous);
        let LifecycleTracker { state: _, history: mut history, last_error } = previous;
        let ghost before = history@;
        if history.len() >= HISTORY_LIMIT {
            history.pop_front();
        }
        history.push_back(record);
        proof {
            assert(history@ == bounded_push(before, record));
        }
        *self = LifecycleTracker { state: to, history, last_error };
        Ok(to)
    }

    /// Moves to `to` now; see `transition_at`.
    pub fn transition(&mut self, to: PluginState, reason: &str) -> (r: PluginResult<PluginState>)
        ensures
            r is Ok <==> transition_allowed(old(self).state_view(), to),
            r matches Ok(s) ==> s == to,
            r matches Err(e) ==> e@ == err_view(
                ErrorCode::InvalidArgument,
                illegal_transition_message(old(self).state_view(), to),
            ),
            r is Err ==> final(self).state_view() == old(self).state_view()
                && final(self).history_view() == old(self).history_view(),
            r is Ok ==> final(self).state_view() == to && final(self).history_view() == bounded_push(
                old(self).history_view(),
                final(self).history_view().last(),
            ) && final(self).history_view().last().from == old(self).state_view()
                && final(self).history_view().last().to == to
                && final(self).history_view().last().reason@ == reason@,
            final(self).error_view() == old(self).error_view(),
    {
        let ghost h0 = self.history_view();
        let r = self.transition_at(to, reason, now_ms());
        proof {
            if r is Ok {
                let h = self.history_view();
                let b = bounded_push(h0, h.last());
                assert(h.len() >= 1);
                assert(b.len() >= 1);
                assert(h.drop_last() == b.drop_last());
                assert(h.drop_last().len() == h.len() - 1);
                assert(b.drop_last().len() == b.len() - 1);
                assert(h.len() == b.len());
                assert(h =~= b) by {
                    assert forall|i: int| 0 <= i < h.len() implies h[i] == b[i] by {
                        if i < h.len() - 1 {
                            assert(h[i] == h.drop_last()[i]);
                            assert(b[i] == b.drop_last()[i]);
                        }
                    }
                }
            }
        }
        r
    }

    /// Records `error` as the last error and moves to `Failed` at `at_ms`
    /// when the table allows it.
    pub fn mark_failed_at(&mut self, error: &PluginError, at_ms: u64)
        ensures
            final(self).error_view() == Some(error_text(error@)),
            final(self).state_view() == (if transition_allowed(
                old(self).state_view(),
                PluginState::Failed,
            ) {
                PluginState::Failed
            } else {
                old(self).state_view()
            }),
            !transition_allowed(old(self).state_view(), PluginState::Failed)
                ==> final(self).history_view() == old(self).history_view(),
    {
        proof {
            use_type_invariant(&*self);
        }
        self.last_error = Some(error.to_string());
        let _ = self.transition_at(PluginState::Failed, "failed", at_ms);
    }

    /// Records `error` and moves to `Failed` now; see `mark_failed_at`.
    pub fn mark_failed(&mut self, error: &PluginError)
        ensures
            final(self).error_view() == Some(error_text(error@)),
            final(self).state_view() == (if transition_allowed(
                old(self).state_view(),
                PluginState::Failed,
            ) {
                PluginState::Failed
            } else {
                old(self).state_view()
            }),
            !transition_allowed(old(self).state_view(), PluginState::Failed)
                ==> final(self).history_view() == old(self).history_view(),
    {
        self.mark_failed_at(error, now_ms())
    }

    pub fn clear_error(&mut self)
        ensures
            final(self).error_view() is None,
            final(self).state_view() == old(self).state_view(),
            final(self).history_view() == old(self).history_view(),
    {
        proof {
            use_type_invariant(&*self);
        }
        self.last_error = None;
    }

    pub fn record_error(&mut self, message: &str)
        ensures
            final(self).error_view() == Some(message@),
            final(self).state_view() == old(self).state_view(),
            final(self).history_view() == old(self).history_view(),
    {
        proof {
            use_type_invariant(&*self);
        }
        self.last_error = Some(String::from_str(message));
    }
}

/// A lifecycle move of one plugin, as published to listeners.
#[derive(Debug, Clone)]
pub struct LifecycleEvent {
    pub plugin: PluginId,
    pub from: PluginState,
    pub to: PluginState,
    pub reason: String,
    pub at_ms: u64,
}

} // verus!
