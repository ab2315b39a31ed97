//! The event kinds the host publishes.
use vstd::prelude::*;
use vstd::string::*;

use crate::ids::{lemma_one_dot_valid, EventType};

verus! {

/// The id `track.changed`.
pub fn track_changed() -> (r: EventType)
    ensures
        r@ == "track.changed"@,
{
    proof {
        reveal_strlit("track.changed");
        lemma_one_dot_valid("track.changed"@, 5, "event type"@);
    }
    EventType::new("track.changed").expect("static event type is valid")
}

/// The id `playback.state`.
pub fn playback_state() -> (r: EventType)
    ensures
        r@ == "playback.state"@,
{
    proof {
        reveal_strlit("playback.state");
        lemma_one_dot_valid("playback.state"@, 8, "event type"@);
    }
    EventType::new("playback.state").expect("static event type is valid")
}

/// The id `queue.changed`.
pub fn queue_changed() -> (r: EventType)
    ensures
        r@ == "queue.changed"@,
{
    proof {
        reveal_strlit("queue.changed");
        lemma_one_dot_valid("queue.changed"@, 5, "event type"@);
    }
    EventType::new("queue.changed").expect("static event type is valid")
}

/// The id `settings.changed`.
pub fn settings_changed() -> (r: EventType)
    ensures
        r@ == "settings.changed"@,
{
    proof {
        reveal_strlit("settings.changed");
        lemma_one_dot_valid("settings.changed"@, 8, "event type"@);
    }
    EventType::new("settings.changed").expect("static event type is valid")
}

/// The id `library.changed`.
pub fn library_changed() -> (r: EventType)
    ensures
        r@ == "library.changed"@,
{
    proof {
        reveal_strlit("library.changed");
        lemma_one_dot_valid("library.changed"@, 7, "event type"@);
    }
    EventType::new("library.changed").expect("static event type is valid")
}

/// The id `plugin.lifecycle`.
pub fn plugin_lifecycle() -> (r: EventType)
    ensures
        r@ == "plugin.lifecycle"@,
{
    proof {
        reveal_strlit("plugin.lifecycle");
        lemma_one_dot_valid("plugin.lifecycle"@, 6, "event type"@);
    }
    EventType::new("plugin.lifecycle").expect("static event type is valid")
}

/// The id `audio.format`.
pub fn audio_format() -> (r: EventType)
    ensures
        r@ == "audio.format"@,
{
    proof {
        reveal_strlit("audio.format");
        lemma_one_dot_valid("audio.format"@, 5, "event type"@);
    }
    EventType::new("audio.format").expect("static event type is valid")
}

} // verus!
