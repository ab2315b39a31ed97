//! The ids of the services the host provides.
use vstd::prelude::*;
use vstd::string::*;

use crate::ids::{lemma_one_dot_valid, ServiceId};

verus! {

/// The id `player.control`.
pub fn player() -> (r: ServiceId)
    ensures
        r@ == "player.control"@,
{
    proof {
        reveal_strlit("player.control");
        lemma_one_dot_valid("player.control"@, 6, "service id"@);
    }
    ServiceId::new("player.control").expect("static service id is valid")
}

/// The id `player.state`.
pub fn player_state() -> (r: ServiceId)
    ensures
        r@ == "player.state"@,
{
    proof {
        reveal_strlit("player.state");
        lemma_one_dot_valid("player.state"@, 6, "service id"@);
    }
    ServiceId::new("player.state").expect("static service id is valid")
}

/// The id `queue.control`.
pub fn queue() -> (r: ServiceId)
    ensures
        r@ == "queue.control"@,
{
    proof {
        reveal_strlit("queue.control");
        lemma_one_dot_valid("queue.control"@, 5, "service id"@);
    }
    ServiceId::new("queue.control").expect("static service id is valid")
}

/// The id `library.read`.
pub fn library() -> (r: ServiceId)
    ensures
        r@ == "library.read"@,
{
    proof {
        reveal_strlit("library.read");
        lemma_one_dot_valid("library.read"@, 7, "service id"@);
    }
    ServiceId::new("library.read").expect("static service id is valid")
}

/// The id `settings.app`.
pub fn settings() -> (r: ServiceId)
    ensures
        r@ == "settings.app"@,
{
    proof {
        reveal_strlit("settings.app");
        lemma_one_dot_valid("settings.app"@, 8, "service id"@);
    }
    ServiceId::new("settings.app").expect("static service id is valid")
}

/// The id `audio.equalizer`.
pub fn equalizer() -> (r: ServiceId)
    ensures
        r@ == "audio.equalizer"@,
{
    proof {
        reveal_strlit("audio.equalizer");
        lemma_one_dot_valid("audio.equalizer"@, 5, "service id"@);
    }
    ServiceId::new("audio.equalizer").expect("static service id is valid")
}

/// The id `audio.graph`.
pub fn audio_graph() -> (r: ServiceId)
    ensures
        r@ == "audio.graph"@,
{
    proof {
        reveal_strlit("audio.graph");
        lemma_one_dot_valid("audio.graph"@, 5, "service id"@);
    }
    ServiceId::new("audio.graph").expect("static service id is valid")
}

/// The id `metadata.reader`.
pub fn metadata() -> (r: ServiceId)
    ensures
        r@ == "metadata.reader"@,
{
    proof {
        reveal_strlit("metadata.reader");
        lemma_one_dot_valid("metadata.reader"@, 8, "service id"@);
    }
    ServiceId::new("metadata.reader").expect("static service id is valid")
}

/// The id `recent.read`.
pub fn recent_read() -> (r: ServiceId)
    ensures
        r@ == "recent.read"@,
{
    proof {
        reveal_strlit("recent.read");
        lemma_one_dot_valid("recent.read"@, 6, "service id"@);
    }
    ServiceId::new("recent.read").expect("static service id is valid")
}

/// The id `recent.write`.
pub fn recent_write() -> (r: ServiceId)
    ensures
        r@ == "recent.write"@,
{
    proof {
        reveal_strlit("recent.write");
        lemma_one_dot_valid("recent.write"@, 6, "service id"@);
    }
    ServiceId::new("recent.write").expect("static service id is valid")
}

/// The id `storage.plugin`.
pub fn storage() -> (r: ServiceId)
    ensures
        r@ == "storage.plugin"@,
{
    proof {
        reveal_strlit("storage.plugin");
        lemma_one_dot_valid("storage.plugin"@, 7, "service id"@);
    }
    ServiceId::new("storage.plugin").expect("static service id is valid")
}

/// The id `settings.plugin`.
pub fn plugin_settings() -> (r: ServiceId)
    ensures
        r@ == "settings.plugin"@,
{
    proof {
        reveal_strlit("settings.plugin");
        lemma_one_dot_valid("settings.plugin"@, 8, "service id"@);
    }
    ServiceId::new("settings.plugin").expect("static service id is valid")
}

/// The id `host.events`.
pub fn events() -> (r: ServiceId)
    ensures
        r@ == "host.events"@,
{
    proof {
        reveal_strlit("host.events");
        lemma_one_dot_valid("host.events"@, 4, "service id"@);
    }
    ServiceId::new("host.events").expect("static service id is valid")
}

} // verus!
