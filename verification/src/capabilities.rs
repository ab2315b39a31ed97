//! The capabilities the host knows.
use vstd::prelude::*;
use vstd::string::*;

use crate::ids::{lemma_one_dot_valid, Capability};

verus! {

/// The id `player.read`.
pub fn player_read() -> (r: Capability)
    ensures
        r@ == "player.read"@,
{
    proof {
        reveal_strlit("player.read");
        lemma_one_dot_valid("player.read"@, 6, "capability"@);
    }
    Capability::new("player.read").expect("static capability is valid")
}

/// The id `player.control`.
pub fn player_control() -> (r: Capability)
    ensures
        r@ == "player.control"@,
{
    proof {
        reveal_strlit("player.control");
        lemma_one_dot_valid("player.control"@, 6, "capability"@);
    }
    Capability::new("player.control").expect("static capability is valid")
}

/// The id `queue.read`.
pub fn queue_read() -> (r: Capability)
    ensures
        r@ == "queue.read"@,
{
    proof {
        reveal_strlit("queue.read");
        lemma_one_dot_valid("queue.read"@, 5, "capability"@);
    }
    Capability::new("queue.read").expect("static capability is valid")
}

/// The id `queue.write`.
pub fn queue_write() -> (r: Capability)
    ensures
        r@ == "queue.write"@,
{
    proof {
        reveal_strlit("queue.write");
        lemma_one_dot_valid("queue.write"@, 5, "capability"@);
    }
    Capability::new("queue.write").expect("static capability is valid")
}

/// The id `library.read`.
pub fn library_read() -> (r: Capability)
    ensures
        r@ == "library.read"@,
{
    proof {
        reveal_strlit("library.read");
        lemma_one_dot_valid("library.read"@, 7, "capability"@);
    }
    Capability::new("library.read").expect("static capability is valid")
}

/// The id `library.write`.
pub fn library_write() -> (r: Capability)
    ensures
        r@ == "library.write"@,
{
    proof {
        reveal_strlit("library.write");
        lemma_one_dot_valid("library.write"@, 7, "capability"@);
    }
    Capability::new("library.write").expect("static capability is valid")
}

/// The id `settings.read`.
pub fn settings_read() -> (r: Capability)
    ensures
        r@ == "settings.read"@,
{
    proof {
        reveal_strlit("settings.read");
        lemma_one_dot_valid("settings.read"@, 8, "capability"@);
    }
    Capability::new("settings.read").expect("static capability is valid")
}

/// The id `settings.write`.
pub fn settings_write() -> (r: Capability)
    ensures
        r@ == "settings.write"@,
{
    proof {
        reveal_strlit("settings.write");
        lemma_one_dot_valid("settings.write"@, 8, "capability"@);
    }
    Capability::new("settings.write").expect("static capability is valid")
}

/// The id `audio.process`.
pub fn audio_process() -> (r: Capability)
    ensures
        r@ == "audio.process"@,
{
    proof {
        reveal_strlit("audio.process");
        lemma_one_dot_valid("audio.process"@, 5, "capability"@);
    }
    Capability::new("audio.process").expect("static capability is valid")
}

/// The id `plugin.ui`.
pub fn plugin_ui() -> (r: Capability)
    ensures
        r@ == "plugin.ui"@,
{
    proof {
        reveal_strlit("plugin.ui");
        lemma_one_dot_valid("plugin.ui"@, 6, "capability"@);
    }
    Capability::new("plugin.ui").expect("static capability is valid")
}

/// The id `storage.private`.
pub fn storage_private() -> (r: Capability)
    ensures
        r@ == "storage.private"@,
{
    proof {
        reveal_strlit("storage.private");
        lemma_one_dot_valid("storage.private"@, 7, "capability"@);
    }
    Capability::new("storage.private").expect("static capability is valid")
}

/// The id `fs.userGranted`.
pub fn fs_user_granted() -> (r: Capability)
    ensures
        r@ == "fs.userGranted"@,
{
    proof {
        reveal_strlit("fs.userGranted");
        lemma_one_dot_valid("fs.userGranted"@, 2, "capability"@);
    }
    Capability::new("fs.userGranted").expect("static capability is valid")
}

/// The id `net.fetch`.
pub fn network() -> (r: Capability)
    ensures
        r@ == "net.fetch"@,
{
    proof {
        reveal_strlit("net.fetch");
        lemma_one_dot_valid("net.fetch"@, 3, "capability"@);
    }
    Capability::new("net.fetch").expect("static capability is valid")
}

/// The id `recent.read`.
pub fn recent_read() -> (r: Capability)
    ensures
        r@ == "recent.read"@,
{
    proof {
        reveal_strlit("recent.read");
        lemma_one_dot_valid("recent.read"@, 6, "capability"@);
    }
    Capability::new("recent.read").expect("static capability is valid")
}

/// The id `recent.write`.
pub fn recent_write() -> (r: Capability)
    ensures
        r@ == "recent.write"@,
{
    proof {
        reveal_strlit("recent.write");
        lemma_one_dot_valid("recent.write"@, 6, "capability"@);
    }
    Capability::new("recent.write").expect("static capability is valid")
}

} // verus!
