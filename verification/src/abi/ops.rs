//! The names of the operations a plugin's `invoke` entry point answers.
use vstd::prelude::*;

verus! {

pub const DESCRIPTOR: &'static str = "descriptor";

pub const ACTIVATE: &'static str = "activate";

pub const DEACTIVATE: &'static str = "deactivate";

pub const EVENT: &'static str = "event";

pub const COMMAND: &'static str = "command";

pub const HEALTH: &'static str = "health";

pub const RELEASE_SERVICE: &'static str = "releaseService";

} // verus!
