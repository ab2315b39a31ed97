use vstd::prelude::*;

pub mod abi;
pub mod app_error;
pub mod assoc;
pub mod capabilities;
pub mod clock;
pub mod command;
pub mod container;
pub mod contributions;
pub mod deps;
pub mod discovery;
pub mod error;
pub mod event;
pub mod ids;
pub mod json;
pub mod kernel;
pub mod lifecycle;
pub mod loader;
pub mod lyrics;
pub mod manifest;
pub mod order;
pub mod panel;
pub mod plugins;
pub mod plugin;
pub mod runtime;
pub mod service;
pub mod services;
pub mod supervisor;
pub mod text;
pub mod track;

verus! {

/// Version of the binary interface that dynamically loaded plugins must match.
pub const ABI_VERSION: u32 = 2;

} // verus!
